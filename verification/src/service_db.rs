//! The service databases: six single-assignment slots that are filled once
//! and read thereafter.

use crate::endpoint::{Port, TransportProtocol};
use crate::names::{bundled_tcp, bundled_udp};
use crate::text::is_text;
use vstd::prelude::*;
use vstd::string::{StrSliceExecFns, StringExecFns};

verus! {

/// The identifier of a service probe, with the transport it runs over.
#[derive(Debug)]
pub struct ServiceProbe {
    pub id: String,
    pub transport: TransportProtocol,
}

pub struct ServiceProbeView {
    pub id: Seq<char>,
    pub transport: TransportProtocol,
}

impl View for ServiceProbe {
    type V = ServiceProbeView;

    open spec fn view(&self) -> ServiceProbeView {
        ServiceProbeView { id: self.id@, transport: self.transport }
    }
}

/// Where the transport name of an identifier ends: at its first colon, or at
/// its end where it has none.
pub open spec fn transport_end(id: Seq<char>) -> int
    decreases id.len(),
{
    if id.len() == 0 || id[0] == ':' {
        0
    } else {
        1 + transport_end(id.drop_first())
    }
}

/// The transport that a name stands for.
pub open spec fn transport_named(name: Seq<char>) -> Option<TransportProtocol> {
    if name == "tcp"@ {
        Some(TransportProtocol::Tcp)
    } else if name == "udp"@ {
        Some(TransportProtocol::Udp)
    } else if name == "quic"@ {
        Some(TransportProtocol::Quic)
    } else {
        None
    }
}

proof fn lemma_transport_end(id: Seq<char>, at: int)
    requires
        0 <= at <= id.len(),
        forall|k: int| 0 <= k < at ==> id[k] != ':',
        at == id.len() || id[at] == ':',
    ensures
        transport_end(id) == at,
    decreases at,
{
    if at > 0 {
        let rest = id.drop_first();
        assert forall|k: int| 0 <= k < at - 1 implies rest[k] != ':' by {
            assert(rest[k] == id[k + 1]);
        }
        lemma_transport_end(rest, at - 1);
    }
}

impl ServiceProbe {
    /// The probe that an identifier such as `tcp:http` names: the identifier
    /// begins with the name of its transport, `tcp`, `udp` or `quic`, which
    /// ends at the first colon. There is no probe for any other identifier.
    pub fn from_str(id: &str) -> (probe: Option<ServiceProbe>)
        ensures
            match probe {
                Some(found) => found.id@ == id@ && transport_named(id@.take(transport_end(id@)))
                    == Some(found.transport),
                None => transport_named(id@.take(transport_end(id@))) is None,
            },
    {
        let n = id.unicode_len();
        let mut at: usize = 0;
        while at < n && id.get_char(at) != ':'
            invariant
                n == id@.len(),
                at <= n,
                forall|k: int| 0 <= k < at ==> id@[k] != ':',
            decreases n - at,
        {
            at += 1;
        }
        proof {
            lemma_transport_end(id@, at as int);
        }
        let name = id.substring_char(0, at);
        assert(name@ == id@.take(at as int));
        let transport = if is_text(name, "tcp") {
            TransportProtocol::Tcp
        } else if is_text(name, "udp") {
            TransportProtocol::Udp
        } else if is_text(name, "quic") {
            TransportProtocol::Quic
        } else {
            return None;
        };
        Some(ServiceProbe { id: String::from_str(id), transport })
    }

    /// The transport that the probe runs over.
    pub fn transport(&self) -> (transport: TransportProtocol)
        ensures
            transport == self.transport,
    {
        self.transport
    }
}

impl Clone for ServiceProbe {
    fn clone(&self) -> (copy: Self)
        ensures
            copy == *self,
    {
        ServiceProbe { id: self.id.clone(), transport: self.transport }
    }
}

/// The probes that are listed for a port number, as loaded.
#[derive(Debug)]
pub struct PortProbes {
    pub port: u16,
    pub probes: Vec<ServiceProbe>,
}

/// The probes of each port, in the order in which they were listed: every
/// probe is filed under its port number and its own transport.
pub struct PortProbeDb {
    pairs: Vec<(Port, ServiceProbe)>,
}

/// The `(port, probe)` pairs of what was loaded, in order.
pub open spec fn port_probe_pairs(loaded: Seq<PortProbes>) -> Seq<(Port, ServiceProbeView)>
    decreases loaded.len(),
{
    if loaded.len() == 0 {
        Seq::empty()
    } else {
        port_probe_pairs(loaded.drop_last()) + Seq::new(
            loaded.last().probes@.len(),
            |k: int|
                (
                    Port {
                        number: loaded.last().port,
                        transport: loaded.last().probes@[k].transport,
                    },
                    loaded.last().probes@[k]@,
                ),
        )
    }
}

/// The probes filed under `port` among the pairs, in order.
pub open spec fn probes_under(pairs: Seq<(Port, ServiceProbeView)>, port: Port) -> Seq<
    ServiceProbeView,
>
    decreases pairs.len(),
{
    if pairs.len() == 0 {
        Seq::empty()
    } else if pairs.last().0 == port {
        probes_under(pairs.drop_last(), port).push(pairs.last().1)
    } else {
        probes_under(pairs.drop_last(), port)
    }
}

impl View for PortProbeDb {
    type V = Seq<(Port, ServiceProbeView)>;

    closed spec fn view(&self) -> Seq<(Port, ServiceProbeView)> {
        self.pairs@.map_values(|pair: (Port, ServiceProbe)| (pair.0, pair.1@))
    }
}

impl PortProbeDb {
    /// Files every loaded probe under its port number and its transport.
    pub fn build(loaded: &Vec<PortProbes>) -> (db: PortProbeDb)
        ensures
            db@ == port_probe_pairs(loaded@),
    {
        let mut db = PortProbeDb { pairs: Vec::new() };
        assert(db@ =~= Seq::empty());
        let mut i: usize = 0;
        while i < loaded.len()
            invariant
                i <= loaded.len(),
                db@ == port_probe_pairs(loaded@.take(i as int)),
            decreases loaded.len() - i,
        {
            let entry = &loaded[i];
            let ghost before = db@;
            let ghost block = Seq::new(
                entry.probes@.len(),
                |k: int|
                    (
                        Port { number: entry.port, transport: entry.probes@[k].transport },
                        entry.probes@[k]@,
                    ),
            );
            let mut k: usize = 0;
            while k < entry.probes.len()
                invariant
                    k <= entry.probes.len(),
                    block == Seq::new(
                        entry.probes@.len(),
                        |k: int|
                            (
                                Port { number: entry.port, transport: entry.probes@[k].transport },
                                entry.probes@[k]@,
                            ),
                    ),
                    db@ == before + block.take(k as int),
                decreases entry.probes.len() - k,
            {
                let ghost so_far = db@;
                let probe = entry.probes[k].clone();
                db.pairs.push((Port::new(entry.port, probe.transport), probe));
                proof {
                    assert(db@ =~= so_far.push(block[k as int]));
                    assert(block.take(k + 1) =~= block.take(k as int).push(block[k as int]));
                    assert(before + block.take(k + 1) =~= (before + block.take(k as int)).push(
                        block[k as int],
                    ));
                }
                k += 1;
            }
            proof {
                assert(block.take(entry.probes.len() as int) == block);
                let upto = loaded@.take(i + 1);
                assert(upto.drop_last() == loaded@.take(i as int));
                assert(upto.last() == loaded@[i as int]);
            }
            i += 1;
        }
        assert(loaded@.take(loaded.len() as int) == loaded@);
        db
    }

    /// The probes filed under `port`, in the order in which they were listed.
    pub fn probes_for(&self, port: Port) -> (probes: Vec<&ServiceProbe>)
        ensures
            probes@.map_values(|probe: &ServiceProbe| probe@) == probes_under(self@, port),
    {
        let mut probes: Vec<&ServiceProbe> = Vec::new();
        let mut i: usize = 0;
        assert(probes@.map_values(|probe: &ServiceProbe| probe@) =~= Seq::empty());
        while i < self.pairs.len()
            invariant
                i <= self.pairs.len(),
                probes@.map_values(|probe: &ServiceProbe| probe@) == probes_under(
                    self@.take(i as int),
                    port,
                ),
            decreases self.pairs.len() - i,
        {
            let ghost before = probes@.map_values(|probe: &ServiceProbe| probe@);
            proof {
                assert(self@.take(i + 1).drop_last() == self@.take(i as int));
                assert(self@.take(i + 1).last() == (self.pairs@[i as int].0, self.pairs@[i as int].1@));
            }
            if self.pairs[i].0 == port {
                probes.push(&self.pairs[i].1);
                assert(probes@.map_values(|probe: &ServiceProbe| probe@) =~= before.push(
                    self.pairs@[i as int].1@,
                ));
            }
            i += 1;
        }
        assert(self@.take(self.pairs.len() as int) == self@);
        probes
    }
}

/// The payload of each service probe. Where a probe was loaded more than
/// once, its last payload counts.
pub struct ServiceProbeDb<P> {
    entries: Vec<(ServiceProbe, P)>,
}

/// The payload that the entries hold for `probe`: that of the last entry for
/// the probe, if there is one.
pub open spec fn payload_of<P>(entries: Seq<(ServiceProbeView, P)>, probe: ServiceProbeView) -> Option<
    P,
>
    decreases entries.len(),
{
    if entries.len() == 0 {
        None
    } else if entries.last().0 == probe {
        Some(entries.last().1)
    } else {
        payload_of(entries.drop_last(), probe)
    }
}

impl<P> View for ServiceProbeDb<P> {
    type V = Seq<(ServiceProbeView, P)>;

    closed spec fn view(&self) -> Seq<(ServiceProbeView, P)> {
        self.entries@.map_values(|entry: (ServiceProbe, P)| (entry.0@, entry.1))
    }
}

impl<P> ServiceProbeDb<P> {
    /// The database of the loaded payloads.
    pub fn build(loaded: Vec<(ServiceProbe, P)>) -> (db: ServiceProbeDb<P>)
        ensures
            db@ == loaded@.map_values(|entry: (ServiceProbe, P)| (entry.0@, entry.1)),
    {
        ServiceProbeDb { entries: loaded }
    }

    /// The payload of `probe`, if the database has one.
    pub fn get(&self, probe: &ServiceProbe) -> (payload: Option<&P>)
        ensures
            match payload {
                Some(found) => payload_of(self@, probe@) == Some(*found),
                None => payload_of(self@, probe@) is None,
            },
    {
        let mut at: usize = self.entries.len();
        assert(self@.take(at as int) == self@);
        while at > 0
            invariant
                at <= self.entries.len(),
                payload_of(self@, probe@) == payload_of(self@.take(at as int), probe@),
            decreases at,
        {
            proof {
                assert(self@.take(at as int).drop_last() == self@.take(at - 1));
                assert(self@.take(at as int).last() == (
                    self.entries@[at - 1].0@,
                    self.entries@[at - 1].1,
                ));
            }
            at -= 1;
            let entry = &self.entries[at];
            if entry.0.id == probe.id && entry.0.transport == probe.transport {
                return Some(&entry.1);
            }
        }
        None
    }
}

/// The six databases.
#[derive(Debug, Clone, Copy, PartialEq, Eq, Structural)]
pub enum DbSlot {
    TcpService,
    UdpService,
    TlsOidMap,
    PortProbe,
    ServiceProbe,
    ResponseSignatures,
}

/// Why a database could not be installed.
#[derive(Debug, Clone, Copy, PartialEq, Eq, Structural)]
pub enum DbError {
    /// The slot holds a database already: a slot is set once.
    AlreadySet(DbSlot),
}

/// What an installation error says.
pub open spec fn error_text(error: DbError) -> Seq<char> {
    match error {
        DbError::AlreadySet(DbSlot::TcpService) => "Failed to set TCP_SERVICE_DB in OnceLock"@,
        DbError::AlreadySet(DbSlot::UdpService) => "Failed to set UDP_SERVICE_DB in OnceLock"@,
        DbError::AlreadySet(DbSlot::TlsOidMap) => "Failed to set TLS_OID_MAP in OnceLock"@,
        DbError::AlreadySet(DbSlot::PortProbe) => "Failed to set PORT_PROBE_DB in OnceLock"@,
        DbError::AlreadySet(DbSlot::ServiceProbe) => "Failed to set SERVICE_PROBE_DB in OnceLock"@,
        DbError::AlreadySet(DbSlot::ResponseSignatures) =>
            "Failed to set RESPONSE_SIGNATURES_DB in OnceLock"@,
    }
}

impl DbError {
    /// The error in words.
    pub fn message(&self) -> (text: String)
        ensures
            text@ == error_text(*self),
    {
        match self {
            DbError::AlreadySet(DbSlot::TcpService) => String::from_str(
                "Failed to set TCP_SERVICE_DB in OnceLock",
            ),
            DbError::AlreadySet(DbSlot::UdpService) => String::from_str(
                "Failed to set UDP_SERVICE_DB in OnceLock",
            ),
            DbError::AlreadySet(DbSlot::TlsOidMap) => String::from_str(
                "Failed to set TLS_OID_MAP in OnceLock",
            ),
            DbError::AlreadySet(DbSlot::PortProbe) => String::from_str(
                "Failed to set PORT_PROBE_DB in OnceLock",
            ),
            DbError::AlreadySet(DbSlot::ServiceProbe) => String::from_str(
                "Failed to set SERVICE_PROBE_DB in OnceLock",
            ),
            DbError::AlreadySet(DbSlot::ResponseSignatures) => String::from_str(
                "Failed to set RESPONSE_SIGNATURES_DB in OnceLock",
            ),
        }
    }
}

/// The service databases of a process: the well-known TCP and UDP services,
/// the names of TLS object identifiers, the probes of each port, the payload
/// of each probe, and the response signatures. `P` is the payload of a probe
/// and `S` a response signature; the databases store them and hand them out.
pub struct ProbeDatabases<P, S> {
    tcp_service: Option<ndb_tcp_service::TcpServiceDb>,
    udp_service: Option<ndb_udp_service::UdpServiceDb>,
    tls_oid_map: Option<Vec<(String, String)>>,
    port_probe: Option<PortProbeDb>,
    service_probe: Option<ServiceProbeDb<P>>,
    response_signatures: Option<Vec<S>>,
}

/// What each slot holds.
pub struct ProbeDatabasesView<P, S> {
    pub tcp_service: Option<ndb_tcp_service::TcpServiceDb>,
    pub udp_service: Option<ndb_udp_service::UdpServiceDb>,
    pub tls_oid_map: Option<Vec<(String, String)>>,
    pub port_probe: Option<PortProbeDb>,
    pub service_probe: Option<ServiceProbeDb<P>>,
    pub response_signatures: Option<Vec<S>>,
}

impl<P, S> ProbeDatabasesView<P, S> {
    /// Whether the slot holds a database.
    pub open spec fn is_set(self, slot: DbSlot) -> bool {
        match slot {
            DbSlot::TcpService => self.tcp_service is Some,
            DbSlot::UdpService => self.udp_service is Some,
            DbSlot::TlsOidMap => self.tls_oid_map is Some,
            DbSlot::PortProbe => self.port_probe is Some,
            DbSlot::ServiceProbe => self.service_probe is Some,
            DbSlot::ResponseSignatures => self.response_signatures is Some,
        }
    }

    /// Every slot holds a database.
    pub open spec fn complete(self) -> bool {
        forall|slot: DbSlot| self.is_set(slot)
    }
}

impl<P, S> View for ProbeDatabases<P, S> {
    type V = ProbeDatabasesView<P, S>;

    closed spec fn view(&self) -> ProbeDatabasesView<P, S> {
        ProbeDatabasesView {
            tcp_service: self.tcp_service,
            udp_service: self.udp_service,
            tls_oid_map: self.tls_oid_map,
            port_probe: self.port_probe,
            service_probe: self.service_probe,
            response_signatures: self.response_signatures,
        }
    }
}

/// What was loaded from the bundled resources for the databases that are
/// made from data, or why loading failed.
pub struct ProbeResources<P, S> {
    pub tls_oid_map: Result<Vec<(String, String)>, String>,
    pub port_probes: Result<Vec<PortProbes>, String>,
    pub service_probes: Result<Vec<(ServiceProbe, P)>, String>,
    pub response_signatures: Result<Vec<S>, String>,
}

impl<P, S> ProbeDatabases<P, S> {
    /// Six empty slots.
    pub fn new() -> (dbs: ProbeDatabases<P, S>)
        ensures
            forall|slot: DbSlot| !dbs@.is_set(slot),
    {
        ProbeDatabases {
            tcp_service: None,
            udp_service: None,
            tls_oid_map: None,
            port_probe: None,
            service_probe: None,
            response_signatures: None,
        }
    }

    /// Whether the slot holds a database.
    pub fn is_set(&self, slot: DbSlot) -> (set: bool)
        ensures
            set == self@.is_set(slot),
    {
        match slot {
            DbSlot::TcpService => self.tcp_service.is_some(),
            DbSlot::UdpService => self.udp_service.is_some(),
            DbSlot::TlsOidMap => self.tls_oid_map.is_some(),
            DbSlot::PortProbe => self.port_probe.is_some(),
            DbSlot::ServiceProbe => self.service_probe.is_some(),
            DbSlot::ResponseSignatures => self.response_signatures.is_some(),
        }
    }

    /// The name of a TLS object identifier, if the installed map has it.
    pub fn tls_oid_map(&self) -> (map: &Vec<(String, String)>)
        requires
            self@.tls_oid_map is Some,
        ensures
            Some(*map) == self@.tls_oid_map,
    {
        self.tls_oid_map.as_ref().unwrap()
    }
}

/// The installed TCP service database.
pub fn tcp_service_db<P, S>(dbs: &ProbeDatabases<P, S>) -> (db: &ndb_tcp_service::TcpServiceDb)
    requires
        dbs@.tcp_service is Some,
    ensures
        Some(*db) == dbs@.tcp_service,
{
    dbs.tcp_service.as_ref().unwrap()
}

/// The installed UDP service database.
pub fn udp_service_db<P, S>(dbs: &ProbeDatabases<P, S>) -> (db: &ndb_udp_service::UdpServiceDb)
    requires
        dbs@.udp_service is Some,
    ensures
        Some(*db) == dbs@.udp_service,
{
    dbs.udp_service.as_ref().unwrap()
}

/// The installed port probe database.
pub fn port_probe_db<P, S>(dbs: &ProbeDatabases<P, S>) -> (db: &PortProbeDb)
    requires
        dbs@.port_probe is Some,
    ensures
        Some(*db) == dbs@.port_probe,
{
    dbs.port_probe.as_ref().unwrap()
}

/// The installed service probe database.
pub fn service_probe_db<P, S>(dbs: &ProbeDatabases<P, S>) -> (db: &ServiceProbeDb<P>)
    requires
        dbs@.service_probe is Some,
    ensures
        Some(*db) == dbs@.service_probe,
{
    dbs.service_probe.as_ref().unwrap()
}

/// The installed response signatures.
pub fn response_signatures_db<P, S>(dbs: &ProbeDatabases<P, S>) -> (db: &Vec<S>)
    requires
        dbs@.response_signatures is Some,
    ensures
        Some(*db) == dbs@.response_signatures,
{
    dbs.response_signatures.as_ref().unwrap()
}

/// Installs the bundled TCP service database. Fails, and changes nothing, if
/// the slot is set.
pub fn init_tcp_service_db<P, S>(dbs: &mut ProbeDatabases<P, S>) -> (done: Result<(), DbError>)
    ensures
        match done {
            Ok(_) => old(dbs)@.tcp_service is None && final(dbs)@.tcp_service is Some && final(dbs)@ == (ProbeDatabasesView { tcp_service: final(dbs)@.tcp_service, ..old(dbs)@ }),
            Err(error) => old(dbs)@.tcp_service is Some && error == DbError::AlreadySet(
                DbSlot::TcpService,
            ) && final(dbs)@ == old(dbs)@,
        },
{
    if dbs.tcp_service.is_some() {
        return Err(DbError::AlreadySet(DbSlot::TcpService));
    }
    dbs.tcp_service = Some(bundled_tcp());
    Ok(())
}

/// Installs the bundled UDP service database. Fails, and changes nothing, if
/// the slot is set.
pub fn init_udp_service_db<P, S>(dbs: &mut ProbeDatabases<P, S>) -> (done: Result<(), DbError>)
    ensures
        match done {
            Ok(_) => old(dbs)@.udp_service is None && final(dbs)@.udp_service is Some && final(dbs)@ == (ProbeDatabasesView { udp_service: final(dbs)@.udp_service, ..old(dbs)@ }),
            Err(error) => old(dbs)@.udp_service is Some && error == DbError::AlreadySet(
                DbSlot::UdpService,
            ) && final(dbs)@ == old(dbs)@,
        },
{
    if dbs.udp_service.is_some() {
        return Err(DbError::AlreadySet(DbSlot::UdpService));
    }
    dbs.udp_service = Some(bundled_udp());
    Ok(())
}

/// Installs the names of the TLS object identifiers. Fails, and changes
/// nothing, if the slot is set.
pub fn init_tls_oid_map<P, S>(dbs: &mut ProbeDatabases<P, S>, loaded: Vec<(String, String)>) -> (done:
    Result<(), DbError>)
    ensures
        match done {
            Ok(_) => old(dbs)@.tls_oid_map is None && final(dbs)@ == (ProbeDatabasesView {
                tls_oid_map: Some(loaded),
                ..old(dbs)@
            }),
            Err(error) => old(dbs)@.tls_oid_map is Some && error == DbError::AlreadySet(
                DbSlot::TlsOidMap,
            ) && final(dbs)@ == old(dbs)@,
        },
{
    if dbs.tls_oid_map.is_some() {
        return Err(DbError::AlreadySet(DbSlot::TlsOidMap));
    }
    dbs.tls_oid_map = Some(loaded);
    Ok(())
}

/// Installs the port probe database made from the loaded lists: every probe
/// filed under its port number and its transport. Fails, and changes
/// nothing, if the slot is set.
pub fn init_port_probe_db<P, S>(dbs: &mut ProbeDatabases<P, S>, loaded: &Vec<PortProbes>) -> (done:
    Result<(), DbError>)
    ensures
        match done {
            Ok(_) => {
                &&& old(dbs)@.port_probe is None
                &&& final(dbs)@.port_probe matches Some(db) && db@ == port_probe_pairs(loaded@)
                &&& final(dbs)@ == (ProbeDatabasesView {
                    port_probe: final(dbs)@.port_probe,
                    ..old(dbs)@
                })
            },
            Err(error) => old(dbs)@.port_probe is Some && error == DbError::AlreadySet(
                DbSlot::PortProbe,
            ) && final(dbs)@ == old(dbs)@,
        },
{
    if dbs.port_probe.is_some() {
        return Err(DbError::AlreadySet(DbSlot::PortProbe));
    }
    dbs.port_probe = Some(PortProbeDb::build(loaded));
    Ok(())
}

/// Installs the service probe database of the loaded payloads. Fails, and
/// changes nothing, if the slot is set.
pub fn init_service_probe_db<P, S>(
    dbs: &mut ProbeDatabases<P, S>,
    loaded: Vec<(ServiceProbe, P)>,
) -> (done: Result<(), DbError>)
    ensures
        match done {
            Ok(_) => {
                &&& old(dbs)@.service_probe is None
                &&& final(dbs)@.service_probe matches Some(db) && db@ == loaded@.map_values(
                    |entry: (ServiceProbe, P)| (entry.0@, entry.1),
                )
                &&& final(dbs)@ == (ProbeDatabasesView {
                    service_probe: final(dbs)@.service_probe,
                    ..old(dbs)@
                })
            },
            Err(error) => old(dbs)@.service_probe is Some && error == DbError::AlreadySet(
                DbSlot::ServiceProbe,
            ) && final(dbs)@ == old(dbs)@,
        },
{
    if dbs.service_probe.is_some() {
        return Err(DbError::AlreadySet(DbSlot::ServiceProbe));
    }
    dbs.service_probe = Some(ServiceProbeDb::build(loaded));
    Ok(())
}

/// Installs the response signatures, in the order in which they were loaded.
/// Fails, and changes nothing, if the slot is set.
pub fn init_response_signatures_db<P, S>(dbs: &mut ProbeDatabases<P, S>, loaded: Vec<S>) -> (done:
    Result<(), DbError>)
    ensures
        match done {
            Ok(_) => old(dbs)@.response_signatures is None && final(dbs)@ == (ProbeDatabasesView {
                response_signatures: Some(loaded),
                ..old(dbs)@
            }),
            Err(error) => old(dbs)@.response_signatures is Some && error == DbError::AlreadySet(
                DbSlot::ResponseSignatures,
            ) && final(dbs)@ == old(dbs)@,
        },
{
    if dbs.response_signatures.is_some() {
        return Err(DbError::AlreadySet(DbSlot::ResponseSignatures));
    }
    dbs.response_signatures = Some(loaded);
    Ok(())
}

/// The first resource whose loading failed among those of the slots that are
/// still empty, in the order in which the slots are filled.
pub open spec fn first_failure<P, S>(
    dbs: ProbeDatabasesView<P, S>,
    resources: ProbeResources<P, S>,
) -> Option<(DbSlot, String)> {
    if dbs.tls_oid_map is None && resources.tls_oid_map is Err {
        Some((DbSlot::TlsOidMap, resources.tls_oid_map->Err_0))
    } else if dbs.port_probe is None && resources.port_probes is Err {
        Some((DbSlot::PortProbe, resources.port_probes->Err_0))
    } else if dbs.service_probe is None && resources.service_probes is Err {
        Some((DbSlot::ServiceProbe, resources.service_probes->Err_0))
    } else if dbs.response_signatures is None && resources.response_signatures is Err {
        Some((DbSlot::ResponseSignatures, resources.response_signatures->Err_0))
    } else {
        None
    }
}

/// Whether the slot comes before `other` in the order in which the slots are
/// filled.
pub open spec fn rank(slot: DbSlot) -> int {
    match slot {
        DbSlot::TcpService => 0,
        DbSlot::UdpService => 1,
        DbSlot::TlsOidMap => 2,
        DbSlot::PortProbe => 3,
        DbSlot::ServiceProbe => 4,
        DbSlot::ResponseSignatures => 5,
    }
}

/// Fills every slot that is still empty, in the order TCP services, UDP
/// services, TLS object identifiers, port probes, service probes, response
/// signatures. A slot that is set is left as it is, so that a second call
/// changes nothing and succeeds. The call fails with the message of the first
/// resource that could not be loaded for an empty slot; the slots before
/// that one are filled then, and the others are as they were.
pub fn init_probe_db<P, S>(dbs: &mut ProbeDatabases<P, S>, resources: ProbeResources<P, S>) -> (done:
    Result<(), String>)
    ensures
        old(dbs)@.tcp_service is Some ==> final(dbs)@.tcp_service == old(dbs)@.tcp_service,
        old(dbs)@.udp_service is Some ==> final(dbs)@.udp_service == old(dbs)@.udp_service,
        old(dbs)@.tls_oid_map is Some ==> final(dbs)@.tls_oid_map == old(dbs)@.tls_oid_map,
        old(dbs)@.port_probe is Some ==> final(dbs)@.port_probe == old(dbs)@.port_probe,
        old(dbs)@.service_probe is Some ==> final(dbs)@.service_probe == old(dbs)@.service_probe,
        old(dbs)@.response_signatures is Some ==> final(dbs)@.response_signatures == old(dbs)@.response_signatures,
        old(dbs)@.complete() ==> done is Ok && final(dbs)@ == old(dbs)@,
        match done {
            Ok(_) => first_failure(old(dbs)@, resources) is None && final(dbs)@.complete(),
            Err(message) => first_failure(old(dbs)@, resources) matches Some((failed, text))
                && message == text && forall|slot: DbSlot|
                final(dbs)@.is_set(slot) == (old(dbs)@.is_set(slot) || rank(slot) < rank(failed)),
        },
        old(dbs)@.tls_oid_map is None && final(dbs)@.tls_oid_map is Some
            ==> resources.tls_oid_map is Ok && final(dbs)@.tls_oid_map == Some(
            resources.tls_oid_map->Ok_0,
        ),
        old(dbs)@.port_probe is None && final(dbs)@.port_probe is Some
            ==> resources.port_probes is Ok && final(dbs)@.port_probe->Some_0@ == port_probe_pairs(
            resources.port_probes->Ok_0@,
        ),
        old(dbs)@.service_probe is None && final(dbs)@.service_probe is Some
            ==> resources.service_probes is Ok && final(dbs)@.service_probe->Some_0@
            == resources.service_probes->Ok_0@.map_values(
            |entry: (ServiceProbe, P)| (entry.0@, entry.1),
        ),
        old(dbs)@.response_signatures is None && final(dbs)@.response_signatures is Some
            ==> resources.response_signatures is Ok && final(dbs)@.response_signatures == Some(
            resources.response_signatures->Ok_0,
        ),
{
    proof {
        if dbs@.complete() {
            assert(dbs@.is_set(DbSlot::TcpService));
            assert(dbs@.is_set(DbSlot::UdpService));
            assert(dbs@.is_set(DbSlot::TlsOidMap));
            assert(dbs@.is_set(DbSlot::PortProbe));
            assert(dbs@.is_set(DbSlot::ServiceProbe));
            assert(dbs@.is_set(DbSlot::ResponseSignatures));
        }
    }
    if dbs.tcp_service.is_none() {
        let _ = init_tcp_service_db(dbs);
    }
    if dbs.udp_service.is_none() {
        let _ = init_udp_service_db(dbs);
    }
    if dbs.tls_oid_map.is_none() {
        match resources.tls_oid_map {
            Ok(loaded) => {
                let _ = init_tls_oid_map(dbs, loaded);
            },
            Err(message) => {
                return Err(message);
            },
        }
    }
    if dbs.port_probe.is_none() {
        match resources.port_probes {
            Ok(loaded) => {
                let _ = init_port_probe_db(dbs, &loaded);
            },
            Err(message) => {
                return Err(message);
            },
        }
    }
    if dbs.service_probe.is_none() {
        match resources.service_probes {
            Ok(loaded) => {
                let _ = init_service_probe_db(dbs, loaded);
            },
            Err(message) => {
                return Err(message);
            },
        }
    }
    if dbs.response_signatures.is_none() {
        match resources.response_signatures {
            Ok(loaded) => {
                let _ = init_response_signatures_db(dbs, loaded);
            },
            Err(message) => {
                return Err(message);
            },
        }
    }
    Ok(())
}

} // verus!
