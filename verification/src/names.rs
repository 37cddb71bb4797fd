//! Well-known service names by port, from the bundled TCP and UDP service
//! databases.

use crate::model::PortScanProtocol;
use crate::text::text_of;
use vstd::prelude::*;

verus! {

/// `ndb_tcp_service::TcpServiceDb`: a table of TCP services by port, carried
/// as an opaque value.
#[verifier::external_type_specification]
#[verifier::external_body]
pub struct ExTcpServiceDb(ndb_tcp_service::TcpServiceDb);

/// `ndb_udp_service::UdpServiceDb`: a table of UDP services by port, carried
/// as an opaque value.
#[verifier::external_type_specification]
#[verifier::external_body]
pub struct ExUdpServiceDb(ndb_udp_service::UdpServiceDb);

/// The service name that a TCP service database holds for each port it
/// knows.
pub uninterp spec fn tcp_names(db: ndb_tcp_service::TcpServiceDb) -> Map<u16, Seq<char>>;

/// The service name that a UDP service database holds for each port it
/// knows.
pub uninterp spec fn udp_names(db: ndb_udp_service::UdpServiceDb) -> Map<u16, Seq<char>>;

/// `ndb_tcp_service::TcpServiceDb::bundled`: the database that is compiled
/// into the crate. Nothing is claimed of its entries.
#[verifier::external_body]
pub(crate) fn bundled_tcp() -> (db: ndb_tcp_service::TcpServiceDb) {
    ndb_tcp_service::TcpServiceDb::bundled()
}

/// `ndb_udp_service::UdpServiceDb::bundled`: the database that is compiled
/// into the crate. Nothing is claimed of its entries.
#[verifier::external_body]
pub(crate) fn bundled_udp() -> (db: ndb_udp_service::UdpServiceDb) {
    ndb_udp_service::UdpServiceDb::bundled()
}

/// `ndb_tcp_service::TcpServiceDb::get`: the entry stored under `port`, of
/// which the name is handed out; none where the database has no such port.
#[verifier::external_body]
pub(crate) fn tcp_name(db: &ndb_tcp_service::TcpServiceDb, port: u16) -> (name: Option<String>)
    ensures
        match name {
            Some(text) => tcp_names(*db).contains_key(port) && text@ == tcp_names(*db)[port],
            None => !tcp_names(*db).contains_key(port),
        },
{
    db.get(port).map(|entry| entry.name.clone())
}

/// `ndb_udp_service::UdpServiceDb::get`: the entry stored under `port`, of
/// which the name is handed out; none where the database has no such port.
#[verifier::external_body]
pub(crate) fn udp_name(db: &ndb_udp_service::UdpServiceDb, port: u16) -> (name: Option<String>)
    ensures
        match name {
            Some(text) => udp_names(*db).contains_key(port) && text@ == udp_names(*db)[port],
            None => !udp_names(*db).contains_key(port),
        },
{
    db.get(port).map(|entry| entry.name.clone())
}

/// The service database that a port scan looks names up in: TCP names for a
/// TCP scan, UDP names for a QUIC scan.
pub enum ServiceNames {
    Tcp(ndb_tcp_service::TcpServiceDb),
    Udp(ndb_udp_service::UdpServiceDb),
}

impl View for ServiceNames {
    type V = Map<u16, Seq<char>>;

    open spec fn view(&self) -> Map<u16, Seq<char>> {
        match *self {
            ServiceNames::Tcp(db) => tcp_names(db),
            ServiceNames::Udp(db) => udp_names(db),
        }
    }
}

/// The name a map holds for `port`, if any.
pub open spec fn name_in(names: Map<u16, Seq<char>>, port: u16) -> Option<Seq<char>> {
    if names.contains_key(port) {
        Some(names[port])
    } else {
        None
    }
}

impl ServiceNames {
    /// The bundled database for the transport that `protocol` runs over.
    pub fn bundled(protocol: PortScanProtocol) -> (names: ServiceNames)
        ensures
            names is Tcp <==> protocol is Tcp,
    {
        match protocol {
            PortScanProtocol::Tcp => ServiceNames::Tcp(bundled_tcp()),
            PortScanProtocol::Quic => ServiceNames::Udp(bundled_udp()),
        }
    }

    /// The well-known service name of `port`, if the database has one.
    pub fn lookup(&self, port: u16) -> (name: Option<String>)
        ensures
            text_of(name) == name_in(self@, port),
    {
        match self {
            ServiceNames::Tcp(db) => tcp_name(db, port),
            ServiceNames::Udp(db) => udp_name(db, port),
        }
    }
}

} // verus!
