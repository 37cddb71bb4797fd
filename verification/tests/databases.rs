use netpulse_core::endpoint::{Port, TransportProtocol};
use netpulse_core::model::PortScanProtocol;
use netpulse_core::names::ServiceNames;
use netpulse_core::service_db::{
    init_port_probe_db, init_probe_db, init_response_signatures_db, init_service_probe_db,
    init_tcp_service_db, init_tls_oid_map, init_udp_service_db, port_probe_db,
    response_signatures_db, service_probe_db, tcp_service_db, udp_service_db, DbError, DbSlot,
    PortProbeDb, PortProbes, ProbeDatabases, ProbeResources, ServiceProbe, ServiceProbeDb,
};

type Dbs = ProbeDatabases<Vec<u8>, String>;

fn probe(id: &str, transport: TransportProtocol) -> ServiceProbe {
    ServiceProbe { id: id.to_string(), transport }
}

fn resources() -> ProbeResources<Vec<u8>, String> {
    ProbeResources {
        tls_oid_map: Ok(vec![("1.2.840.113549.1.1.11".to_string(), "sha256WithRSAEncryption".to_string())]),
        port_probes: Ok(vec![
            PortProbes { port: 53, probes: vec![probe("udp:dns", TransportProtocol::Udp), probe("tcp:dns", TransportProtocol::Tcp)] },
            PortProbes { port: 443, probes: vec![probe("tcp:tls", TransportProtocol::Tcp), probe("quic:h3", TransportProtocol::Quic), probe("tcp:http", TransportProtocol::Tcp)] },
        ]),
        service_probes: Ok(vec![
            (probe("tcp:http", TransportProtocol::Tcp), b"GET / HTTP/1.0\r\n\r\n".to_vec()),
            (probe("tcp:tls", TransportProtocol::Tcp), vec![0x16]),
        ]),
        response_signatures: Ok(vec!["ssh".to_string(), "http".to_string()]),
    }
}

const SLOTS: [DbSlot; 6] = [
    DbSlot::TcpService,
    DbSlot::UdpService,
    DbSlot::TlsOidMap,
    DbSlot::PortProbe,
    DbSlot::ServiceProbe,
    DbSlot::ResponseSignatures,
];

fn ids(probes: Vec<&ServiceProbe>) -> Vec<String> {
    probes.into_iter().map(|p| p.id.clone()).collect()
}

#[test]
fn initializing_twice_changes_nothing() {
    let mut dbs = Dbs::new();
    assert!(SLOTS.iter().all(|slot| !dbs.is_set(*slot)));
    assert_eq!(init_probe_db(&mut dbs, resources()), Ok(()));
    assert!(SLOTS.iter().all(|slot| dbs.is_set(*slot)));
    assert_eq!(response_signatures_db(&dbs), &vec!["ssh".to_string(), "http".to_string()]);

    // The second call succeeds whatever the resources are, and installs none
    // of them.
    let other = ProbeResources {
        tls_oid_map: Err("no oid map".to_string()),
        port_probes: Ok(vec![]),
        service_probes: Err("no probes".to_string()),
        response_signatures: Ok(vec!["other".to_string()]),
    };
    assert_eq!(init_probe_db(&mut dbs, other), Ok(()));
    assert_eq!(response_signatures_db(&dbs), &vec!["ssh".to_string(), "http".to_string()]);
    assert_eq!(dbs.tls_oid_map().len(), 1);
    assert_eq!(ids(port_probe_db(&dbs).probes_for(Port { number: 443, transport: TransportProtocol::Tcp })), vec!["tcp:tls", "tcp:http"]);
    assert!(service_probe_db(&dbs).get(&probe("tcp:tls", TransportProtocol::Tcp)).is_some());
}

#[test]
fn the_bundled_services_are_installed() {
    let mut dbs = Dbs::new();
    init_probe_db(&mut dbs, resources()).unwrap();
    assert_eq!(tcp_service_db(&dbs).get_name(22), Some("ssh"));
    assert_eq!(tcp_service_db(&dbs).get_name(443), Some("https"));
    assert_eq!(udp_service_db(&dbs).get_name(53), Some("domain"));
}

#[test]
fn a_slot_is_set_once() {
    let mut dbs = Dbs::new();
    assert_eq!(init_tcp_service_db(&mut dbs), Ok(()));
    assert_eq!(init_tcp_service_db(&mut dbs), Err(DbError::AlreadySet(DbSlot::TcpService)));
    assert_eq!(init_udp_service_db(&mut dbs), Ok(()));
    assert_eq!(init_udp_service_db(&mut dbs), Err(DbError::AlreadySet(DbSlot::UdpService)));
    assert_eq!(init_tls_oid_map(&mut dbs, vec![]), Ok(()));
    assert_eq!(init_tls_oid_map(&mut dbs, vec![("a".to_string(), "b".to_string())]), Err(DbError::AlreadySet(DbSlot::TlsOidMap)));
    assert!(dbs.tls_oid_map().is_empty());
    assert_eq!(init_port_probe_db(&mut dbs, &vec![]), Ok(()));
    assert_eq!(init_port_probe_db(&mut dbs, &vec![]), Err(DbError::AlreadySet(DbSlot::PortProbe)));
    assert_eq!(init_service_probe_db(&mut dbs, vec![]), Ok(()));
    assert_eq!(init_service_probe_db(&mut dbs, vec![]), Err(DbError::AlreadySet(DbSlot::ServiceProbe)));
    assert_eq!(init_response_signatures_db(&mut dbs, vec!["one".to_string()]), Ok(()));
    assert_eq!(init_response_signatures_db(&mut dbs, vec!["two".to_string()]), Err(DbError::AlreadySet(DbSlot::ResponseSignatures)));
    assert_eq!(response_signatures_db(&dbs), &vec!["one".to_string()]);
    assert!(SLOTS.iter().all(|slot| dbs.is_set(*slot)));
}

#[test]
fn installation_errors_in_words() {
    let text = |slot| DbError::AlreadySet(slot).message();
    assert_eq!(text(DbSlot::TcpService), "Failed to set TCP_SERVICE_DB in OnceLock");
    assert_eq!(text(DbSlot::UdpService), "Failed to set UDP_SERVICE_DB in OnceLock");
    assert_eq!(text(DbSlot::TlsOidMap), "Failed to set TLS_OID_MAP in OnceLock");
    assert_eq!(text(DbSlot::PortProbe), "Failed to set PORT_PROBE_DB in OnceLock");
    assert_eq!(text(DbSlot::ServiceProbe), "Failed to set SERVICE_PROBE_DB in OnceLock");
    assert_eq!(text(DbSlot::ResponseSignatures), "Failed to set RESPONSE_SIGNATURES_DB in OnceLock");
}

#[test]
fn the_first_resource_that_failed_to_load_fails_the_call() {
    let mut dbs = Dbs::new();
    let broken = ProbeResources {
        port_probes: Err("Invalid port-probes.json format".to_string()),
        response_signatures: Err("later".to_string()),
        ..resources()
    };
    assert_eq!(init_probe_db(&mut dbs, broken), Err("Invalid port-probes.json format".to_string()));
    // The slots before the failure are filled, the others are not.
    let set: Vec<bool> = SLOTS.iter().map(|slot| dbs.is_set(*slot)).collect();
    assert_eq!(set, vec![true, true, true, false, false, false]);
    // A later call fills what is missing.
    assert_eq!(init_probe_db(&mut dbs, resources()), Ok(()));
    assert!(SLOTS.iter().all(|slot| dbs.is_set(*slot)));
}

#[test]
fn a_failed_resource_of_a_set_slot_does_not_matter() {
    let mut dbs = Dbs::new();
    init_tls_oid_map(&mut dbs, vec![]).unwrap();
    let broken = ProbeResources { tls_oid_map: Err("unreadable".to_string()), ..resources() };
    assert_eq!(init_probe_db(&mut dbs, broken), Ok(()));
    assert!(dbs.tls_oid_map().is_empty());
}

#[test]
fn probes_are_filed_under_port_and_transport() {
    let loaded = resources().port_probes.unwrap();
    let db = PortProbeDb::build(&loaded);
    let under = |number, transport| ids(db.probes_for(Port { number, transport }));
    assert_eq!(under(53, TransportProtocol::Udp), vec!["udp:dns"]);
    assert_eq!(under(53, TransportProtocol::Tcp), vec!["tcp:dns"]);
    assert_eq!(under(443, TransportProtocol::Tcp), vec!["tcp:tls", "tcp:http"]);
    assert_eq!(under(443, TransportProtocol::Quic), vec!["quic:h3"]);
    assert!(under(443, TransportProtocol::Udp).is_empty());
    assert!(under(80, TransportProtocol::Tcp).is_empty());
}

#[test]
fn the_last_payload_of_a_probe_counts() {
    let db = ServiceProbeDb::build(vec![
        (probe("tcp:http", TransportProtocol::Tcp), 1),
        (probe("udp:dns", TransportProtocol::Udp), 2),
        (probe("tcp:http", TransportProtocol::Tcp), 3),
    ]);
    assert_eq!(db.get(&probe("tcp:http", TransportProtocol::Tcp)), Some(&3));
    assert_eq!(db.get(&probe("udp:dns", TransportProtocol::Udp)), Some(&2));
    assert_eq!(db.get(&probe("udp:dns", TransportProtocol::Tcp)), None);
    assert_eq!(db.get(&probe("tcp:ssh", TransportProtocol::Tcp)), None);
}

#[test]
fn well_known_names_by_protocol() {
    let tcp = ServiceNames::bundled(PortScanProtocol::Tcp);
    assert_eq!(tcp.lookup(22), Some("ssh".to_string()));
    assert_eq!(tcp.lookup(80), Some("http".to_string()));
    assert_eq!(tcp.lookup(u16::MAX), None);
    let udp = ServiceNames::bundled(PortScanProtocol::Quic);
    assert_eq!(udp.lookup(53), Some("domain".to_string()));
    assert_eq!(udp.lookup(u16::MAX), None);
    assert!(matches!(tcp, ServiceNames::Tcp(_)));
    assert!(matches!(udp, ServiceNames::Udp(_)));
}
