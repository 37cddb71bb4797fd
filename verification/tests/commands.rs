use netpulse_core::addr::{IpAddress, MaybeHost};
use netpulse_core::command::{host_scan, neighbor_scan, port_scan};
use netpulse_core::endpoint::{Endpoint, Port, TransportProtocol};
use netpulse_core::events::{event_name, ScanKind, ScanMoment};
use netpulse_core::interface::{contains_text, find_interface, get_display_name, InterfaceInfo};
use netpulse_core::model::{
    HostScanReport, HostScanRequest, PortScanProtocol, PortScanSetting, TargetPortsPreset,
};
use netpulse_core::addr::Host;
use netpulse_core::neigh::{neighbor_report, NeighborDetail};
use netpulse_core::ports::PortCatalog;
use netpulse_core::tuner::OsFamily;

fn interface(name: &str, friendly: Option<&str>) -> InterfaceInfo {
    InterfaceInfo {
        name: name.to_string(),
        friendly_name: friendly.map(|f| f.to_string()),
        ipv4_addrs: vec![0xc0a8_0105, 0x0a00_0001],
        ipv6_addrs: vec![],
        gateway_ipv4: vec![0xc0a8_0101],
    }
}

fn catalog() -> PortCatalog {
    PortCatalog { common: vec![80], well_known: vec![], top1000: vec![] }
}

fn setting(ip: IpAddress) -> PortScanSetting {
    PortScanSetting {
        ip_addr: ip,
        hostname: None,
        target_ports_preset: TargetPortsPreset::Custom,
        user_ports: vec![443, 80],
        protocol: PortScanProtocol::Tcp,
        timeout_ms: 100,
        ordered: true,
        service_detection: false,
    }
}

#[test]
fn a_port_scan_needs_a_source_address_of_the_family() {
    let iface = interface("eth0", None);
    let started = port_scan(&setting(IpAddress::V4(0x0101_0101)), &iface, &catalog()).ok().unwrap();
    assert_eq!(started.source, IpAddress::V4(0xc0a8_0105));
    assert_eq!(started.ports, vec![80, 443]);
    assert_eq!(started.scan.total(), 2);
    assert_eq!(started.scan.run_id(), &started.payload.run_id);

    let refused = port_scan(&setting(IpAddress::V6(1)), &iface, &catalog());
    assert_eq!(refused.err(), Some("No IPv6 address found on default interface".to_string()));

    let v6_only = InterfaceInfo { ipv4_addrs: vec![], ipv6_addrs: vec![5, 6], ..interface("eth0", None) };
    let refused = port_scan(&setting(IpAddress::V4(1)), &v6_only, &catalog());
    assert_eq!(refused.err(), Some("No IPv4 address found on default interface".to_string()));
    let started = port_scan(&setting(IpAddress::V6(1)), &v6_only, &catalog()).ok().unwrap();
    assert_eq!(started.source, IpAddress::V6(5));
}

#[test]
fn every_scan_gets_a_fresh_run_id() {
    let iface = interface("eth0", None);
    let a = port_scan(&setting(IpAddress::V4(1)), &iface, &catalog()).ok().unwrap();
    let b = port_scan(&setting(IpAddress::V4(1)), &iface, &catalog()).ok().unwrap();
    assert_ne!(a.payload.run_id, b.payload.run_id);
    assert_eq!(a.payload.run_id.len(), 36);
    assert_eq!(a.payload.run_id.matches('-').count(), 4);
}

#[test]
fn a_host_scan_begins_with_the_setting_of_its_request() {
    let request = HostScanRequest {
        targets: vec!["127.0.0.1".to_string(), "localhost".to_string(), "   ".to_string()],
        hop_limit: 64,
        timeout_ms: 1000,
        count: 1,
        payload: None,
        ordered: true,
        concurrency: None,
    };
    let start = host_scan(request, &interface("eth0", None));
    assert_eq!(
        start.setting.targets,
        vec![
            MaybeHost { ip: Some(IpAddress::V4(0x7f00_0001)), hostname: None },
            MaybeHost { ip: None, hostname: Some("localhost".to_string()) },
        ]
    );
    assert_eq!(start.setting.timeout_ms, 1000);
    assert_eq!(start.source_v4, Some(0xc0a8_0105));
    assert_eq!(start.source_v6, None);
    assert_eq!(start.payload.run_id, start.run_id);
    assert_eq!(start.run_id.len(), 36);
}

#[test]
fn a_neighbor_scan_runs_on_the_named_interface() {
    let interfaces = vec![
        interface("lo", None),
        InterfaceInfo { gateway_ipv4: vec![0x0a00_0001], ..interface("en0", Some("Wi-Fi")) },
        interface("Wi-Fi", None),
    ];
    let by_friendly_name = neighbor_scan(Some("Wi-Fi"), &interfaces, Err("unused".to_string()));
    let plan = by_friendly_name.plan.ok().unwrap();
    assert_eq!(plan.setting.targets.len(), 254);
    assert_eq!(plan.setting.targets[0].ip, Some(IpAddress::V4(0x0a00_0001)));
    assert_eq!(plan.source_v4, Some(0xc0a8_0105));
    assert_eq!(by_friendly_name.run_id.len(), 36);

    let by_name = neighbor_scan(Some("lo"), &interfaces, Err("unused".to_string()));
    assert_eq!(by_name.plan.ok().unwrap().setting.targets[0].ip, Some(IpAddress::V4(0xc0a8_0101)));

    let missing = neighbor_scan(Some("eth7"), &interfaces, Ok(&interfaces[0]));
    assert_eq!(missing.plan.err(), Some("interface not found: eth7".to_string()));
}

#[test]
fn a_neighbor_scan_without_a_name_runs_on_the_default_interface() {
    let interfaces = vec![interface("lo", None)];
    let default = InterfaceInfo { gateway_ipv4: vec![0xac10_0005], ..interface("eth0", None) };
    let start = neighbor_scan(None, &interfaces, Ok(&default));
    let plan = start.plan.ok().unwrap();
    assert_eq!(plan.setting.targets.len(), 254);
    assert_eq!(plan.setting.targets[253].ip, Some(IpAddress::V4(0xac10_00fe)));
    assert_eq!(plan.setting.concurrency, Some(100));
    assert_eq!(plan.source_v4, Some(0xc0a8_0105));

    let v6_only = InterfaceInfo { ipv4_addrs: vec![], ..interface("eth1", None) };
    assert_eq!(neighbor_scan(None, &interfaces, Ok(&v6_only)).plan.ok().unwrap().source_v4, None);

    let none = neighbor_scan(None, &interfaces, Err("no default interface".to_string()));
    assert_eq!(none.plan.err(), Some("no default interface".to_string()));
}

#[test]
fn interfaces_are_found_by_either_name() {
    let interfaces = vec![interface("en0", Some("Ethernet")), interface("en1", Some("en0")), interface("en2", None)];
    assert_eq!(find_interface(&interfaces, "en0"), Some(0));
    assert_eq!(find_interface(&interfaces, "Ethernet"), Some(0));
    assert_eq!(find_interface(&interfaces, "en1"), Some(1));
    assert_eq!(find_interface(&interfaces, "en2"), Some(2));
    assert_eq!(find_interface(&interfaces, "en"), None);
    assert_eq!(find_interface(&vec![], "en0"), None);
}

#[test]
fn display_names_by_operating_system() {
    let plain = interface("en4", None);
    let friendly = interface("en4", Some("Ethernet Adapter"));
    let holds_name = interface("en4", Some("Ethernet Adapter (en4)"));
    for os in [OsFamily::Windows, OsFamily::Linux, OsFamily::Macos, OsFamily::Other] {
        assert_eq!(get_display_name(os, &plain), "en4");
    }
    assert_eq!(get_display_name(OsFamily::Windows, &friendly), "Ethernet Adapter");
    assert_eq!(get_display_name(OsFamily::Windows, &holds_name), "Ethernet Adapter (en4)");
    assert_eq!(get_display_name(OsFamily::Macos, &friendly), "Ethernet Adapter (en4)");
    assert_eq!(get_display_name(OsFamily::Macos, &holds_name), "Ethernet Adapter (en4)");
    assert_eq!(get_display_name(OsFamily::Linux, &friendly), "en4");
    assert_eq!(get_display_name(OsFamily::Other, &holds_name), "en4");
}

#[test]
fn text_is_searched_character_by_character() {
    assert!(contains_text("Ethernet Adapter (en4)", "en4"));
    assert!(contains_text("abc", ""));
    assert!(contains_text("", ""));
    assert!(contains_text("abc", "abc"));
    assert!(contains_text("aab", "ab"));
    assert!(contains_text("día largo", "ía l"));
    assert!(!contains_text("abc", "abcd"));
    assert!(!contains_text("", "a"));
    assert!(!contains_text("abc", "ac"));
}

#[test]
fn event_names() {
    let name = |kind, moment| event_name(kind, moment);
    assert_eq!(name(ScanKind::Host, ScanMoment::Start), Some("hostscan:start"));
    assert_eq!(name(ScanKind::Host, ScanMoment::Found), Some("hostscan:alive"));
    assert_eq!(name(ScanKind::Host, ScanMoment::Progress), Some("hostscan:progress"));
    assert_eq!(name(ScanKind::Host, ScanMoment::Done), Some("hostscan:done"));
    assert_eq!(name(ScanKind::Host, ScanMoment::ServiceDetectionStart), None);
    assert_eq!(name(ScanKind::Host, ScanMoment::ServiceDetectionDone), None);
    assert_eq!(name(ScanKind::Port, ScanMoment::Start), Some("portscan:start"));
    assert_eq!(name(ScanKind::Port, ScanMoment::Found), Some("portscan:open"));
    assert_eq!(name(ScanKind::Port, ScanMoment::Progress), Some("portscan:progress"));
    assert_eq!(name(ScanKind::Port, ScanMoment::ServiceDetectionStart), Some("portscan:service_detection_start"));
    assert_eq!(name(ScanKind::Port, ScanMoment::ServiceDetectionDone), Some("portscan:service_detection_done"));
    assert_eq!(name(ScanKind::Port, ScanMoment::Done), Some("portscan:done"));
    assert_eq!(name(ScanKind::Neighbor, ScanMoment::Start), Some("neighborscan:start"));
    assert_eq!(name(ScanKind::Neighbor, ScanMoment::Progress), Some("neighborscan:progress"));
    assert_eq!(name(ScanKind::Neighbor, ScanMoment::Done), Some("neighborscan:done"));
    assert_eq!(name(ScanKind::Neighbor, ScanMoment::Found), None);
}

#[test]
fn an_endpoint_holds_each_port_once() {
    let mut endpoint = Endpoint::new(IpAddress::V4(1));
    assert_eq!(endpoint.hostname, None);
    assert!(endpoint.ports.is_empty());
    let tcp = Port::new(443, TransportProtocol::Tcp);
    let quic = Port::new(443, TransportProtocol::Quic);
    endpoint.upsert_port(tcp);
    endpoint.upsert_port(quic);
    endpoint.upsert_port(tcp);
    endpoint.upsert_port(Port::new(80, TransportProtocol::Tcp));
    assert_eq!(endpoint.ports, vec![tcp, quic, Port { number: 80, transport: TransportProtocol::Tcp }]);
    assert_eq!(endpoint.ip, IpAddress::V4(1));
}

#[test]
fn neighbors_are_the_alive_hosts_with_their_details() {
    let host = |bits| Host { ip: IpAddress::V4(bits), hostname: None };
    let report = HostScanReport {
        run_id: "run".to_string(),
        alive: vec![(host(1), 10), (host(2), 20), (host(3), 30)],
        unreachable: vec![host(4)],
        total: 254,
    };
    let details = vec![
        NeighborDetail { mac_addr: Some([0, 1, 2, 3, 4, 5]), vendor: Some("Acme".to_string()), tags: vec!["gateway".to_string()] },
        NeighborDetail { mac_addr: None, vendor: None, tags: vec![] },
    ];
    let neighbors = neighbor_report(report, details);
    assert_eq!(neighbors.run_id, "run");
    assert_eq!(neighbors.total, 254);
    assert_eq!(neighbors.neighbors.len(), 3);
    let first = &neighbors.neighbors[0];
    assert_eq!(first.ip_addr, IpAddress::V4(1));
    assert_eq!(first.mac_addr, Some([0, 1, 2, 3, 4, 5]));
    assert_eq!(first.vendor, Some("Acme".to_string()));
    assert_eq!(first.rtt_ms, Some(10));
    assert_eq!(first.tags, vec!["gateway".to_string()]);
    let third = &neighbors.neighbors[2];
    assert_eq!((third.ip_addr, third.mac_addr, third.vendor.clone(), third.rtt_ms), (IpAddress::V4(3), None, None, Some(30)));
    assert!(third.tags.is_empty());
    assert_eq!(neighbors.neighbors[1].rtt_ms, Some(20));
}

#[test]
fn details_beyond_the_alive_hosts_are_dropped() {
    let report = HostScanReport {
        run_id: "run".to_string(),
        alive: vec![(Host { ip: IpAddress::V6(9), hostname: None }, 1)],
        unreachable: vec![],
        total: 1,
    };
    let detail = |name: &str| NeighborDetail { mac_addr: None, vendor: Some(name.to_string()), tags: vec![] };
    let neighbors = neighbor_report(report, vec![detail("first"), detail("second"), detail("third")]);
    assert_eq!(neighbors.neighbors.len(), 1);
    assert_eq!(neighbors.neighbors[0].vendor, Some("first".to_string()));
}
