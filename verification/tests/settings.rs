use netpulse_core::addr::{Host, IpAddress, MaybeHost};
use netpulse_core::dns::NameLookup;
use netpulse_core::interface::InterfaceInfo;
use netpulse_core::model::{HostScanRequest, HostScanSetting};

fn request(targets: &[&str]) -> HostScanRequest {
    HostScanRequest {
        targets: targets.iter().map(|s| s.to_string()).collect(),
        hop_limit: 7,
        timeout_ms: 250,
        count: 3,
        payload: Some("hello".to_string()),
        ordered: true,
        concurrency: Some(9),
    }
}

fn address(ip: IpAddress) -> MaybeHost {
    MaybeHost { ip: Some(ip), hostname: None }
}

fn name(text: &str) -> MaybeHost {
    MaybeHost { ip: None, hostname: Some(text.to_string()) }
}

#[test]
fn a_request_becomes_a_setting() {
    let setting = HostScanSetting::from_request(request(&[
        "127.0.0.1", "localhost", "   ", "", "  ::1\t", " example.com \n", "1.2.3", "256.1.1.1",
    ]));
    assert_eq!(
        setting.targets,
        vec![
            address(IpAddress::V4(0x7f00_0001)),
            name("localhost"),
            address(IpAddress::V6(1)),
            name("example.com"),
            name("1.2.3"),
            name("256.1.1.1"),
        ]
    );
    assert_eq!(setting.hop_limit, 7);
    assert_eq!(setting.timeout_ms, 250);
    assert_eq!(setting.count, 3);
    assert_eq!(setting.payload, Some("hello".to_string()));
    assert!(setting.ordered);
    assert_eq!(setting.concurrency, Some(9));
}

#[test]
fn targets_as_text_and_as_addresses() {
    let setting = HostScanSetting {
        targets: vec![
            address(IpAddress::V4(0xc0a8_0001)),
            name("  padded.example  "),
            MaybeHost { ip: None, hostname: None },
            name("   "),
            MaybeHost { ip: Some(IpAddress::V6(1)), hostname: Some("named".to_string()) },
        ],
        hop_limit: 1,
        timeout_ms: 1,
        count: 1,
        payload: None,
        ordered: false,
        concurrency: None,
    };
    assert_eq!(setting.target_strings(), vec!["192.168.0.1", "padded.example", "::1"]);
    assert_eq!(setting.target_ips(), vec![IpAddress::V4(0xc0a8_0001), IpAddress::V6(1)]);
}

#[test]
fn targets_resolve_through_their_text() {
    let setting = HostScanSetting::from_request(request(&["10.1.2.3", "db.example", "fe80::1"]));
    let lookups = vec![NameLookup {
        hostname: "db.example".to_string(),
        ips: vec![IpAddress::V4(0x0a01_0203), IpAddress::V4(0x0a01_0204)],
    }];
    let hosts = setting.resolve_targets(&lookups).into_hosts();
    assert_eq!(
        hosts,
        vec![
            Host { ip: IpAddress::V4(0x0a01_0203), hostname: None },
            Host { ip: IpAddress::V6(0xfe80 << 112 | 1), hostname: None },
            Host { ip: IpAddress::V4(0x0a01_0204), hostname: Some("db.example".to_string()) },
        ]
    );
}

fn interface(gateway: Vec<u32>) -> InterfaceInfo {
    InterfaceInfo {
        name: "eth0".to_string(),
        friendly_name: None,
        ipv4_addrs: vec![0xc0a8_0105],
        ipv6_addrs: vec![],
        gateway_ipv4: gateway,
    }
}

#[test]
fn neighbor_scan_covers_the_network_of_the_gateway() {
    // Gateway 192.168.1.1: the 254 hosts of 192.168.1.0/24.
    let setting = HostScanSetting::neighbor_scan_default(&interface(vec![0xc0a8_0101, 0x0a00_0001]));
    assert_eq!(setting.targets.len(), 254);
    for (i, target) in setting.targets.iter().enumerate() {
        assert_eq!(target, &address(IpAddress::V4(0xc0a8_0100 + 1 + i as u32)));
    }
    assert_eq!(setting.targets[0], address(IpAddress::V4(0xc0a8_0101)));
    assert_eq!(setting.targets[253], address(IpAddress::V4(0xc0a8_01fe)));
    assert_eq!(setting.hop_limit, 64);
    assert_eq!(setting.timeout_ms, 1000);
    assert_eq!(setting.count, 1);
    assert_eq!(setting.payload, Some("np:neigh".to_string()));
    assert!(setting.ordered);
    assert_eq!(setting.concurrency, Some(100));
    assert_eq!(setting.target_strings().len(), 254);
    assert_eq!(setting.target_strings()[0], "192.168.1.1");
}

#[test]
fn neighbor_scan_of_a_gateway_in_the_middle_of_its_network() {
    let setting = HostScanSetting::neighbor_scan_default(&interface(vec![0x0a14_1e80]));
    assert_eq!(setting.targets.len(), 254);
    assert_eq!(setting.targets[0], address(IpAddress::V4(0x0a14_1e01)));
    assert_eq!(setting.targets[253], address(IpAddress::V4(0x0a14_1efe)));
    let top = HostScanSetting::neighbor_scan_default(&interface(vec![u32::MAX]));
    assert_eq!(top.targets[0], address(IpAddress::V4(0xffff_ff01)));
    assert_eq!(top.targets[253], address(IpAddress::V4(0xffff_fffe)));
}

#[test]
fn neighbor_scan_without_a_gateway_has_no_targets() {
    let setting = HostScanSetting::neighbor_scan_default(&interface(vec![]));
    assert!(setting.targets.is_empty());
    assert_eq!(setting.concurrency, Some(100));
}

#[test]
fn an_ordered_setting_is_not_shuffled() {
    let mut setting = HostScanSetting::neighbor_scan_default(&interface(vec![0xc0a8_0101]));
    let before = setting.targets.clone();
    setting.shuffle_targets();
    assert_eq!(setting.targets, before);
}

#[test]
fn shuffling_keeps_the_targets() {
    let mut setting = HostScanSetting::neighbor_scan_default(&interface(vec![0xc0a8_0101]));
    setting.ordered = false;
    let before = setting.targets.clone();
    setting.shuffle_targets();
    assert_ne!(setting.targets, before);
    let mut ips = setting.target_ips();
    ips.sort_by_key(|ip| match ip {
        IpAddress::V4(bits) => *bits as u128,
        IpAddress::V6(bits) => *bits,
    });
    assert_eq!(ips, HostScanSetting { targets: before, ..setting }.target_ips());
}
