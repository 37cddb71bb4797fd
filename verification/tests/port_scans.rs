use netpulse_core::addr::IpAddress;
use netpulse_core::command::port_scan_step;
use netpulse_core::endpoint::{Port, TransportProtocol};
use netpulse_core::model::{
    PortScanProtocol, PortScanSetting, PortState, TargetPortsPreset,
};
use netpulse_core::ports::PortCatalog;
use netpulse_core::portscan::{
    detection_config, transport, ConnectError, ConnectOutcome, PortScan, PortServiceResult,
};
use netpulse_core::service::ServiceInfo;

const LOCALHOST: IpAddress = IpAddress::V4(0x7f00_0001);

fn catalog() -> PortCatalog {
    PortCatalog { common: vec![80, 443], well_known: vec![], top1000: vec![] }
}

fn setting(protocol: PortScanProtocol, ports: &[u16]) -> PortScanSetting {
    PortScanSetting {
        ip_addr: LOCALHOST,
        hostname: Some("localhost".to_string()),
        target_ports_preset: TargetPortsPreset::Custom,
        user_ports: ports.to_vec(),
        protocol,
        timeout_ms: 500,
        ordered: true,
        service_detection: true,
    }
}

fn failed(error: ConnectError) -> ConnectOutcome {
    ConnectOutcome::Failed { error, message: "no".to_string() }
}

#[test]
fn tcp_scan_with_one_listener() {
    let (mut scan, ports) = PortScan::begin("run-1".to_string(), &setting(PortScanProtocol::Tcp, &[1, 22, 65000]), &catalog());
    assert_eq!(ports, vec![1, 22, 65000]);
    assert_eq!(scan.total(), 3);
    assert_eq!(scan.done(), 0);
    assert_eq!(scan.run_id(), "run-1");
    assert_eq!(scan.ip_addr(), LOCALHOST);
    assert_eq!(scan.hostname(), &Some("localhost".to_string()));

    let first = netpulse_core::tcp::port_scan(&mut scan, 1, failed(ConnectError::ConnectionRefused), 0).unwrap();
    assert_eq!(first.sample.port, 1);
    assert_eq!(first.sample.ip_addr, LOCALHOST);
    assert_eq!(first.sample.state, PortState::Closed);
    assert_eq!(first.sample.rtt_ms, None);
    assert_eq!(first.sample.message, Some("no".to_string()));
    assert_eq!((first.sample.done, first.sample.total), (1, 3));
    assert!(!first.emit_open);
    assert_eq!(first.progress, Some((1, 3)));
    assert!(!first.finished);

    let second = netpulse_core::tcp::port_scan(&mut scan, 22, ConnectOutcome::Connected { rtt_ms: 4 }, 1).unwrap();
    assert_eq!(second.sample.state, PortState::Open);
    assert_eq!(second.sample.rtt_ms, Some(4));
    assert_eq!(second.sample.message, None);
    assert_eq!(second.sample.service_name, None);
    assert!(second.emit_open);
    assert_eq!(second.progress, Some((2, 3)));

    let third = netpulse_core::tcp::port_scan(&mut scan, 65000, failed(ConnectError::TimedOut), 2).unwrap();
    assert_eq!(third.sample.state, PortState::Filtered);
    assert_eq!(third.progress, Some((3, 3)));
    assert!(third.finished);
    assert_eq!(scan.done(), 3);

    let report = scan.report();
    assert_eq!(report.run_id, "run-1");
    assert_eq!(report.ip_addr, LOCALHOST);
    assert_eq!(report.hostname, Some("localhost".to_string()));
    assert_eq!(report.protocol, PortScanProtocol::Tcp);
    assert_eq!(report.samples.len(), 1);
    let open = &report.samples[0];
    assert_eq!(open.port, 22);
    assert_eq!(open.state, PortState::Open);
    assert_eq!(open.rtt_ms, Some(4));
    assert_eq!(open.service_name, Some("ssh".to_string()));
    assert_eq!((open.done, open.total), (2, 3));
}

#[test]
fn quic_scan_of_a_closed_port() {
    let mut wanted = setting(PortScanProtocol::Quic, &[4433]);
    wanted.service_detection = false;
    let (mut scan, ports) = PortScan::begin("run-2".to_string(), &wanted, &catalog());
    assert_eq!(ports, vec![4433]);
    let step = netpulse_core::quic::port_scan(&mut scan, 4433, failed(ConnectError::Other), 10).unwrap();
    assert_eq!(step.sample.state, PortState::Closed);
    assert_eq!(step.progress, Some((1, 1)));
    assert!(step.finished);
    assert!(!step.emit_open);
    assert!(scan.detection_request().is_none());
    let report = scan.report();
    assert!(report.samples.is_empty());
    assert_eq!(report.protocol, PortScanProtocol::Quic);
}

#[test]
fn tcp_outcomes_are_classified() {
    let cases = [
        (ConnectError::TimedOut, PortState::Filtered),
        (ConnectError::ConnectionRefused, PortState::Closed),
        (ConnectError::ConnectionReset, PortState::Closed),
        (ConnectError::NotConnected, PortState::Closed),
        (ConnectError::NetworkUnreachable, PortState::Filtered),
        (ConnectError::HostUnreachable, PortState::Filtered),
        (ConnectError::AddrNotAvailable, PortState::Filtered),
        (ConnectError::Other, PortState::Closed),
    ];
    for (error, state) in cases {
        let verdict = netpulse_core::tcp::classify(ConnectOutcome::Failed { error, message: "why".to_string() });
        assert_eq!(verdict.state, state, "{:?}", error);
        assert_eq!(verdict.rtt_ms, None);
        assert_eq!(verdict.message, Some("why".to_string()));
    }
    let open = netpulse_core::tcp::classify(ConnectOutcome::Connected { rtt_ms: 0 });
    assert_eq!((open.state, open.rtt_ms, open.message), (PortState::Open, Some(0), None));
    let none = netpulse_core::tcp::classify(ConnectOutcome::NoSocket { message: "too many files".to_string() });
    assert_eq!(none.state, PortState::Filtered);
    assert_eq!(none.rtt_ms, None);
    assert_eq!(none.message, Some("tcp socket error: too many files".to_string()));
}

#[test]
fn quic_outcomes_are_classified() {
    let cases = [
        (ConnectError::TimedOut, PortState::Filtered),
        (ConnectError::ConnectionRefused, PortState::Closed),
        (ConnectError::ConnectionReset, PortState::Closed),
        (ConnectError::NotConnected, PortState::Closed),
        (ConnectError::NetworkUnreachable, PortState::Closed),
        (ConnectError::HostUnreachable, PortState::Closed),
        (ConnectError::AddrNotAvailable, PortState::Closed),
        (ConnectError::Other, PortState::Closed),
    ];
    for (error, state) in cases {
        let verdict = netpulse_core::quic::classify(ConnectOutcome::Failed { error, message: "why".to_string() });
        assert_eq!(verdict.state, state, "{:?}", error);
        assert_eq!(verdict.rtt_ms, None);
        assert_eq!(verdict.message, Some("why".to_string()));
    }
    let open = netpulse_core::quic::classify(ConnectOutcome::Connected { rtt_ms: 12 });
    assert_eq!((open.state, open.rtt_ms, open.message), (PortState::Open, Some(12), None));
    let none = netpulse_core::quic::classify(ConnectOutcome::NoSocket { message: "bind".to_string() });
    assert_eq!(none.state, PortState::Filtered);
    assert_eq!(none.message, Some("quic endpoint error: bind".to_string()));
    assert_eq!(netpulse_core::quic::alpn_protocols(), vec!["h3", "hq-29", "hq-interop"]);
}

#[test]
fn outcomes_that_are_not_awaited_are_dropped() {
    let (mut scan, _) = PortScan::begin("run-3".to_string(), &setting(PortScanProtocol::Tcp, &[80, 443]), &catalog());
    assert!(netpulse_core::tcp::port_scan(&mut scan, 8080, ConnectOutcome::Connected { rtt_ms: 1 }, 0).is_none());
    assert!(netpulse_core::tcp::port_scan(&mut scan, 80, ConnectOutcome::Connected { rtt_ms: 1 }, 0).is_some());
    assert!(netpulse_core::tcp::port_scan(&mut scan, 80, ConnectOutcome::Connected { rtt_ms: 1 }, 0).is_none());
    assert_eq!(scan.done(), 1);
    assert_eq!(scan.report().samples.len(), 1);
}

#[test]
fn open_ports_are_reported_in_ascending_order() {
    let wanted = setting(PortScanProtocol::Tcp, &[9000, 443, 22, 8080, 80]);
    let (mut scan, ports) = PortScan::begin("run-4".to_string(), &wanted, &catalog());
    assert_eq!(ports, vec![22, 80, 443, 8080, 9000]);
    for port in [443u16, 9000, 22, 8080, 80] {
        let outcome = if port == 8080 {
            failed(ConnectError::ConnectionRefused)
        } else {
            ConnectOutcome::Connected { rtt_ms: port as u64 }
        };
        assert!(port_scan_step(&mut scan, port, outcome, 0).is_some());
    }
    let report = scan.report();
    let found: Vec<(u16, Option<u64>, Option<String>)> =
        report.samples.iter().map(|s| (s.port, s.rtt_ms, s.service_name.clone())).collect();
    assert_eq!(
        found,
        vec![
            (22, Some(22), Some("ssh".to_string())),
            (80, Some(80), Some("http".to_string())),
            (443, Some(443), Some("https".to_string())),
            (9000, Some(9000), netpulse_core::names::ServiceNames::bundled(PortScanProtocol::Tcp).lookup(9000)),
        ]
    );
    assert!(report.samples.iter().all(|s| s.state == PortState::Open));
}

#[test]
fn the_step_follows_the_protocol_of_the_scan() {
    // An unreachable network is filtered for TCP and closed for QUIC.
    let (mut tcp, _) = PortScan::begin("t".to_string(), &setting(PortScanProtocol::Tcp, &[53]), &catalog());
    let (mut quic, _) = PortScan::begin("q".to_string(), &setting(PortScanProtocol::Quic, &[53, 54]), &catalog());
    assert_eq!(tcp.protocol(), PortScanProtocol::Tcp);
    assert_eq!(quic.protocol(), PortScanProtocol::Quic);
    let a = port_scan_step(&mut tcp, 53, failed(ConnectError::NetworkUnreachable), 0).unwrap();
    let b = port_scan_step(&mut quic, 53, failed(ConnectError::NetworkUnreachable), 0).unwrap();
    assert_eq!(a.sample.state, PortState::Filtered);
    assert_eq!(b.sample.state, PortState::Closed);
    // The QUIC scan looks names up among the UDP services.
    port_scan_step(&mut quic, 54, ConnectOutcome::Connected { rtt_ms: 1 }, 0).unwrap();
    let mut again = PortScan::begin("q".to_string(), &setting(PortScanProtocol::Quic, &[53]), &catalog()).0;
    port_scan_step(&mut again, 53, ConnectOutcome::Connected { rtt_ms: 1 }, 0).unwrap();
    assert_eq!(again.report().samples[0].service_name, Some("domain".to_string()));
}

#[test]
fn unordered_scans_probe_the_same_ports_in_another_order() {
    let mut wanted = setting(PortScanProtocol::Tcp, &[]);
    wanted.target_ports_preset = TargetPortsPreset::Full;
    wanted.ordered = false;
    let (scan, ports) = PortScan::begin("run-5".to_string(), &wanted, &catalog());
    assert_eq!(scan.total(), 65535);
    let ascending: Vec<u16> = (1..=65535).collect();
    assert_ne!(ports, ascending);
    let mut sorted = ports.clone();
    sorted.sort();
    assert_eq!(sorted, ascending);
}

#[test]
fn service_detection_gets_the_open_ports_and_gives_back_information() {
    let (mut scan, _) = PortScan::begin("run-6".to_string(), &setting(PortScanProtocol::Tcp, &[80, 22, 443]), &catalog());
    assert!(scan.detection_request().is_none());
    for port in [443u16, 22, 80] {
        let outcome = if port == 80 { failed(ConnectError::TimedOut) } else { ConnectOutcome::Connected { rtt_ms: 1 } };
        netpulse_core::tcp::port_scan(&mut scan, port, outcome, 0);
    }
    let endpoint = scan.detection_request().unwrap();
    assert_eq!(endpoint.ip, LOCALHOST);
    assert_eq!(endpoint.hostname, Some("localhost".to_string()));
    assert_eq!(
        endpoint.ports,
        vec![
            Port { number: 22, transport: TransportProtocol::Tcp },
            Port { number: 443, transport: TransportProtocol::Tcp },
        ]
    );
    let named = |name: &str| ServiceInfo { name: Some(name.to_string()), ..ServiceInfo::default() };
    scan.attach_services(vec![
        PortServiceResult { port: 443, service_info: named("first") },
        PortServiceResult { port: 8443, service_info: named("stray") },
        PortServiceResult { port: 443, service_info: named("second") },
    ]);
    let report = scan.report();
    assert_eq!(report.samples[0].port, 22);
    assert!(report.samples[0].service_info.is_none());
    assert_eq!(report.samples[1].port, 443);
    assert_eq!(report.samples[1].service_info.as_ref().unwrap().name, Some("first".to_string()));
}

#[test]
fn service_detection_is_skipped_unless_asked_for() {
    let mut wanted = setting(PortScanProtocol::Quic, &[443]);
    wanted.service_detection = false;
    let (mut scan, _) = PortScan::begin("run-7".to_string(), &wanted, &catalog());
    netpulse_core::quic::port_scan(&mut scan, 443, ConnectOutcome::Connected { rtt_ms: 1 }, 0);
    assert!(scan.detection_request().is_none());
    wanted.service_detection = true;
    let (mut asked, _) = PortScan::begin("run-8".to_string(), &wanted, &catalog());
    netpulse_core::quic::port_scan(&mut asked, 443, ConnectOutcome::Connected { rtt_ms: 1 }, 0);
    let endpoint = asked.detection_request().unwrap();
    assert_eq!(endpoint.ports, vec![Port { number: 443, transport: TransportProtocol::Quic }]);
}

#[test]
fn detector_settings() {
    let config = detection_config();
    assert_eq!(config.timeout_ms, 2000);
    assert_eq!(config.max_concurrency, 100);
    assert_eq!(config.max_read_size, 1024 * 1024);
    assert!(config.sni);
    assert!(config.skip_cert_verify);
    assert_eq!(transport(PortScanProtocol::Tcp), TransportProtocol::Tcp);
    assert_eq!(transport(PortScanProtocol::Quic), TransportProtocol::Quic);
}

#[test]
fn progress_of_a_large_scan_is_throttled() {
    let mut wanted = setting(PortScanProtocol::Tcp, &[]);
    wanted.target_ports_preset = TargetPortsPreset::Full;
    let (mut scan, ports) = PortScan::begin("run-9".to_string(), &wanted, &catalog());
    let mut events = 0;
    for port in ports {
        let step = netpulse_core::tcp::port_scan(&mut scan, port, failed(ConnectError::ConnectionRefused), 0).unwrap();
        if step.progress.is_some() {
            events += 1;
        }
    }
    // Step is 655: 100 emissions by count, and the final one.
    assert_eq!(events, 101);
    assert_eq!(scan.done(), 65535);
    assert!(scan.report().samples.is_empty());
}
