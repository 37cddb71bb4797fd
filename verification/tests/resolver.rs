use netpulse_core::addr::{Host, IpAddress};
use netpulse_core::dns::{
    hostnames_to_resolve, lookup_domain, lookup_host, resolve_hosts, NameLookup, ResolveError,
    TargetSet, LOOKUP_CONCURRENCY, LOOKUP_TIMEOUT_MS,
};

const LOCALHOST: IpAddress = IpAddress::V4(0x7f00_0001);
const LOOPBACK6: IpAddress = IpAddress::V6(1);

fn texts(items: &[&str]) -> Vec<String> {
    items.iter().map(|s| s.to_string()).collect()
}

#[test]
fn mixed_input_resolves_each_address_once() {
    let inputs = texts(&["127.0.0.1", "localhost", "   "]);
    assert_eq!(hostnames_to_resolve(&inputs), texts(&["localhost"]));
    let lookups = vec![NameLookup { hostname: "localhost".to_string(), ips: vec![LOCALHOST, LOOPBACK6] }];
    let hosts = resolve_hosts(&inputs, &lookups);
    assert_eq!(
        hosts.hosts(),
        &vec![
            Host { ip: LOCALHOST, hostname: None },
            Host { ip: LOOPBACK6, hostname: Some("localhost".to_string()) },
        ]
    );
    assert_eq!(hosts.len(), 2);
}

#[test]
fn literals_keep_input_order_and_first_occurrence_wins() {
    let inputs = texts(&[" 10.0.0.2 ", "a.example", "10.0.0.1", "10.0.0.2", "::1", "b.example", ""]);
    assert_eq!(hostnames_to_resolve(&inputs), texts(&["a.example", "b.example"]));
    let lookups = vec![
        NameLookup { hostname: "b.example".to_string(), ips: vec![IpAddress::V4(0x0a00_0003), IpAddress::V4(0x0a00_0001)] },
        NameLookup { hostname: "a.example".to_string(), ips: vec![IpAddress::V4(0x0a00_0003), IpAddress::V4(0x0a00_0004)] },
    ];
    let hosts = resolve_hosts(&inputs, &lookups).into_hosts();
    assert_eq!(
        hosts,
        vec![
            Host { ip: IpAddress::V4(0x0a00_0002), hostname: None },
            Host { ip: IpAddress::V4(0x0a00_0001), hostname: None },
            Host { ip: LOOPBACK6, hostname: None },
            Host { ip: IpAddress::V4(0x0a00_0003), hostname: Some("b.example".to_string()) },
            Host { ip: IpAddress::V4(0x0a00_0004), hostname: Some("a.example".to_string()) },
        ]
    );
}

#[test]
fn failed_lookups_add_nothing() {
    let inputs = texts(&["nowhere.invalid"]);
    let lookups = vec![NameLookup { hostname: "nowhere.invalid".to_string(), ips: vec![] }];
    assert_eq!(resolve_hosts(&inputs, &lookups).len(), 0);
    assert_eq!(resolve_hosts(&inputs, &vec![]).len(), 0);
}

#[test]
fn an_address_of_each_family_is_kept_apart() {
    // 0.0.0.1 and ::1 have the same bits but are different addresses.
    let mut set = TargetSet::new();
    assert!(set.add(Host { ip: IpAddress::V4(1), hostname: None }));
    assert!(set.add(Host { ip: IpAddress::V6(1), hostname: None }));
    assert!(!set.add(Host { ip: IpAddress::V4(1), hostname: Some("again".to_string()) }));
    assert!(set.contains(IpAddress::V4(1)));
    assert!(set.contains(IpAddress::V6(1)));
    assert!(!set.contains(IpAddress::V4(2)));
    assert_eq!(set.len(), 2);
    assert_eq!(set.hosts()[0].hostname, None);
}

#[test]
fn large_target_sets_are_built_quickly() {
    let mut set = TargetSet::new();
    for bits in 0..200_000u32 {
        assert!(set.add(Host { ip: IpAddress::V4(bits), hostname: None }));
    }
    for bits in 0..200_000u32 {
        assert!(!set.add(Host { ip: IpAddress::V4(bits), hostname: None }));
    }
    assert_eq!(set.len(), 200_000);
}

#[test]
fn looking_up_a_literal_uses_the_reverse_name() {
    let found = lookup_host("127.0.0.1", Some("localhost".to_string()), &vec![]);
    assert_eq!(found, Ok(Host { ip: LOCALHOST, hostname: Some("localhost".to_string()) }));
    let unnamed = lookup_host("::1", None, &vec![LOCALHOST]);
    assert_eq!(unnamed, Ok(Host { ip: LOOPBACK6, hostname: Some("::1".to_string()) }));
}

#[test]
fn looking_up_a_name_takes_the_first_address() {
    let found = lookup_host("example.com", Some("ignored".to_string()), &vec![LOOPBACK6, LOCALHOST]);
    assert_eq!(found, Ok(Host { ip: LOOPBACK6, hostname: Some("example.com".to_string()) }));
    let missing = lookup_host("example.com", None, &vec![]);
    assert_eq!(missing, Err(ResolveError::NotResolved));
    assert_eq!(ResolveError::NotResolved.message(), "failed to resolve host");
    // The host is not trimmed: with blanks around it, it is a name.
    let padded = lookup_host(" 127.0.0.1", None, &vec![]);
    assert_eq!(padded, Err(ResolveError::NotResolved));
}

#[test]
fn a_domain_lists_what_its_lookup_returned() {
    let domain = lookup_domain("example.com", Some(vec![LOCALHOST]));
    assert_eq!(domain.name, "example.com");
    assert_eq!(domain.ips, vec![LOCALHOST]);
    assert_eq!(lookup_domain("example.com", None).ips, Vec::<IpAddress>::new());
}

#[test]
fn lookup_limits() {
    assert_eq!(LOOKUP_TIMEOUT_MS, 1000);
    assert_eq!(LOOKUP_CONCURRENCY, 64);
}
