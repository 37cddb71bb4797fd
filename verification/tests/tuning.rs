use netpulse_core::tuner::{
    calc_scan_concurrency, hosts_concurrency, ports_concurrency, tune, OsFamily, ScanConcurrency,
    ScanProfile,
};

#[test]
fn factors_are_percentages() {
    assert_eq!(ScanProfile::Conservative.factor(), 60);
    assert_eq!(ScanProfile::Balanced.factor(), 100);
    assert_eq!(ScanProfile::Aggressive.factor(), 140);
    assert_eq!(OsFamily::Windows.host_factor(), 80);
    assert_eq!(OsFamily::Linux.host_factor(), 100);
    assert_eq!(OsFamily::Macos.host_factor(), 120);
    assert_eq!(OsFamily::Other.host_factor(), 100);
    assert_eq!(OsFamily::Windows.port_factor(), 60);
    assert_eq!(OsFamily::Linux.port_factor(), 100);
    assert_eq!(OsFamily::Macos.port_factor(), 130);
    assert_eq!(OsFamily::Other.port_factor(), 100);
}

#[test]
fn caps_follow_the_formula() {
    let four = |os, profile| tune(4, os, profile);
    assert_eq!(four(OsFamily::Linux, ScanProfile::Balanced), ScanConcurrency { hosts: 256, ports: 800 });
    assert_eq!(four(OsFamily::Linux, ScanProfile::Conservative), ScanConcurrency { hosts: 153, ports: 480 });
    assert_eq!(four(OsFamily::Linux, ScanProfile::Aggressive), ScanConcurrency { hosts: 358, ports: 1120 });
    assert_eq!(four(OsFamily::Windows, ScanProfile::Balanced), ScanConcurrency { hosts: 204, ports: 480 });
    assert_eq!(four(OsFamily::Macos, ScanProfile::Balanced), ScanConcurrency { hosts: 307, ports: 1040 });
    assert_eq!(four(OsFamily::Macos, ScanProfile::Aggressive), ScanConcurrency { hosts: 430, ports: 1456 });
    assert_eq!(four(OsFamily::Other, ScanProfile::Balanced), ScanConcurrency { hosts: 256, ports: 800 });
}

#[test]
fn caps_are_clamped() {
    assert_eq!(tune(1, OsFamily::Linux, ScanProfile::Balanced), ScanConcurrency { hosts: 128, ports: 300 });
    assert_eq!(tune(0, OsFamily::Linux, ScanProfile::Balanced), ScanConcurrency { hosts: 128, ports: 300 });
    assert_eq!(tune(64, OsFamily::Linux, ScanProfile::Balanced), ScanConcurrency { hosts: 2048, ports: 3000 });
    assert_eq!(tune(usize::MAX, OsFamily::Macos, ScanProfile::Aggressive), ScanConcurrency { hosts: 2048, ports: 3000 });
    assert_eq!(tune(32, OsFamily::Linux, ScanProfile::Balanced).hosts, 2048);
    assert_eq!(tune(15, OsFamily::Linux, ScanProfile::Balanced).ports, 3000);
    assert_eq!(tune(2, OsFamily::Linux, ScanProfile::Balanced), ScanConcurrency { hosts: 128, ports: 400 });
}

#[test]
fn a_more_aggressive_profile_never_lowers_a_cap() {
    for cpus in 0..200usize {
        for os in [OsFamily::Windows, OsFamily::Linux, OsFamily::Macos, OsFamily::Other] {
            let c = tune(cpus, os, ScanProfile::Conservative);
            let b = tune(cpus, os, ScanProfile::Balanced);
            let a = tune(cpus, os, ScanProfile::Aggressive);
            assert!(c.hosts <= b.hosts && b.hosts <= a.hosts);
            assert!(c.ports <= b.ports && b.ports <= a.ports);
            for t in [c, b, a] {
                assert!((128..=2048).contains(&t.hosts));
                assert!((300..=3000).contains(&t.ports));
            }
        }
    }
}

#[test]
fn profile_names_ignore_case() {
    for name in ["conservative", "slow", "low", "SLOW", "Conservative", "LoW"] {
        assert_eq!(ScanProfile::from_env(name), ScanProfile::Conservative, "{}", name);
    }
    for name in ["aggressive", "fast", "turbo", "FAST", "Turbo", "AGGRESSIVE"] {
        assert_eq!(ScanProfile::from_env(name), ScanProfile::Aggressive, "{}", name);
    }
    for name in ["", "balanced", "BALANCED", "nonsense", " slow", "slow ", "fastest"] {
        assert_eq!(ScanProfile::from_env(name), ScanProfile::Balanced, "{:?}", name);
    }
}

#[test]
fn lowercase_names_are_matched_exactly() {
    assert_eq!(ScanProfile::from_name("slow"), ScanProfile::Conservative);
    assert_eq!(ScanProfile::from_name("SLOW"), ScanProfile::Balanced);
    assert_eq!(ScanProfile::from_name("turbo"), ScanProfile::Aggressive);
}

#[test]
fn operating_systems_by_name() {
    assert_eq!(OsFamily::from_name("windows"), OsFamily::Windows);
    assert_eq!(OsFamily::from_name("linux"), OsFamily::Linux);
    assert_eq!(OsFamily::from_name("macos"), OsFamily::Macos);
    assert_eq!(OsFamily::from_name("freebsd"), OsFamily::Other);
    assert_eq!(OsFamily::from_name(""), OsFamily::Other);
}

#[test]
fn tuning_this_machine_stays_within_the_clamps() {
    for profile in [ScanProfile::Conservative, ScanProfile::Balanced, ScanProfile::Aggressive] {
        let tuned = calc_scan_concurrency(profile, OsFamily::Linux);
        assert!((128..=2048).contains(&hosts_concurrency(&tuned)));
        assert!((300..=3000).contains(&ports_concurrency(&tuned)));
        assert_eq!(tuned, tune(num_cpus::get().max(1), OsFamily::Linux, profile));
    }
}
