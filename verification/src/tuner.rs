//! Concurrency tuner: picks the host- and port-scan concurrency caps from the
//! CPU count, the operating system and an aggressiveness profile.

use crate::text::{is_text, lowercase, lowercase_of};
use vstd::prelude::*;

verus! {

pub const HOSTS_PER_CPU: u128 = 64;

pub const PORTS_PER_CPU: u128 = 200;

pub const MIN_HOSTS: usize = 128;

pub const MAX_HOSTS: usize = 2048;

pub const MIN_PORTS: usize = 300;

pub const MAX_PORTS: usize = 3000;

/// Scan performance profile: how aggressively scanning is performed.
#[derive(Debug, Clone, Copy, PartialEq, Eq, Structural)]
pub enum ScanProfile {
    Conservative,
    Balanced,
    Aggressive,
}

/// Operating system family, as far as scan concurrency depends on it.
#[derive(Debug, Clone, Copy, PartialEq, Eq, Structural)]
pub enum OsFamily {
    Windows,
    Linux,
    Macos,
    Other,
}

/// Final tuned concurrency settings.
#[derive(Debug, Clone, Copy, PartialEq, Eq, Structural)]
pub struct ScanConcurrency {
    pub hosts: usize,
    pub ports: usize,
}

/// The profile that a lowercase name selects; unknown names select the
/// balanced profile.
pub open spec fn profile_named(name: Seq<char>) -> ScanProfile {
    if name == "conservative"@ || name == "slow"@ || name == "low"@ {
        ScanProfile::Conservative
    } else if name == "aggressive"@ || name == "fast"@ || name == "turbo"@ {
        ScanProfile::Aggressive
    } else {
        ScanProfile::Balanced
    }
}

/// The operating system family that a target name selects.
pub open spec fn os_named(name: Seq<char>) -> OsFamily {
    if name == "windows"@ {
        OsFamily::Windows
    } else if name == "linux"@ {
        OsFamily::Linux
    } else if name == "macos"@ {
        OsFamily::Macos
    } else {
        OsFamily::Other
    }
}

impl ScanProfile {
    /// Scaling factor of the profile, in percent.
    pub open spec fn spec_factor(self) -> nat {
        match self {
            ScanProfile::Conservative => 60,
            ScanProfile::Balanced => 100,
            ScanProfile::Aggressive => 140,
        }
    }

    /// Scaling factor of the profile, in percent: 0.6, 1.0 and 1.4 as 60,
    /// 100 and 140.
    pub fn factor(self) -> (percent: u32)
        ensures
            percent == self.spec_factor(),
    {
        match self {
            ScanProfile::Conservative => 60,
            ScanProfile::Balanced => 100,
            ScanProfile::Aggressive => 140,
        }
    }

    /// The profile selected by a name that is already in lowercase.
    pub fn from_name(name: &str) -> (profile: ScanProfile)
        ensures
            profile == profile_named(name@),
    {
        if is_text(name, "conservative") || is_text(name, "slow") || is_text(name, "low") {
            ScanProfile::Conservative
        } else if is_text(name, "aggressive") || is_text(name, "fast") || is_text(name, "turbo") {
            ScanProfile::Aggressive
        } else {
            ScanProfile::Balanced
        }
    }

    /// The profile selected by `value`, the content of the profile variable
    /// of the environment (empty when the variable is unset). Letter case is
    /// ignored.
    pub fn from_env(value: &str) -> (profile: ScanProfile)
        ensures
            profile == profile_named(lowercase_of(value@)),
    {
        let lower = lowercase(value);
        ScanProfile::from_name(lower.as_str())
    }
}

impl OsFamily {
    /// Host-side factor of the operating system, in percent.
    pub open spec fn spec_host_factor(self) -> nat {
        match self {
            OsFamily::Windows => 80,
            OsFamily::Linux => 100,
            OsFamily::Macos => 120,
            OsFamily::Other => 100,
        }
    }

    /// Port-side factor of the operating system, in percent.
    pub open spec fn spec_port_factor(self) -> nat {
        match self {
            OsFamily::Windows => 60,
            OsFamily::Linux => 100,
            OsFamily::Macos => 130,
            OsFamily::Other => 100,
        }
    }

    /// Host-side factor of the operating system, in percent.
    pub fn host_factor(self) -> (percent: u32)
        ensures
            percent == self.spec_host_factor(),
    {
        match self {
            OsFamily::Windows => 80,
            OsFamily::Linux => 100,
            OsFamily::Macos => 120,
            OsFamily::Other => 100,
        }
    }

    /// Port-side factor of the operating system, in percent.
    pub fn port_factor(self) -> (percent: u32)
        ensures
            percent == self.spec_port_factor(),
    {
        match self {
            OsFamily::Windows => 60,
            OsFamily::Linux => 100,
            OsFamily::Macos => 130,
            OsFamily::Other => 100,
        }
    }

    /// The family named by a target operating system name such as `linux`.
    pub fn from_name(name: &str) -> (os: OsFamily)
        ensures
            os == os_named(name@),
    {
        if is_text(name, "windows") {
            OsFamily::Windows
        } else if is_text(name, "linux") {
            OsFamily::Linux
        } else if is_text(name, "macos") {
            OsFamily::Macos
        } else {
            OsFamily::Other
        }
    }
}

/// `value` held between `low` and `high`.
pub open spec fn clamped(value: nat, low: nat, high: nat) -> nat {
    if value < low {
        low
    } else if value > high {
        high
    } else {
        value
    }
}

/// `per_cpu * cpus * os_factor * profile_factor`, the factors given in
/// percent, rounded down.
pub open spec fn scaled(per_cpu: nat, cpus: nat, os_percent: nat, profile_percent: nat) -> nat {
    per_cpu * cpus * os_percent * profile_percent / 10_000
}

/// Host-scan cap for a machine with `cpus` CPUs.
pub open spec fn tuned_hosts(cpus: nat, os: OsFamily, profile: ScanProfile) -> nat {
    clamped(
        scaled(HOSTS_PER_CPU as nat, cpus, os.spec_host_factor(), profile.spec_factor()),
        MIN_HOSTS as nat,
        MAX_HOSTS as nat,
    )
}

/// Port-scan cap for a machine with `cpus` CPUs.
pub open spec fn tuned_ports(cpus: nat, os: OsFamily, profile: ScanProfile) -> nat {
    clamped(
        scaled(PORTS_PER_CPU as nat, cpus, os.spec_port_factor(), profile.spec_factor()),
        MIN_PORTS as nat,
        MAX_PORTS as nat,
    )
}

/// `num_cpus::get`: the number of logical CPUs that the process may use.
/// Nothing is claimed of the number.
#[verifier::external_body]
fn detected_cpus() -> (cpus: usize) {
    num_cpus::get()
}

fn scale(
    per_cpu: u128,
    cpus: usize,
    os_percent: u32,
    profile_percent: u32,
    low: usize,
    high: usize,
) -> (cap: usize)
    requires
        per_cpu <= 1000,
        os_percent <= 1000,
        profile_percent <= 1000,
        low <= high,
    ensures
        cap == clamped(
            scaled(per_cpu as nat, cpus as nat, os_percent as nat, profile_percent as nat),
            low as nat,
            high as nat,
        ),
{
    assert(per_cpu * (cpus as u128) <= 1000 * 0x1_0000_0000_0000_0000) by (nonlinear_arith)
        requires
            per_cpu <= 1000,
            cpus < 0x1_0000_0000_0000_0000,
    ;
    let base: u128 = per_cpu * (cpus as u128);
    assert(base * (os_percent as u128) <= 1000 * 0x1_0000_0000_0000_0000 * 1000) by (nonlinear_arith)
        requires
            base <= 1000 * 0x1_0000_0000_0000_0000,
            os_percent <= 1000,
    ;
    let by_os: u128 = base * (os_percent as u128);
    assert(by_os * (profile_percent as u128) <= 1000 * 0x1_0000_0000_0000_0000 * 1000 * 1000)
        by (nonlinear_arith)
        requires
            by_os <= 1000 * 0x1_0000_0000_0000_0000 * 1000,
            profile_percent <= 1000,
    ;
    let value: u128 = by_os * (profile_percent as u128) / 10_000;
    if value < low as u128 {
        low
    } else if value > high as u128 {
        high
    } else {
        value as usize
    }
}

/// Concurrency caps for a machine with `cpus` CPUs.
pub fn tune(cpus: usize, os: OsFamily, profile: ScanProfile) -> (tuned: ScanConcurrency)
    ensures
        tuned.hosts == tuned_hosts(cpus as nat, os, profile),
        tuned.ports == tuned_ports(cpus as nat, os, profile),
{
    let hosts = scale(HOSTS_PER_CPU, cpus, os.host_factor(), profile.factor(), MIN_HOSTS, MAX_HOSTS);
    let ports = scale(PORTS_PER_CPU, cpus, os.port_factor(), profile.factor(), MIN_PORTS, MAX_PORTS);
    ScanConcurrency { hosts, ports }
}

/// Concurrency caps for this machine: those of `tune` for the detected CPU
/// count, taken as one where none is detected.
pub fn calc_scan_concurrency(profile: ScanProfile, os: OsFamily) -> (tuned: ScanConcurrency)
    ensures
        exists|cpus: nat|
            cpus >= 1 && tuned.hosts == #[trigger] tuned_hosts(cpus, os, profile) && tuned.ports
                == tuned_ports(cpus, os, profile),
        MIN_HOSTS <= tuned.hosts <= MAX_HOSTS,
        MIN_PORTS <= tuned.ports <= MAX_PORTS,
{
    let detected = detected_cpus();
    let cpus: usize = if detected >= 1 { detected } else { 1 };
    tune(cpus, os, profile)
}

/// Host-scan concurrency cap of tuned settings.
pub fn hosts_concurrency(tuned: &ScanConcurrency) -> (cap: usize)
    ensures
        cap == tuned.hosts,
{
    tuned.hosts
}

/// Port-scan concurrency cap of tuned settings.
pub fn ports_concurrency(tuned: &ScanConcurrency) -> (cap: usize)
    ensures
        cap == tuned.ports,
{
    tuned.ports
}

/// The tuner stays within its clamps, and a more aggressive profile never
/// lowers a cap: aggressive >= balanced >= conservative, for hosts and for
/// ports.
pub proof fn lemma_tuner_bounds_and_order(cpus: nat, os: OsFamily)
    ensures
        forall|profile: ScanProfile|
            MIN_HOSTS <= #[trigger] tuned_hosts(cpus, os, profile) <= MAX_HOSTS,
        forall|profile: ScanProfile|
            MIN_PORTS <= #[trigger] tuned_ports(cpus, os, profile) <= MAX_PORTS,
        tuned_hosts(cpus, os, ScanProfile::Conservative) <= tuned_hosts(
            cpus,
            os,
            ScanProfile::Balanced,
        ) <= tuned_hosts(cpus, os, ScanProfile::Aggressive),
        tuned_ports(cpus, os, ScanProfile::Conservative) <= tuned_ports(
            cpus,
            os,
            ScanProfile::Balanced,
        ) <= tuned_ports(cpus, os, ScanProfile::Aggressive),
{
    let h = HOSTS_PER_CPU as nat * cpus * os.spec_host_factor();
    let p = PORTS_PER_CPU as nat * cpus * os.spec_port_factor();
    lemma_scaling_grows(h, 60, 100);
    lemma_scaling_grows(h, 100, 140);
    lemma_scaling_grows(p, 60, 100);
    lemma_scaling_grows(p, 100, 140);
}

proof fn lemma_scaling_grows(base: nat, low: nat, high: nat)
    requires
        low <= high,
    ensures
        base * low / 10_000 <= base * high / 10_000,
{
    assert(base * low <= base * high) by (nonlinear_arith)
        requires
            low <= high,
    ;
}

} // verus!
