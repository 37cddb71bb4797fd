//! Settings, samples and reports of the scans.

use crate::addr::{target_views, Host, IpAddress, MaybeHost, MaybeHostView};
use crate::dns::{
    has_ip, is_literal, lemma_resolved, literal_of, lookup_views, resolve_hosts, resolved,
    NameLookup, NameLookupView, TargetSet,
};
use crate::interface::{subnet_hosts, subnet_hosts_of, InterfaceInfo, NEIGHBOR_PREFIX};
use crate::literal::{ip_text, parse_ip};
use crate::literal_laws::{lemma_text_is_trimmed, lemma_text_reads_back};
use crate::random::shuffle;
use crate::service::ServiceInfo;
use crate::text::{text_of, texts_of, trimmed, trimmed_of};
use vstd::prelude::*;
use vstd::string::StringExecFns;
use vstd::utf8::encode_utf8;

verus! {

/// How a port scan probes a port.
#[derive(Debug, Clone, Copy, PartialEq, Eq, Structural)]
pub enum PortScanProtocol {
    Tcp,
    Quic,
}

/// Which ports a port scan covers.
#[derive(Debug, Clone, Copy, PartialEq, Eq, Structural)]
pub enum TargetPortsPreset {
    Common,
    WellKnown,
    Full,
    Top1000,
    Custom,
}

/// What a probe found out about a port.
#[derive(Debug, Clone, Copy, PartialEq, Eq, Structural)]
pub enum PortState {
    Open,
    Closed,
    Filtered,
}

/// Payload of the event that opens a port scan.
#[derive(Debug, Clone)]
pub struct PortScanStartPayload {
    pub run_id: String,
}

/// Result of probing one port. `done` and `total` are the progress of the
/// scan at the moment the sample was made.
#[derive(Debug, Clone)]
pub struct PortScanSample {
    pub ip_addr: IpAddress,
    pub port: u16,
    pub state: PortState,
    pub rtt_ms: Option<u64>,
    pub message: Option<String>,
    pub service_name: Option<String>,
    pub service_info: Option<ServiceInfo>,
    pub done: u32,
    pub total: u32,
}

/// A port-scan sample with its texts as sequences of characters.
pub struct PortScanSampleView {
    pub ip_addr: IpAddress,
    pub port: u16,
    pub state: PortState,
    pub rtt_ms: Option<u64>,
    pub message: Option<Seq<char>>,
    pub service_name: Option<Seq<char>>,
    pub service_info: Option<ServiceInfo>,
    pub done: u32,
    pub total: u32,
}

impl View for PortScanSample {
    type V = PortScanSampleView;

    open spec fn view(&self) -> PortScanSampleView {
        PortScanSampleView {
            ip_addr: self.ip_addr,
            port: self.port,
            state: self.state,
            rtt_ms: self.rtt_ms,
            message: text_of(self.message),
            service_name: text_of(self.service_name),
            service_info: self.service_info,
            done: self.done,
            total: self.total,
        }
    }
}

/// The samples of a list, each with its texts as sequences of characters.
pub open spec fn sample_views(samples: Seq<PortScanSample>) -> Seq<PortScanSampleView> {
    samples.map_values(|sample: PortScanSample| sample@)
}

/// Final report of a port scan: the open ports, in ascending order.
#[derive(Debug, Clone)]
pub struct PortScanReport {
    pub run_id: String,
    pub ip_addr: IpAddress,
    pub hostname: Option<String>,
    pub protocol: PortScanProtocol,
    pub samples: Vec<PortScanSample>,
}

/// Settings for a port scan operation.
#[derive(Debug, Clone)]
pub struct PortScanSetting {
    pub ip_addr: IpAddress,
    pub hostname: Option<String>,
    pub target_ports_preset: TargetPortsPreset,
    pub user_ports: Vec<u16>,
    pub protocol: PortScanProtocol,
    pub timeout_ms: u64,
    pub ordered: bool,
    pub service_detection: bool,
}

/// What a host scan found out about a host.
#[derive(Debug, Clone, Copy, PartialEq, Eq, Structural)]
pub enum HostState {
    Alive,
    Unreachable,
}

/// Settings for a host scan operation.
#[derive(Debug, Clone)]
pub struct HostScanSetting {
    pub targets: Vec<MaybeHost>,
    pub hop_limit: u8,
    pub timeout_ms: u64,
    pub count: u32,
    pub payload: Option<String>,
    pub ordered: bool,
    pub concurrency: Option<usize>,
}

/// The target that an input stands for: none for a blank input, an address
/// for an address literal, and a host name for anything else. White space
/// around the input does not count.
pub open spec fn target_of(input: Seq<char>) -> Option<MaybeHostView> {
    let inner = trimmed_of(input);
    if inner.len() == 0 {
        None
    } else {
        match parse_ip(encode_utf8(inner)) {
            Some(ip) => Some(MaybeHostView { ip: Some(ip), hostname: None }),
            None => Some(MaybeHostView { ip: None, hostname: Some(inner) }),
        }
    }
}

/// The targets that the inputs stand for, in input order.
pub open spec fn targets_of(inputs: Seq<Seq<char>>) -> Seq<MaybeHostView>
    decreases inputs.len(),
{
    if inputs.len() == 0 {
        Seq::empty()
    } else {
        match target_of(inputs.last()) {
            Some(target) => targets_of(inputs.drop_last()).push(target),
            None => targets_of(inputs.drop_last()),
        }
    }
}

/// The text of a target: its address in canonical form, or else its trimmed
/// name; none for a target that has neither or whose name is blank.
pub open spec fn string_of(target: MaybeHostView) -> Option<Seq<char>> {
    match (target.ip, target.hostname) {
        (Some(ip), _) => Some(ip_text(ip)),
        (None, Some(name)) => if trimmed_of(name).len() > 0 {
            Some(trimmed_of(name))
        } else {
            None
        },
        (None, None) => None,
    }
}

/// The texts of the targets that have one, in order.
pub open spec fn strings_of(targets: Seq<MaybeHostView>) -> Seq<Seq<char>>
    decreases targets.len(),
{
    if targets.len() == 0 {
        Seq::empty()
    } else {
        match string_of(targets.last()) {
            Some(text) => strings_of(targets.drop_last()).push(text),
            None => strings_of(targets.drop_last()),
        }
    }
}

/// The addresses of the targets that have one, in order.
pub open spec fn ips_of(targets: Seq<MaybeHostView>) -> Seq<IpAddress>
    decreases targets.len(),
{
    if targets.len() == 0 {
        Seq::empty()
    } else {
        match targets.last().ip {
            Some(ip) => ips_of(targets.drop_last()).push(ip),
            None => ips_of(targets.drop_last()),
        }
    }
}

/// The targets of a neighbor scan behind the gateway address `gateway`: the
/// hosts of its `/24` network.
pub open spec fn neighbor_targets(gateway: u32) -> Seq<MaybeHostView> {
    Seq::new(
        254,
        |i: int|
            MaybeHostView { ip: Some(IpAddress::V4(subnet_hosts_of(gateway)[i])), hostname: None },
    )
}

/// The text of a target that has one is among the texts of the targets.
proof fn lemma_strings_hold(targets: Seq<MaybeHostView>, k: int)
    requires
        0 <= k < targets.len(),
        string_of(targets[k]) is Some,
    ensures
        exists|j: int|
            0 <= j < strings_of(targets).len() && #[trigger] strings_of(targets)[j] == string_of(
                targets[k],
            )->Some_0,
    decreases targets.len(),
{
    let all = strings_of(targets);
    let front = targets.drop_last();
    if k == targets.len() - 1 {
        assert(all[all.len() - 1] == string_of(targets[k])->Some_0);
    } else {
        lemma_strings_hold(front, k);
        let j = choose|j: int|
            0 <= j < strings_of(front).len() && #[trigger] strings_of(front)[j] == string_of(
                front[k],
            )->Some_0;
        assert(all[j] == strings_of(front)[j]);
    }
}

/// No address is lost on the way from the targets to the hosts: every
/// address among the targets of a setting is among the hosts that the
/// targets resolve to, whatever the lookups return.
pub proof fn lemma_addresses_resolve(
    targets: Seq<MaybeHostView>,
    lookups: Seq<NameLookupView>,
    k: int,
)
    requires
        0 <= k < targets.len(),
        targets[k].ip is Some,
    ensures
        has_ip(resolved(strings_of(targets), lookups), targets[k].ip->Some_0),
{
    let ip = targets[k].ip->Some_0;
    let inputs = strings_of(targets);
    lemma_strings_hold(targets, k);
    let j = choose|j: int| 0 <= j < inputs.len() && #[trigger] inputs[j] == ip_text(ip);
    lemma_text_is_trimmed(ip);
    lemma_text_reads_back(ip);
    assert(literal_of(inputs[j]) == Some(ip));
    assert(is_literal(inputs, ip));
    lemma_resolved(inputs, lookups);
}

impl HostScanSetting {
    /// The setting for a request: each input that is not blank becomes a
    /// target, an address if it is an address literal and a host name
    /// otherwise; everything else is taken over.
    pub fn from_request(req: HostScanRequest) -> (setting: HostScanSetting)
        ensures
            target_views(setting.targets@) == targets_of(texts_of(req.targets@)),
            setting.hop_limit == req.hop_limit,
            setting.timeout_ms == req.timeout_ms,
            setting.count == req.count,
            setting.payload == req.payload,
            setting.ordered == req.ordered,
            setting.concurrency == req.concurrency,
    {
        let mut targets: Vec<MaybeHost> = Vec::new();
        let mut i: usize = 0;
        while i < req.targets.len()
            invariant
                i <= req.targets.len(),
                target_views(targets@) == targets_of(texts_of(req.targets@).take(i as int)),
            decreases req.targets.len() - i,
        {
            let ghost before = target_views(targets@);
            proof {
                let upto = texts_of(req.targets@).take(i + 1);
                assert(upto.drop_last() == texts_of(req.targets@).take(i as int));
                assert(upto.last() == req.targets@[i as int]@);
            }
            let t = trimmed(req.targets[i].as_str());
            if !t.is_empty() {
                let target = match IpAddress::parse(t) {
                    Some(ip) => MaybeHost { ip: Some(ip), hostname: None },
                    None => MaybeHost { ip: None, hostname: Some(String::from_str(t)) },
                };
                targets.push(target);
                assert(target_views(targets@) =~= before.push(target@));
            }
            i += 1;
        }
        assert(texts_of(req.targets@).take(req.targets.len() as int) == texts_of(req.targets@));
        HostScanSetting {
            targets,
            hop_limit: req.hop_limit,
            timeout_ms: req.timeout_ms,
            count: req.count,
            payload: req.payload,
            ordered: req.ordered,
            concurrency: req.concurrency,
        }
    }

    /// The setting of a neighbor scan on `iface`: the hosts of the `/24`
    /// network of the first IPv4 address of its gateway, none where there is
    /// no such address, each probed once and in order, with a hop limit of
    /// 64, a second to answer, and at most a hundred probes at a time.
    pub fn neighbor_scan_default(iface: &InterfaceInfo) -> (setting: HostScanSetting)
        ensures
            target_views(setting.targets@) == (if iface.gateway_ipv4.len() > 0 {
                neighbor_targets(iface.gateway_ipv4@[0])
            } else {
                Seq::empty()
            }),
            setting.hop_limit == 64,
            setting.timeout_ms == 1000,
            setting.count == 1,
            text_of(setting.payload) == Some("np:neigh"@),
            setting.ordered,
            setting.concurrency == Some(100usize),
    {
        let mut targets: Vec<MaybeHost> = Vec::new();
        if iface.gateway_ipv4.len() > 0 {
            let hosts = subnet_hosts(iface.gateway_ipv4[0], NEIGHBOR_PREFIX);
            let mut i: usize = 0;
            while i < hosts.len()
                invariant
                    i <= hosts.len(),
                    iface.gateway_ipv4.len() > 0,
                    hosts@ == subnet_hosts_of(iface.gateway_ipv4@[0]),
                    target_views(targets@) == neighbor_targets(iface.gateway_ipv4@[0]).take(
                        i as int,
                    ),
                decreases hosts.len() - i,
            {
                let ghost before = target_views(targets@);
                let target = MaybeHost { ip: Some(IpAddress::V4(hosts[i])), hostname: None };
                targets.push(target);
                proof {
                    let all = neighbor_targets(iface.gateway_ipv4@[0]);
                    assert(target_views(targets@) =~= before.push(target@));
                    assert(all.take(i + 1) =~= all.take(i as int).push(all[i as int]));
                    assert(all[i as int] == target@);
                }
                i += 1;
            }
            assert(neighbor_targets(iface.gateway_ipv4@[0]).take(254) == neighbor_targets(
                iface.gateway_ipv4@[0],
            ));
        } else {
            assert(target_views(targets@) =~= Seq::empty());
        }
        HostScanSetting {
            targets,
            hop_limit: 64,
            timeout_ms: 1000,
            count: 1,
            payload: Some(String::from_str("np:neigh")),
            ordered: true,
            concurrency: Some(100),
        }
    }

    /// The targets as text, for those that have one: the address in
    /// canonical form, or else the trimmed name.
    pub fn target_strings(&self) -> (strings: Vec<String>)
        ensures
            texts_of(strings@) == strings_of(target_views(self.targets@)),
    {
        let mut strings: Vec<String> = Vec::new();
        let mut i: usize = 0;
        while i < self.targets.len()
            invariant
                i <= self.targets.len(),
                texts_of(strings@) == strings_of(target_views(self.targets@).take(i as int)),
            decreases self.targets.len() - i,
        {
            let ghost before = texts_of(strings@);
            proof {
                let upto = target_views(self.targets@).take(i + 1);
                assert(upto.drop_last() == target_views(self.targets@).take(i as int));
                assert(upto.last() == self.targets@[i as int]@);
            }
            let target = &self.targets[i];
            let text: Option<String> = match (target.ip, &target.hostname) {
                (Some(ip), _) => Some(ip.to_text()),
                (None, Some(name)) => {
                    let inner = trimmed(name.as_str());
                    if inner.is_empty() {
                        None
                    } else {
                        Some(String::from_str(inner))
                    }
                },
                (None, None) => None,
            };
            match text {
                Some(t) => {
                    if t.as_str().is_empty() {
                    } else {
                        strings.push(t);
                        assert(texts_of(strings@) =~= before.push(t@));
                    }
                },
                None => {},
            }
            i += 1;
        }
        assert(target_views(self.targets@).take(self.targets.len() as int) == target_views(
            self.targets@,
        ));
        strings
    }

    /// The addresses of the targets that have one, in order.
    pub fn target_ips(&self) -> (ips: Vec<IpAddress>)
        ensures
            ips@ == ips_of(target_views(self.targets@)),
    {
        let mut ips: Vec<IpAddress> = Vec::new();
        let mut i: usize = 0;
        while i < self.targets.len()
            invariant
                i <= self.targets.len(),
                ips@ == ips_of(target_views(self.targets@).take(i as int)),
            decreases self.targets.len() - i,
        {
            proof {
                let upto = target_views(self.targets@).take(i + 1);
                assert(upto.drop_last() == target_views(self.targets@).take(i as int));
                assert(upto.last() == self.targets@[i as int]@);
            }
            match self.targets[i].ip {
                Some(ip) => {
                    ips.push(ip);
                },
                None => {},
            }
            i += 1;
        }
        assert(target_views(self.targets@).take(self.targets.len() as int) == target_views(
            self.targets@,
        ));
        ips
    }

    /// The hosts that the targets resolve to, given what the lookups of the
    /// host names among them returned: the resolver's answer for the texts of
    /// the targets. Every address among the targets is among the hosts.
    pub fn resolve_targets(&self, lookups: &Vec<NameLookup>) -> (hosts: TargetSet)
        ensures
            hosts.wf(),
            hosts@ == resolved(strings_of(target_views(self.targets@)), lookup_views(lookups@)),
            forall|k: int|
                0 <= k < self.targets.len() && (#[trigger] self.targets@[k]).ip is Some ==> has_ip(
                    hosts@,
                    self.targets@[k].ip->Some_0,
                ),
    {
        let inputs = self.target_strings();
        let hosts = resolve_hosts(&inputs, lookups);
        proof {
            assert forall|k: int|
                0 <= k < self.targets.len() && (#[trigger] self.targets@[k]).ip is Some implies has_ip(
                hosts@,
                self.targets@[k].ip->Some_0,
            ) by {
                assert(target_views(self.targets@)[k] == self.targets@[k]@);
                lemma_addresses_resolve(target_views(self.targets@), lookup_views(lookups@), k);
            }
        }
        hosts
    }

    /// Puts the targets in a random order unless the setting asks for order:
    /// the same targets are there afterwards, and an ordered setting is left
    /// as it is.
    pub fn shuffle_targets(&mut self)
        ensures
            final(self).targets@.to_multiset() == old(self).targets@.to_multiset(),
            old(self).ordered ==> final(self).targets@ == old(self).targets@,
            final(self).hop_limit == old(self).hop_limit,
            final(self).timeout_ms == old(self).timeout_ms,
            final(self).count == old(self).count,
            final(self).payload == old(self).payload,
            final(self).ordered == old(self).ordered,
            final(self).concurrency == old(self).concurrency,
    {
        if !self.ordered {
            shuffle(&mut self.targets);
        }
    }
}

/// A host scan as requested: the targets are still text.
#[derive(Debug, Clone)]
pub struct HostScanRequest {
    pub targets: Vec<String>,
    pub hop_limit: u8,
    pub timeout_ms: u64,
    pub count: u32,
    pub payload: Option<String>,
    pub ordered: bool,
    pub concurrency: Option<usize>,
}

/// Payload of the event that opens a host scan.
#[derive(Debug, Clone)]
pub struct HostScanStartPayload {
    pub run_id: String,
}

/// Result of probing one host. `done` and `total` are the progress of the
/// scan at the moment the sample was made.
#[derive(Debug, Clone)]
pub struct HostScanProgress {
    pub ip_addr: IpAddress,
    pub state: HostState,
    pub rtt_ms: Option<u64>,
    pub message: Option<String>,
    pub done: u32,
    pub total: u32,
}

/// A host-scan sample with its texts as sequences of characters.
pub struct HostScanProgressView {
    pub ip_addr: IpAddress,
    pub state: HostState,
    pub rtt_ms: Option<u64>,
    pub message: Option<Seq<char>>,
    pub done: u32,
    pub total: u32,
}

impl View for HostScanProgress {
    type V = HostScanProgressView;

    open spec fn view(&self) -> HostScanProgressView {
        HostScanProgressView {
            ip_addr: self.ip_addr,
            state: self.state,
            rtt_ms: self.rtt_ms,
            message: text_of(self.message),
            done: self.done,
            total: self.total,
        }
    }
}

/// Final report of a host scan: the alive hosts, each with its round-trip
/// time in milliseconds, and the hosts that did not answer.
#[derive(Debug, Clone)]
pub struct HostScanReport {
    pub run_id: String,
    pub alive: Vec<(Host, u64)>,
    pub unreachable: Vec<Host>,
    pub total: u32,
}

/// A neighbor on the local link. The hardware address is given by its six
/// bytes.
#[derive(Debug, Clone)]
pub struct NeighborHost {
    pub ip_addr: IpAddress,
    pub mac_addr: Option<[u8; 6]>,
    pub vendor: Option<String>,
    pub rtt_ms: Option<u64>,
    pub tags: Vec<String>,
}

/// Final report of a neighbor scan.
#[derive(Debug, Clone)]
pub struct NeighborScanReport {
    pub run_id: String,
    pub neighbors: Vec<NeighborHost>,
    pub total: u32,
}

} // verus!
