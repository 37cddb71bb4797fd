//! The commands that a host invokes: how each scan begins.

use crate::addr::{target_views, IpAddress};
use crate::interface::{find_interface, is_called, InterfaceInfo};
use crate::model::{
    neighbor_targets, targets_of, HostScanRequest, HostScanSetting, HostScanStartPayload,
    PortScanProtocol, PortScanSetting, PortScanStartPayload,
};
use crate::ports::{ascending, preset_ports, PortCatalog};
use crate::portscan::{ConnectOutcome, PortScan, PortScanView, PortStep};
use crate::progress::Throttle;
use crate::random::fresh_run_id;
use crate::text::{text_of, texts_of};
use vstd::prelude::*;
use vstd::string::StringExecFns;

verus! {

/// A port scan that is about to probe.
pub struct PortScanStart {
    /// The state of the scan.
    pub scan: PortScan,
    /// The ports to probe, in the order in which to probe them.
    pub ports: Vec<u16>,
    /// The local address of the family of the target.
    pub source: IpAddress,
    /// The payload of the start event.
    pub payload: PortScanStartPayload,
}

/// The local address that a scan of `target` goes out from: the first
/// address of the interface in the family of the target, if it has one.
pub open spec fn source_for(target: IpAddress, iface: InterfaceInfo) -> Option<IpAddress> {
    match target {
        IpAddress::V4(_) => if iface.ipv4_addrs@.len() > 0 {
            Some(IpAddress::V4(iface.ipv4_addrs@[0]))
        } else {
            None
        },
        IpAddress::V6(_) => if iface.ipv6_addrs@.len() > 0 {
            Some(IpAddress::V6(iface.ipv6_addrs@[0]))
        } else {
            None
        },
    }
}

/// What the command says where the interface has no address of the family
/// of the target.
pub open spec fn no_source_text(target: IpAddress) -> Seq<char> {
    match target {
        IpAddress::V4(_) => "No IPv4 address found on default interface"@,
        IpAddress::V6(_) => "No IPv6 address found on default interface"@,
    }
}

/// Begins a port scan of the target of `setting` from the default interface
/// `iface`. Fails where the interface has no address of the family of the
/// target. Otherwise the scan gets a fresh run id of 36 characters, which
/// the start event carries, and a plan: the ports of the preset, each once, in ascending
/// order if the setting asks for order.
pub fn port_scan(setting: &PortScanSetting, iface: &InterfaceInfo, catalog: &PortCatalog) -> (started:
    Result<PortScanStart, String>)
    ensures
        match started {
            Ok(start) => {
                &&& source_for(setting.ip_addr, *iface) == Some(start.source)
                &&& start.scan.inv()
                &&& start.payload.run_id@ == start.scan@.run_id
                &&& start.scan@.run_id.len() == 36
                &&& start.scan@ == (PortScanView {
                    run_id: start.scan@.run_id,
                    ip_addr: setting.ip_addr,
                    hostname: text_of(setting.hostname),
                    protocol: setting.protocol,
                    service_detection: setting.service_detection,
                    awaiting: start.ports@.to_set(),
                    progress: Throttle::initial(start.ports@.len()),
                    open: Seq::empty(),
                    names: start.scan@.names,
                })
                &&& start.ports@.no_duplicates()
                &&& start.ports@.to_set() == preset_ports(
                    setting.target_ports_preset,
                    setting.user_ports@,
                    *catalog,
                )
                &&& setting.ordered ==> ascending(start.ports@)
            },
            Err(message) => source_for(setting.ip_addr, *iface) is None && message@
                == no_source_text(setting.ip_addr),
        },
{
    let source = match setting.ip_addr {
        IpAddress::V4(_) => {
            if iface.ipv4_addrs.len() > 0 {
                IpAddress::V4(iface.ipv4_addrs[0])
            } else {
                return Err(String::from_str("No IPv4 address found on default interface"));
            }
        },
        IpAddress::V6(_) => {
            if iface.ipv6_addrs.len() > 0 {
                IpAddress::V6(iface.ipv6_addrs[0])
            } else {
                return Err(String::from_str("No IPv6 address found on default interface"));
            }
        },
    };
    let run_id = fresh_run_id();
    let payload = PortScanStartPayload { run_id: run_id.clone() };
    let (scan, ports) = PortScan::begin(run_id, setting, catalog);
    Ok(PortScanStart { scan, ports, source, payload })
}

/// One step of a port scan, in the way of the protocol of the scan: see
/// `tcp::port_scan` and `quic::port_scan`.
pub fn port_scan_step(scan: &mut PortScan, port: u16, outcome: ConnectOutcome, now: u128) -> (step:
    Option<PortStep>)
    requires
        old(scan).inv(),
    ensures
        final(scan).inv(),
        match step {
            Some(s) => {
                let verdict = match old(scan)@.protocol {
                    PortScanProtocol::Tcp => crate::tcp::verdict_of(outcome@),
                    PortScanProtocol::Quic => crate::quic::verdict_of(outcome@),
                };
                &&& old(scan)@.awaiting.contains(port)
                &&& final(scan)@ == old(scan)@.after_record(port, verdict, now as nat)
                &&& s@ == old(scan)@.step_of(port, verdict, now as nat)
            },
            None => !old(scan)@.awaiting.contains(port) && final(scan)@ == old(scan)@,
        },
{
    match scan.protocol() {
        PortScanProtocol::Tcp => crate::tcp::port_scan(scan, port, outcome, now),
        PortScanProtocol::Quic => crate::quic::port_scan(scan, port, outcome, now),
    }
}

/// A host scan that is about to resolve its targets.
pub struct HostScanStart {
    /// The fresh run id of the scan.
    pub run_id: String,
    /// The setting of the scan.
    pub setting: HostScanSetting,
    /// The first IPv4 address of the default interface, if it has one.
    pub source_v4: Option<u32>,
    /// The first IPv6 address of the default interface, if it has one.
    pub source_v6: Option<u128>,
    /// The payload of the start event.
    pub payload: HostScanStartPayload,
}

/// Begins a host scan from the default interface `iface`: the setting of
/// the request, a fresh run id, which the start event carries, and the
/// first address of the interface in each family.
pub fn host_scan(request: HostScanRequest, iface: &InterfaceInfo) -> (start: HostScanStart)
    ensures
        target_views(start.setting.targets@) == targets_of(texts_of(request.targets@)),
        start.setting.hop_limit == request.hop_limit,
        start.setting.timeout_ms == request.timeout_ms,
        start.setting.count == request.count,
        start.setting.payload == request.payload,
        start.setting.ordered == request.ordered,
        start.setting.concurrency == request.concurrency,
        start.payload.run_id@ == start.run_id@,
        start.run_id@.len() == 36,
        start.source_v4 == (if iface.ipv4_addrs@.len() > 0 {
            Some(iface.ipv4_addrs@[0])
        } else {
            None
        }),
        start.source_v6 == (if iface.ipv6_addrs@.len() > 0 {
            Some(iface.ipv6_addrs@[0])
        } else {
            None
        }),
{
    let setting = HostScanSetting::from_request(request);
    let run_id = fresh_run_id();
    let payload = HostScanStartPayload { run_id: run_id.clone() };
    HostScanStart {
        run_id,
        setting,
        source_v4: if iface.ipv4_addrs.len() > 0 {
            Some(iface.ipv4_addrs[0])
        } else {
            None
        },
        source_v6: if iface.ipv6_addrs.len() > 0 {
            Some(iface.ipv6_addrs[0])
        } else {
            None
        },
        payload,
    }
}

/// What a neighbor scan runs with.
pub struct NeighborScanPlan {
    /// The setting of the host scan.
    pub setting: HostScanSetting,
    /// The first IPv4 address of the interface, if it has one.
    pub source_v4: Option<u32>,
}

/// A neighbor scan that is about to run its host scan.
pub struct NeighborScanStart {
    /// The fresh run id of the scan, which the start event carries.
    pub run_id: String,
    /// What the scan runs with, or why it cannot run.
    pub plan: Result<NeighborScanPlan, String>,
}

/// The plan is that of a neighbor scan on `iface`.
pub open spec fn is_neighbor_plan(plan: NeighborScanPlan, iface: InterfaceInfo) -> bool {
    let setting = plan.setting;
    &&& plan.source_v4 == (if iface.ipv4_addrs@.len() > 0 {
        Some(iface.ipv4_addrs@[0])
    } else {
        None
    })
    &&& target_views(setting.targets@) == (if iface.gateway_ipv4.len() > 0 {
        neighbor_targets(iface.gateway_ipv4@[0])
    } else {
        Seq::empty()
    })
    &&& setting.hop_limit == 64
    &&& setting.timeout_ms == 1000
    &&& setting.count == 1
    &&& text_of(setting.payload) == Some("np:neigh"@)
    &&& setting.ordered
    &&& setting.concurrency == Some(100usize)
}

/// Begins a neighbor scan on the interface called `iface_name`, by its name
/// or by its friendly name, or on the default interface where no name is
/// given. Fails where no interface is called so, and where the default
/// interface is asked for and `default_interface` says why there is none.
pub fn neighbor_scan(
    iface_name: Option<&str>,
    interfaces: &Vec<InterfaceInfo>,
    default_interface: Result<&InterfaceInfo, String>,
) -> (start: NeighborScanStart)
    ensures
        start.run_id@.len() == 36,
        match iface_name {
            Some(name) => match start.plan {
                Ok(plan) => exists|at: int|
                    {
                        &&& 0 <= at < interfaces.len()
                        &&& #[trigger] is_called(interfaces@[at], name@)
                        &&& forall|k: int| 0 <= k < at ==> !is_called(#[trigger] interfaces@[k], name@)
                        &&& is_neighbor_plan(plan, interfaces@[at])
                    },
                Err(message) => {
                    &&& forall|k: int|
                        0 <= k < interfaces.len() ==> !is_called(#[trigger] interfaces@[k], name@)
                    &&& message@ == "interface not found: "@ + name@
                },
            },
            None => match default_interface {
                Ok(iface) => start.plan matches Ok(plan) && is_neighbor_plan(plan, *iface),
                Err(why) => start.plan == Err::<NeighborScanPlan, String>(why),
            },
        },
{
    let run_id = fresh_run_id();
    let plan = match iface_name {
        Some(name) => match find_interface(interfaces, name) {
            Some(at) => Ok(neighbor_plan(&interfaces[at])),
            None => Err(String::from_str("interface not found: ").concat(name)),
        },
        None => match default_interface {
            Ok(iface) => Ok(neighbor_plan(iface)),
            Err(why) => Err(why),
        },
    };
    NeighborScanStart { run_id, plan }
}

fn neighbor_plan(iface: &InterfaceInfo) -> (plan: NeighborScanPlan)
    ensures
        is_neighbor_plan(plan, *iface),
{
    NeighborScanPlan {
        setting: HostScanSetting::neighbor_scan_default(iface),
        source_v4: if iface.ipv4_addrs.len() > 0 {
            Some(iface.ipv4_addrs[0])
        } else {
            None
        },
    }
}

} // verus!
