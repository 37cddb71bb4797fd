//! Neighbor scan: a host scan of the network behind the gateway, whose alive
//! hosts are reported with what is known of their hardware.

use crate::addr::Host;
use crate::model::{HostScanReport, NeighborHost, NeighborScanReport};
use vstd::prelude::*;

verus! {

/// What the link layer knows of a neighbor.
#[derive(Debug)]
pub struct NeighborDetail {
    pub mac_addr: Option<[u8; 6]>,
    pub vendor: Option<String>,
    pub tags: Vec<String>,
}

/// The detail for the alive host at a position: the details are given in the
/// order of the alive hosts.
pub open spec fn detail_at(details: Seq<NeighborDetail>, at: int) -> Option<NeighborDetail> {
    if 0 <= at < details.len() {
        Some(details[at])
    } else {
        None
    }
}

/// The neighbor is the alive host with its round-trip time and with the
/// detail that was looked up for it; a neighbor without detail has no
/// hardware address, no vendor and no tags.
pub open spec fn is_neighbor(
    neighbor: NeighborHost,
    alive: (Host, u64),
    detail: Option<NeighborDetail>,
) -> bool {
    &&& neighbor.ip_addr == alive.0.ip
    &&& neighbor.rtt_ms == Some(alive.1)
    &&& match detail {
        Some(known) => neighbor.mac_addr == known.mac_addr && neighbor.vendor == known.vendor
            && neighbor.tags == known.tags,
        None => neighbor.mac_addr is None && neighbor.vendor is None && neighbor.tags@.len() == 0,
    }
}

/// The report of a neighbor scan from that of its host scan: one neighbor
/// for each alive host, in the same order, with its round-trip time and with
/// the detail given for it. `details` lists the details in the order of the
/// alive hosts; hosts beyond its end are reported without detail.
pub fn neighbor_report(report: HostScanReport, details: Vec<NeighborDetail>) -> (neighbors:
    NeighborScanReport)
    ensures
        neighbors.run_id == report.run_id,
        neighbors.total == report.total,
        neighbors.neighbors.len() == report.alive.len(),
        forall|i: int|
            0 <= i < report.alive.len() ==> is_neighbor(
                #[trigger] neighbors.neighbors@[i],
                report.alive@[i],
                detail_at(details@, i),
            ),
{
    let ghost hosts = report.alive@;
    let ghost known = details@;
    let mut alive = report.alive;
    let mut rest = details;
    assert(known.take(known.len() as int) == known);
    while rest.len() > alive.len()
        invariant
            rest@ == known.take(rest.len() as int),
            rest.len() <= known.len(),
            rest.len() == known.len() || rest.len() >= alive.len(),
            alive@ == hosts,
        decreases rest.len(),
    {
        let ghost n = rest.len() as int;
        rest.pop();
        assert(rest@ == known.take(n - 1));
    }
    let mut stack: Vec<NeighborHost> = Vec::new();
    while alive.len() > 0
        invariant
            alive@ == hosts.take(alive.len() as int),
            alive.len() <= hosts.len(),
            rest.len() <= alive.len(),
            rest.len() <= known.len(),
            rest@ == known.take(rest.len() as int),
            rest.len() == alive.len() || rest.len() == known.len(),
            stack.len() == hosts.len() - alive.len(),
            forall|k: int|
                0 <= k < stack.len() ==> is_neighbor(
                    #[trigger] stack@[k],
                    hosts[hosts.len() - 1 - k],
                    detail_at(known, hosts.len() - 1 - k),
                ),
        decreases alive.len(),
    {
        let ghost n = alive.len() as int;
        let ghost m = rest.len() as int;
        let ghost before = stack@;
        let (host, rtt) = alive.pop().unwrap();
        assert(alive@ == hosts.take(n - 1));
        let neighbor = if rest.len() > alive.len() {
            let detail = rest.pop().unwrap();
            assert(rest@ == known.take(m - 1));
            assert(detail == known[n - 1]);
            NeighborHost {
                ip_addr: host.ip,
                mac_addr: detail.mac_addr,
                vendor: detail.vendor,
                rtt_ms: Some(rtt),
                tags: detail.tags,
            }
        } else {
            NeighborHost {
                ip_addr: host.ip,
                mac_addr: None,
                vendor: None,
                rtt_ms: Some(rtt),
                tags: Vec::new(),
            }
        };
        stack.push(neighbor);
        assert forall|k: int| 0 <= k < stack.len() implies is_neighbor(
            #[trigger] stack@[k],
            hosts[hosts.len() - 1 - k],
            detail_at(known, hosts.len() - 1 - k),
        ) by {
            if k < before.len() {
                assert(stack@[k] == before[k]);
            }
        }
    }
    let ghost gathered = stack@;
    let mut found: Vec<NeighborHost> = Vec::new();
    while stack.len() > 0
        invariant
            stack@ == gathered.take(stack.len() as int),
            stack.len() <= gathered.len(),
            found.len() == gathered.len() - stack.len(),
            forall|i: int|
                0 <= i < found.len() ==> #[trigger] found@[i] == gathered[gathered.len() - 1 - i],
        decreases stack.len(),
    {
        let ghost n = stack.len() as int;
        let ghost before = found@;
        let neighbor = stack.pop().unwrap();
        assert(stack@ == gathered.take(n - 1));
        found.push(neighbor);
        assert forall|i: int| 0 <= i < found.len() implies #[trigger] found@[i]
            == gathered[gathered.len() - 1 - i] by {
            if i < before.len() {
                assert(found@[i] == before[i]);
            }
        }
    }
    NeighborScanReport { run_id: report.run_id, neighbors: found, total: report.total }
}

} // verus!
