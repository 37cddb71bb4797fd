//! Target ports of a port scan.

use crate::model::TargetPortsPreset;
use crate::text::is_text;
use vstd::prelude::*;

verus! {

/// Number of port numbers.
pub const PORT_SPACE: usize = 65536;

/// The port lists behind the presets that are data: the common ports, the
/// well-known ports and the thousand most used ports.
#[derive(Debug)]
pub struct PortCatalog {
    pub common: Vec<u16>,
    pub well_known: Vec<u16>,
    pub top1000: Vec<u16>,
}

/// The ports that a preset stands for. The full preset is every port but
/// zero; the custom preset is what the user listed.
pub open spec fn preset_ports(
    preset: TargetPortsPreset,
    user_ports: Seq<u16>,
    catalog: PortCatalog,
) -> Set<u16> {
    match preset {
        TargetPortsPreset::Common => catalog.common@.to_set(),
        TargetPortsPreset::WellKnown => catalog.well_known@.to_set(),
        TargetPortsPreset::Top1000 => catalog.top1000@.to_set(),
        TargetPortsPreset::Full => Set::new(|port: u16| port != 0),
        TargetPortsPreset::Custom => user_ports.to_set(),
    }
}

/// Strictly ascending: sorted, and nothing occurs twice.
pub open spec fn ascending(ports: Seq<u16>) -> bool {
    forall|i: int, j: int| 0 <= i < j < ports.len() ==> ports[i] < ports[j]
}

/// A set of ports has one ascending list: two ascending lists of the same
/// ports are the same list.
pub proof fn lemma_ascending_unique(a: Seq<u16>, b: Seq<u16>)
    requires
        ascending(a),
        ascending(b),
        a.to_set() == b.to_set(),
    ensures
        a == b,
    decreases a.len(),
{
    if a.len() == 0 {
        if b.len() > 0 {
            assert(b.to_set().contains(b[0]));
            assert(a.contains(b[0]));
        }
        assert(a =~= b);
    } else {
        let top = a.last();
        assert(a.to_set().contains(a[a.len() - 1]));
        assert(b.contains(top));
        let j = choose|j: int| 0 <= j < b.len() && b[j] == top;
        assert(b.to_set().contains(b[b.len() - 1]));
        assert(a.contains(b.last()));
        let i = choose|i: int| 0 <= i < a.len() && a[i] == b.last();
        assert(b.last() == top) by {
            if j < b.len() - 1 {
                assert(b[j] < b[b.len() - 1]);
            }
            if i < a.len() - 1 {
                assert(a[i] < a[a.len() - 1]);
            }
        }
        let front_a = a.drop_last();
        let front_b = b.drop_last();
        assert forall|x: u16| front_a.to_set().contains(x) <==> front_b.to_set().contains(x) by {
            if front_a.contains(x) {
                let k = choose|k: int| 0 <= k < front_a.len() && front_a[k] == x;
                assert(a[k] == x && a[k] < a[a.len() - 1]);
                assert(a.to_set().contains(x));
                assert(b.contains(x));
                let m = choose|m: int| 0 <= m < b.len() && b[m] == x;
                assert(front_b[m] == x);
            }
            if front_b.contains(x) {
                let k = choose|k: int| 0 <= k < front_b.len() && front_b[k] == x;
                assert(b[k] == x && b[k] < b[b.len() - 1]);
                assert(b.to_set().contains(x));
                assert(a.contains(x));
                let m = choose|m: int| 0 <= m < a.len() && a[m] == x;
                assert(front_a[m] == x);
            }
        }
        assert(front_a.to_set() =~= front_b.to_set());
        lemma_ascending_unique(front_a, front_b);
        assert(a =~= front_a.push(top));
        assert(b =~= front_b.push(top));
    }
}

/// The preset that a name selects; unknown names select the common ports.
pub open spec fn preset_named(name: Seq<char>) -> TargetPortsPreset {
    if name == "Custom"@ {
        TargetPortsPreset::Custom
    } else if name == "Common"@ {
        TargetPortsPreset::Common
    } else if name == "WellKnown"@ {
        TargetPortsPreset::WellKnown
    } else if name == "Top1000"@ {
        TargetPortsPreset::Top1000
    } else if name == "Full"@ {
        TargetPortsPreset::Full
    } else {
        TargetPortsPreset::Common
    }
}

/// One flag per port number, all cleared.
pub(crate) fn cleared_marks() -> (marks: Vec<bool>)
    ensures
        marks.len() == PORT_SPACE,
        forall|p: int| 0 <= p < PORT_SPACE ==> !marks@[p],
{
    let mut marks: Vec<bool> = Vec::new();
    while marks.len() < PORT_SPACE
        invariant
            marks.len() <= PORT_SPACE,
            forall|p: int| 0 <= p < marks.len() ==> !marks@[p],
        decreases PORT_SPACE - marks.len(),
    {
        marks.push(false);
    }
    marks
}

/// Sets the flag of each port in `ports`.
fn mark(marks: &mut Vec<bool>, ports: &Vec<u16>)
    requires
        old(marks).len() == PORT_SPACE,
    ensures
        final(marks).len() == PORT_SPACE,
        forall|p: int|
            0 <= p < PORT_SPACE ==> (final(marks)@[p] <==> old(marks)@[p] || ports@.contains(
                p as u16,
            )),
{
    let mut i: usize = 0;
    while i < ports.len()
        invariant
            i <= ports.len(),
            marks.len() == PORT_SPACE,
            forall|p: int|
                0 <= p < PORT_SPACE ==> (marks@[p] <==> old(marks)@[p] || ports@.take(
                    i as int,
                ).contains(p as u16)),
        decreases ports.len() - i,
    {
        let port = ports[i];
        marks.set(port as usize, true);
        proof {
            let before = ports@.take(i as int);
            let after = ports@.take(i + 1);
            assert(after == before.push(port));
            assert forall|p: u16| after.contains(p) <==> before.contains(p) || p == port by {
                if before.contains(p) {
                    let k = choose|k: int| 0 <= k < before.len() && before[k] == p;
                    assert(after[k] == p);
                }
                if p == port {
                    assert(after[i as int] == p);
                }
            }
        }
        i += 1;
    }
    assert(ports@.take(ports.len() as int) == ports@);
}

/// The ports whose flag is set, in ascending order.
fn marked(marks: &Vec<bool>) -> (ports: Vec<u16>)
    requires
        marks.len() == PORT_SPACE,
    ensures
        ascending(ports@),
        forall|p: u16| ports@.contains(p) <==> marks@[p as int],
{
    let mut ports: Vec<u16> = Vec::new();
    let mut next: usize = 0;
    while next < PORT_SPACE
        invariant
            next <= PORT_SPACE,
            marks.len() == PORT_SPACE,
            ascending(ports@),
            forall|k: int| 0 <= k < ports.len() ==> ports@[k] < next,
            forall|p: u16| ports@.contains(p) <==> p < next && marks@[p as int],
        decreases PORT_SPACE - next,
    {
        if marks[next] {
            let ghost before = ports@;
            ports.push(next as u16);
            proof {
                assert forall|p: u16| ports@.contains(p) <==> p < next + 1 && marks@[p as int] by {
                    if ports@.contains(p) {
                        let k = choose|k: int| 0 <= k < ports@.len() && ports@[k] == p;
                        if k < before.len() {
                            assert(before[k] == p);
                        }
                    }
                    if p < next + 1 && marks@[p as int] {
                        if p < next {
                            let k = choose|k: int| 0 <= k < before.len() && before[k] == p;
                            assert(ports@[k] == p);
                        } else {
                            assert(ports@[before.len() as int] == p);
                        }
                    }
                }
            }
        }
        next += 1;
    }
    ports
}

/// The ports to scan for a preset: the ports that the preset stands for, each
/// once, in ascending order.
pub fn expand_ports(preset: &TargetPortsPreset, user_ports: &Vec<u16>, catalog: &PortCatalog) -> (ports:
    Vec<u16>)
    ensures
        ascending(ports@),
        ports@.to_set() == preset_ports(*preset, user_ports@, *catalog),
{
    let mut marks = cleared_marks();
    match preset {
        TargetPortsPreset::Common => mark(&mut marks, &catalog.common),
        TargetPortsPreset::WellKnown => mark(&mut marks, &catalog.well_known),
        TargetPortsPreset::Top1000 => mark(&mut marks, &catalog.top1000),
        TargetPortsPreset::Custom => mark(&mut marks, user_ports),
        TargetPortsPreset::Full => {
            let mut p: usize = 1;
            while p < PORT_SPACE
                invariant
                    1 <= p <= PORT_SPACE,
                    marks.len() == PORT_SPACE,
                    forall|q: int| 0 <= q < PORT_SPACE ==> (marks@[q] <==> 1 <= q < p),
                decreases PORT_SPACE - p,
            {
                marks.set(p, true);
                p += 1;
            }
        },
    }
    let ports = marked(&marks);
    assert(ports@.to_set() =~= preset_ports(*preset, user_ports@, *catalog));
    ports
}

/// The ports to scan for the preset that `preset` names.
pub fn get_target_ports(preset: &str, user_ports: &Vec<u16>, catalog: &PortCatalog) -> (ports: Vec<
    u16,
>)
    ensures
        ascending(ports@),
        ports@.to_set() == preset_ports(preset_named(preset@), user_ports@, *catalog),
{
    let preset_enum = if is_text(preset, "Custom") {
        TargetPortsPreset::Custom
    } else if is_text(preset, "Common") {
        TargetPortsPreset::Common
    } else if is_text(preset, "WellKnown") {
        TargetPortsPreset::WellKnown
    } else if is_text(preset, "Top1000") {
        TargetPortsPreset::Top1000
    } else if is_text(preset, "Full") {
        TargetPortsPreset::Full
    } else {
        TargetPortsPreset::Common
    };
    expand_ports(&preset_enum, user_ports, catalog)
}

} // verus!
