//! Names of the events that a scan sends to its host.

use vstd::prelude::*;

verus! {

/// The three kinds of scan.
#[derive(Debug, Clone, Copy, PartialEq, Eq, Structural)]
pub enum ScanKind {
    Host,
    Port,
    Neighbor,
}

/// The points of a scan at which an event is sent.
#[derive(Debug, Clone, Copy, PartialEq, Eq, Structural)]
pub enum ScanMoment {
    /// Before any probe; the payload is the run id.
    Start,
    /// A positive result: an alive host or an open port; the payload is the
    /// sample.
    Found,
    /// Throttled progress; the payload is `(done, total)`.
    Progress,
    /// Service detection begins; the payload is the run id.
    ServiceDetectionStart,
    /// Service detection ended; the payload is the run id.
    ServiceDetectionDone,
    /// The end of the scan, exactly once; the payload is the final report.
    Done,
}

/// The name under which `kind` sends its event for `moment`, if it sends
/// one: only port scans run service detection, and a neighbor scan reports
/// what it finds in its final report alone.
pub open spec fn event_name_of(kind: ScanKind, moment: ScanMoment) -> Option<Seq<char>> {
    match (kind, moment) {
        (ScanKind::Host, ScanMoment::Start) => Some("hostscan:start"@),
        (ScanKind::Host, ScanMoment::Found) => Some("hostscan:alive"@),
        (ScanKind::Host, ScanMoment::Progress) => Some("hostscan:progress"@),
        (ScanKind::Host, ScanMoment::Done) => Some("hostscan:done"@),
        (ScanKind::Port, ScanMoment::Start) => Some("portscan:start"@),
        (ScanKind::Port, ScanMoment::Found) => Some("portscan:open"@),
        (ScanKind::Port, ScanMoment::Progress) => Some("portscan:progress"@),
        (ScanKind::Port, ScanMoment::ServiceDetectionStart) => Some(
            "portscan:service_detection_start"@,
        ),
        (ScanKind::Port, ScanMoment::ServiceDetectionDone) => Some(
            "portscan:service_detection_done"@,
        ),
        (ScanKind::Port, ScanMoment::Done) => Some("portscan:done"@),
        (ScanKind::Neighbor, ScanMoment::Start) => Some("neighborscan:start"@),
        (ScanKind::Neighbor, ScanMoment::Progress) => Some("neighborscan:progress"@),
        (ScanKind::Neighbor, ScanMoment::Done) => Some("neighborscan:done"@),
        _ => None,
    }
}

/// The name under which `kind` sends its event for `moment`, if it sends one.
pub fn event_name(kind: ScanKind, moment: ScanMoment) -> (name: Option<&'static str>)
    ensures
        match name {
            Some(text) => event_name_of(kind, moment) == Some(text@),
            None => event_name_of(kind, moment) is None,
        },
{
    match (kind, moment) {
        (ScanKind::Host, ScanMoment::Start) => Some("hostscan:start"),
        (ScanKind::Host, ScanMoment::Found) => Some("hostscan:alive"),
        (ScanKind::Host, ScanMoment::Progress) => Some("hostscan:progress"),
        (ScanKind::Host, ScanMoment::Done) => Some("hostscan:done"),
        (ScanKind::Port, ScanMoment::Start) => Some("portscan:start"),
        (ScanKind::Port, ScanMoment::Found) => Some("portscan:open"),
        (ScanKind::Port, ScanMoment::Progress) => Some("portscan:progress"),
        (ScanKind::Port, ScanMoment::ServiceDetectionStart) => Some(
            "portscan:service_detection_start",
        ),
        (ScanKind::Port, ScanMoment::ServiceDetectionDone) => Some(
            "portscan:service_detection_done",
        ),
        (ScanKind::Port, ScanMoment::Done) => Some("portscan:done"),
        (ScanKind::Neighbor, ScanMoment::Start) => Some("neighborscan:start"),
        (ScanKind::Neighbor, ScanMoment::Progress) => Some("neighborscan:progress"),
        (ScanKind::Neighbor, ScanMoment::Done) => Some("neighborscan:done"),
        _ => None,
    }
}

} // verus!
