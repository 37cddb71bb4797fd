//! The port scan as a state machine. The caller makes the connect attempts
//! and hands each outcome to the scan, which answers with the sample, the
//! events that are due, and in the end the report.

use crate::addr::IpAddress;
use crate::endpoint::{Endpoint, Port, TransportProtocol};
use crate::model::{
    sample_views, PortScanProtocol, PortScanReport, PortScanSample, PortScanSampleView,
    PortScanSetting, PortState,
};
use crate::marks::{count_marks, lemma_count_bound, lemma_count_uniform, lemma_count_update};
use crate::names::{name_in, ServiceNames};
use crate::ports::{ascending, cleared_marks, expand_ports, preset_ports, PortCatalog, PORT_SPACE};
use crate::progress::{Throttle, ThrottledProgress};
use crate::service::ServiceInfo;
use crate::random::{lemma_same_items, shuffle};
use crate::text::{copy_text, text_of};
use vstd::prelude::*;

verus! {

/// The ways in which a connect attempt fails, as far as the scan tells them
/// apart.
#[derive(Debug, Clone, Copy, PartialEq, Eq, Structural)]
pub enum ConnectError {
    TimedOut,
    ConnectionRefused,
    ConnectionReset,
    NotConnected,
    NetworkUnreachable,
    HostUnreachable,
    AddrNotAvailable,
    Other,
}

/// What one attempt on a port came to.
#[derive(Debug)]
pub enum ConnectOutcome {
    /// The connection was established after `rtt_ms` milliseconds.
    Connected { rtt_ms: u64 },
    /// The attempt failed.
    Failed { error: ConnectError, message: String },
    /// No socket could be created for the attempt.
    NoSocket { message: String },
}

pub enum ConnectOutcomeView {
    Connected { rtt_ms: u64 },
    Failed { error: ConnectError, message: Seq<char> },
    NoSocket { message: Seq<char> },
}

impl View for ConnectOutcome {
    type V = ConnectOutcomeView;

    open spec fn view(&self) -> ConnectOutcomeView {
        match *self {
            ConnectOutcome::Connected { rtt_ms } => ConnectOutcomeView::Connected { rtt_ms },
            ConnectOutcome::Failed { error, message } => ConnectOutcomeView::Failed {
                error,
                message: message@,
            },
            ConnectOutcome::NoSocket { message } => ConnectOutcomeView::NoSocket {
                message: message@,
            },
        }
    }
}

/// What the scan concludes from an outcome.
#[derive(Debug)]
pub struct Verdict {
    pub state: PortState,
    pub rtt_ms: Option<u64>,
    pub message: Option<String>,
}

pub struct VerdictView {
    pub state: PortState,
    pub rtt_ms: Option<u64>,
    pub message: Option<Seq<char>>,
}

impl View for Verdict {
    type V = VerdictView;

    open spec fn view(&self) -> VerdictView {
        VerdictView { state: self.state, rtt_ms: self.rtt_ms, message: text_of(self.message) }
    }
}

impl VerdictView {
    /// An open port has a round-trip time and no diagnostic; a closed or
    /// filtered port has no round-trip time.
    pub open spec fn sound(self) -> bool {
        &&& self.state is Open <==> self.rtt_ms is Some
        &&& self.state is Open ==> self.message is None
    }
}

/// What follows from one finished attempt.
#[derive(Debug)]
pub struct PortStep {
    /// The sample of the attempt.
    pub sample: PortScanSample,
    /// The port is open: the sample is due as an event.
    pub emit_open: bool,
    /// The progress event that is due, as `(done, total)`.
    pub progress: Option<(u32, u32)>,
    /// With this port the scan has an outcome for each of its ports.
    pub finished: bool,
}

pub struct PortStepView {
    pub sample: PortScanSampleView,
    pub emit_open: bool,
    pub progress: Option<(u32, u32)>,
    pub finished: bool,
}

impl View for PortStep {
    type V = PortStepView;

    open spec fn view(&self) -> PortStepView {
        PortStepView {
            sample: self.sample@,
            emit_open: self.emit_open,
            progress: self.progress,
            finished: self.finished,
        }
    }
}

/// What service detection found on one port.
#[derive(Debug)]
pub struct PortServiceResult {
    pub port: u16,
    pub service_info: ServiceInfo,
}

/// Settings of the service detector.
#[derive(Debug, Clone, Copy, PartialEq, Eq, Structural)]
pub struct ServiceProbeConfig {
    pub timeout_ms: u64,
    pub max_concurrency: usize,
    pub max_read_size: usize,
    pub sni: bool,
    pub skip_cert_verify: bool,
}

/// The transport that the ports of a scan are reported under.
pub open spec fn transport_of(protocol: PortScanProtocol) -> TransportProtocol {
    match protocol {
        PortScanProtocol::Tcp => TransportProtocol::Tcp,
        PortScanProtocol::Quic => TransportProtocol::Quic,
    }
}

/// Where a sample for `port` goes in a list ordered by port: behind the last
/// sample with a smaller port.
pub open spec fn slot(open: Seq<PortScanSampleView>, port: u16) -> int
    decreases open.len(),
{
    if open.len() == 0 {
        0
    } else if open.last().port < port {
        open.len() as int
    } else {
        slot(open.drop_last(), port)
    }
}

/// The samples are in strictly ascending order of port.
pub open spec fn ordered_by_port(open: Seq<PortScanSampleView>) -> bool {
    forall|i: int, j: int| 0 <= i < j < open.len() ==> open[i].port < open[j].port
}

/// The service information that detection results attach to a port: that of
/// the first result for the port, or what the port had.
pub open spec fn attached(
    results: Seq<PortServiceResult>,
    port: u16,
    had: Option<ServiceInfo>,
) -> Option<ServiceInfo>
    decreases results.len(),
{
    if results.len() == 0 {
        had
    } else if results.first().port == port {
        Some(results.first().service_info)
    } else {
        attached(results.drop_first(), port, had)
    }
}

/// Mathematical state of a port scan.
pub struct PortScanView {
    pub run_id: Seq<char>,
    pub ip_addr: IpAddress,
    pub hostname: Option<Seq<char>>,
    pub protocol: PortScanProtocol,
    pub service_detection: bool,
    /// The ports whose attempt has not finished yet.
    pub awaiting: Set<u16>,
    pub progress: Throttle,
    /// The open ports found so far.
    pub open: Seq<PortScanSampleView>,
    /// The well-known service names.
    pub names: Map<u16, Seq<char>>,
}

impl PortScanView {
    /// What holds of every state of a scan: every port is either awaited or
    /// done, the open ports are no more than the ports done, they are in
    /// ascending order, and each is an open sample of this scan with a
    /// round-trip time.
    pub open spec fn wf(self) -> bool {
        &&& self.awaiting.finite()
        &&& self.progress.done + self.awaiting.len() == self.progress.total
        &&& self.progress.total <= PORT_SPACE
        &&& self.open.len() <= self.progress.done
        &&& ordered_by_port(self.open)
        &&& forall|k: int|
            0 <= k < self.open.len() ==> {
                let sample = #[trigger] self.open[k];
                &&& sample.ip_addr == self.ip_addr
                &&& sample.state is Open
                &&& sample.rtt_ms is Some
                &&& sample.message is None
                &&& sample.service_name == name_in(self.names, sample.port)
                &&& 1 <= sample.done <= sample.total == self.progress.total
                &&& !self.awaiting.contains(sample.port)
            }
    }

    /// The sample of an attempt on `port`, as it is emitted.
    pub open spec fn sample_of(self, port: u16, verdict: VerdictView) -> PortScanSampleView {
        PortScanSampleView {
            ip_addr: self.ip_addr,
            port,
            state: verdict.state,
            rtt_ms: verdict.rtt_ms,
            message: verdict.message,
            service_name: None,
            service_info: None,
            done: (self.progress.done + 1) as u32,
            total: self.progress.total as u32,
        }
    }

    /// The sample of an open port as it is kept for the report: with the
    /// well-known service name of the port.
    pub open spec fn kept_of(self, port: u16, verdict: VerdictView) -> PortScanSampleView {
        PortScanSampleView {
            service_name: name_in(self.names, port),
            ..self.sample_of(port, verdict)
        }
    }

    /// The state after the attempt on `port` finished at time `now`.
    pub open spec fn after_record(self, port: u16, verdict: VerdictView, now: nat) -> PortScanView {
        PortScanView {
            awaiting: self.awaiting.remove(port),
            progress: self.progress.advance(now),
            open: if verdict.state is Open {
                self.open.insert(slot(self.open, port), self.kept_of(port, verdict))
            } else {
                self.open
            },
            ..self
        }
    }

    /// What follows from the attempt on `port` that finished at time `now`.
    pub open spec fn step_of(self, port: u16, verdict: VerdictView, now: nat) -> PortStepView {
        PortStepView {
            sample: self.sample_of(port, verdict),
            emit_open: verdict.state is Open,
            progress: if self.progress.emits(now) {
                Some(((self.progress.done + 1) as u32, self.progress.total as u32))
            } else {
                None
            },
            finished: self.progress.done + 1 == self.progress.total,
        }
    }

    /// The state after service detection reported `results`.
    pub open spec fn after_attach(self, results: Seq<PortServiceResult>) -> PortScanView {
        PortScanView {
            open: Seq::new(
                self.open.len(),
                |k: int|
                    PortScanSampleView {
                        service_info: attached(results, self.open[k].port, self.open[k].service_info),
                        ..self.open[k]
                    },
            ),
            ..self
        }
    }

    /// The ports that service detection is asked to look at.
    pub open spec fn detection_ports(self) -> Seq<Port> {
        Seq::new(
            self.open.len(),
            |k: int| Port { number: self.open[k].port, transport: transport_of(self.protocol) },
        )
    }
}

/// In a list ordered by port that lacks `port`, the slot of `port` parts the
/// smaller ports from the larger ones.
pub proof fn lemma_slot(open: Seq<PortScanSampleView>, port: u16)
    requires
        ordered_by_port(open),
    ensures
        0 <= slot(open, port) <= open.len(),
        forall|k: int| 0 <= k < slot(open, port) ==> open[k].port < port,
        forall|k: int| slot(open, port) <= k < open.len() ==> open[k].port >= port,
    decreases open.len(),
{
    if open.len() > 0 {
        let front = open.drop_last();
        if open.last().port >= port {
            lemma_slot(front, port);
            assert forall|k: int| 0 <= k < slot(open, port) implies open[k].port < port by {
                assert(front[k] == open[k]);
            }
            assert forall|k: int| slot(open, port) <= k < open.len() implies open[k].port
                >= port by {
                if k < front.len() {
                    assert(front[k] == open[k]);
                }
            }
        } else {
            assert forall|k: int| 0 <= k < slot(open, port) implies open[k].port < port by {
                if k < open.len() - 1 {
                    assert(open[k].port < open[open.len() - 1].port);
                }
            }
        }
    }
}

/// A well-formed scan has an outcome for each of its ports exactly when it
/// awaits none.
pub proof fn lemma_finished(scan: PortScanView)
    requires
        scan.wf(),
    ensures
        scan.progress.done <= scan.progress.total,
        scan.progress.done == scan.progress.total <==> scan.awaiting =~= Set::<u16>::empty(),
{
    if scan.awaiting.len() == 0 {
        scan.awaiting.lemma_len0_is_empty();
    }
}

/// Recording an attempt keeps the scan well formed: no run yields more
/// samples than it has ports, and its open ports stay in ascending order,
/// each with a round-trip time.
pub proof fn lemma_record_keeps_wf(scan: PortScanView, port: u16, verdict: VerdictView, now: nat)
    requires
        scan.wf(),
        scan.awaiting.contains(port),
        verdict.sound(),
    ensures
        scan.after_record(port, verdict, now).wf(),
        scan.progress.done < scan.progress.total,
        scan.after_record(port, verdict, now).progress.done == scan.progress.done + 1,
{
    let after = scan.after_record(port, verdict, now);
    lemma_slot(scan.open, port);
    if verdict.state is Open {
        let at = slot(scan.open, port);
        let kept = scan.kept_of(port, verdict);
        assert forall|k: int| 0 <= k < after.open.len() implies {
            let sample = #[trigger] after.open[k];
            &&& sample.ip_addr == after.ip_addr
            &&& sample.state is Open
            &&& sample.rtt_ms is Some
            &&& sample.message is None
            &&& sample.service_name == name_in(after.names, sample.port)
            &&& 1 <= sample.done <= sample.total == after.progress.total
            &&& !after.awaiting.contains(sample.port)
        } by {
            if k < at {
                assert(after.open[k] == scan.open[k]);
            } else if k > at {
                assert(after.open[k] == scan.open[k - 1]);
            }
        }
        assert forall|i: int, j: int| 0 <= i < j < after.open.len() implies after.open[i].port
            < after.open[j].port by {
            let a = if i < at { i } else { i - 1 };
            let b = if j < at { j } else { j - 1 };
            if i != at && j != at {
                assert(after.open[i] == scan.open[a]);
                assert(after.open[j] == scan.open[b]);
            } else if i == at {
                assert(after.open[j] == scan.open[b]);
                assert(!scan.awaiting.contains(scan.open[b].port));
            } else {
                assert(after.open[i] == scan.open[a]);
            }
        }
    } else {
        assert forall|k: int| 0 <= k < after.open.len() implies !after.awaiting.contains(
            (#[trigger] after.open[k]).port,
        ) by {}
    }
}

/// An attempt that finished: the port, the verdict on it, and the time.
pub struct Finished {
    pub port: u16,
    pub verdict: VerdictView,
    pub now: nat,
}

/// The state of a scan after the attempts of `finished` were recorded in
/// order; an attempt on a port that is not awaited changes nothing.
pub open spec fn after_run(scan: PortScanView, finished: Seq<Finished>) -> PortScanView
    decreases finished.len(),
{
    if finished.len() == 0 {
        scan
    } else {
        let before = after_run(scan, finished.drop_last());
        let last = finished.last();
        if before.awaiting.contains(last.port) {
            before.after_record(last.port, last.verdict, last.now)
        } else {
            before
        }
    }
}

/// Some attempt of the list was on the port.
pub open spec fn tried(finished: Seq<Finished>, port: u16) -> bool {
    exists|i: int| 0 <= i < finished.len() && (#[trigger] finished[i]).port == port
}

/// Every run of a scan ends in a well-formed state: it has no more open
/// ports than ports done and no more ports done than ports in all, its open
/// ports are in ascending order, and each has a round-trip time. The ports
/// still awaited are those without an attempt, so that a run that has an
/// attempt for every awaited port ends with all ports done.
pub proof fn lemma_run(scan: PortScanView, finished: Seq<Finished>)
    requires
        scan.wf(),
        forall|i: int| 0 <= i < finished.len() ==> (#[trigger] finished[i]).verdict.sound(),
    ensures
        after_run(scan, finished).wf(),
        after_run(scan, finished).open.len() <= after_run(scan, finished).progress.done
            <= scan.progress.total,
        after_run(scan, finished).progress.total == scan.progress.total,
        forall|port: u16|
            #[trigger] after_run(scan, finished).awaiting.contains(port) <==> scan.awaiting.contains(
                port,
            ) && !tried(finished, port),
        (forall|port: u16| scan.awaiting.contains(port) ==> tried(finished, port)) ==> after_run(
            scan,
            finished,
        ).progress.done == scan.progress.total,
    decreases finished.len(),
{
    let end = after_run(scan, finished);
    if finished.len() > 0 {
        let front = finished.drop_last();
        let before = after_run(scan, front);
        let last = finished.last();
        assert forall|i: int| 0 <= i < front.len() implies (#[trigger] front[i]).verdict.sound() by {
            assert(front[i] == finished[i]);
        }
        lemma_run(scan, front);
        assert(finished[finished.len() - 1] == last);
        if before.awaiting.contains(last.port) {
            lemma_record_keeps_wf(before, last.port, last.verdict, last.now);
        }
        assert forall|port: u16| tried(finished, port) <==> tried(front, port) || port
            == last.port by {
            if tried(finished, port) {
                let i = choose|i: int|
                    0 <= i < finished.len() && (#[trigger] finished[i]).port == port;
                if i < front.len() {
                    assert(front[i] == finished[i]);
                }
            }
            if tried(front, port) {
                let i = choose|i: int| 0 <= i < front.len() && (#[trigger] front[i]).port == port;
                assert(finished[i] == front[i]);
            }
        }
        assert forall|port: u16| #[trigger]
            end.awaiting.contains(port) <==> scan.awaiting.contains(port) && !tried(
                finished,
                port,
            ) by {
            assert(before.awaiting.contains(port) <==> scan.awaiting.contains(port) && !tried(
                front,
                port,
            ));
        }
    } else {
        assert forall|port: u16| !tried(finished, port) by {}
    }
    if forall|port: u16| scan.awaiting.contains(port) ==> tried(finished, port) {
        assert forall|port: u16| !end.awaiting.contains(port) by {
            if end.awaiting.contains(port) {
                assert(scan.awaiting.contains(port) && !tried(finished, port));
            }
        }
        assert(end.awaiting =~= Set::<u16>::empty());
        lemma_finished(end);
    }
}

/// The ports whose flag is set.
spec fn flagged(flags: Seq<bool>) -> Set<u16> {
    Set::new(|port: u16| (port as int) < flags.len() && flags[port as int])
}

proof fn lemma_flagged_count(flags: Seq<bool>)
    requires
        flags.len() <= PORT_SPACE,
    ensures
        flagged(flags).finite(),
        flagged(flags).len() == count_marks(flags),
    decreases flags.len(),
{
    if flags.len() == 0 {
        assert(flagged(flags) =~= Set::<u16>::empty());
    } else {
        let front = flags.drop_last();
        lemma_flagged_count(front);
        let top = (flags.len() - 1) as u16;
        if flags.last() {
            assert(flagged(flags) =~= flagged(front).insert(top));
        } else {
            assert(flagged(flags) =~= flagged(front));
        }
    }
}

/// State of one port scan.
pub struct PortScan {
    run_id: String,
    ip_addr: IpAddress,
    hostname: Option<String>,
    protocol: PortScanProtocol,
    service_detection: bool,
    awaiting: Vec<bool>,
    progress: ThrottledProgress,
    open: Vec<PortScanSample>,
    names: ServiceNames,
}

impl View for PortScan {
    type V = PortScanView;

    closed spec fn view(&self) -> PortScanView {
        PortScanView {
            run_id: self.run_id@,
            ip_addr: self.ip_addr,
            hostname: text_of(self.hostname),
            protocol: self.protocol,
            service_detection: self.service_detection,
            awaiting: flagged(self.awaiting@),
            progress: self.progress@,
            open: sample_views(self.open@),
            names: self.names@,
        }
    }
}

/// The settings under which service detection runs after a port scan: two
/// seconds per probe, a hundred probes at a time, reads of up to one
/// mebibyte, with server name indication and without certificate checks.
pub fn detection_config() -> (config: ServiceProbeConfig)
    ensures
        config == (ServiceProbeConfig {
            timeout_ms: 2000,
            max_concurrency: 100,
            max_read_size: 1_048_576,
            sni: true,
            skip_cert_verify: true,
        }),
{
    ServiceProbeConfig {
        timeout_ms: 2000,
        max_concurrency: 100,
        max_read_size: 1_048_576,
        sni: true,
        skip_cert_verify: true,
    }
}

/// The transport that the ports of a scan are reported under.
pub fn transport(protocol: PortScanProtocol) -> (transport: TransportProtocol)
    ensures
        transport == transport_of(protocol),
{
    match protocol {
        PortScanProtocol::Tcp => TransportProtocol::Tcp,
        PortScanProtocol::Quic => TransportProtocol::Quic,
    }
}

impl PortScan {
    /// The state is one that a scan can be in.
    pub closed spec fn inv(&self) -> bool {
        &&& self.awaiting.len() == PORT_SPACE
        &&& self@.wf()
    }

    /// Every state of a scan is well formed.
    pub proof fn lemma_inv(&self)
        requires
            self.inv(),
        ensures
            self@.wf(),
    {
    }

    /// Plans a scan: the ports of the preset, in ascending order if the
    /// setting asks for order and in random order otherwise, and the state
    /// that awaits an outcome for each of them.
    pub fn begin(run_id: String, setting: &PortScanSetting, catalog: &PortCatalog) -> (started: (
        PortScan,
        Vec<u16>,
    ))
        ensures
            started.0.inv(),
            started.0@ == (PortScanView {
                run_id: run_id@,
                ip_addr: setting.ip_addr,
                hostname: text_of(setting.hostname),
                protocol: setting.protocol,
                service_detection: setting.service_detection,
                awaiting: started.1@.to_set(),
                progress: Throttle::initial(started.1@.len()),
                open: Seq::empty(),
                names: started.0@.names,
            }),
            started.1@.no_duplicates(),
            started.1@.to_set() == preset_ports(
                setting.target_ports_preset,
                setting.user_ports@,
                *catalog,
            ),
            setting.ordered ==> ascending(started.1@),
    {
        let mut ports = expand_ports(&setting.target_ports_preset, &setting.user_ports, catalog);
        let ghost planned = ports@;
        if !setting.ordered {
            shuffle(&mut ports);
        }
        proof {
            lemma_same_items(planned, ports@);
        }
        let mut awaiting = cleared_marks();
        proof {
            lemma_count_uniform(awaiting@);
        }
        let mut i: usize = 0;
        while i < ports.len()
            invariant
                i <= ports.len(),
                ports@.no_duplicates(),
                awaiting.len() == PORT_SPACE,
                count_marks(awaiting@) == i,
                forall|p: int|
                    0 <= p < PORT_SPACE ==> (awaiting@[p] <==> ports@.take(i as int).contains(
                        p as u16,
                    )),
            decreases ports.len() - i,
        {
            let port = ports[i];
            let ghost before = ports@.take(i as int);
            let ghost after = ports@.take(i + 1);
            proof {
                if awaiting@[port as int] {
                    let k = choose|k: int| 0 <= k < before.len() && before[k] == port;
                    assert(ports@[k] == ports@[i as int]);
                }
                lemma_count_update(awaiting@, port as int, true);
                assert(after == before.push(port));
                assert forall|p: u16| after.contains(p) <==> before.contains(p) || p == port by {
                    if before.contains(p) {
                        let k = choose|k: int| 0 <= k < before.len() && before[k] == p;
                        assert(after[k] == p);
                    }
                    if p == port {
                        assert(after[i as int] == p);
                    }
                }
            }
            awaiting.set(port as usize, true);
            i += 1;
        }
        proof {
            assert(ports@.take(ports.len() as int) == ports@);
            lemma_flagged_count(awaiting@);
            lemma_count_bound(awaiting@);
            assert(flagged(awaiting@) =~= ports@.to_set());
        }
        let total = ports.len() as u32;
        let scan = PortScan {
            run_id,
            ip_addr: setting.ip_addr,
            hostname: copy_text(&setting.hostname),
            protocol: setting.protocol,
            service_detection: setting.service_detection,
            awaiting,
            progress: ThrottledProgress::new(total),
            open: Vec::new(),
            names: ServiceNames::bundled(setting.protocol),
        };
        assert(sample_views(scan.open@) =~= Seq::empty());
        (scan, ports)
    }

    /// Takes the verdict on `port`, reached at `now` milliseconds since the
    /// scan began. A port that the scan does not await changes nothing.
    pub(crate) fn record(&mut self, port: u16, verdict: Verdict, now: u128) -> (step: Option<
        PortStep,
    >)
        requires
            old(self).inv(),
            verdict@.sound(),
        ensures
            final(self).inv(),
            match step {
                Some(s) => {
                    &&& old(self)@.awaiting.contains(port)
                    &&& final(self)@ == old(self)@.after_record(port, verdict@, now as nat)
                    &&& s@ == old(self)@.step_of(port, verdict@, now as nat)
                },
                None => !old(self)@.awaiting.contains(port) && final(self)@ == old(self)@,
            },
    {
        if !self.awaiting[port as usize] {
            return None;
        }
        proof {
            lemma_flagged_count(self.awaiting@);
            lemma_record_keeps_wf(self@, port, verdict@, now as nat);
            assert(flagged(self.awaiting@.update(port as int, false)) =~= flagged(
                self.awaiting@,
            ).remove(port));
        }
        self.awaiting.set(port as usize, false);
        let (done, emits) = self.progress.advance_at(now);
        let total = self.progress.total();
        let is_open = match verdict.state {
            PortState::Open => true,
            _ => false,
        };
        if is_open {
            let kept = PortScanSample {
                ip_addr: self.ip_addr,
                port,
                state: PortState::Open,
                rtt_ms: verdict.rtt_ms,
                message: None,
                service_name: self.names.lookup(port),
                service_info: None,
                done,
                total,
            };
            let ghost views = sample_views(self.open@);
            let mut at: usize = self.open.len();
            assert(views.take(at as int) == views);
            while at > 0 && self.open[at - 1].port >= port
                invariant
                    at <= self.open.len(),
                    views == sample_views(self.open@),
                    slot(views, port) == slot(views.take(at as int), port),
                decreases at,
            {
                proof {
                    assert(views.take(at as int).drop_last() == views.take(at - 1));
                }
                at -= 1;
            }
            proof {
                assert(views.take(self.open.len() as int) == views);
                assert(at as int == slot(views, port));
                assert(sample_views(self.open@.insert(at as int, kept)) =~= views.insert(
                    at as int,
                    kept@,
                ));
            }
            self.open.insert(at, kept);
        }
        let sample = PortScanSample {
            ip_addr: self.ip_addr,
            port,
            state: verdict.state,
            rtt_ms: verdict.rtt_ms,
            message: verdict.message,
            service_name: None,
            service_info: None,
            done,
            total,
        };
        Some(
            PortStep {
                sample,
                emit_open: is_open,
                progress: if emits {
                    Some((done, total))
                } else {
                    None
                },
                finished: done == total,
            },
        )
    }

    /// What service detection is asked to look at once the attempts are over:
    /// the scanned host with its open ports, if the setting asks for service
    /// detection and there is an open port.
    pub fn detection_request(&self) -> (request: Option<Endpoint>)
        requires
            self.inv(),
        ensures
            match request {
                Some(endpoint) => {
                    &&& self@.service_detection && self@.open.len() > 0
                    &&& endpoint.ip == self@.ip_addr
                    &&& text_of(endpoint.hostname) == self@.hostname
                    &&& endpoint.ports@ == self@.detection_ports()
                },
                None => !(self@.service_detection && self@.open.len() > 0),
            },
    {
        if !(self.service_detection && self.open.len() > 0) {
            return None;
        }
        let mut endpoint = Endpoint::new(self.ip_addr);
        endpoint.hostname = copy_text(&self.hostname);
        let kind = transport(self.protocol);
        let mut i: usize = 0;
        while i < self.open.len()
            invariant
                i <= self.open.len(),
                self.inv(),
                kind == transport_of(self.protocol),
                endpoint.ip == self.ip_addr,
                endpoint.hostname == self.hostname,
                endpoint.ports@ == self@.detection_ports().take(i as int),
            decreases self.open.len() - i,
        {
            let port = Port::new(self.open[i].port, kind);
            proof {
                let so_far = self@.detection_ports().take(i as int);
                if so_far.contains(port) {
                    let k = choose|k: int| 0 <= k < so_far.len() && so_far[k] == port;
                    assert(self@.open[k].port < self@.open[i as int].port);
                }
                assert(self@.detection_ports().take(i + 1) == so_far.push(port));
            }
            endpoint.upsert_port(port);
            i += 1;
        }
        assert(self@.detection_ports().take(self.open.len() as int) == self@.detection_ports());
        Some(endpoint)
    }

    /// Attaches what service detection found: each open port gets the
    /// information of the first result for its port.
    pub fn attach_services(&mut self, results: Vec<PortServiceResult>)
        requires
            old(self).inv(),
        ensures
            final(self).inv(),
            final(self)@ == old(self)@.after_attach(results@),
    {
        let ghost all = results@;
        let ghost start = self@;
        let mut rest = results;
        assert(self@ == start.after_attach(all.skip(rest.len() as int))) by {
            assert(start.after_attach(all.skip(rest.len() as int)).open =~= start.open);
        }
        while rest.len() > 0
            invariant
                self.inv(),
                rest@ == all.take(rest.len() as int),
                rest.len() <= all.len(),
                start.wf(),
                self@ == start.after_attach(all.skip(rest.len() as int)),
            decreases rest.len(),
        {
            let ghost before = self@;
            let ghost n = rest.len() as int;
            let result = rest.pop().unwrap();
            assert(result == all[n - 1]);
            let mut at: usize = 0;
            while at < self.open.len() && self.open[at].port != result.port
                invariant
                    at <= self.open.len(),
                    forall|k: int| 0 <= k < at ==> self.open@[k].port != result.port,
                decreases self.open.len() - at,
            {
                at += 1;
            }
            let ghost later = all.skip(n);
            let ghost now = all.skip(n - 1);
            proof {
                assert(now.first() == all[n - 1]);
                assert(now.drop_first() == later);
            }
            if at < self.open.len() {
                let mut sample = self.open.remove(at);
                sample.service_info = Some(result.service_info);
                self.open.insert(at, sample);
                proof {
                    let after = sample_views(self.open@);
                    let wanted = start.after_attach(now).open;
                    assert(after.len() == wanted.len());
                    assert forall|k: int| 0 <= k < after.len() implies after[k] == wanted[k] by {
                        assert(before.open[k] == start.after_attach(later).open[k]);
                        if k != at {
                            assert(before.open[k].port != result.port) by {
                                if k < at {
                                } else {
                                    assert(before.open[at as int].port < before.open[k].port);
                                }
                            }
                        }
                    }
                    assert(after =~= wanted);
                }
            } else {
                proof {
                    let wanted = start.after_attach(now).open;
                    assert forall|k: int| 0 <= k < before.open.len() implies before.open[k]
                        == wanted[k] by {
                        assert(before.open[k] == start.after_attach(later).open[k]);
                        assert(self.open@[k].port != result.port);
                    }
                    assert(before.open =~= wanted);
                }
            }
            proof {
                assert(rest@ == all.take(n - 1));
                assert(self@.wf()) by {
                    assert forall|k: int| 0 <= k < self@.open.len() implies {
                        let sample = #[trigger] self@.open[k];
                        &&& sample.ip_addr == self@.ip_addr
                        &&& sample.state is Open
                        &&& sample.rtt_ms is Some
                        &&& sample.message is None
                        &&& sample.service_name == name_in(self@.names, sample.port)
                        &&& 1 <= sample.done <= sample.total == self@.progress.total
                        &&& !self@.awaiting.contains(sample.port)
                    } by {
                        let was = start.open[k];
                        assert(self@.open[k].port == was.port);
                    }
                    assert forall|i: int, j: int| 0 <= i < j < self@.open.len() implies self@.open[i].port
                        < self@.open[j].port by {
                        assert(start.open[i].port < start.open[j].port);
                    }
                }
            }
        }
        assert(all.skip(0) == all);
    }

    /// The final report: the open ports in ascending order, each with a
    /// round-trip time, and no more of them than the scan had ports.
    pub fn report(self) -> (report: PortScanReport)
        requires
            self.inv(),
        ensures
            report.run_id@ == self@.run_id,
            report.ip_addr == self@.ip_addr,
            text_of(report.hostname) == self@.hostname,
            report.protocol == self@.protocol,
            sample_views(report.samples@) == self@.open,
            ordered_by_port(sample_views(report.samples@)),
            report.samples.len() <= self@.progress.done <= self@.progress.total,
            forall|k: int|
                0 <= k < report.samples.len() ==> (#[trigger] report.samples@[k]).state is Open
                    && report.samples@[k].rtt_ms is Some,
    {
        proof {
            assert forall|k: int| 0 <= k < self.open.len() implies (#[trigger] self.open@[k]).state is Open
                && self.open@[k].rtt_ms is Some by {
                assert(self@.open[k] == self.open@[k]@);
            }
        }
        PortScanReport {
            run_id: self.run_id,
            ip_addr: self.ip_addr,
            hostname: self.hostname,
            protocol: self.protocol,
            samples: self.open,
        }
    }

    /// Number of ports of the scan.
    pub fn total(&self) -> (total: u32)
        ensures
            total == self@.progress.total,
    {
        self.progress.total()
    }

    /// Number of ports whose attempt has finished.
    pub fn done(&self) -> (done: u32)
        ensures
            done == self@.progress.done,
    {
        self.progress.done()
    }

    /// The address of the scanned host.
    pub fn ip_addr(&self) -> (ip: IpAddress)
        ensures
            ip == self@.ip_addr,
    {
        self.ip_addr
    }

    /// The name of the scanned host, where the setting gave one.
    pub fn hostname(&self) -> (name: &Option<String>)
        ensures
            text_of(*name) == self@.hostname,
    {
        &self.hostname
    }

    /// How the scan probes its ports.
    pub fn protocol(&self) -> (protocol: PortScanProtocol)
        ensures
            protocol == self@.protocol,
    {
        self.protocol
    }

    /// The run id of the scan.
    pub fn run_id(&self) -> (id: &String)
        ensures
            id@ == self@.run_id,
    {
        &self.run_id
    }
}

} // verus!
