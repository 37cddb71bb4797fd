//! ICMP host scan: the correlator that matches echo replies to the probes
//! that wait for them, the retries of one target, and the scan that collects
//! the results.

use crate::addr::{host_views, Host, HostView, IpAddress};
use crate::dns::{distinct, TargetSet};
use crate::marks::{count_marks, lemma_count_bound, lemma_count_uniform, lemma_count_update};
use crate::model::{
    HostScanProgress, HostScanProgressView, HostScanReport, HostScanSetting, HostState,
};
use crate::progress::{Throttle, ThrottledProgress};
use crate::random::random_u16;
use crate::text::{decimal, decimal_of, text_of};
use crate::tuner::{hosts_concurrency, ScanConcurrency};
use vstd::prelude::*;
use vstd::string::StringExecFns;

verus! {

/// A probe that waits for its reply: the target, the time at which the probe
/// was registered, in milliseconds on the caller's clock, and the channel on
/// which the sender waits.
pub struct Pending<T> {
    pub ip: IpAddress,
    pub sent_at: u128,
    pub tx: T,
}

/// The probes in flight, by target. A target has at most one probe in flight.
pub struct PendingMap<T> {
    entries: Vec<Pending<T>>,
}

/// The round-trip time of a probe registered at `sent_at` whose reply came at
/// `now`, in milliseconds: never negative, and capped at what 64 bits hold.
pub open spec fn round_trip(sent_at: u128, now: u128) -> u64 {
    if now <= sent_at {
        0
    } else if now - sent_at > u64::MAX {
        u64::MAX
    } else {
        (now - sent_at) as u64
    }
}

/// Every probe of the map is filed under its own target.
pub open spec fn filed<T>(pending: Map<IpAddress, Pending<T>>) -> bool {
    forall|ip: IpAddress| #[trigger] pending.contains_key(ip) ==> pending[ip].ip == ip
}

/// The probe that a reply from `source` is delivered to, if any.
pub open spec fn reached<T>(pending: Map<IpAddress, Pending<T>>, source: IpAddress) -> Option<
    Pending<T>,
> {
    if pending.contains_key(source) {
        Some(pending[source])
    } else {
        None
    }
}

/// A reply reaches the probe that was sent to its source, and no other: the
/// probe that it is delivered to has the source of the reply as its target;
/// once it is delivered, a second reply from the same source reaches nobody;
/// and every other probe stays in flight.
pub proof fn lemma_reply_reaches_one_sender<T>(
    pending: Map<IpAddress, Pending<T>>,
    source: IpAddress,
)
    requires
        filed(pending),
    ensures
        reached(pending, source) matches Some(probe) ==> probe.ip == source,
        reached(pending.remove(source), source) is None,
        filed(pending.remove(source)),
        forall|other: IpAddress|
            other != source ==> #[trigger] reached(pending.remove(source), other) == reached(
                pending,
                other,
            ),
{
}

impl<T> PendingMap<T> {
    spec fn has(entries: Seq<Pending<T>>, ip: IpAddress) -> bool {
        exists|k: int| 0 <= k < entries.len() && (#[trigger] entries[k]).ip == ip
    }

    spec fn at(entries: Seq<Pending<T>>, ip: IpAddress) -> int {
        choose|k: int| 0 <= k < entries.len() && (#[trigger] entries[k]).ip == ip
    }

    /// No target is registered twice.
    pub closed spec fn wf(&self) -> bool {
        forall|i: int, j: int|
            0 <= i < j < self.entries.len() ==> (#[trigger] self.entries[i]).ip != (
            #[trigger] self.entries[j]).ip
    }

    /// The probes in flight: each target with a probe maps to that probe.
    pub closed spec fn view(&self) -> Map<IpAddress, Pending<T>> {
        Map::new(
            |ip: IpAddress| Self::has(self.entries@, ip),
            |ip: IpAddress| self.entries@[Self::at(self.entries@, ip)],
        )
    }

    /// Every probe is filed under its own target.
    pub proof fn lemma_filed(&self)
        ensures
            filed(self@),
    {
        assert forall|ip: IpAddress| #[trigger] self@.contains_key(ip) implies self@[ip].ip
            == ip by {
            let k = Self::at(self.entries@, ip);
            assert(self.entries@[k].ip == ip);
        }
    }

    /// No probe in flight.
    pub fn new() -> (map: PendingMap<T>)
        ensures
            map.wf(),
            map@ == Map::<IpAddress, Pending<T>>::empty(),
    {
        let map = PendingMap { entries: Vec::new() };
        assert(map@ =~= Map::<IpAddress, Pending<T>>::empty());
        map
    }

    /// Number of probes in flight.
    pub fn len(&self) -> (n: usize)
        requires
            self.wf(),
        ensures
            n == self@.dom().len(),
            self@.dom().finite(),
    {
        proof {
            Self::lemma_domain(self.entries@);
        }
        self.entries.len()
    }

    proof fn lemma_domain(entries: Seq<Pending<T>>)
        requires
            forall|i: int, j: int|
                0 <= i < j < entries.len() ==> (#[trigger] entries[i]).ip != (
                #[trigger] entries[j]).ip,
        ensures
            Set::new(|ip: IpAddress| Self::has(entries, ip)).finite(),
            Set::new(|ip: IpAddress| Self::has(entries, ip)).len() == entries.len(),
        decreases entries.len(),
    {
        let all = Set::new(|ip: IpAddress| Self::has(entries, ip));
        if entries.len() == 0 {
            assert(all =~= Set::<IpAddress>::empty());
        } else {
            let front = entries.drop_last();
            let rest = Set::new(|ip: IpAddress| Self::has(front, ip));
            assert forall|i: int, j: int| 0 <= i < j < front.len() implies (#[trigger] front[i]).ip
                != (#[trigger] front[j]).ip by {
                assert(front[i] == entries[i]);
                assert(front[j] == entries[j]);
            }
            Self::lemma_domain(front);
            let top = entries.last().ip;
            assert(!rest.contains(top)) by {
                if Self::has(front, top) {
                    let k = Self::at(front, top);
                    assert(entries[k] == front[k]);
                    assert(entries[k].ip != entries[entries.len() - 1].ip);
                }
            }
            assert(all =~= rest.insert(top)) by {
                assert forall|ip: IpAddress| all.contains(ip) <==> rest.insert(top).contains(
                    ip,
                ) by {
                    if Self::has(entries, ip) {
                        let k = Self::at(entries, ip);
                        if k < front.len() {
                            assert(front[k].ip == ip);
                        }
                    }
                    if Self::has(front, ip) {
                        let k = Self::at(front, ip);
                        assert(entries[k].ip == ip);
                    }
                    if ip == top {
                        assert(entries[entries.len() - 1].ip == ip);
                    }
                }
            }
        }
    }

    fn position(&self, ip: IpAddress) -> (at: Option<usize>)
        requires
            self.wf(),
        ensures
            match at {
                Some(k) => k < self.entries.len() && self.entries@[k as int].ip == ip
                    && self@.contains_key(ip) && self@[ip] == self.entries@[k as int],
                None => !self@.contains_key(ip),
            },
    {
        let mut k: usize = 0;
        while k < self.entries.len()
            invariant
                self.wf(),
                k <= self.entries.len(),
                forall|j: int| 0 <= j < k ==> (#[trigger] self.entries@[j]).ip != ip,
            decreases self.entries.len() - k,
        {
            if self.entries[k].ip == ip {
                proof {
                    assert(self.entries@[k as int].ip == ip);
                    let chosen = Self::at(self.entries@, ip);
                    assert(self.entries@[chosen].ip == ip);
                    assert(chosen == k);
                }
                return Some(k);
            }
            k += 1;
        }
        proof {
            if Self::has(self.entries@, ip) {
                let chosen = Self::at(self.entries@, ip);
                assert(self.entries@[chosen].ip == ip);
            }
        }
        None
    }

    /// Registers the probe to `ip`, sent at `sent_at`, on whose reply `tx`
    /// waits. A probe that was still registered for the target is displaced
    /// and handed back.
    pub fn insert(&mut self, ip: IpAddress, sent_at: u128, tx: T) -> (displaced: Option<Pending<T>>)
        requires
            old(self).wf(),
        ensures
            final(self).wf(),
            final(self)@ == old(self)@.insert(ip, Pending { ip, sent_at, tx }),
            displaced == (if old(self)@.contains_key(ip) {
                Some(old(self)@[ip])
            } else {
                None
            }),
    {
        let displaced = self.remove(ip);
        let ghost between = self.entries@;
        let ghost mid = self@;
        assert(!Self::has(between, ip)) by {
            assert(!mid.contains_key(ip));
        }
        let entry = Pending { ip, sent_at, tx };
        self.entries.push(entry);
        proof {
            let after = self.entries@;
            assert forall|i: int, j: int| 0 <= i < j < after.len() implies (#[trigger] after[i]).ip
                != (#[trigger] after[j]).ip by {
                if j == after.len() - 1 {
                    assert(between[i].ip != ip) by {
                        if between[i].ip == ip {
                            assert(Self::has(between, ip));
                        }
                    }
                }
            }
            let wanted = old(self)@.insert(ip, entry);
            assert(wanted =~= mid.insert(ip, entry));
            assert forall|q: IpAddress| self@.contains_key(q) <==> wanted.contains_key(q) by {
                if Self::has(after, q) {
                    let k = Self::at(after, q);
                    assert(after[k].ip == q);
                    if k < between.len() {
                        assert(between[k].ip == q);
                        assert(Self::has(between, q));
                        assert(mid.contains_key(q));
                    }
                }
                if q == ip {
                    assert(after[after.len() - 1].ip == q);
                } else if mid.contains_key(q) {
                    let k = Self::at(between, q);
                    assert(between[k].ip == q);
                    assert(after[k].ip == q);
                }
            }
            assert forall|q: IpAddress| self@.contains_key(q) implies self@[q] == wanted[q] by {
                let k = Self::at(after, q);
                assert(after[k].ip == q);
                if q == ip {
                    assert(after[after.len() - 1].ip == q);
                    assert(k == after.len() - 1);
                } else {
                    assert(between[k].ip == q);
                    let b = Self::at(between, q);
                    assert(between[b].ip == q);
                    assert(after[b] == between[b]);
                    assert(b == k);
                }
            }
            assert(self@ =~= wanted);
        }
        displaced
    }

    /// Takes the probe to `ip` out of the map, if there is one.
    pub fn remove(&mut self, ip: IpAddress) -> (removed: Option<Pending<T>>)
        requires
            old(self).wf(),
        ensures
            final(self).wf(),
            final(self)@ == old(self)@.remove(ip),
            removed == (if old(self)@.contains_key(ip) {
                Some(old(self)@[ip])
            } else {
                None
            }),
    {
        match self.position(ip) {
            None => {
                assert(self@ =~= old(self)@.remove(ip));
                None
            },
            Some(k) => {
                let ghost before = self.entries@;
                let entry = self.entries.remove(k);
                proof {
                    let after = self.entries@;
                    assert forall|i: int, j: int| 0 <= i < j < after.len() implies (
                    #[trigger] after[i]).ip != (#[trigger] after[j]).ip by {
                        let a = if i < k { i } else { i + 1 };
                        let b = if j < k { j } else { j + 1 };
                        assert(after[i] == before[a]);
                        assert(after[j] == before[b]);
                    }
                    let wanted = old(self)@.remove(ip);
                    assert forall|q: IpAddress| self@.contains_key(q) <==> wanted.contains_key(
                        q,
                    ) by {
                        if Self::has(after, q) {
                            let j = Self::at(after, q);
                            let b = if j < k { j } else { j + 1 };
                            assert(after[j] == before[b]);
                            assert(before[b].ip == q);
                            assert(b != k);
                        }
                        if q != ip && Self::has(before, q) {
                            let b = Self::at(before, q);
                            let j = if b < k { b } else { b - 1 };
                            assert(after[j] == before[b]);
                        }
                    }
                    assert forall|q: IpAddress| self@.contains_key(q) implies self@[q]
                        == wanted[q] by {
                        let j = Self::at(after, q);
                        let b = if j < k { j } else { j + 1 };
                        assert(after[j] == before[b]);
                        let c = Self::at(before, q);
                        assert(before[b].ip == q);
                        assert(c == b);
                    }
                    assert(self@ =~= wanted);
                }
                Some(entry)
            },
        }
    }

    /// Takes a datagram that came from `source` at time `now`. Only an echo
    /// reply is delivered, as `deliver` says; any other datagram is dropped
    /// and changes nothing.
    pub fn on_datagram(&mut self, echo_reply: bool, source: IpAddress, now: u128) -> (delivery:
        Option<(T, u64)>)
        requires
            old(self).wf(),
        ensures
            final(self).wf(),
            !echo_reply ==> delivery is None && final(self)@ == old(self)@,
            echo_reply ==> {
                &&& final(self)@ == old(self)@.remove(source)
                &&& match delivery {
                    Some((tx, rtt_ms)) => {
                        &&& old(self)@.contains_key(source)
                        &&& old(self)@[source].ip == source
                        &&& tx == old(self)@[source].tx
                        &&& rtt_ms == round_trip(old(self)@[source].sent_at, now)
                    },
                    None => !old(self)@.contains_key(source),
                }
            },
    {
        if echo_reply {
            self.deliver(source, now)
        } else {
            None
        }
    }

    /// Delivers a reply that came from `source` at time `now`: the probe to
    /// `source` leaves the map, and its channel is handed out with the
    /// round-trip time. A reply from a target without a probe in flight, such
    /// as a late or a second reply, is delivered to nobody.
    pub fn deliver(&mut self, source: IpAddress, now: u128) -> (delivery: Option<(T, u64)>)
        requires
            old(self).wf(),
        ensures
            final(self).wf(),
            final(self)@ == old(self)@.remove(source),
            !final(self)@.contains_key(source),
            match delivery {
                Some((tx, rtt_ms)) => {
                    &&& old(self)@.contains_key(source)
                    &&& old(self)@[source].ip == source
                    &&& tx == old(self)@[source].tx
                    &&& rtt_ms == round_trip(old(self)@[source].sent_at, now)
                },
                None => !old(self)@.contains_key(source),
            },
    {
        proof {
            self.lemma_filed();
        }
        match self.remove(source) {
            None => None,
            Some(entry) => {
                let rtt_ms: u64 = if now <= entry.sent_at {
                    0
                } else if now - entry.sent_at > u64::MAX as u128 {
                    u64::MAX
                } else {
                    (now - entry.sent_at) as u64
                };
                Some((entry.tx, rtt_ms))
            },
        }
    }
}

/// What happened to the echo request in flight.
#[derive(Debug)]
pub enum ProbeEvent {
    /// The request could not be sent.
    SendFailed { message: String },
    /// The reply came after `rtt_ms` milliseconds.
    Replied { rtt_ms: u64 },
    /// The wait for the reply was canceled.
    Canceled,
    /// No reply came within the timeout.
    TimedOut,
}

pub enum ProbeEventView {
    SendFailed { message: Seq<char> },
    Replied { rtt_ms: u64 },
    Canceled,
    TimedOut,
}

impl View for ProbeEvent {
    type V = ProbeEventView;

    open spec fn view(&self) -> ProbeEventView {
        match *self {
            ProbeEvent::SendFailed { message } => ProbeEventView::SendFailed { message: message@ },
            ProbeEvent::Replied { rtt_ms } => ProbeEventView::Replied { rtt_ms },
            ProbeEvent::Canceled => ProbeEventView::Canceled,
            ProbeEvent::TimedOut => ProbeEventView::TimedOut,
        }
    }
}

/// What the probes of one target came to.
#[derive(Debug)]
pub struct TargetResult {
    pub state: HostState,
    pub rtt_ms: Option<u64>,
    pub message: Option<String>,
}

pub struct TargetResultView {
    pub state: HostState,
    pub rtt_ms: Option<u64>,
    pub message: Option<Seq<char>>,
}

impl View for TargetResult {
    type V = TargetResultView;

    open spec fn view(&self) -> TargetResultView {
        TargetResultView {
            state: self.state,
            rtt_ms: self.rtt_ms,
            message: text_of(self.message),
        }
    }
}

/// The echo request to send next. The wire carries the low 16 bits of the
/// sequence number.
#[derive(Debug, Clone, Copy, PartialEq, Eq, Structural)]
pub struct EchoRequest {
    pub seq: u32,
    pub wire_seq: u16,
    pub id: u16,
}

/// The retries of one target: the sequence number of the request in flight
/// and the last failure so far.
pub struct EchoProbe {
    count: u32,
    timeout_ms: u64,
    seq: u32,
    last_err: Option<String>,
}

pub struct EchoProbeView {
    /// How many requests the target gets at most.
    pub count: nat,
    pub timeout_ms: u64,
    /// The request in flight, counted from one.
    pub seq: nat,
    pub last_err: Option<Seq<char>>,
}

/// What to do after an event.
pub enum ProbeNext {
    /// Register the target as pending and send this request.
    Send { probe: EchoProbe, request: EchoRequest },
    /// The target is done.
    Finish(TargetResult),
}

/// What follows from an event: whether the pending entry of the target is to
/// be removed, and what to do next.
pub struct ProbeStep {
    pub forget: bool,
    pub next: ProbeNext,
}

impl EchoProbeView {
    /// The last failure after `event`.
    pub open spec fn error_after(self, event: ProbeEventView) -> Option<Seq<char>> {
        match event {
            ProbeEventView::SendFailed { message } => Some("send error: "@ + message),
            ProbeEventView::Replied { rtt_ms } => self.last_err,
            ProbeEventView::Canceled => Some("wait canceled"@),
            ProbeEventView::TimedOut => Some(
                "timeout (>"@ + decimal_of(self.timeout_ms as nat) + "ms)"@,
            ),
        }
    }

    /// The sender removes the pending entry after a failed send and after a
    /// timeout; a reply or a cancellation finds it removed.
    pub open spec fn forgets(event: ProbeEventView) -> bool {
        event is SendFailed || event is TimedOut
    }

    /// The first reply ends the retries, and so does the last request.
    pub open spec fn finishes(self, event: ProbeEventView) -> bool {
        event is Replied || self.seq >= self.count
    }

    /// What the target came to, once the retries are over: alive with the
    /// round-trip time of the reply, or unreachable with the last failure.
    pub open spec fn result_after(self, event: ProbeEventView) -> TargetResultView {
        match event {
            ProbeEventView::Replied { rtt_ms } => TargetResultView {
                state: HostState::Alive,
                rtt_ms: Some(rtt_ms),
                message: None,
            },
            _ => TargetResultView {
                state: HostState::Unreachable,
                rtt_ms: None,
                message: self.error_after(event),
            },
        }
    }

    /// The retries after an event that does not end them.
    pub open spec fn retry_after(self, event: ProbeEventView) -> EchoProbeView {
        EchoProbeView { seq: self.seq + 1, last_err: self.error_after(event), ..self }
    }
}

impl View for EchoProbe {
    type V = EchoProbeView;

    closed spec fn view(&self) -> EchoProbeView {
        EchoProbeView {
            count: self.count as nat,
            timeout_ms: self.timeout_ms,
            seq: self.seq as nat,
            last_err: text_of(self.last_err),
        }
    }
}

/// The result for a target whose address family has no socket.
pub fn no_socket_result() -> (result: TargetResult)
    ensures
        result@ == (TargetResultView {
            state: HostState::Unreachable,
            rtt_ms: None,
            message: Some("no suitable socket for IP family"@),
        }),
{
    TargetResult {
        state: HostState::Unreachable,
        rtt_ms: None,
        message: Some(String::from_str("no suitable socket for IP family")),
    }
}

fn request(seq: u32) -> (request: EchoRequest)
    ensures
        request.seq == seq,
        request.wire_seq == seq % 0x1_0000,
{
    EchoRequest { seq, wire_seq: (seq % 0x1_0000) as u16, id: random_u16() }
}

impl EchoProbe {
    #[verifier::type_invariant]
    spec fn inv(self) -> bool {
        1 <= self.seq <= self.count
    }

    /// Begins the probes of a target that gets up to `count` requests, one
    /// where `count` is zero, each with `timeout_ms` milliseconds for its
    /// reply. The first request has sequence number one and a random
    /// identifier.
    pub fn start(count: u32, timeout_ms: u64) -> (started: (EchoProbe, EchoRequest))
        ensures
            started.0@ == (EchoProbeView {
                count: if count >= 1 {
                    count as nat
                } else {
                    1
                },
                timeout_ms,
                seq: 1,
                last_err: None,
            }),
            started.1.seq == 1,
            started.1.wire_seq == 1,
    {
        let count: u32 = if count >= 1 { count } else { 1 };
        (EchoProbe { count, timeout_ms, seq: 1, last_err: None }, request(1))
    }

    /// Begins the probes of a target, if there is a socket for the address
    /// family of the target; without one the target is unreachable at once,
    /// and nothing is sent.
    pub fn begin(has_socket: bool, count: u32, timeout_ms: u64) -> (next: ProbeNext)
        ensures
            match next {
                ProbeNext::Send { probe, request } => {
                    &&& has_socket
                    &&& probe@ == (EchoProbeView {
                        count: if count >= 1 {
                            count as nat
                        } else {
                            1
                        },
                        timeout_ms,
                        seq: 1,
                        last_err: None,
                    })
                    &&& request.seq == 1
                    &&& request.wire_seq == 1
                },
                ProbeNext::Finish(result) => !has_socket && result@ == (TargetResultView {
                    state: HostState::Unreachable,
                    rtt_ms: None,
                    message: Some("no suitable socket for IP family"@),
                }),
            },
    {
        if has_socket {
            let (probe, request) = EchoProbe::start(count, timeout_ms);
            ProbeNext::Send { probe, request }
        } else {
            ProbeNext::Finish(no_socket_result())
        }
    }

    /// Takes what happened to the request in flight. The first reply makes
    /// the target alive; a failure is noted, and the next request is due
    /// unless this was the last one, in which case the target is unreachable
    /// with the last failure as its diagnostic.
    pub fn on_event(self, event: ProbeEvent) -> (step: ProbeStep)
        ensures
            step.forget == EchoProbeView::forgets(event@),
            match step.next {
                ProbeNext::Finish(result) => self@.finishes(event@) && result@
                    == self@.result_after(event@),
                ProbeNext::Send { probe, request } => {
                    &&& !self@.finishes(event@)
                    &&& probe@ == self@.retry_after(event@)
                    &&& request.seq == self@.seq + 1
                    &&& request.wire_seq == (self@.seq + 1) % 0x1_0000
                },
            },
    {
        proof {
            use_type_invariant(&self);
        }
        let (forget, last_err) = match event {
            ProbeEvent::Replied { rtt_ms } => {
                return ProbeStep {
                    forget: false,
                    next: ProbeNext::Finish(
                        TargetResult { state: HostState::Alive, rtt_ms: Some(rtt_ms), message: None },
                    ),
                };
            },
            ProbeEvent::SendFailed { message } => (
                true,
                String::from_str("send error: ").concat(message.as_str()),
            ),
            ProbeEvent::Canceled => (false, String::from_str("wait canceled")),
            ProbeEvent::TimedOut => (
                true,
                String::from_str("timeout (>").concat(decimal(self.timeout_ms).as_str()).concat(
                    "ms)",
                ),
            ),
        };
        if self.seq >= self.count {
            ProbeStep {
                forget,
                next: ProbeNext::Finish(
                    TargetResult {
                        state: HostState::Unreachable,
                        rtt_ms: None,
                        message: Some(last_err),
                    },
                ),
            }
        } else {
            let seq = self.seq + 1;
            ProbeStep {
                forget,
                next: ProbeNext::Send {
                    probe: EchoProbe {
                        count: self.count,
                        timeout_ms: self.timeout_ms,
                        seq,
                        last_err: Some(last_err),
                    },
                    request: request(seq),
                },
            }
        }
    }
}

/// How the probes of a host scan are to be made.
#[derive(Debug)]
pub struct HostScanPlan {
    /// Time to live of IPv4 probes and hop limit of IPv6 probes, at least one.
    pub hop_limit: u32,
    /// Milliseconds to wait for each reply.
    pub timeout_ms: u64,
    /// Requests per target, at least one.
    pub count: u32,
    /// What the requests carry.
    pub payload: String,
    /// How many targets are probed at a time.
    pub concurrency: usize,
    /// Some target has an IPv4 address: an IPv4 socket is needed.
    pub need_v4: bool,
    /// Some target has an IPv6 address: an IPv6 socket is needed.
    pub need_v6: bool,
    /// Source address of IPv4 probes, unspecified where none is known.
    pub source_v4: IpAddress,
    /// Source address of IPv6 probes, unspecified where none is known.
    pub source_v6: IpAddress,
}

/// What follows from one finished target.
#[derive(Debug)]
pub struct HostStep {
    /// The sample of the target.
    pub sample: HostScanProgress,
    /// The host is alive: the sample is due as an event.
    pub emit_alive: bool,
    /// The progress event that is due, as `(done, total)`.
    pub progress: Option<(u32, u32)>,
    /// With this target the scan has a result for each of its targets.
    pub finished: bool,
}

pub struct HostStepView {
    pub sample: HostScanProgressView,
    pub emit_alive: bool,
    pub progress: Option<(u32, u32)>,
    pub finished: bool,
}

impl View for HostStep {
    type V = HostStepView;

    open spec fn view(&self) -> HostStepView {
        HostStepView {
            sample: self.sample@,
            emit_alive: self.emit_alive,
            progress: self.progress,
            finished: self.finished,
        }
    }
}

/// Mathematical state of a host scan.
pub struct HostScanView {
    pub run_id: Seq<char>,
    /// The hosts to probe.
    pub targets: Seq<HostView>,
    /// For each target, whether its result is still awaited.
    pub awaiting: Seq<bool>,
    pub progress: Throttle,
    /// The hosts that answered, each with its round-trip time.
    pub alive: Seq<(HostView, u64)>,
    /// The hosts that did not answer.
    pub unreachable: Seq<HostView>,
}

/// The alive hosts of a list, each with its name as a sequence of characters.
pub open spec fn alive_views(alive: Seq<(Host, u64)>) -> Seq<(HostView, u64)> {
    alive.map_values(|entry: (Host, u64)| (entry.0@, entry.1))
}

/// The round-trip time that is reported for an alive host.
pub open spec fn reported_rtt(rtt_ms: Option<u64>) -> u64 {
    match rtt_ms {
        Some(rtt) => rtt,
        None => 0,
    }
}

impl HostScanView {
    /// Some target whose result has come in is `host`.
    pub open spec fn finished_target(self, host: HostView) -> bool {
        exists|t: int|
            0 <= t < self.targets.len() && #[trigger] self.targets[t] == host && !self.awaiting[t]
    }

    /// What holds of every state of a scan: every target is either awaited
    /// or done; each target that is done is alive or unreachable, so that
    /// the two lists together are never longer than the target list; and
    /// every listed host is a target.
    pub open spec fn wf(self) -> bool {
        &&& self.targets.len() == self.awaiting.len() == self.progress.total
        &&& self.progress.total <= u32::MAX
        &&& distinct(self.targets)
        &&& self.progress.done + count_marks(self.awaiting) == self.progress.total
        &&& self.alive.len() + self.unreachable.len() == self.progress.done
        &&& forall|k: int|
            0 <= k < self.alive.len() ==> self.finished_target((#[trigger] self.alive[k]).0)
        &&& forall|k: int|
            0 <= k < self.unreachable.len() ==> self.finished_target(#[trigger] self.unreachable[k])
    }

    /// The target is one whose result the scan awaits.
    pub open spec fn awaits(self, target: int) -> bool {
        0 <= target < self.awaiting.len() && self.awaiting[target]
    }

    /// The sample of a target.
    pub open spec fn sample_of(self, target: int, result: TargetResultView) -> HostScanProgressView {
        HostScanProgressView {
            ip_addr: self.targets[target].ip,
            state: result.state,
            rtt_ms: result.rtt_ms,
            message: result.message,
            done: (self.progress.done + 1) as u32,
            total: self.progress.total as u32,
        }
    }

    /// The state after the result of a target came in at time `now`.
    pub open spec fn after_record(self, target: int, result: TargetResultView, now: nat) -> HostScanView {
        HostScanView {
            awaiting: self.awaiting.update(target, false),
            progress: self.progress.advance(now),
            alive: if result.state is Alive {
                self.alive.push((self.targets[target], reported_rtt(result.rtt_ms)))
            } else {
                self.alive
            },
            unreachable: if result.state is Alive {
                self.unreachable
            } else {
                self.unreachable.push(self.targets[target])
            },
            ..self
        }
    }

    /// What follows from the result of a target that came in at time `now`.
    pub open spec fn step_of(self, target: int, result: TargetResultView, now: nat) -> HostStepView {
        HostStepView {
            sample: self.sample_of(target, result),
            emit_alive: result.state is Alive,
            progress: if self.progress.emits(now) {
                Some(((self.progress.done + 1) as u32, self.progress.total as u32))
            } else {
                None
            },
            finished: self.progress.done + 1 == self.progress.total,
        }
    }
}

/// A well-formed scan has a result for each of its targets exactly when it
/// awaits none.
pub proof fn lemma_finished(scan: HostScanView)
    requires
        scan.wf(),
    ensures
        scan.progress.done <= scan.progress.total,
        scan.progress.done == scan.progress.total <==> forall|t: int|
            0 <= t < scan.awaiting.len() ==> !scan.awaiting[t],
{
    lemma_count_bound(scan.awaiting);
    lemma_count_uniform(scan.awaiting);
    if exists|t: int| 0 <= t < scan.awaiting.len() && scan.awaiting[t] {
        let t = choose|t: int| 0 <= t < scan.awaiting.len() && scan.awaiting[t];
        lemma_count_update(scan.awaiting, t, false);
    }
}

/// Recording a result keeps the scan well formed: alive and unreachable
/// hosts together never outnumber the targets, and the count of finished
/// targets grows by one.
pub proof fn lemma_record_keeps_wf(scan: HostScanView, target: int, result: TargetResultView, now: nat)
    requires
        scan.wf(),
        scan.awaits(target),
    ensures
        scan.after_record(target, result, now).wf(),
        scan.progress.done < scan.progress.total,
        scan.after_record(target, result, now).progress.done == scan.progress.done + 1,
        scan.after_record(target, result, now).alive.len() + scan.after_record(
            target,
            result,
            now,
        ).unreachable.len() <= scan.progress.total,
{
    let after = scan.after_record(target, result, now);
    lemma_count_update(scan.awaiting, target, false);
    assert forall|host: HostView| scan.finished_target(host) implies after.finished_target(
        host,
    ) by {
        let t = choose|t: int|
            0 <= t < scan.targets.len() && #[trigger] scan.targets[t] == host && !scan.awaiting[t];
        assert(after.targets[t] == host && !after.awaiting[t]);
    }
    assert(after.finished_target(scan.targets[target])) by {
        assert(after.targets[target] == scan.targets[target] && !after.awaiting[target]);
    }
    assert forall|k: int| 0 <= k < after.alive.len() implies after.finished_target(
        (#[trigger] after.alive[k]).0,
    ) by {
        if k < scan.alive.len() {
            assert(after.alive[k] == scan.alive[k]);
        }
    }
    assert forall|k: int| 0 <= k < after.unreachable.len() implies after.finished_target(
        #[trigger] after.unreachable[k],
    ) by {
        if k < scan.unreachable.len() {
            assert(after.unreachable[k] == scan.unreachable[k]);
        }
    }
}

/// A target that finished: its position, its result, and the time.
pub struct FinishedTarget {
    pub target: int,
    pub result: TargetResultView,
    pub now: nat,
}

/// The state of a scan after the results of `finished` were recorded in
/// order; a result for a target that is not awaited changes nothing.
pub open spec fn after_run(scan: HostScanView, finished: Seq<FinishedTarget>) -> HostScanView
    decreases finished.len(),
{
    if finished.len() == 0 {
        scan
    } else {
        let before = after_run(scan, finished.drop_last());
        let last = finished.last();
        if before.awaits(last.target) {
            before.after_record(last.target, last.result, last.now)
        } else {
            before
        }
    }
}

/// Some result of the list is for the target.
pub open spec fn answered(finished: Seq<FinishedTarget>, target: int) -> bool {
    exists|i: int| 0 <= i < finished.len() && (#[trigger] finished[i]).target == target
}

/// Every run of a scan ends in a well-formed state: the alive and the
/// unreachable hosts are as many as the targets done, and never more than
/// the targets in all. The targets still awaited are those without a result,
/// so that a run that has a result for every target ends with all targets
/// done.
pub proof fn lemma_run(scan: HostScanView, finished: Seq<FinishedTarget>)
    requires
        scan.wf(),
    ensures
        after_run(scan, finished).wf(),
        after_run(scan, finished).targets == scan.targets,
        after_run(scan, finished).progress.total == scan.progress.total,
        after_run(scan, finished).alive.len() + after_run(scan, finished).unreachable.len()
            == after_run(scan, finished).progress.done <= scan.progress.total,
        forall|t: int|
            #[trigger] after_run(scan, finished).awaits(t) <==> scan.awaits(t) && !answered(
                finished,
                t,
            ),
        (forall|t: int| scan.awaits(t) ==> answered(finished, t)) ==> after_run(
            scan,
            finished,
        ).progress.done == scan.progress.total,
    decreases finished.len(),
{
    let end = after_run(scan, finished);
    if finished.len() > 0 {
        let front = finished.drop_last();
        let before = after_run(scan, front);
        let last = finished.last();
        lemma_run(scan, front);
        assert(finished[finished.len() - 1] == last);
        if before.awaits(last.target) {
            lemma_record_keeps_wf(before, last.target, last.result, last.now);
        }
        assert forall|t: int| answered(finished, t) <==> answered(front, t) || t
            == last.target by {
            if answered(finished, t) {
                let i = choose|i: int|
                    0 <= i < finished.len() && (#[trigger] finished[i]).target == t;
                if i < front.len() {
                    assert(front[i] == finished[i]);
                }
            }
            if answered(front, t) {
                let i = choose|i: int| 0 <= i < front.len() && (#[trigger] front[i]).target == t;
                assert(finished[i] == front[i]);
            }
        }
        assert forall|t: int| #[trigger]
            end.awaits(t) <==> scan.awaits(t) && !answered(finished, t) by {
            assert(before.awaits(t) <==> scan.awaits(t) && !answered(front, t));
        }
    } else {
        assert forall|t: int| !answered(finished, t) by {}
    }
    lemma_finished(end);
    if forall|t: int| scan.awaits(t) ==> answered(finished, t) {
        assert forall|t: int| 0 <= t < end.awaiting.len() implies !end.awaiting[t] by {
            if end.awaiting[t] {
                assert(end.awaits(t));
                assert(scan.awaits(t) && !answered(finished, t));
            }
        }
    }
}

/// State of one host scan.
pub struct HostScan {
    run_id: String,
    targets: Vec<Host>,
    awaiting: Vec<bool>,
    progress: ThrottledProgress,
    alive: Vec<(Host, u64)>,
    unreachable: Vec<Host>,
}

impl View for HostScan {
    type V = HostScanView;

    closed spec fn view(&self) -> HostScanView {
        HostScanView {
            run_id: self.run_id@,
            targets: host_views(self.targets@),
            awaiting: self.awaiting@,
            progress: self.progress@,
            alive: alive_views(self.alive@),
            unreachable: host_views(self.unreachable@),
        }
    }
}

impl HostScan {
    /// The state is one that a scan can be in.
    pub closed spec fn inv(&self) -> bool {
        self@.wf()
    }

    /// Every state of a scan is well formed.
    pub proof fn lemma_inv(&self)
        requires
            self.inv(),
        ensures
            self@.wf(),
    {
    }

    /// Plans a scan of `targets`: the state that awaits a result for each
    /// target, and how the probes are to be made. Hop limit and request
    /// count are at least one, the payload is `np:hs` unless the setting
    /// names one, and the concurrency is that of the setting or else the
    /// tuned one. A socket is needed for each address family that occurs
    /// among the targets, and for no other.
    pub fn begin(
        run_id: String,
        setting: &HostScanSetting,
        targets: TargetSet,
        tuned: &ScanConcurrency,
        source_v4: Option<u32>,
        source_v6: Option<u128>,
    ) -> (started: (HostScan, HostScanPlan))
        requires
            targets.wf(),
            targets@.len() <= u32::MAX,
        ensures
            started.0.inv(),
            started.0@ == (HostScanView {
                run_id: run_id@,
                targets: targets@,
                awaiting: Seq::new(targets@.len(), |t: int| true),
                progress: Throttle::initial(targets@.len()),
                alive: Seq::empty(),
                unreachable: Seq::empty(),
            }),
            started.1.hop_limit == (if setting.hop_limit >= 1 {
                setting.hop_limit as u32
            } else {
                1u32
            }),
            started.1.timeout_ms == setting.timeout_ms,
            started.1.count == (if setting.count >= 1 {
                setting.count
            } else {
                1u32
            }),
            started.1.payload@ == (match setting.payload {
                Some(text) => text@,
                None => "np:hs"@,
            }),
            started.1.concurrency == (match setting.concurrency {
                Some(cap) => cap,
                None => tuned.hosts,
            }),
            started.1.need_v4 <==> exists|t: int|
                0 <= t < targets@.len() && (#[trigger] targets@[t]).ip is V4,
            started.1.need_v6 <==> exists|t: int|
                0 <= t < targets@.len() && (#[trigger] targets@[t]).ip is V6,
            started.1.source_v4 == IpAddress::V4(
                match source_v4 {
                    Some(bits) => bits,
                    None => 0,
                },
            ),
            started.1.source_v6 == IpAddress::V6(
                match source_v6 {
                    Some(bits) => bits,
                    None => 0,
                },
            ),
    {
        proof {
            targets.lemma_distinct();
        }
        let ghost wanted = targets@;
        let hosts = targets.into_hosts();
        let mut awaiting: Vec<bool> = Vec::new();
        let mut need_v4 = false;
        let mut need_v6 = false;
        let mut t: usize = 0;
        while t < hosts.len()
            invariant
                t <= hosts.len(),
                host_views(hosts@) == wanted,
                awaiting@ == Seq::new(t as nat, |t: int| true),
                need_v4 <==> exists|k: int| 0 <= k < t && (#[trigger] wanted[k]).ip is V4,
                need_v6 <==> exists|k: int| 0 <= k < t && (#[trigger] wanted[k]).ip is V6,
            decreases hosts.len() - t,
        {
            assert(wanted[t as int].ip == hosts@[t as int].ip);
            if hosts[t].ip.is_ipv4() {
                need_v4 = true;
            } else {
                need_v6 = true;
            }
            awaiting.push(true);
            assert(awaiting@ =~= Seq::new((t + 1) as nat, |t: int| true));
            t += 1;
        }
        proof {
            lemma_count_uniform(awaiting@);
        }
        let plan = HostScanPlan {
            hop_limit: if setting.hop_limit >= 1 {
                setting.hop_limit as u32
            } else {
                1
            },
            timeout_ms: setting.timeout_ms,
            count: if setting.count >= 1 {
                setting.count
            } else {
                1
            },
            payload: match &setting.payload {
                Some(text) => text.clone(),
                None => String::from_str("np:hs"),
            },
            concurrency: match setting.concurrency {
                Some(cap) => cap,
                None => hosts_concurrency(tuned),
            },
            need_v4,
            need_v6,
            source_v4: IpAddress::V4(
                match source_v4 {
                    Some(bits) => bits,
                    None => 0,
                },
            ),
            source_v6: IpAddress::V6(
                match source_v6 {
                    Some(bits) => bits,
                    None => 0,
                },
            ),
        };
        let total = hosts.len() as u32;
        let scan = HostScan {
            run_id,
            targets: hosts,
            awaiting,
            progress: ThrottledProgress::new(total),
            alive: Vec::new(),
            unreachable: Vec::new(),
        };
        assert(alive_views(scan.alive@) =~= Seq::empty());
        assert(host_views(scan.unreachable@) =~= Seq::empty());
        (scan, plan)
    }

    /// The hosts to probe; a result is reported under the position of its
    /// host in this list.
    pub fn targets(&self) -> (targets: &Vec<Host>)
        ensures
            host_views(targets@) == self@.targets,
    {
        &self.targets
    }

    /// Number of targets of the scan.
    pub fn total(&self) -> (total: u32)
        ensures
            total == self@.progress.total,
    {
        self.progress.total()
    }

    /// Number of targets whose result has come in.
    pub fn done(&self) -> (done: u32)
        ensures
            done == self@.progress.done,
    {
        self.progress.done()
    }

    /// The final report: the alive hosts with their round-trip times and the
    /// unreachable hosts, together no more than the scan had targets.
    pub fn report(self) -> (report: HostScanReport)
        requires
            self.inv(),
        ensures
            report.run_id@ == self@.run_id,
            alive_views(report.alive@) == self@.alive,
            host_views(report.unreachable@) == self@.unreachable,
            report.total == self@.progress.total,
            report.alive.len() + report.unreachable.len() == self@.progress.done,
            report.alive.len() + report.unreachable.len() <= report.total,
    {
        proof {
            lemma_count_bound(self.awaiting@);
        }
        let total = self.progress.total();
        HostScanReport {
            run_id: self.run_id,
            alive: self.alive,
            unreachable: self.unreachable,
            total,
        }
    }
}

/// One step of a host scan: takes the result of the probes of the target at
/// position `target`, which came in `now` milliseconds after the scan began,
/// and answers with the sample and the events that are due. The host is
/// listed as alive with its round-trip time, zero where none was measured,
/// or as unreachable. A result for a target that the scan does not await is
/// dropped.
pub fn host_scan(scan: &mut HostScan, target: usize, result: TargetResult, now: u128) -> (step:
    Option<HostStep>)
    requires
        old(scan).inv(),
    ensures
        final(scan).inv(),
        match step {
            Some(s) => {
                &&& old(scan)@.awaits(target as int)
                &&& final(scan)@ == old(scan)@.after_record(target as int, result@, now as nat)
                &&& s@ == old(scan)@.step_of(target as int, result@, now as nat)
            },
            None => !old(scan)@.awaits(target as int) && final(scan)@ == old(scan)@,
        },
{
    if target >= scan.awaiting.len() || !scan.awaiting[target] {
        return None;
    }
    proof {
        lemma_record_keeps_wf(scan@, target as int, result@, now as nat);
    }
    scan.awaiting.set(target, false);
    let (done, emits) = scan.progress.advance_at(now);
    let total = scan.progress.total();
    let host = scan.targets[target].clone();
    let ip = host.ip;
    let is_alive = match result.state {
        HostState::Alive => true,
        HostState::Unreachable => false,
    };
    if is_alive {
        let rtt: u64 = match result.rtt_ms {
            Some(rtt) => rtt,
            None => 0,
        };
        let ghost before = alive_views(scan.alive@);
        scan.alive.push((host, rtt));
        assert(alive_views(scan.alive@) =~= before.push((host@, rtt)));
    } else {
        let ghost before = host_views(scan.unreachable@);
        scan.unreachable.push(host);
        assert(host_views(scan.unreachable@) =~= before.push(host@));
    }
    Some(
        HostStep {
            sample: HostScanProgress {
                ip_addr: ip,
                state: result.state,
                rtt_ms: result.rtt_ms,
                message: result.message,
                done,
                total,
            },
            emit_alive: is_alive,
            progress: if emits {
                Some((done, total))
            } else {
                None
            },
            finished: done == total,
        },
    )
}

} // verus!
