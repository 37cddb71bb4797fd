//! TCP port scan: a port is open when a connection to it is established.

use crate::model::PortState;
use crate::portscan::{
    ConnectError, ConnectOutcome, ConnectOutcomeView, PortScan, PortStep, Verdict, VerdictView,
};
use vstd::prelude::*;
use vstd::string::StringExecFns;

verus! {

/// The state of a port on which the connect attempt failed with `error`: a
/// refused or reset connection shows a closed port, a timeout or an
/// unreachable network or host shows a filtered one, and any other failure
/// counts as closed.
pub open spec fn state_after(error: ConnectError) -> PortState {
    match error {
        ConnectError::TimedOut => PortState::Filtered,
        ConnectError::ConnectionRefused => PortState::Closed,
        ConnectError::ConnectionReset => PortState::Closed,
        ConnectError::NotConnected => PortState::Closed,
        ConnectError::NetworkUnreachable => PortState::Filtered,
        ConnectError::HostUnreachable => PortState::Filtered,
        ConnectError::AddrNotAvailable => PortState::Filtered,
        ConnectError::Other => PortState::Closed,
    }
}

/// The verdict on a port from the outcome of the connect attempt.
pub open spec fn verdict_of(outcome: ConnectOutcomeView) -> VerdictView {
    match outcome {
        ConnectOutcomeView::Connected { rtt_ms } => VerdictView {
            state: PortState::Open,
            rtt_ms: Some(rtt_ms),
            message: None,
        },
        ConnectOutcomeView::Failed { error, message } => VerdictView {
            state: state_after(error),
            rtt_ms: None,
            message: Some(message),
        },
        ConnectOutcomeView::NoSocket { message } => VerdictView {
            state: PortState::Filtered,
            rtt_ms: None,
            message: Some("tcp socket error: "@ + message),
        },
    }
}

/// A port has a round-trip time exactly when it is open.
pub proof fn lemma_verdict_sound(outcome: ConnectOutcomeView)
    ensures
        verdict_of(outcome).sound(),
        verdict_of(outcome).state is Open <==> verdict_of(outcome).rtt_ms is Some,
{
}

/// The verdict on a port from the outcome of the connect attempt.
pub fn classify(outcome: ConnectOutcome) -> (verdict: Verdict)
    ensures
        verdict@ == verdict_of(outcome@),
{
    match outcome {
        ConnectOutcome::Connected { rtt_ms } => Verdict {
            state: PortState::Open,
            rtt_ms: Some(rtt_ms),
            message: None,
        },
        ConnectOutcome::Failed { error, message } => {
            let state = match error {
                ConnectError::TimedOut => PortState::Filtered,
                ConnectError::ConnectionRefused => PortState::Closed,
                ConnectError::ConnectionReset => PortState::Closed,
                ConnectError::NotConnected => PortState::Closed,
                ConnectError::NetworkUnreachable => PortState::Filtered,
                ConnectError::HostUnreachable => PortState::Filtered,
                ConnectError::AddrNotAvailable => PortState::Filtered,
                ConnectError::Other => PortState::Closed,
            };
            Verdict { state, rtt_ms: None, message: Some(message) }
        },
        ConnectOutcome::NoSocket { message } => Verdict {
            state: PortState::Filtered,
            rtt_ms: None,
            message: Some(String::from_str("tcp socket error: ").concat(message.as_str())),
        },
    }
}

/// One step of a TCP port scan: takes the outcome of the connect attempt on
/// `port`, which ended `now` milliseconds after the scan began, and answers
/// with the sample and the events that are due. The outcome of a port that
/// the scan does not await is dropped.
pub fn port_scan(scan: &mut PortScan, port: u16, outcome: ConnectOutcome, now: u128) -> (step:
    Option<PortStep>)
    requires
        old(scan).inv(),
    ensures
        final(scan).inv(),
        match step {
            Some(s) => {
                &&& old(scan)@.awaiting.contains(port)
                &&& final(scan)@ == old(scan)@.after_record(port, verdict_of(outcome@), now as nat)
                &&& s@ == old(scan)@.step_of(port, verdict_of(outcome@), now as nat)
            },
            None => !old(scan)@.awaiting.contains(port) && final(scan)@ == old(scan)@,
        },
{
    let verdict = classify(outcome);
    scan.record(port, verdict, now)
}

} // verus!
