use vstd::prelude::*;
use crate::types::ProcError;

verus! {

/// How long a terminated process is given to exit before it is killed.
pub const GRACE_PERIOD_MS: u64 = 500;

/// The signals of the kill protocol.
#[derive(Debug, Clone, Copy, PartialEq, Eq)]
pub enum Signal {
    /// Freezes the process.
    Stop,
    /// Asks the process to exit.
    Terminate,
    /// Ends the process unconditionally.
    Kill,
    /// Has no effect; tells whether the process still exists.
    Probe,
}

/// What became of one signal send.
#[derive(Debug, Clone)]
pub enum SignalOutcome {
    Delivered,
    /// The target no longer exists.
    NoSuchProcess,
    /// The kernel refused for lack of privilege.
    PermissionDenied,
    /// Any other failure, with its cause.
    Failed(String),
}

/// What the caller reports back after performing an action.
#[derive(Debug, Clone)]
pub enum KillEvent {
    /// The target's one-letter scheduling state.
    Observed(char),
    /// The target's record is gone: it exited.
    Absent,
    /// The target's record could not be read for another reason.
    Unreadable,
    /// The outcome of the last signal sent.
    Sent(SignalOutcome),
    /// The requested wait is over.
    Waited,
}

/// What the caller is to do next.
#[derive(Debug)]
pub enum KillAction {
    /// Read the target's scheduling state.
    ReadState,
    /// Send a signal to the target.
    Send(Signal),
    /// Wait this many milliseconds.
    Wait(u64),
    /// The protocol is over, with this result.
    Finish(Result<(), ProcError>),
}

/// Where the protocol stands.
#[derive(Debug, Clone, Copy, PartialEq, Eq)]
pub enum KillStage {
    Inspecting,
    Stopping,
    Terminating,
    Grace,
    Probing,
    Killing,
    Done,
}

/// The graduated termination of one process: inspect, stop, terminate, wait,
/// probe, kill. The caller performs each action and reports what happened.
#[derive(Debug, Clone, Copy)]
pub struct KillProtocol {
    pub pid: i32,
    pub stage: KillStage,
}

/// The states in which signals cannot affect a process: uninterruptible sleep
/// and zombie.
pub open spec fn unkillable(state: char) -> bool {
    state == 'D' || state == 'Z'
}

/// The result of a signal send: success when delivered or when the target is
/// already gone.
pub open spec fn send_result(pid: i32, outcome: SignalOutcome) -> Result<(), ProcError> {
    match outcome {
        SignalOutcome::Delivered => Ok(()),
        SignalOutcome::NoSuchProcess => Ok(()),
        SignalOutcome::PermissionDenied => Err(ProcError::PermissionDenied(pid)),
        SignalOutcome::Failed(cause) => Err(ProcError::SignalError(pid, cause)),
    }
}

/// One step of the protocol for `pid`: in `stage`, after `event`, it moves to
/// `next` and asks for `action`.
pub open spec fn kill_step(
    pid: i32,
    stage: KillStage,
    event: KillEvent,
    next: KillStage,
    action: KillAction,
) -> bool {
    match (stage, event) {
        (KillStage::Inspecting, KillEvent::Observed(c)) => if unkillable(c) {
            next == KillStage::Done && action == KillAction::Finish(
                Err(ProcError::UnkillableState(pid)),
            )
        } else {
            next == KillStage::Stopping && action == KillAction::Send(Signal::Stop)
        },
        (KillStage::Inspecting, KillEvent::Unreadable) => next == KillStage::Stopping && action
            == KillAction::Send(Signal::Stop),
        (KillStage::Inspecting, KillEvent::Absent) => next == KillStage::Done && action
            == KillAction::Finish(Ok(())),
        (KillStage::Stopping, KillEvent::Sent(SignalOutcome::Delivered)) => next
            == KillStage::Terminating && action == KillAction::Send(Signal::Terminate),
        (KillStage::Terminating, KillEvent::Sent(SignalOutcome::Delivered)) => next
            == KillStage::Grace && action == KillAction::Wait(GRACE_PERIOD_MS),
        (KillStage::Grace, KillEvent::Waited) => next == KillStage::Probing && action
            == KillAction::Send(Signal::Probe),
        (KillStage::Probing, KillEvent::Sent(SignalOutcome::Delivered)) => next
            == KillStage::Killing && action == KillAction::Send(Signal::Kill),
        (KillStage::Stopping, KillEvent::Sent(o)) => next == KillStage::Done && action
            == KillAction::Finish(send_result(pid, o)),
        (KillStage::Terminating, KillEvent::Sent(o)) => next == KillStage::Done && action
            == KillAction::Finish(send_result(pid, o)),
        (KillStage::Probing, KillEvent::Sent(o)) => next == KillStage::Done && action
            == KillAction::Finish(send_result(pid, o)),
        (KillStage::Killing, KillEvent::Sent(o)) => next == KillStage::Done && action
            == KillAction::Finish(send_result(pid, o)),
        _ => next == KillStage::Done && action matches KillAction::Finish(Err(ProcError::Other(_))),
    }
}

/// `stages` and `actions` are what the protocol for the positive `pid` goes
/// through when the caller reports `events`: `actions[0]` is the first request, and
/// `actions[i + 1]` answers `events[i]`.
pub open spec fn is_run(
    pid: i32,
    events: Seq<KillEvent>,
    stages: Seq<KillStage>,
    actions: Seq<KillAction>,
) -> bool {
    &&& pid > 0
    &&& stages.len() == events.len() + 1
    &&& actions.len() == events.len() + 1
    &&& stages[0] == KillStage::Inspecting
    &&& actions[0] == KillAction::ReadState
    &&& forall|i: int|
        0 <= i < events.len() ==> kill_step(pid, stages[i], #[trigger] events[i], stages[i + 1], actions[i + 1])
}

fn send_outcome_result(pid: i32, outcome: SignalOutcome) -> (r: Result<(), ProcError>)
    ensures
        r == send_result(pid, outcome),
{
    match outcome {
        SignalOutcome::Delivered => Ok(()),
        SignalOutcome::NoSuchProcess => Ok(()),
        SignalOutcome::PermissionDenied => Err(ProcError::PermissionDenied(pid)),
        SignalOutcome::Failed(cause) => Err(ProcError::SignalError(pid, cause)),
    }
}

impl KillProtocol {
    /// Starts the protocol for `pid`: the first action reads its state. A pid
    /// that is not positive names no single process (signals to it would reach
    /// process groups) and ends at once with `NotFound`.
    pub fn start(pid: i32) -> (r: (KillProtocol, KillAction))
        ensures
            r.0.pid == pid,
            pid > 0 ==> r.0.stage == KillStage::Inspecting && r.1 == KillAction::ReadState,
            pid <= 0 ==> r.0.stage == KillStage::Done && r.1 == KillAction::Finish(
                Err(ProcError::NotFound(pid)),
            ),
    {
        if pid <= 0 {
            return (KillProtocol { pid, stage: KillStage::Done }, KillAction::Finish(Err(ProcError::NotFound(pid))));
        }
        (KillProtocol { pid, stage: KillStage::Inspecting }, KillAction::ReadState)
    }

    /// Takes the caller's report of the last action and returns the next one.
    pub fn on_event(&mut self, event: KillEvent) -> (action: KillAction)
        ensures
            final(self).pid == old(self).pid,
            kill_step(old(self).pid, old(self).stage, event, final(self).stage, action),
    {
        let pid = self.pid;
        let (next, action) = match (self.stage, event) {
            (KillStage::Inspecting, KillEvent::Observed(c)) => if c == 'D' || c == 'Z' {
                (KillStage::Done, KillAction::Finish(Err(ProcError::UnkillableState(pid))))
            } else {
                (KillStage::Stopping, KillAction::Send(Signal::Stop))
            },
            (KillStage::Inspecting, KillEvent::Unreadable) => (
                KillStage::Stopping,
                KillAction::Send(Signal::Stop),
            ),
            (KillStage::Inspecting, KillEvent::Absent) => (
                KillStage::Done,
                KillAction::Finish(Ok(())),
            ),
            (KillStage::Stopping, KillEvent::Sent(SignalOutcome::Delivered)) => (
                KillStage::Terminating,
                KillAction::Send(Signal::Terminate),
            ),
            (KillStage::Terminating, KillEvent::Sent(SignalOutcome::Delivered)) => (
                KillStage::Grace,
                KillAction::Wait(GRACE_PERIOD_MS),
            ),
            (KillStage::Grace, KillEvent::Waited) => (
                KillStage::Probing,
                KillAction::Send(Signal::Probe),
            ),
            (KillStage::Probing, KillEvent::Sent(SignalOutcome::Delivered)) => (
                KillStage::Killing,
                KillAction::Send(Signal::Kill),
            ),
            (KillStage::Stopping, KillEvent::Sent(o)) => (
                KillStage::Done,
                KillAction::Finish(send_outcome_result(pid, o)),
            ),
            (KillStage::Terminating, KillEvent::Sent(o)) => (
                KillStage::Done,
                KillAction::Finish(send_outcome_result(pid, o)),
            ),
            (KillStage::Probing, KillEvent::Sent(o)) => (
                KillStage::Done,
                KillAction::Finish(send_outcome_result(pid, o)),
            ),
            (KillStage::Killing, KillEvent::Sent(o)) => (
                KillStage::Done,
                KillAction::Finish(send_outcome_result(pid, o)),
            ),
            _ => (
                KillStage::Done,
                KillAction::Finish(Err(ProcError::Other("unexpected event".to_owned()))),
            ),
        };
        self.stage = next;
        action
    }
}

/// A process that is gone when probed after the grace period ends the protocol
/// in success, and no kill signal has been asked for up to that point.
pub proof fn lemma_exit_during_grace_needs_no_kill(
    pid: i32,
    events: Seq<KillEvent>,
    stages: Seq<KillStage>,
    actions: Seq<KillAction>,
    i: int,
)
    requires
        is_run(pid, events, stages, actions),
        0 <= i < events.len(),
        forall|j: int| 0 <= j <= i ==> !(#[trigger] actions[j] is Finish),
        actions[i] == KillAction::Send(Signal::Probe),
        events[i] == KillEvent::Sent(SignalOutcome::NoSuchProcess),
    ensures
        actions[i + 1] == KillAction::Finish(Ok(())),
        forall|j: int| 0 <= j <= i + 1 ==> #[trigger] actions[j] != KillAction::Send(Signal::Kill),
{
    assert(i > 0);
    assert(kill_step(pid, stages[i - 1], events[i - 1], stages[i], actions[i]));
    assert(stages[i] == KillStage::Probing);
    assert(kill_step(pid, stages[i], events[i], stages[i + 1], actions[i + 1]));
    assert forall|j: int| 0 <= j <= i + 1 implies #[trigger] actions[j] != KillAction::Send(
        Signal::Kill,
    ) by {
        if j > 0 && j < i && actions[j] == KillAction::Send(Signal::Kill) {
            assert(kill_step(pid, stages[j - 1], events[j - 1], stages[j], actions[j]));
            assert(stages[j] == KillStage::Killing);
            assert(kill_step(pid, stages[j], events[j], stages[j + 1], actions[j + 1]));
            assert(actions[j + 1] is Finish);
        }
    }
}

/// A process observed in uninterruptible sleep or as a zombie ends the protocol
/// with `UnkillableState` at once: the only action before is the state read.
pub proof fn lemma_unkillable_state_sends_nothing(
    pid: i32,
    events: Seq<KillEvent>,
    stages: Seq<KillStage>,
    actions: Seq<KillAction>,
    state: char,
)
    requires
        is_run(pid, events, stages, actions),
        events.len() >= 1,
        events[0] == KillEvent::Observed(state),
        unkillable(state),
    ensures
        actions[0] == KillAction::ReadState,
        actions[1] == KillAction::Finish(Err(ProcError::UnkillableState(pid))),
{
    assert(kill_step(pid, stages[0], events[0], stages[1], actions[1]));
}

} // verus!
