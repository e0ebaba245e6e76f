use procctl::{
    KillAction, KillEvent, KillProtocol, KillStage, ProcError, Signal, SignalOutcome,
};

/// Runs the protocol against scripted reports, recording every action asked for.
fn run(pid: i32, state: KillEvent, sends: Vec<SignalOutcome>) -> (Vec<String>, Result<(), ProcError>) {
    let (mut m, mut action) = KillProtocol::start(pid);
    let mut trace = Vec::new();
    let mut sends = sends.into_iter();
    let mut first = Some(state);
    loop {
        let event = match action {
            KillAction::ReadState => {
                trace.push("read".to_string());
                first.take().expect("state read once")
            }
            KillAction::Send(sig) => {
                trace.push(format!("{:?}", sig));
                KillEvent::Sent(sends.next().expect("scripted outcome"))
            }
            KillAction::Wait(ms) => {
                trace.push(format!("wait {}", ms));
                KillEvent::Waited
            }
            KillAction::Finish(r) => return (trace, r),
        };
        action = m.on_event(event);
    }
}

#[test]
fn stubborn_process_is_killed() {
    let (trace, r) = run(
        10,
        KillEvent::Observed('S'),
        vec![
            SignalOutcome::Delivered,
            SignalOutcome::Delivered,
            SignalOutcome::Delivered,
            SignalOutcome::Delivered,
        ],
    );
    assert_eq!(trace, vec!["read", "Stop", "Terminate", "wait 500", "Probe", "Kill"]);
    assert!(r.is_ok());
}

#[test]
fn exit_during_grace_is_success_without_kill() {
    let (trace, r) = run(
        11,
        KillEvent::Observed('R'),
        vec![
            SignalOutcome::Delivered,
            SignalOutcome::Delivered,
            SignalOutcome::NoSuchProcess,
        ],
    );
    assert_eq!(trace, vec!["read", "Stop", "Terminate", "wait 500", "Probe"]);
    assert!(!trace.contains(&"Kill".to_string()));
    assert!(r.is_ok());
}

#[test]
fn disk_wait_is_unkillable_before_any_signal() {
    let (trace, r) = run(12, KillEvent::Observed('D'), vec![]);
    assert_eq!(trace, vec!["read"]);
    assert!(matches!(r, Err(ProcError::UnkillableState(12))));
}

#[test]
fn zombie_is_unkillable_before_any_signal() {
    let (trace, r) = run(13, KillEvent::Observed('Z'), vec![]);
    assert_eq!(trace, vec!["read"]);
    assert!(matches!(r, Err(ProcError::UnkillableState(13))));
}

#[test]
fn absent_target_is_success() {
    let (trace, r) = run(14, KillEvent::Absent, vec![]);
    assert_eq!(trace, vec!["read"]);
    assert!(r.is_ok());
}

#[test]
fn unreadable_state_goes_on_to_signals() {
    let (trace, r) = run(15, KillEvent::Unreadable, vec![SignalOutcome::NoSuchProcess]);
    assert_eq!(trace, vec!["read", "Stop"]);
    assert!(r.is_ok());
}

#[test]
fn permission_denied_on_stop() {
    let (trace, r) = run(16, KillEvent::Observed('S'), vec![SignalOutcome::PermissionDenied]);
    assert_eq!(trace, vec!["read", "Stop"]);
    assert!(matches!(r, Err(ProcError::PermissionDenied(16))));
}

#[test]
fn signal_failure_carries_cause() {
    let (_, r) = run(
        17,
        KillEvent::Observed('S'),
        vec![SignalOutcome::Delivered, SignalOutcome::Failed("EINVAL".to_string())],
    );
    match r {
        Err(ProcError::SignalError(pid, cause)) => {
            assert_eq!(pid, 17);
            assert_eq!(cause, "EINVAL");
        }
        other => panic!("unexpected {:?}", other),
    }
}

#[test]
fn failure_of_final_kill_is_reported() {
    let (_, r) = run(
        18,
        KillEvent::Observed('S'),
        vec![
            SignalOutcome::Delivered,
            SignalOutcome::Delivered,
            SignalOutcome::Delivered,
            SignalOutcome::PermissionDenied,
        ],
    );
    assert!(matches!(r, Err(ProcError::PermissionDenied(18))));
}

#[test]
fn unexpected_event_ends_with_other() {
    let (mut m, _) = KillProtocol::start(19);
    let a = m.on_event(KillEvent::Waited);
    assert!(matches!(a, KillAction::Finish(Err(ProcError::Other(_)))));
    assert_eq!(m.stage, KillStage::Done);
}

#[test]
fn protocol_starts_by_reading_state() {
    let (m, a) = KillProtocol::start(20);
    assert_eq!(m.pid, 20);
    assert_eq!(m.stage, KillStage::Inspecting);
    assert!(matches!(a, KillAction::ReadState));
    let mut m = m;
    assert!(matches!(m.on_event(KillEvent::Observed('T')), KillAction::Send(Signal::Stop)));
    assert_eq!(m.stage, KillStage::Stopping);
}

#[test]
fn pid_that_is_not_positive_is_refused() {
    let (m, a) = KillProtocol::start(0);
    assert_eq!(m.stage, KillStage::Done);
    assert!(matches!(a, KillAction::Finish(Err(ProcError::NotFound(0)))));
    let (_, b) = KillProtocol::start(-1);
    assert!(matches!(b, KillAction::Finish(Err(ProcError::NotFound(-1)))));
}
