use domcp::proxy::{
    exit_code, proxy_stream, supervise, CopyPhase, IoOutcome, ProcessEvent, ProcessPhase,
};

#[test]
fn exit_codes() {
    assert_eq!(exit_code(Some(0)), 0);
    assert_eq!(exit_code(Some(7)), 7);
    assert_eq!(exit_code(None), 1);
}

#[test]
fn a_stream_is_copied_to_its_end() {
    let mut phase = CopyPhase::Reading;
    let mut written = 0;
    for outcome in [
        IoOutcome::Done(5),
        IoOutcome::Done(5),
        IoOutcome::Done(0),
        IoOutcome::Done(3),
        IoOutcome::Done(3),
        IoOutcome::Done(0),
        IoOutcome::Done(0),
        IoOutcome::Done(0),
    ] {
        if let CopyPhase::Writing(n) = phase {
            written += n;
        }
        let step = proxy_stream(phase, outcome, true);
        assert!(!step.warn);
        phase = step.phase;
    }
    assert_eq!(written, 8);
    assert_eq!(phase, CopyPhase::Closed);
}

#[test]
fn end_of_stream() {
    let end = IoOutcome::Done(0);
    assert_eq!(proxy_stream(CopyPhase::Reading, end, true).phase, CopyPhase::Closing);
    assert_eq!(proxy_stream(CopyPhase::Reading, end, false).phase, CopyPhase::Closed);
}

#[test]
fn failures_end_the_copy() {
    for phase in [CopyPhase::Reading, CopyPhase::Writing(4), CopyPhase::Flushing] {
        let broken = proxy_stream(phase, IoOutcome::Failed { broken_pipe: true }, true);
        assert_eq!(broken.phase, CopyPhase::Closing);
        assert!(!broken.warn);
        let other = proxy_stream(phase, IoOutcome::Failed { broken_pipe: false }, false);
        assert_eq!(other.phase, CopyPhase::Closed);
        assert!(other.warn);
    }
    let closing = proxy_stream(
        CopyPhase::Closing,
        IoOutcome::Failed { broken_pipe: false },
        true,
    );
    assert_eq!(closing.phase, CopyPhase::Closed);
    assert!(closing.warn);
}

fn after(events: &[ProcessEvent]) -> ProcessPhase {
    let mut phase = ProcessPhase::Running;
    for event in events {
        phase = supervise(phase, *event);
    }
    phase
}

#[test]
fn processes_are_seen_to_their_end() {
    assert_eq!(
        after(&[ProcessEvent::Exited(Some(3)), ProcessEvent::Drained]),
        ProcessPhase::Finished(3)
    );
    assert_eq!(
        after(&[
            ProcessEvent::Shutdown,
            ProcessEvent::Killed,
            ProcessEvent::Exited(None),
            ProcessEvent::Drained
        ]),
        ProcessPhase::Finished(1)
    );
    assert_eq!(after(&[ProcessEvent::Shutdown]), ProcessPhase::Ending);
    assert_eq!(after(&[ProcessEvent::ShutdownClosed]), ProcessPhase::Waiting);
    assert_eq!(
        after(&[ProcessEvent::ShutdownClosed, ProcessEvent::Exited(Some(0))]),
        ProcessPhase::Draining(0)
    );
    assert_eq!(after(&[ProcessEvent::Failed]), ProcessPhase::Failed);
    assert_eq!(
        after(&[ProcessEvent::Shutdown, ProcessEvent::Failed]),
        ProcessPhase::Failed
    );
    assert_eq!(after(&[ProcessEvent::Drained]), ProcessPhase::Running);
}

#[test]
fn output_is_drained_before_the_end() {
    let exited = after(&[ProcessEvent::Exited(Some(0))]);
    assert_eq!(exited, ProcessPhase::Draining(0));
    assert_eq!(supervise(exited, ProcessEvent::Killed), exited);
    assert_eq!(supervise(exited, ProcessEvent::Drained), ProcessPhase::Finished(0));
}
