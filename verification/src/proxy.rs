//! The traffic between the host and a running container: how a stream is copied, and how the
//! container process is seen to its end.

use vstd::prelude::*;

verus! {

/// The exit code to report for a process: its own, or 1 where a signal ended it.
pub open spec fn reported_code(code: Option<i32>) -> i32 {
    match code {
        Some(code) => code,
        None => 1,
    }
}

/// The exit code to report for a process.
pub fn exit_code(code: Option<i32>) -> (r: i32)
    ensures
        r == reported_code(code),
{
    match code {
        Some(code) => code,
        None => 1,
    }
}

/// What is to be done next in copying a stream.
#[derive(Debug, Clone, Copy, PartialEq, Eq, Structural)]
pub enum CopyPhase {
    /// Read from the source.
    Reading,
    /// Write that many bytes of those just read.
    Writing(usize),
    /// Flush the destination.
    Flushing,
    /// Shut the destination down.
    Closing,
    /// Nothing: the copy is over.
    Closed,
}

/// How an operation on a stream went.
#[derive(Debug, Clone, Copy, PartialEq, Eq, Structural)]
pub enum IoOutcome {
    /// It was done. For a read, that many bytes came in, and none at the end of the stream.
    Done(usize),
    /// It failed, for a broken pipe or for another reason.
    Failed { broken_pipe: bool },
}

/// A step in copying a stream: what is to be done next, and whether the failure before it is
/// worth a warning.
#[derive(Debug, Clone, Copy, PartialEq, Eq, Structural)]
pub struct CopyStep {
    pub phase: CopyPhase,
    pub warn: bool,
}

/// What follows the last transfer: the destination is shut down where the copy owns it.
pub open spec fn after_transfer(closes: bool) -> CopyPhase {
    if closes {
        CopyPhase::Closing
    } else {
        CopyPhase::Closed
    }
}

/// What follows an operation that was done.
pub open spec fn after_success(phase: CopyPhase, count: usize, closes: bool) -> CopyPhase {
    match phase {
        CopyPhase::Reading => if count == 0 {
            after_transfer(closes)
        } else {
            CopyPhase::Writing(count)
        },
        CopyPhase::Writing(_) => CopyPhase::Flushing,
        CopyPhase::Flushing => CopyPhase::Reading,
        CopyPhase::Closing => CopyPhase::Closed,
        CopyPhase::Closed => CopyPhase::Closed,
    }
}

/// What follows an operation: after a failure the transfer is over, and anything but a broken
/// pipe is worth a warning.
pub open spec fn copied(phase: CopyPhase, outcome: IoOutcome, closes: bool) -> CopyStep {
    match outcome {
        IoOutcome::Done(count) => CopyStep {
            phase: after_success(phase, count, closes),
            warn: false,
        },
        IoOutcome::Failed { broken_pipe } => CopyStep {
            phase: match phase {
                CopyPhase::Closing => CopyPhase::Closed,
                CopyPhase::Closed => CopyPhase::Closed,
                _ => after_transfer(closes),
            },
            warn: !broken_pipe,
        },
    }
}

/// The next step in copying data from a reader to a writer until the end or a failure.
///
/// `closes` says whether the writer is shut down at the end.
pub fn proxy_stream(phase: CopyPhase, outcome: IoOutcome, closes: bool) -> (r: CopyStep)
    ensures
        r == copied(phase, outcome, closes),
{
    let end = if closes {
        CopyPhase::Closing
    } else {
        CopyPhase::Closed
    };
    match outcome {
        IoOutcome::Done(count) => {
            let next = match phase {
                CopyPhase::Reading => if count == 0 {
                    end
                } else {
                    CopyPhase::Writing(count)
                },
                CopyPhase::Writing(_) => CopyPhase::Flushing,
                CopyPhase::Flushing => CopyPhase::Reading,
                CopyPhase::Closing => CopyPhase::Closed,
                CopyPhase::Closed => CopyPhase::Closed,
            };
            CopyStep { phase: next, warn: false }
        },
        IoOutcome::Failed { broken_pipe } => {
            let next = match phase {
                CopyPhase::Closing => CopyPhase::Closed,
                CopyPhase::Closed => CopyPhase::Closed,
                _ => end,
            };
            CopyStep { phase: next, warn: !broken_pipe }
        },
    }
}

/// The phase after a row of operations.
pub open spec fn copy_phase(outcomes: Seq<IoOutcome>, closes: bool) -> CopyPhase
    decreases outcomes.len(),
{
    if outcomes.len() == 0 {
        CopyPhase::Reading
    } else {
        copied(copy_phase(outcomes.drop_last(), closes), outcomes.last(), closes).phase
    }
}

/// How many bytes came in over a row of operations.
pub open spec fn bytes_read(outcomes: Seq<IoOutcome>, closes: bool) -> nat
    decreases outcomes.len(),
{
    if outcomes.len() == 0 {
        0
    } else {
        let before = bytes_read(outcomes.drop_last(), closes);
        match (copy_phase(outcomes.drop_last(), closes), outcomes.last()) {
            (CopyPhase::Reading, IoOutcome::Done(count)) => before + count as nat,
            _ => before,
        }
    }
}

/// How many bytes went out over a row of operations.
pub open spec fn bytes_written(outcomes: Seq<IoOutcome>, closes: bool) -> nat
    decreases outcomes.len(),
{
    if outcomes.len() == 0 {
        0
    } else {
        let before = bytes_written(outcomes.drop_last(), closes);
        match (copy_phase(outcomes.drop_last(), closes), outcomes.last()) {
            (CopyPhase::Writing(count), IoOutcome::Done(_)) => before + count as nat,
            _ => before,
        }
    }
}

/// How many bytes are about to go out.
pub open spec fn bytes_pending(phase: CopyPhase) -> nat {
    match phase {
        CopyPhase::Writing(count) => count as nat,
        _ => 0,
    }
}

/// So long as nothing fails, every byte that comes in goes out: what was read is what was
/// written and what is about to be.
pub proof fn law_every_byte_is_forwarded(outcomes: Seq<IoOutcome>, closes: bool)
    requires
        forall|i: int| 0 <= i < outcomes.len() ==> (#[trigger] outcomes[i]) is Done,
    ensures
        bytes_read(outcomes, closes) == bytes_written(outcomes, closes) + bytes_pending(
            copy_phase(outcomes, closes),
        ),
    decreases outcomes.len(),
{
    if outcomes.len() > 0 {
        law_every_byte_is_forwarded(outcomes.drop_last(), closes);
        assert(outcomes[outcomes.len() - 1] is Done);
    }
}

/// No more goes out than came in, whatever fails.
pub proof fn law_nothing_is_made_up(outcomes: Seq<IoOutcome>, closes: bool)
    ensures
        bytes_written(outcomes, closes) + bytes_pending(copy_phase(outcomes, closes))
            <= bytes_read(outcomes, closes),
    decreases outcomes.len(),
{
    if outcomes.len() > 0 {
        law_nothing_is_made_up(outcomes.drop_last(), closes);
    }
}

/// After a failure nothing more is read or written.
pub proof fn law_a_failure_ends_the_copy(
    outcomes: Seq<IoOutcome>,
    broken_pipe: bool,
    more: Seq<IoOutcome>,
    closes: bool,
)
    ensures
        ({
            let all = outcomes.push(IoOutcome::Failed { broken_pipe }) + more;
            let phase = copy_phase(all, closes);
            phase == CopyPhase::Closing || phase == CopyPhase::Closed
        }),
    decreases more.len(),
{
    let failed = outcomes.push(IoOutcome::Failed { broken_pipe });
    if more.len() == 0 {
        assert(failed + more =~= failed);
        assert(failed.drop_last() =~= outcomes);
    } else {
        law_a_failure_ends_the_copy(outcomes, broken_pipe, more.drop_last(), closes);
        assert((failed + more).drop_last() =~= failed + more.drop_last());
    }
}

/// Where a container process stands.
#[derive(Debug, Clone, Copy, PartialEq, Eq, Structural)]
pub enum ProcessPhase {
    /// It runs: wait for its end or for a request to shut down.
    Running,
    /// It is to be ended.
    Ending,
    /// Its end is near: wait for it alone.
    Waiting,
    /// It is over, with that exit code to report: let its output drain.
    Draining(i32),
    /// All is done, with that exit code to report.
    Finished(i32),
    /// It could not be waited for or ended.
    Failed,
}

/// What happens to a container process.
#[derive(Debug, Clone, Copy, PartialEq, Eq, Structural)]
pub enum ProcessEvent {
    /// The process is over, with that exit code where it has one.
    Exited(Option<i32>),
    /// A shutdown was asked for.
    Shutdown,
    /// No shutdown will be asked for any more.
    ShutdownClosed,
    /// The process was told to end.
    Killed,
    /// Its output is drained.
    Drained,
    /// The last operation failed.
    Failed,
}

/// Where a container process stands after an event. An event that does not belong there
/// changes nothing.
pub open spec fn supervised(phase: ProcessPhase, event: ProcessEvent) -> ProcessPhase {
    match (phase, event) {
        (ProcessPhase::Running, ProcessEvent::Exited(code)) => ProcessPhase::Draining(
            reported_code(code),
        ),
        (ProcessPhase::Running, ProcessEvent::Shutdown) => ProcessPhase::Ending,
        (ProcessPhase::Running, ProcessEvent::ShutdownClosed) => ProcessPhase::Waiting,
        (ProcessPhase::Running, ProcessEvent::Failed) => ProcessPhase::Failed,
        (ProcessPhase::Ending, ProcessEvent::Killed) => ProcessPhase::Waiting,
        (ProcessPhase::Ending, ProcessEvent::Failed) => ProcessPhase::Failed,
        (ProcessPhase::Waiting, ProcessEvent::Exited(code)) => ProcessPhase::Draining(
            reported_code(code),
        ),
        (ProcessPhase::Waiting, ProcessEvent::Failed) => ProcessPhase::Failed,
        (ProcessPhase::Draining(code), ProcessEvent::Drained) => ProcessPhase::Finished(code),
        _ => phase,
    }
}

/// Where a container process stands after an event.
pub fn supervise(phase: ProcessPhase, event: ProcessEvent) -> (r: ProcessPhase)
    ensures
        r == supervised(phase, event),
{
    match (phase, event) {
        (ProcessPhase::Running, ProcessEvent::Exited(code)) => ProcessPhase::Draining(
            exit_code(code),
        ),
        (ProcessPhase::Running, ProcessEvent::Shutdown) => ProcessPhase::Ending,
        (ProcessPhase::Running, ProcessEvent::ShutdownClosed) => ProcessPhase::Waiting,
        (ProcessPhase::Running, ProcessEvent::Failed) => ProcessPhase::Failed,
        (ProcessPhase::Ending, ProcessEvent::Killed) => ProcessPhase::Waiting,
        (ProcessPhase::Ending, ProcessEvent::Failed) => ProcessPhase::Failed,
        (ProcessPhase::Waiting, ProcessEvent::Exited(code)) => ProcessPhase::Draining(
            exit_code(code),
        ),
        (ProcessPhase::Waiting, ProcessEvent::Failed) => ProcessPhase::Failed,
        (ProcessPhase::Draining(code), ProcessEvent::Drained) => ProcessPhase::Finished(code),
        _ => phase,
    }
}

/// Where a container process stands after a row of events.
pub open spec fn process_phase(events: Seq<ProcessEvent>) -> ProcessPhase
    decreases events.len(),
{
    if events.len() == 0 {
        ProcessPhase::Running
    } else {
        supervised(process_phase(events.drop_last()), events.last())
    }
}

/// A code is reported only for a process that is over, and it is that of the process.
pub proof fn law_the_code_is_that_of_the_process(events: Seq<ProcessEvent>, code: i32)
    requires
        process_phase(events) == ProcessPhase::Finished(code) || process_phase(events)
            == ProcessPhase::Draining(code),
    ensures
        exists|i: int|
            0 <= i < events.len() && ((#[trigger] events[i]) matches ProcessEvent::Exited(own)
                && reported_code(own) == code),
    decreases events.len(),
{
    if events.len() > 0 {
        let before = events.drop_last();
        if process_phase(before) == process_phase(events) || process_phase(before)
            == ProcessPhase::Draining(code) {
            law_the_code_is_that_of_the_process(before, code);
            let i = choose|i: int|
                0 <= i < before.len() && ((#[trigger] before[i]) matches ProcessEvent::Exited(own)
                    && reported_code(own) == code);
            assert(events[i] == before[i]);
        } else {
            let last = events[events.len() - 1];
            assert(last matches ProcessEvent::Exited(own) && reported_code(own) == code);
        }
    }
}

/// A container process is ended only on request.
pub proof fn law_ended_only_on_request(events: Seq<ProcessEvent>)
    requires
        process_phase(events) == ProcessPhase::Ending,
    ensures
        events.contains(ProcessEvent::Shutdown),
    decreases events.len(),
{
    if events.len() > 0 {
        let before = events.drop_last();
        if process_phase(before) == ProcessPhase::Ending {
            law_ended_only_on_request(before);
            let i = choose|i: int| 0 <= i < before.len() && before[i] == ProcessEvent::Shutdown;
            assert(events[i] == ProcessEvent::Shutdown);
        } else {
            assert(events[events.len() - 1] == ProcessEvent::Shutdown);
        }
    }
}

/// A run of a container process is over only after the process was, and after its output was
/// drained then.
pub proof fn law_output_is_drained_before_the_end(events: Seq<ProcessEvent>)
    requires
        process_phase(events) is Finished,
    ensures
        exists|i: int, j: int|
            0 <= i < j < events.len() && (#[trigger] events[i]) is Exited && #[trigger] events[j]
                == ProcessEvent::Drained,
    decreases events.len(),
{
    if events.len() > 0 {
        let before = events.drop_last();
        if process_phase(before) is Finished {
            law_output_is_drained_before_the_end(before);
            let (i, j) = choose|i: int, j: int|
                0 <= i < j < before.len() && (#[trigger] before[i]) is Exited
                    && #[trigger] before[j] == ProcessEvent::Drained;
            assert(events[i] is Exited && events[j] == ProcessEvent::Drained);
        } else {
            let code = process_phase(before)->Draining_0;
            law_the_code_is_that_of_the_process(before, code);
            let i = choose|i: int|
                0 <= i < before.len() && ((#[trigger] before[i]) matches ProcessEvent::Exited(own)
                    && reported_code(own) == code);
            let j = events.len() - 1;
            assert(events[i] is Exited && events[j] == ProcessEvent::Drained);
        }
    }
}

/// The copy goes on until the end of the input or a failure: so long as every operation is done
/// and every read brings something, it reads, writes or flushes, and is never over.
pub proof fn law_the_copy_goes_on(outcomes: Seq<IoOutcome>, closes: bool)
    requires
        forall|i: int| 0 <= i < outcomes.len() ==> (#[trigger] outcomes[i]) is Done,
        forall|i: int|
            0 <= i < outcomes.len() && copy_phase(outcomes.take(i), closes) == CopyPhase::Reading
                ==> (#[trigger] outcomes[i]) != IoOutcome::Done(0),
    ensures
        copy_phase(outcomes, closes) != CopyPhase::Closing,
        copy_phase(outcomes, closes) != CopyPhase::Closed,
    decreases outcomes.len(),
{
    if outcomes.len() > 0 {
        let before = outcomes.drop_last();
        let last = outcomes.len() - 1;
        assert forall|i: int| 0 <= i < before.len() implies (#[trigger] before[i]) is Done by {
            assert(before[i] == outcomes[i]);
        }
        assert forall|i: int|
            0 <= i < before.len() && copy_phase(before.take(i), closes)
                == CopyPhase::Reading implies (#[trigger] before[i]) != IoOutcome::Done(0) by {
            assert(before[i] == outcomes[i]);
            assert(before.take(i) =~= outcomes.take(i));
        }
        law_the_copy_goes_on(before, closes);
        assert(outcomes.take(last) =~= before);
        assert(outcomes[last] is Done);
        assert(outcomes[last] == outcomes.last());
    }
}

/// What a read brings is written, flushed, and followed by the next read, whatever the number
/// of bytes: all of them go out, and none is warned of.
pub proof fn law_a_message_is_passed_on(
    outcomes: Seq<IoOutcome>,
    count: usize,
    written: usize,
    flushed: usize,
    closes: bool,
)
    requires
        copy_phase(outcomes, closes) == CopyPhase::Reading,
        count > 0,
    ensures
        ({
            let read = outcomes.push(IoOutcome::Done(count));
            let wrote = read.push(IoOutcome::Done(written));
            let flush = wrote.push(IoOutcome::Done(flushed));
            &&& copy_phase(read, closes) == CopyPhase::Writing(count)
            &&& copy_phase(wrote, closes) == CopyPhase::Flushing
            &&& copy_phase(flush, closes) == CopyPhase::Reading
            &&& bytes_written(flush, closes) == bytes_written(outcomes, closes) + count
            &&& bytes_read(flush, closes) == bytes_read(outcomes, closes) + count
        }),
{
    let read = outcomes.push(IoOutcome::Done(count));
    let wrote = read.push(IoOutcome::Done(written));
    let flush = wrote.push(IoOutcome::Done(flushed));
    assert(read.drop_last() =~= outcomes);
    assert(copy_phase(read, closes) == CopyPhase::Writing(count));
    assert(bytes_read(read, closes) == bytes_read(outcomes, closes) + count);
    assert(bytes_written(read, closes) == bytes_written(outcomes, closes));
    assert(wrote.drop_last() =~= read);
    assert(copy_phase(wrote, closes) == CopyPhase::Flushing);
    assert(bytes_read(wrote, closes) == bytes_read(read, closes));
    assert(bytes_written(wrote, closes) == bytes_written(read, closes) + count);
    assert(flush.drop_last() =~= wrote);
}

/// A step depends on nothing but how the operation went: a write that is done is followed by a
/// flush and a flush by a read, whatever the numbers and whoever owns the destination.
pub proof fn law_every_write_is_flushed(count: usize, done: usize, closes: bool)
    ensures
        copied(CopyPhase::Writing(count), IoOutcome::Done(done), closes) == (CopyStep {
            phase: CopyPhase::Flushing,
            warn: false,
        }),
        copied(CopyPhase::Flushing, IoOutcome::Done(done), closes) == (CopyStep {
            phase: CopyPhase::Reading,
            warn: false,
        }),
        done > 0 ==> copied(CopyPhase::Reading, IoOutcome::Done(done), closes) == (CopyStep {
            phase: CopyPhase::Writing(done),
            warn: false,
        }),
{
}

/// At the end of the input, and after a failed read, write or flush, nothing is read or written
/// any more. A destination that the copy owns is shut down then, once, and any other is left
/// open.
pub proof fn law_the_destination_is_shut_down_once(
    phase: CopyPhase,
    outcome: IoOutcome,
    last: IoOutcome,
    after: IoOutcome,
)
    requires
        (phase == CopyPhase::Reading && outcome == IoOutcome::Done(0)) || (outcome is Failed && (
        phase is Reading || phase is Writing || phase is Flushing)),
    ensures
        copied(phase, outcome, true).phase == CopyPhase::Closing,
        copied(CopyPhase::Closing, last, true).phase == CopyPhase::Closed,
        copied(CopyPhase::Closed, after, true).phase == CopyPhase::Closed,
        copied(phase, outcome, false).phase == CopyPhase::Closed,
        copied(CopyPhase::Closed, after, false).phase == CopyPhase::Closed,
{
}

/// A failure is worth a warning unless it is a broken pipe, and nothing else is, whatever was
/// being done.
pub proof fn law_broken_pipes_are_passed_over(phase: CopyPhase, outcome: IoOutcome, closes: bool)
    ensures
        copied(phase, outcome, closes).warn <==> outcome == (IoOutcome::Failed {
            broken_pipe: false,
        }),
{
}

/// The code of a process is reported as it is, and 1 where it has none.
pub proof fn law_codes_are_reported_as_they_are(code: i32)
    ensures
        reported_code(Some(code)) == code,
        reported_code(None) == 1,
{
}

/// A process that ends is drained and its code is reported, whether it ended by itself, on
/// request, or after no request could come any more.
pub proof fn law_an_exit_is_reported(events: Seq<ProcessEvent>, code: Option<i32>)
    requires
        process_phase(events) == ProcessPhase::Running,
    ensures
        ({
            let expected = match code {
                Some(own) => own,
                None => 1,
            };
            let exit = seq![ProcessEvent::Exited(code), ProcessEvent::Drained];
            let killed = seq![ProcessEvent::Shutdown, ProcessEvent::Killed];
            &&& process_phase(events + exit) == ProcessPhase::Finished(expected)
            &&& process_phase(events + killed + exit) == ProcessPhase::Finished(expected)
            &&& process_phase(events + seq![ProcessEvent::ShutdownClosed] + exit)
                == ProcessPhase::Finished(expected)
        }),
{
    let exit = seq![ProcessEvent::Exited(code), ProcessEvent::Drained];
    let killed = seq![ProcessEvent::Shutdown, ProcessEvent::Killed];
    let closed = seq![ProcessEvent::ShutdownClosed];
    lemma_two_events(events, ProcessEvent::Exited(code), ProcessEvent::Drained);
    lemma_two_events(events, ProcessEvent::Shutdown, ProcessEvent::Killed);
    lemma_two_events(events + killed, ProcessEvent::Exited(code), ProcessEvent::Drained);
    assert((events + closed).drop_last() =~= events);
    lemma_two_events(events + closed, ProcessEvent::Exited(code), ProcessEvent::Drained);
}

/// The phase after two more events.
proof fn lemma_two_events(events: Seq<ProcessEvent>, first: ProcessEvent, second: ProcessEvent)
    ensures
        process_phase(events + seq![first, second]) == supervised(
            supervised(process_phase(events), first),
            second,
        ),
{
    let all = events + seq![first, second];
    assert(all.drop_last() =~= events.push(first));
    assert(events.push(first).drop_last() =~= events);
    assert(process_phase(events.push(first)) == supervised(process_phase(events), first));
}

/// A process is told to end exactly where a shutdown is asked for while it runs, and then its
/// end is awaited alone.
pub proof fn law_a_shutdown_is_obeyed(phase: ProcessPhase, event: ProcessEvent)
    ensures
        supervised(phase, event) == ProcessPhase::Ending <==> (phase == ProcessPhase::Running
            && event == ProcessEvent::Shutdown) || (phase == ProcessPhase::Ending && event
            != ProcessEvent::Killed && event != ProcessEvent::Failed),
        supervised(ProcessPhase::Ending, ProcessEvent::Killed) == ProcessPhase::Waiting,
        supervised(ProcessPhase::Running, ProcessEvent::ShutdownClosed) == ProcessPhase::Waiting,
        supervised(phase, event) == ProcessPhase::Running ==> phase == ProcessPhase::Running,
        phase == ProcessPhase::Waiting && !(event is Exited) && !(event is Failed)
            ==> supervised(phase, event) == ProcessPhase::Waiting,
{
}

/// An operation on a process that fails ends the supervision, unless the process is over
/// already; and what is over stays as it is.
pub proof fn law_a_failed_operation_ends_the_supervision(phase: ProcessPhase, event: ProcessEvent)
    ensures
        phase is Running || phase is Ending || phase is Waiting ==> supervised(
            phase,
            ProcessEvent::Failed,
        ) == ProcessPhase::Failed,
        supervised(phase, event) == ProcessPhase::Failed ==> phase == ProcessPhase::Failed || event
            == ProcessEvent::Failed,
        phase is Finished || phase is Failed ==> supervised(phase, event) == phase,
        phase is Draining && event != ProcessEvent::Drained ==> supervised(phase, event) == phase,
{
}

/// An event that does not belong to a running process leaves it running.
pub proof fn law_a_process_runs_on(event: ProcessEvent)
    requires
        event == ProcessEvent::Killed || event == ProcessEvent::Drained,
    ensures
        supervised(ProcessPhase::Running, event) == ProcessPhase::Running,
{
}

} // verus!
