use vstd::prelude::*;

use crate::error::{Error, TransferFault, UsbFault};

verus! {

/// Size of the buffer handed to each read.
pub const BUFFER_SIZE: usize = 512;

/// How long one read may wait, in milliseconds; this bounds how long a
/// cancellation takes to be noticed.
pub const READ_TIMEOUT_MS: u64 = 1000;

/// How one read on the endpoint ended.
#[derive(Debug, PartialEq, Eq)]
pub enum ReadOutcome {
    /// The read completed with these bytes (possibly none).
    Data(Vec<u8>),
    /// Nothing arrived before the wait ran out.
    Timeout,
    /// The device halted the endpoint.
    Stall,
    /// The transfer was aborted, e.g. because the interface went away.
    Aborted,
    /// Any other transport failure.
    Failed(TransferFault),
}

/// How the USB stack reported the end of a transfer.
#[derive(Clone, Copy, Debug, PartialEq, Eq, Structural)]
pub enum TransferStatus {
    Completed,
    /// The transfer was cancelled, by the caller after its wait ran out or
    /// by someone else.
    Cancelled,
    Stall,
    Failed(TransferFault),
}

pub open spec fn outcome_of(status: TransferStatus, timed_out: bool, data: Vec<u8>) -> ReadOutcome {
    match status {
        TransferStatus::Completed => ReadOutcome::Data(data),
        TransferStatus::Cancelled => if timed_out {
            ReadOutcome::Timeout
        } else {
            ReadOutcome::Aborted
        },
        TransferStatus::Stall => ReadOutcome::Stall,
        TransferStatus::Failed(f) => ReadOutcome::Failed(f),
    }
}

/// Classifies one finished read. `timed_out` says whether the caller
/// cancelled the transfer itself because its wait ran out: only then is a
/// cancellation a timeout; otherwise it is an abort. `data` is what arrived.
pub fn classify_read(status: TransferStatus, timed_out: bool, data: Vec<u8>) -> (r: ReadOutcome)
    ensures
        r == outcome_of(status, timed_out, data),
{
    match status {
        TransferStatus::Completed => ReadOutcome::Data(data),
        TransferStatus::Cancelled => if timed_out {
            ReadOutcome::Timeout
        } else {
            ReadOutcome::Aborted
        },
        TransferStatus::Stall => ReadOutcome::Stall,
        TransferStatus::Failed(f) => ReadOutcome::Failed(f),
    }
}

/// What the loop is told about the world.
#[derive(Debug)]
pub enum Event {
    /// Start of an iteration, with the value of the keep-running flag.
    Tick(bool),
    /// The read that was asked for has ended.
    ReadDone(ReadOutcome),
    /// The halt clear that was asked for has ended.
    HaltCleared(Result<(), UsbFault>),
    /// The claimed interface has been released.
    Released,
}

/// Why the loop stopped.
#[derive(Clone, Copy, Debug, PartialEq, Eq, Structural)]
pub enum LoopExit {
    Cancelled,
    Failed(Error),
}

#[derive(Clone, Copy, Debug, PartialEq, Eq, Structural)]
pub enum LoopState {
    /// Between reads: waiting for the next tick.
    Idle,
    /// A read is in flight.
    Reading,
    /// A halt clear is in flight.
    ClearingHalt,
    /// The loop has stopped and the interface release is in flight.
    Releasing(LoopExit),
    /// The interface has been released; nothing more happens.
    Finished(LoopExit),
}

/// What the caller is to do next.
#[derive(Debug, PartialEq, Eq)]
pub enum Command {
    /// Issue one read of up to `BUFFER_SIZE` bytes, then report `ReadDone`.
    Read,
    /// Hand these bytes to the display, then tick.
    Deliver(Vec<u8>),
    /// Tick again.
    Poll,
    /// Clear the endpoint's halt, then report `HaltCleared`.
    ClearHalt,
    /// Release the claimed interface, then report `Released`.
    Release,
    /// The loop is over, with this result.
    Exit(Result<(), Error>),
    /// The event does not fit the state; nothing to do.
    Ignore,
}

pub open spec fn exit_result(exit: LoopExit) -> Result<(), Error> {
    match exit {
        LoopExit::Cancelled => Ok(()),
        LoopExit::Failed(e) => Err(e),
    }
}

/// One transition of the read loop.
pub open spec fn step_spec(state: LoopState, event: Event) -> (LoopState, Command) {
    match (state, event) {
        (LoopState::Idle, Event::Tick(true)) => (LoopState::Reading, Command::Read),
        (LoopState::Idle, Event::Tick(false)) => (
            LoopState::Releasing(LoopExit::Cancelled),
            Command::Release,
        ),
        (LoopState::Reading, Event::ReadDone(outcome)) => match outcome {
            ReadOutcome::Data(bytes) => (LoopState::Idle, Command::Deliver(bytes)),
            ReadOutcome::Timeout => (LoopState::Idle, Command::Poll),
            ReadOutcome::Stall => (LoopState::ClearingHalt, Command::ClearHalt),
            ReadOutcome::Aborted => (LoopState::Releasing(LoopExit::Cancelled), Command::Release),
            ReadOutcome::Failed(f) => (
                LoopState::Releasing(LoopExit::Failed(Error::Transfer(f))),
                Command::Release,
            ),
        },
        (LoopState::ClearingHalt, Event::HaltCleared(res)) => match res {
            Ok(()) => (LoopState::Idle, Command::Poll),
            Err(f) => (LoopState::Releasing(LoopExit::Failed(Error::Usb(f))), Command::Release),
        },
        (LoopState::Releasing(exit), Event::Released) => (
            LoopState::Finished(exit),
            Command::Exit(exit_result(exit)),
        ),
        (s, _) => (s, Command::Ignore),
    }
}

/// The state reached and the commands given when the events come in order.
pub open spec fn run_events(state: LoopState, events: Seq<Event>) -> (LoopState, Seq<Command>)
    decreases events.len(),
{
    if events.len() == 0 {
        (state, Seq::empty())
    } else {
        let (next, cmd) = step_spec(state, events[0]);
        let (last, cmds) = run_events(next, events.drop_first());
        (last, seq![cmd] + cmds)
    }
}

pub open spec fn count_releases(cmds: Seq<Command>) -> nat
    decreases cmds.len(),
{
    if cmds.len() == 0 {
        0
    } else {
        (if cmds[0] is Release {
            1nat
        } else {
            0nat
        }) + count_releases(cmds.drop_first())
    }
}

/// The loop has stopped: no read will be asked for again.
pub open spec fn is_stopping(state: LoopState) -> bool {
    state is Releasing || state is Finished
}

pub open spec fn released_count(state: LoopState) -> nat {
    if is_stopping(state) {
        1
    } else {
        0
    }
}

/// From any state, the number of releases asked for is the step from
/// running to stopping that the events make, and once stopping no read is
/// asked for.
pub proof fn lemma_run_releases(state: LoopState, events: Seq<Event>)
    ensures
        released_count(run_events(state, events).0) >= released_count(state),
        count_releases(run_events(state, events).1) == released_count(run_events(state, events).0)
            - released_count(state),
        is_stopping(state) ==> forall|i: int|
            0 <= i < run_events(state, events).1.len() ==> !(#[trigger] run_events(state, events).1[i] is Read),
    decreases events.len(),
{
    if events.len() > 0 {
        let (next, cmd) = step_spec(state, events[0]);
        lemma_run_releases(next, events.drop_first());
        let cmds = run_events(state, events).1;
        let tail = run_events(next, events.drop_first()).1;
        assert(cmds == seq![cmd] + tail);
        assert(cmds.drop_first() =~= tail);
        assert(cmds[0] == cmd);
        if is_stopping(state) {
            assert forall|i: int| 0 <= i < cmds.len() implies !(#[trigger] cmds[i] is Read) by {
                if i > 0 {
                    assert(cmds[i] == tail[i - 1]);
                }
            }
        }
    }
}

/// The interface is released exactly once per run of the loop: a run from
/// the start asks for at most one release, asks for it exactly when the loop
/// has stopped, asks for no read after it, and ends only after it.
pub proof fn lemma_release_exactly_once(events: Seq<Event>)
    ensures
        count_releases(run_events(LoopState::Idle, events).1) <= 1,
        count_releases(run_events(LoopState::Idle, events).1) == 1 <==> is_stopping(
            run_events(LoopState::Idle, events).0,
        ),
        run_events(LoopState::Idle, events).0 is Finished ==> count_releases(
            run_events(LoopState::Idle, events).1,
        ) == 1,
        forall|i: int, j: int|
            0 <= i < j < run_events(LoopState::Idle, events).1.len() && #[trigger] run_events(
                LoopState::Idle,
                events,
            ).1[i] is Release ==> !(#[trigger] run_events(LoopState::Idle, events).1[j] is Read),
{
    lemma_run_releases(LoopState::Idle, events);
    lemma_no_read_after_release(LoopState::Idle, events);
}

/// Running `a` and then `b` is running `a` followed by `b`.
proof fn lemma_run_concat(state: LoopState, a: Seq<Event>, b: Seq<Event>)
    ensures
        run_events(state, a + b).0 == run_events(run_events(state, a).0, b).0,
        run_events(state, a + b).1 == run_events(state, a).1 + run_events(
            run_events(state, a).0,
            b,
        ).1,
    decreases a.len(),
{
    if a.len() == 0 {
        assert(a + b =~= b);
        assert(run_events(state, a).1 + run_events(state, b).1 =~= run_events(state, b).1);
    } else {
        let next = step_spec(state, a[0]).0;
        let cmd = step_spec(state, a[0]).1;
        lemma_run_concat(next, a.drop_first(), b);
        assert((a + b)[0] == a[0]);
        assert((a + b).drop_first() =~= a.drop_first() + b);
        let mid = run_events(next, a.drop_first());
        let rest = run_events(mid.0, b);
        assert(seq![cmd] + (mid.1 + rest.1) =~= (seq![cmd] + mid.1) + rest.1);
    }
}

/// A read in flight is never cut short: a tick that comes while reading,
/// whatever the keep-running flag says, changes nothing and asks for nothing.
pub proof fn lemma_tick_does_not_preempt_read(keep_running: bool)
    ensures
        step_spec(LoopState::Reading, Event::Tick(keep_running)) == (
            LoopState::Reading,
            Command::Ignore,
        ),
{
}

/// A cleared keep-running flag seen between reads ends the loop: after any
/// run that has come back to waiting for a tick (its reads all finished),
/// the commands given so far stand unchanged, the flag's tick asks for the
/// release, and whatever is reported afterwards, no further read is asked
/// for and the interface is released exactly once from then on.
pub proof fn lemma_cancel_between_reads(state: LoopState, before: Seq<Event>, after: Seq<Event>)
    requires
        run_events(state, before).0 == LoopState::Idle,
    ensures
        ({
            let all = run_events(state, before + (seq![Event::Tick(false)] + after)).1;
            let n = run_events(state, before).1.len();
            &&& all.subrange(0, n as int) == run_events(state, before).1
            &&& all[n as int] is Release
            &&& count_releases(all.subrange(n as int, all.len() as int)) == 1
            &&& forall|i: int| n <= i < all.len() ==> !(#[trigger] all[i] is Read)
        }),
{
    let tail_events = seq![Event::Tick(false)] + after;
    lemma_run_concat(state, before, tail_events);
    let pre = run_events(state, before).1;
    let all = run_events(state, before + tail_events).1;
    let n = pre.len();
    let next = LoopState::Releasing(LoopExit::Cancelled);
    assert(tail_events[0] == Event::Tick(false));
    assert(tail_events.drop_first() =~= after);
    lemma_run_releases(next, after);
    lemma_run_releases(LoopState::Idle, tail_events);
    let cmds = run_events(LoopState::Idle, tail_events).1;
    let tail = run_events(next, after).1;
    assert(cmds == seq![Command::Release] + tail);
    assert(all == pre + cmds);
    assert(all.subrange(0, n as int) =~= pre);
    assert(all.subrange(n as int, all.len() as int) =~= cmds);
    assert forall|i: int| n <= i < all.len() implies !(#[trigger] all[i] is Read) by {
        assert(all[i] == cmds[i - n]);
        if i > n {
            assert(cmds[i - n] == tail[i - n - 1]);
        }
    }
}

proof fn lemma_no_read_after_release(state: LoopState, events: Seq<Event>)
    ensures
        forall|i: int, j: int|
            0 <= i < j < run_events(state, events).1.len() && #[trigger] run_events(state, events).1[i] is Release
                ==> !(#[trigger] run_events(state, events).1[j] is Read),
    decreases events.len(),
{
    if events.len() > 0 {
        let (next, cmd) = step_spec(state, events[0]);
        lemma_no_read_after_release(next, events.drop_first());
        let cmds = run_events(state, events).1;
        let tail = run_events(next, events.drop_first()).1;
        assert(cmds == seq![cmd] + tail);
        if cmd is Release {
            assert(is_stopping(next));
            lemma_run_releases(next, events.drop_first());
        }
        assert forall|i: int, j: int|
            0 <= i < j < cmds.len() && #[trigger] cmds[i] is Release implies !(
            #[trigger] cmds[j] is Read) by {
            assert(cmds[j] == tail[j - 1]);
            if i > 0 {
                assert(cmds[i] == tail[i - 1]);
            }
        }
    }
}

/// The read loop over one claimed interface and one endpoint, driven by
/// the events its caller reports.
#[derive(Debug)]
pub struct ReadLoop {
    state: LoopState,
}

impl ReadLoop {
    pub closed spec fn view_state(&self) -> LoopState {
        self.state
    }

    pub fn new() -> (r: ReadLoop)
        ensures
            r.view_state() == LoopState::Idle,
    {
        ReadLoop { state: LoopState::Idle }
    }

    pub fn state(&self) -> (r: LoopState)
        ensures
            r == self.view_state(),
    {
        self.state
    }

    /// Takes in one event and gives the next command.
    pub fn handle(&mut self, event: Event) -> (r: Command)
        ensures
            (final(self).view_state(), r) == step_spec(old(self).view_state(), event),
    {
        let (next, cmd) = match (self.state, event) {
            (LoopState::Idle, Event::Tick(keep_running)) => {
                if keep_running {
                    (LoopState::Reading, Command::Read)
                } else {
                    (LoopState::Releasing(LoopExit::Cancelled), Command::Release)
                }
            },
            (LoopState::Reading, Event::ReadDone(outcome)) => match outcome {
                ReadOutcome::Data(bytes) => (LoopState::Idle, Command::Deliver(bytes)),
                ReadOutcome::Timeout => (LoopState::Idle, Command::Poll),
                ReadOutcome::Stall => (LoopState::ClearingHalt, Command::ClearHalt),
                ReadOutcome::Aborted => (
                    LoopState::Releasing(LoopExit::Cancelled),
                    Command::Release,
                ),
                ReadOutcome::Failed(f) => (
                    LoopState::Releasing(LoopExit::Failed(Error::Transfer(f))),
                    Command::Release,
                ),
            },
            (LoopState::ClearingHalt, Event::HaltCleared(res)) => match res {
                Ok(()) => (LoopState::Idle, Command::Poll),
                Err(f) => (
                    LoopState::Releasing(LoopExit::Failed(Error::Usb(f))),
                    Command::Release,
                ),
            },
            (LoopState::Releasing(exit), Event::Released) => {
                let result = match exit {
                    LoopExit::Cancelled => Ok(()),
                    LoopExit::Failed(e) => Err(e),
                };
                (LoopState::Finished(exit), Command::Exit(result))
            },
            (s, _) => (s, Command::Ignore),
        };
        self.state = next;
        cmd
    }

    /// Whether the loop has ended and released the interface.
    pub fn is_finished(&self) -> (r: bool)
        ensures
            r == (self.view_state() is Finished),
    {
        match self.state {
            LoopState::Finished(_) => true,
            _ => false,
        }
    }
}

} // verus!
