use usbread::{
    classify_read, Command, Error, Event, LoopExit, LoopState, ReadLoop, ReadOutcome, TransferFault, TransferStatus,
    UsbErrorKind, UsbFault,
};

struct Trace {
    delivered: Vec<Vec<u8>>,
    reads: usize,
    halt_clears: usize,
    releases: usize,
    result: Result<(), Error>,
    final_state: LoopState,
}

/// Runs the loop against a scripted endpoint. `flags` gives the keep-running
/// flag at each tick (true once it runs out); `halt_results` the outcome of
/// each halt clear (success once it runs out).
fn drive(
    script: Vec<ReadOutcome>,
    flags: Vec<bool>,
    halt_results: Vec<Result<(), UsbFault>>,
) -> Trace {
    let mut script = script.into_iter();
    let mut flags = flags.into_iter();
    let mut halts = halt_results.into_iter();
    let mut engine = ReadLoop::new();
    let mut trace = Trace {
        delivered: Vec::new(),
        reads: 0,
        halt_clears: 0,
        releases: 0,
        result: Ok(()),
        final_state: LoopState::Idle,
    };
    let mut event = Event::Tick(flags.next().unwrap_or(true));
    loop {
        match engine.handle(event) {
            Command::Read => {
                trace.reads += 1;
                let outcome = script.next().expect("read beyond the script");
                event = Event::ReadDone(outcome);
            }
            Command::Deliver(bytes) => {
                trace.delivered.push(bytes);
                event = Event::Tick(flags.next().unwrap_or(true));
            }
            Command::Poll => event = Event::Tick(flags.next().unwrap_or(true)),
            Command::ClearHalt => {
                trace.halt_clears += 1;
                event = Event::HaltCleared(halts.next().unwrap_or(Ok(())));
            }
            Command::Release => {
                trace.releases += 1;
                event = Event::Released;
            }
            Command::Exit(result) => {
                trace.result = result;
                break;
            }
            Command::Ignore => panic!("event did not fit the state"),
        }
    }
    trace.final_state = engine.state();
    trace
}

#[test]
fn scripted_timeouts_stall_and_abort() {
    let trace = drive(
        vec![
            ReadOutcome::Timeout,
            ReadOutcome::Timeout,
            ReadOutcome::Data(b"AB".to_vec()),
            ReadOutcome::Stall,
            ReadOutcome::Data(b"CD".to_vec()),
            ReadOutcome::Aborted,
        ],
        vec![],
        vec![],
    );
    assert_eq!(trace.delivered, vec![b"AB".to_vec(), b"CD".to_vec()]);
    assert_eq!(trace.halt_clears, 1);
    assert_eq!(trace.reads, 6);
    assert_eq!(trace.releases, 1);
    assert_eq!(trace.result, Ok(()));
    assert_eq!(trace.final_state, LoopState::Finished(LoopExit::Cancelled));
}

#[test]
fn first_read_fault_fails_after_one_attempt() {
    let trace = drive(vec![ReadOutcome::Failed(TransferFault::Disconnected)], vec![], vec![]);
    assert_eq!(trace.reads, 1);
    assert_eq!(trace.releases, 1);
    assert!(trace.delivered.is_empty());
    assert_eq!(trace.result, Err(Error::Transfer(TransferFault::Disconnected)));
    assert_eq!(
        trace.final_state,
        LoopState::Finished(LoopExit::Failed(Error::Transfer(TransferFault::Disconnected)))
    );
}

#[test]
fn cancellation_during_timeout_stops_before_next_read() {
    let trace = drive(vec![ReadOutcome::Timeout], vec![true, false], vec![]);
    assert_eq!(trace.reads, 1);
    assert_eq!(trace.releases, 1);
    assert_eq!(trace.result, Ok(()));
    assert_eq!(trace.final_state, LoopState::Finished(LoopExit::Cancelled));
}

#[test]
fn cancelled_before_any_read() {
    let trace = drive(vec![], vec![false], vec![]);
    assert_eq!(trace.reads, 0);
    assert_eq!(trace.releases, 1);
    assert_eq!(trace.result, Ok(()));
}

#[test]
fn empty_read_is_delivered() {
    let trace = drive(vec![ReadOutcome::Data(Vec::new()), ReadOutcome::Aborted], vec![], vec![]);
    assert_eq!(trace.delivered, vec![Vec::<u8>::new()]);
    assert_eq!(trace.releases, 1);
}

#[test]
fn failed_halt_clear_is_fatal() {
    let fault = UsbFault { kind: UsbErrorKind::Disconnected, os_code: Some(19) };
    let trace = drive(vec![ReadOutcome::Stall], vec![], vec![Err(fault)]);
    assert_eq!(trace.halt_clears, 1);
    assert_eq!(trace.releases, 1);
    assert_eq!(trace.result, Err(Error::Usb(fault)));
}

#[test]
fn events_that_do_not_fit_are_ignored() {
    let mut engine = ReadLoop::new();
    assert_eq!(engine.handle(Event::Released), Command::Ignore);
    assert_eq!(engine.handle(Event::ReadDone(ReadOutcome::Timeout)), Command::Ignore);
    assert_eq!(engine.state(), LoopState::Idle);
    assert_eq!(engine.handle(Event::Tick(true)), Command::Read);
    assert_eq!(engine.handle(Event::Tick(false)), Command::Ignore);
    assert_eq!(engine.state(), LoopState::Reading);
    assert_eq!(engine.handle(Event::ReadDone(ReadOutcome::Aborted)), Command::Release);
    assert_eq!(engine.handle(Event::Tick(true)), Command::Ignore);
    assert_eq!(engine.handle(Event::Released), Command::Exit(Ok(())));
    assert!(engine.is_finished());
    assert_eq!(engine.handle(Event::Released), Command::Ignore);
    assert_eq!(engine.handle(Event::Tick(true)), Command::Ignore);
}

#[test]
fn cancellation_is_a_timeout_only_when_the_wait_ran_out() {
    assert_eq!(classify_read(TransferStatus::Cancelled, true, Vec::new()), ReadOutcome::Timeout);
    assert_eq!(classify_read(TransferStatus::Cancelled, false, Vec::new()), ReadOutcome::Aborted);
    assert_eq!(
        classify_read(TransferStatus::Completed, true, b"AB".to_vec()),
        ReadOutcome::Data(b"AB".to_vec())
    );
    assert_eq!(classify_read(TransferStatus::Stall, false, Vec::new()), ReadOutcome::Stall);
    assert_eq!(
        classify_read(TransferStatus::Failed(TransferFault::Fault), false, Vec::new()),
        ReadOutcome::Failed(TransferFault::Fault)
    );
}

#[test]
fn cancellation_during_second_read_lets_it_finish() {
    let trace = drive(
        vec![ReadOutcome::Data(b"x".to_vec()), ReadOutcome::Data(b"y".to_vec())],
        vec![true, true, false],
        vec![],
    );
    assert_eq!(trace.reads, 2);
    assert_eq!(trace.delivered, vec![b"x".to_vec(), b"y".to_vec()]);
    assert_eq!(trace.releases, 1);
    assert_eq!(trace.result, Ok(()));
}
