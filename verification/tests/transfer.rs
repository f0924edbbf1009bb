use esp_hal_rmt_onewire::{Dispatch, Error, Level, Race, RmtError, Signal, Transfer};

/// Drives a transaction against a transport that finds the line at `level`
/// and ends every race as `race`. Gives the result and the requests made.
fn drive(level: Level, race: Race) -> (Result<(), Error>, Vec<Transfer>) {
    let mut asked = Vec::new();
    let mut transfer = Transfer::new();
    for _ in 0..10 {
        asked.push(transfer);
        transfer = match transfer {
            Transfer::Sample => transfer.advance(Signal::Line(level)),
            Transfer::Exchange => transfer.advance(Signal::Raced(race)),
            Transfer::Halt(_) => transfer.advance(Signal::Halted),
            Transfer::Done(result) => return (result, asked),
        };
    }
    panic!("the transaction did not end");
}

fn halts(asked: &[Transfer]) -> usize {
    asked.iter().filter(|t| matches!(t, Transfer::Halt(_))).count()
}

#[test]
fn transfer_starts_by_sampling_the_line() {
    assert_eq!(Transfer::new(), Transfer::Sample);
}

#[test]
fn line_held_low_fails_before_anything_is_sent() {
    let (result, asked) = drive(Level::Low, Race::Received);
    assert_eq!(result, Err(Error::InputNotHigh));
    assert_eq!(asked, vec![Transfer::Sample, Transfer::Done(Err(Error::InputNotHigh))]);
    assert_eq!(halts(&asked), 0);
}

#[test]
fn received_answer_succeeds() {
    let (result, asked) = drive(Level::High, Race::Received);
    assert_eq!(result, Ok(()));
    assert_eq!(
        asked,
        vec![Transfer::Sample, Transfer::Exchange, Transfer::Halt(Ok(())), Transfer::Done(Ok(()))]
    );
}

#[test]
fn receive_that_never_completes_times_out_and_halts_once() {
    let (result, asked) = drive(Level::High, Race::Elapsed);
    assert_eq!(result, Err(Error::ReceiveTimedOut));
    assert_eq!(halts(&asked), 1);
    assert_eq!(
        asked,
        vec![
            Transfer::Sample,
            Transfer::Exchange,
            Transfer::Halt(Err(Error::ReceiveTimedOut)),
            Transfer::Done(Err(Error::ReceiveTimedOut)),
        ]
    );
}

#[test]
fn every_exchange_is_halted_once() {
    for race in [
        Race::Received,
        Race::Elapsed,
        Race::ReceiveFailed(RmtError::Overflow),
        Race::SendFailed(RmtError::InvalidArgument),
    ] {
        let (_, asked) = drive(Level::High, race);
        assert_eq!(halts(&asked), 1);
    }
}

#[test]
fn receiver_fault_is_a_receive_error() {
    let (result, _) = drive(Level::High, Race::ReceiveFailed(RmtError::TransmissionError));
    assert_eq!(result, Err(Error::ReceiveError(RmtError::TransmissionError)));
}

#[test]
fn transmitter_fault_is_a_send_error() {
    let (result, _) = drive(Level::High, Race::SendFailed(RmtError::EndMarkerMissing));
    assert_eq!(result, Err(Error::SendError(RmtError::EndMarkerMissing)));
}

#[test]
fn race_results() {
    assert_eq!(Race::Received.result(), Ok(()));
    assert_eq!(Race::Elapsed.result(), Err(Error::ReceiveTimedOut));
    assert_eq!(
        Race::ReceiveFailed(RmtError::UnreachableTargetFrequency).result(),
        Err(Error::ReceiveError(RmtError::UnreachableTargetFrequency))
    );
    assert_eq!(
        Race::SendFailed(RmtError::Overflow).result(),
        Err(Error::SendError(RmtError::Overflow))
    );
}

#[test]
fn signal_out_of_turn_changes_nothing() {
    let sample = Transfer::new();
    assert_eq!(sample.advance(Signal::Halted), Transfer::Sample);
    assert_eq!(sample.advance(Signal::Raced(Race::Received)), Transfer::Sample);
    let exchange = sample.advance(Signal::Line(Level::High));
    assert_eq!(exchange, Transfer::Exchange);
    assert_eq!(exchange.advance(Signal::Line(Level::Low)), Transfer::Exchange);
    assert_eq!(exchange.advance(Signal::Halted), Transfer::Exchange);
    let halt = exchange.advance(Signal::Raced(Race::Elapsed));
    assert_eq!(halt.advance(Signal::Raced(Race::Received)), halt);
    assert_eq!(halt.advance(Signal::Line(Level::High)), halt);
}

#[test]
fn finished_transfer_stays_finished() {
    let done = Transfer::Done(Err(Error::ReceiveTimedOut));
    assert_eq!(done.advance(Signal::Line(Level::High)), done);
    assert_eq!(done.advance(Signal::Raced(Race::Received)), done);
    assert_eq!(done.advance(Signal::Halted), done);
}

/// Drives a send-only transaction against a transport that finds the line
/// at `level` and ends the sending with `sent`. Gives the result and the
/// requests made.
fn dispatch(level: Level, sent: Signal) -> (Result<(), Error>, Vec<Dispatch>) {
    let mut asked = Vec::new();
    let mut dispatch = Dispatch::new();
    for _ in 0..10 {
        asked.push(dispatch);
        dispatch = match dispatch {
            Dispatch::Sample => dispatch.advance(Signal::Line(level)),
            Dispatch::Transmit => dispatch.advance(sent),
            Dispatch::Done(result) => return (result, asked),
        };
    }
    panic!("the transaction did not end");
}

#[test]
fn sending_starts_by_sampling_the_line() {
    assert_eq!(Dispatch::new(), Dispatch::Sample);
}

#[test]
fn nothing_is_sent_on_a_line_held_low() {
    let (result, asked) = dispatch(Level::Low, Signal::Sent);
    assert_eq!(result, Err(Error::InputNotHigh));
    assert_eq!(asked, vec![Dispatch::Sample, Dispatch::Done(Err(Error::InputNotHigh))]);
    assert!(!asked.contains(&Dispatch::Transmit));
}

#[test]
fn sending_on_an_idle_line_succeeds() {
    let (result, asked) = dispatch(Level::High, Signal::Sent);
    assert_eq!(result, Ok(()));
    assert_eq!(asked, vec![Dispatch::Sample, Dispatch::Transmit, Dispatch::Done(Ok(()))]);
}

#[test]
fn failed_sending_is_a_send_error() {
    for fault in [
        RmtError::UnreachableTargetFrequency,
        RmtError::Overflow,
        RmtError::InvalidArgument,
        RmtError::TransmissionError,
        RmtError::EndMarkerMissing,
    ] {
        let (result, asked) = dispatch(Level::High, Signal::SendFailed(fault));
        assert_eq!(result, Err(Error::SendError(fault)));
        assert_eq!(asked.len(), 3);
    }
}

#[test]
fn send_only_transaction_ignores_signals_out_of_turn() {
    let sample = Dispatch::new();
    assert_eq!(sample.advance(Signal::Sent), Dispatch::Sample);
    assert_eq!(sample.advance(Signal::Halted), Dispatch::Sample);
    assert_eq!(sample.advance(Signal::SendFailed(RmtError::Overflow)), Dispatch::Sample);
    let transmit = sample.advance(Signal::Line(Level::High));
    assert_eq!(transmit, Dispatch::Transmit);
    assert_eq!(transmit.advance(Signal::Line(Level::Low)), Dispatch::Transmit);
    assert_eq!(transmit.advance(Signal::Raced(Race::Received)), Dispatch::Transmit);
    let done = transmit.advance(Signal::Sent);
    assert_eq!(done.advance(Signal::Line(Level::Low)), done);
    assert_eq!(done.advance(Signal::SendFailed(RmtError::Overflow)), done);
}

#[test]
fn duplex_transaction_ignores_the_signals_of_sending_alone() {
    let exchange = Transfer::new().advance(Signal::Line(Level::High));
    assert_eq!(exchange.advance(Signal::Sent), Transfer::Exchange);
    assert_eq!(exchange.advance(Signal::SendFailed(RmtError::Overflow)), Transfer::Exchange);
}
