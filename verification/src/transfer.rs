//! One duplex bus transaction, as a sequence of requests to the transport.
//!
//! The transport has no receive timeout of its own. A transaction therefore
//! arms the receiver, sends its pulse train and then a long deadline pulse,
//! and takes whichever of the two sides finishes first. Whatever the outcome,
//! the transmitting channel is then stopped, so that the line is never left
//! driven.

use crate::error::{Error, RmtError};
use crate::pulse::Level;
use vstd::prelude::*;

verus! {

/// How the race between the receiver and the deadline ended.
#[derive(Clone, Copy, Debug, PartialEq, Eq, Structural)]
pub enum Race {
    /// The receiver finished first and filled the buffer.
    Received,
    /// The receiver finished first and reported a fault.
    ReceiveFailed(RmtError),
    /// The pulse train and the deadline pulse went out before anything was
    /// received.
    Elapsed,
    /// The transmitter finished first, and sending the pulse train had failed.
    SendFailed(RmtError),
}

/// What the transport reports back to a transaction.
#[derive(Clone, Copy, Debug, PartialEq, Eq, Structural)]
pub enum Signal {
    /// The level at which the line was found.
    Line(Level),
    /// The end of the race.
    Raced(Race),
    /// The transmitting channel has been stopped.
    Halted,
    /// A pulse train that was sent without listening has gone out.
    Sent,
    /// Sending a pulse train without listening has failed.
    SendFailed(RmtError),
}

/// A transaction in progress, named by what it asks of the transport next.
#[derive(Clone, Copy, Debug, PartialEq, Eq)]
pub enum Transfer {
    /// Read the level of the line.
    Sample,
    /// Arm the receiver, send the pulse train followed by the deadline
    /// pulse, and report which side finished first.
    Exchange,
    /// Stop the transmitting channel. The result is already decided.
    Halt(Result<(), Error>),
    /// Nothing more to do: this is the result of the transaction.
    Done(Result<(), Error>),
}

/// The result of a transaction whose race ended as `race`.
pub open spec fn race_result(race: Race) -> Result<(), Error> {
    match race {
        Race::Received => Ok(()),
        Race::ReceiveFailed(e) => Err(Error::ReceiveError(e)),
        Race::Elapsed => Err(Error::ReceiveTimedOut),
        Race::SendFailed(e) => Err(Error::SendError(e)),
    }
}

impl Race {
    /// The result of a transaction whose race ended this way.
    pub fn result(self) -> (r: Result<(), Error>)
        ensures
            r == race_result(self),
            r == Err::<(), Error>(Error::ReceiveTimedOut) <==> self == Race::Elapsed,
            r is Ok <==> self == Race::Received,
    {
        match self {
            Race::Received => Ok(()),
            Race::ReceiveFailed(e) => Err(Error::ReceiveError(e)),
            Race::Elapsed => Err(Error::ReceiveTimedOut),
            Race::SendFailed(e) => Err(Error::SendError(e)),
        }
    }
}

impl Transfer {
    /// The transaction after `signal`. A signal that does not answer the
    /// pending request changes nothing.
    pub open spec fn after(self, signal: Signal) -> Transfer {
        match (self, signal) {
            (Transfer::Sample, Signal::Line(Level::High)) => Transfer::Exchange,
            (Transfer::Sample, Signal::Line(Level::Low)) => Transfer::Done(
                Err(Error::InputNotHigh),
            ),
            (Transfer::Exchange, Signal::Raced(race)) => Transfer::Halt(race_result(race)),
            (Transfer::Halt(result), Signal::Halted) => Transfer::Done(result),
            _ => self,
        }
    }

    /// Whether `signal` makes the transport stop its transmitting channel:
    /// it acknowledges a pending halt.
    pub open spec fn halts_on(self, signal: Signal) -> bool {
        self is Halt && signal is Halted
    }

    /// The transaction after all of `signals`, in order.
    pub open spec fn after_all(self, signals: Seq<Signal>) -> Transfer
        decreases signals.len(),
    {
        if signals.len() == 0 {
            self
        } else {
            self.after(signals[0]).after_all(signals.drop_first())
        }
    }

    /// How often the transmitting channel is stopped while `signals` arrive.
    pub open spec fn halts(self, signals: Seq<Signal>) -> nat
        decreases signals.len(),
    {
        if signals.len() == 0 {
            0
        } else {
            (if self.halts_on(signals[0]) {
                1nat
            } else {
                0nat
            }) + self.after(signals[0]).halts(signals.drop_first())
        }
    }

    /// A new transaction. It first asks for the level of the line.
    pub fn new() -> (t: Transfer)
        ensures
            t == Transfer::Sample,
    {
        Transfer::Sample
    }

    /// Takes the transport's answer and moves to the next request.
    ///
    /// A line found low ends the transaction with `InputNotHigh` before
    /// anything is sent. A line found high starts the exchange. The end of the
    /// race decides the result, which is handed out once the transmitting
    /// channel has been stopped.
    pub fn advance(self, signal: Signal) -> (next: Transfer)
        ensures
            next == self.after(signal),
    {
        match self {
            Transfer::Sample => match signal {
                Signal::Line(Level::High) => Transfer::Exchange,
                Signal::Line(Level::Low) => Transfer::Done(Err(Error::InputNotHigh)),
                _ => self,
            },
            Transfer::Exchange => match signal {
                Signal::Raced(race) => Transfer::Halt(race.result()),
                _ => self,
            },
            Transfer::Halt(result) => match signal {
                Signal::Halted => Transfer::Done(result),
                _ => self,
            },
            Transfer::Done(_) => self,
        }
    }
}

proof fn lemma_halts_bound(t: Transfer, signals: Seq<Signal>)
    ensures
        t is Done ==> t.halts(signals) == 0 && t.after_all(signals) == t,
        t is Halt ==> t.halts(signals) <= 1,
        t is Halt && t.after_all(signals) is Done ==> t.halts(signals) == 1 && t.after_all(signals)
            == Transfer::Done(t->Halt_0),
        t is Halt && !(t.after_all(signals) is Done) ==> t.after_all(signals) == t,
        t is Exchange ==> t.halts(signals) <= 1,
        t is Exchange && t.after_all(signals) is Done ==> t.halts(signals) == 1 && t.after_all(
            signals,
        )->Done_0 != Err::<(), Error>(Error::InputNotHigh),
        t is Sample ==> t.halts(signals) <= 1,
        t is Sample && t.after_all(signals) is Done ==> (t.halts(signals) == 1 <==> t.after_all(
            signals,
        )->Done_0 != Err::<(), Error>(Error::InputNotHigh)),
    decreases signals.len(),
{
    if signals.len() > 0 {
        lemma_halts_bound(t.after(signals[0]), signals.drop_first());
    }
}

/// Over any sequence of signals, a transaction stops the transmitting
/// channel at most once. If it comes to its result, it has stopped the channel
/// exactly once, unless the line was found low and nothing was sent at all.
pub proof fn lemma_halts_once(signals: Seq<Signal>)
    ensures
        Transfer::Sample.halts(signals) <= 1,
        Transfer::Sample.after_all(signals) matches Transfer::Done(result) ==> (
        Transfer::Sample.halts(signals) == 1 <==> result != Err::<(), Error>(
            Error::InputNotHigh,
        )),
{
    lemma_halts_bound(Transfer::Sample, signals);
}

/// A transaction on an idle line whose race ends as `race` asks for the
/// exchange, then for the halt, and then gives the result that belongs to
/// `race`.
pub proof fn lemma_transfer_on_idle_line(race: Race)
    ensures
        Transfer::Sample.after(Signal::Line(Level::High)) == Transfer::Exchange,
        Transfer::Exchange.after(Signal::Raced(race)) == Transfer::Halt(race_result(race)),
        Transfer::Halt(race_result(race)).after(Signal::Halted) == Transfer::Done(
            race_result(race),
        ),
{
}

/// A transaction that only sends, named by what it asks of the transport
/// next. Like every transaction it starts on an idle line or not at all.
#[derive(Clone, Copy, Debug, PartialEq, Eq)]
pub enum Dispatch {
    /// Read the level of the line.
    Sample,
    /// Send the pulse train.
    Transmit,
    /// Nothing more to do: this is the result of the transaction.
    Done(Result<(), Error>),
}

impl Dispatch {
    /// The transaction after `signal`. A signal that does not answer the
    /// pending request changes nothing.
    pub open spec fn after(self, signal: Signal) -> Dispatch {
        match (self, signal) {
            (Dispatch::Sample, Signal::Line(Level::High)) => Dispatch::Transmit,
            (Dispatch::Sample, Signal::Line(Level::Low)) => Dispatch::Done(
                Err(Error::InputNotHigh),
            ),
            (Dispatch::Transmit, Signal::Sent) => Dispatch::Done(Ok(())),
            (Dispatch::Transmit, Signal::SendFailed(e)) => Dispatch::Done(
                Err(Error::SendError(e)),
            ),
            _ => self,
        }
    }

    /// The transaction after all of `signals`, in order.
    pub open spec fn after_all(self, signals: Seq<Signal>) -> Dispatch
        decreases signals.len(),
    {
        if signals.len() == 0 {
            self
        } else {
            self.after(signals[0]).after_all(signals.drop_first())
        }
    }

    /// Whether the pulse train is handed to the transmitter while
    /// `signals` arrive: at some point the transaction asks for it.
    pub open spec fn transmits(self, signals: Seq<Signal>) -> bool
        decreases signals.len(),
    {
        self is Transmit || (signals.len() > 0 && self.after(signals[0]).transmits(
            signals.drop_first(),
        ))
    }

    /// A new transaction. It first asks for the level of the line.
    pub fn new() -> (d: Dispatch)
        ensures
            d == Dispatch::Sample,
    {
        Dispatch::Sample
    }

    /// Takes the transport's answer and moves to the next request.
    ///
    /// A line found low ends the transaction with `InputNotHigh` and
    /// nothing is sent. A line found high lets the pulse train go out, and
    /// the transaction ends as the sending did.
    pub fn advance(self, signal: Signal) -> (next: Dispatch)
        ensures
            next == self.after(signal),
    {
        match self {
            Dispatch::Sample => match signal {
                Signal::Line(Level::High) => Dispatch::Transmit,
                Signal::Line(Level::Low) => Dispatch::Done(Err(Error::InputNotHigh)),
                _ => self,
            },
            Dispatch::Transmit => match signal {
                Signal::Sent => Dispatch::Done(Ok(())),
                Signal::SendFailed(e) => Dispatch::Done(Err(Error::from(e))),
                _ => self,
            },
            Dispatch::Done(_) => self,
        }
    }
}

proof fn lemma_dispatch_from(d: Dispatch, signals: Seq<Signal>)
    ensures
        d is Done ==> d.after_all(signals) == d && !d.transmits(signals),
        d is Transmit ==> d.transmits(signals) && d.after_all(signals) != Dispatch::Done(
            Err::<(), Error>(Error::InputNotHigh),
        ),
        d is Sample ==> (d.after_all(signals) == Dispatch::Done(
            Err::<(), Error>(Error::InputNotHigh),
        ) <==> !d.transmits(signals) && d.after_all(signals) is Done),
    decreases signals.len(),
{
    if signals.len() > 0 {
        lemma_dispatch_from(d.after(signals[0]), signals.drop_first());
    }
}

/// A transaction that only sends ends with `InputNotHigh` exactly if it ends
/// without having asked for the pulse train to be sent: the line was found
/// low, and nothing went out.
pub proof fn lemma_low_line_sends_nothing(signals: Seq<Signal>)
    ensures
        Dispatch::Sample.after_all(signals) == Dispatch::Done(
            Err::<(), Error>(Error::InputNotHigh),
        ) <==> Dispatch::Sample.after_all(signals) is Done && !Dispatch::Sample.transmits(signals),
        Dispatch::Sample.after(Signal::Line(Level::Low)) == Dispatch::Done(
            Err::<(), Error>(Error::InputNotHigh),
        ),
        Dispatch::Sample.after(Signal::Line(Level::High)) == Dispatch::Transmit,
{
    lemma_dispatch_from(Dispatch::Sample, signals);
}

} // verus!
