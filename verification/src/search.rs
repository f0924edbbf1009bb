//! Device discovery: walking the tree of addresses one pass at a time.
//!
//! Every device holds a 64-bit address. In a pass the master asks, place by
//! place from the least significant bit, for the bit at that place and for its
//! complement. All devices still taking part answer at once, and the line
//! carries the conjunction of their answers. The master then writes the bit it
//! goes on with, and the devices that hold the other bit fall silent until the
//! next reset. After 64 places one address is left.
//!
//! A `Search` performs no bus traffic itself. It names the transaction it needs
//! next, takes the answer, and names the one after, until the pass yields an
//! address or fails. What it remembers from pass to pass is the address last
//! found and the place where the next pass has to turn.

use crate::address::Address;
use crate::bits::{get_word_bit, set_word_bit, with_bit, word_bit};
use crate::error::{Error, SearchError};
use vstd::prelude::*;

verus! {

/// Command byte that starts a search among all devices.
pub const SEARCH_NORMAL: u8 = 0xF0;

/// Command byte that starts a search among the devices in alarm state.
pub const SEARCH_ALARM: u8 = 0xEC;

/// Number of places in an address.
pub const ADDRESS_BITS: u8 = 64;

/// A bus transaction that the search needs.
#[derive(Clone, Copy, Debug, PartialEq, Eq, Structural)]
pub enum Request {
    /// Reset the bus and tell whether a device announced itself.
    Reset,
    /// Send this byte.
    SendByte(u8),
    /// Write two ones and tell the two bits read back.
    ReadPair,
    /// Write this bit.
    WriteBit(bool),
}

/// The outcome of a bus transaction.
#[derive(Clone, Copy, Debug, PartialEq, Eq, Structural)]
pub enum Reply {
    /// The reset went through; the flag tells whether a device announced itself.
    Presence(bool),
    /// The byte or bit went out.
    Sent,
    /// The two bits read back.
    Pair(bool, bool),
    /// The transaction failed.
    Fault(Error),
}

/// What a search does next.
#[derive(Clone, Copy, Debug, PartialEq, Eq)]
pub enum Step {
    /// It needs this transaction.
    Ask(Request),
    /// The pass is over, with this result.
    Done(Result<Address, SearchError>),
}

/// What the two bits read at one place say about the devices taking part.
#[derive(Clone, Copy, Debug, PartialEq, Eq, Structural)]
pub enum Reading {
    /// All of them hold a zero there.
    Zero,
    /// All of them hold a one there.
    One,
    /// Some hold a zero and some a one.
    Conflict,
    /// None of them answered.
    Silent,
}

/// Where a pass stands.
#[derive(Clone, Copy, Debug, PartialEq, Eq)]
pub enum Cursor {
    /// Between passes. The next pass starts with a reset.
    Ready,
    /// A device is present; the command byte goes out next.
    Command,
    /// The pair at `position` is to be read. `path` holds the bits chosen so
    /// far below `position` and the bits of the previous pass from there on;
    /// `last_zero` is the highest place so far where this pass met a conflict
    /// and went on with zero.
    Probe { position: u8, path: u64, last_zero: Option<u8> },
    /// The bit chosen at `position` is to be written. It is already part of
    /// `path`.
    Select { position: u8, path: u64, last_zero: Option<u8>, direction: bool },
}

/// A search as the contracts see it.
pub struct SearchState {
    /// The command byte sent at the start of each pass.
    pub command: u8,
    /// The address found by the last pass that succeeded. Bit `i` is the
    /// choice made at place `i`.
    pub address: u64,
    /// The places at which the bit is fixed beforehand. At such a place the
    /// search always goes on with the bit that `address` holds there.
    pub mask: u64,
    /// The place at which the next pass turns from zero to one.
    pub last_discrepancy: Option<u8>,
    /// Whether the last pass left no place to turn at.
    pub complete: bool,
    /// Where the pass in progress stands.
    pub cursor: Cursor,
}

/// What the two bits read at one place mean.
pub open spec fn reading_of(first: bool, second: bool) -> Reading {
    if first {
        if second {
            Reading::Silent
        } else {
            Reading::One
        }
    } else {
        if second {
            Reading::Zero
        } else {
            Reading::Conflict
        }
    }
}

/// The way taken at a conflict at `position`: the bit to go on with, and
/// whether the place is kept as the one to turn at in the next pass.
///
/// At the place where the previous pass turned last, the way is one. Above it,
/// or if there is no such place, the way is zero. Below it, the way is the one
/// that the previous pass took. Wherever the way is zero the place is kept:
/// the branch with the one is still to be walked.
pub open spec fn branch_at(position: u8, last_discrepancy: Option<u8>, previous: u64) -> (
    bool,
    bool,
) {
    match last_discrepancy {
        Some(turn) => if position == turn {
            (true, false)
        } else if position > turn {
            (false, true)
        } else {
            (word_bit(previous, position), !word_bit(previous, position))
        },
        None => (false, true),
    }
}

impl SearchState {
    /// Every place that the state names lies inside an address, and a search
    /// that is complete is between passes.
    pub open spec fn valid(self) -> bool {
        &&& self.last_discrepancy matches Some(turn) ==> turn < ADDRESS_BITS
        &&& self.complete ==> self.cursor is Ready
        &&& match self.cursor {
            Cursor::Ready => true,
            Cursor::Command => true,
            Cursor::Probe { position, path, last_zero } => {
                &&& position < ADDRESS_BITS
                &&& last_zero matches Some(zero) ==> zero < position
            },
            Cursor::Select { position, path, last_zero, direction } => {
                &&& position < ADDRESS_BITS
                &&& last_zero matches Some(zero) ==> zero <= position
                &&& word_bit(path, position) == direction
            },
        }
    }

    /// A search that has not made a pass yet.
    pub open spec fn fresh(command: u8, fixed_bits: u64, mask: u64) -> SearchState {
        SearchState {
            command,
            address: fixed_bits,
            mask,
            last_discrepancy: None,
            complete: false,
            cursor: Cursor::Ready,
        }
    }

    /// The same search between passes: the pass in progress is given up.
    pub open spec fn at_rest(self) -> SearchState {
        SearchState { cursor: Cursor::Ready, ..self }
    }

    /// The search after a pass that walked `path` and kept `last_zero`.
    pub open spec fn committed(self, path: u64, last_zero: Option<u8>) -> SearchState {
        SearchState {
            address: path,
            last_discrepancy: last_zero,
            complete: last_zero is None,
            cursor: Cursor::Ready,
            ..self
        }
    }

    /// The bit to go on with at `position` after `reading`, and whether the
    /// place is kept for the next pass; `None` if the pass cannot go on
    /// because no device answers.
    ///
    /// At a masked place the bit is the fixed one, whatever was read.
    pub open spec fn choice(self, position: u8, path: u64, reading: Reading) -> Option<
        (bool, bool),
    > {
        if word_bit(self.mask, position) {
            Some((word_bit(path, position), false))
        } else {
            match reading {
                Reading::Zero => Some((false, false)),
                Reading::One => Some((true, false)),
                Reading::Conflict => Some(branch_at(position, self.last_discrepancy, path)),
                Reading::Silent => None,
            }
        }
    }

    /// What the search waits for.
    pub open spec fn pending(self) -> Step {
        match self.cursor {
            Cursor::Ready => if self.complete {
                Step::Done(Err(SearchError::SearchComplete))
            } else {
                Step::Ask(Request::Reset)
            },
            Cursor::Command => Step::Ask(Request::SendByte(self.command)),
            Cursor::Probe { .. } => Step::Ask(Request::ReadPair),
            Cursor::Select { direction, .. } => Step::Ask(Request::WriteBit(direction)),
        }
    }

    /// The search after `reply`, and what it does next.
    ///
    /// A search that is complete stays as it is. A fault ends the pass and
    /// leaves what the search remembers untouched. A reply that does not
    /// answer the pending request changes nothing.
    pub open spec fn step(self, reply: Reply) -> (SearchState, Step) {
        if self.complete {
            (self, Step::Done(Err(SearchError::SearchComplete)))
        } else {
            match (self.cursor, reply) {
                (_, Reply::Fault(e)) => (self.at_rest(), Step::Done(Err(SearchError::BusError(e)))),
                (Cursor::Ready, Reply::Presence(present)) => if present {
                    (
                        SearchState { cursor: Cursor::Command, ..self },
                        Step::Ask(Request::SendByte(self.command)),
                    )
                } else {
                    (self, Step::Done(Err(SearchError::NoDevicesPresent)))
                },
                (Cursor::Command, Reply::Sent) => (
                    SearchState {
                        cursor: Cursor::Probe { position: 0, path: self.address, last_zero: None },
                        ..self
                    },
                    Step::Ask(Request::ReadPair),
                ),
                (Cursor::Probe { position, path, last_zero }, Reply::Pair(first, second)) => {
                    match self.choice(position, path, reading_of(first, second)) {
                        Some((direction, keep)) => (
                            SearchState {
                                cursor: Cursor::Select {
                                    position,
                                    path: with_bit(path, position, direction),
                                    last_zero: if keep {
                                        Some(position)
                                    } else {
                                        last_zero
                                    },
                                    direction,
                                },
                                ..self
                            },
                            Step::Ask(Request::WriteBit(direction)),
                        ),
                        None => (
                            self.at_rest(),
                            Step::Done(Err(SearchError::NoDevicesPresent)),
                        ),
                    }
                },
                (Cursor::Select { position, path, last_zero, direction }, Reply::Sent) => {
                    if position + 1 == ADDRESS_BITS {
                        (self.committed(path, last_zero), Step::Done(Ok(Address(path))))
                    } else {
                        (
                            SearchState {
                                cursor: Cursor::Probe {
                                    position: (position + 1) as u8,
                                    path,
                                    last_zero,
                                },
                                ..self
                            },
                            Step::Ask(Request::ReadPair),
                        )
                    }
                },
                _ => (self, self.pending()),
            }
        }
    }
}

/// The discovery engine. It is made once per enumeration of the bus and
/// handed the outcome of every transaction it asks for.
pub struct Search {
    command: u8,
    address: u64,
    address_mask: u64,
    last_discrepancy: Option<u8>,
    complete: bool,
    cursor: Cursor,
}

impl View for Search {
    type V = SearchState;

    closed spec fn view(&self) -> SearchState {
        SearchState {
            command: self.command,
            address: self.address,
            mask: self.address_mask,
            last_discrepancy: self.last_discrepancy,
            complete: self.complete,
            cursor: self.cursor,
        }
    }
}

impl Search {
    #[verifier::type_invariant]
    spec fn well_formed(self) -> bool {
        self@.valid()
    }

    /// A search among all devices.
    pub fn new() -> (search: Search)
        ensures
            search@ == SearchState::fresh(SEARCH_NORMAL, 0, 0),
            search@.valid(),
    {
        Search {
            command: SEARCH_NORMAL,
            address: 0,
            address_mask: 0,
            last_discrepancy: None,
            complete: false,
            cursor: Cursor::Ready,
        }
    }

    /// A search among the devices in alarm state.
    pub fn new_alarm() -> (search: Search)
        ensures
            search@ == SearchState::fresh(SEARCH_ALARM, 0, 0),
            search@.valid(),
    {
        Search {
            command: SEARCH_ALARM,
            address: 0,
            address_mask: 0,
            last_discrepancy: None,
            complete: false,
            cursor: Cursor::Ready,
        }
    }

    /// A search among the devices in alarm state that, at every place set in
    /// `bit_mask`, goes on with the bit that `fixed_bits` holds there.
    pub fn new_with_mask(fixed_bits: u64, bit_mask: u64) -> (search: Search)
        ensures
            search@ == SearchState::fresh(SEARCH_ALARM, fixed_bits, bit_mask),
            search@.valid(),
    {
        Search {
            command: SEARCH_ALARM,
            address: fixed_bits,
            address_mask: bit_mask,
            last_discrepancy: None,
            complete: false,
            cursor: Cursor::Ready,
        }
    }

    /// The command byte sent at the start of each pass.
    pub fn command(&self) -> (command: u8)
        ensures
            command == self@.command,
    {
        self.command
    }

    /// The address found by the last pass that succeeded.
    pub fn address(&self) -> (address: Address)
        ensures
            address == Address(self@.address),
    {
        Address(self.address)
    }

    /// The place at which the next pass turns.
    pub fn last_discrepancy(&self) -> (turn: Option<u8>)
        ensures
            turn == self@.last_discrepancy,
    {
        self.last_discrepancy
    }

    /// Whether every branch has been walked.
    pub fn is_complete(&self) -> (complete: bool)
        ensures
            complete == self@.complete,
    {
        self.complete
    }

    /// What the two bits read at one place say about the devices taking part.
    pub fn classify(first: bool, second: bool) -> (reading: Reading)
        ensures
            reading == reading_of(first, second),
    {
        if first {
            if second {
                Reading::Silent
            } else {
                Reading::One
            }
        } else {
            if second {
                Reading::Zero
            } else {
                Reading::Conflict
            }
        }
    }

    /// What the search waits for: the transaction it has asked for and not
    /// yet had an answer to. Between passes that is the reset that starts the
    /// next pass, or, once the search is complete, the end of the search.
    pub fn next(&self) -> (step: Step)
        ensures
            step == self@.pending(),
            self@.valid(),
            self@.complete ==> step == Step::Done(
                Err::<Address, SearchError>(SearchError::SearchComplete),
            ),
            !self@.complete && self@.cursor is Ready ==> step == Step::Ask(Request::Reset),
    {
        proof {
            use_type_invariant(self);
        }
        match self.cursor {
            Cursor::Ready => if self.complete {
                Step::Done(Err(SearchError::SearchComplete))
            } else {
                Step::Ask(Request::Reset)
            },
            Cursor::Command => Step::Ask(Request::SendByte(self.command)),
            Cursor::Probe { .. } => Step::Ask(Request::ReadPair),
            Cursor::Select { direction, .. } => Step::Ask(Request::WriteBit(direction)),
        }
    }

    /// The bit to go on with at `position`, and whether the place is kept.
    fn pick(&self, position: u8, path: u64, reading: Reading) -> (choice: Option<(bool, bool)>)
        requires
            position < ADDRESS_BITS,
        ensures
            choice == self@.choice(position, path, reading),
    {
        if get_word_bit(self.address_mask, position) {
            Some((get_word_bit(path, position), false))
        } else {
            match reading {
                Reading::Zero => Some((false, false)),
                Reading::One => Some((true, false)),
                Reading::Silent => None,
                Reading::Conflict => match self.last_discrepancy {
                    Some(turn) => if position == turn {
                        Some((true, false))
                    } else if position > turn {
                        Some((false, true))
                    } else {
                        let replayed = get_word_bit(path, position);
                        Some((replayed, !replayed))
                    },
                    None => Some((false, true)),
                },
            }
        }
    }

    /// Takes the outcome of the pending transaction and says what comes
    /// next.
    ///
    /// A pass is: the reset; if a device is present, the command byte; then
    /// for each of the 64 places the reading of a pair and the writing of the
    /// bit chosen. When the last bit is written the pass yields the address
    /// walked, and the search takes it over together with the highest place
    /// that was kept; if none was kept the search is complete. A pass that
    /// fails leaves the search as it was before the pass.
    pub fn advance(&mut self, reply: Reply) -> (step: Step)
        ensures
            (final(self)@, step) == old(self)@.step(reply),
            final(self)@.valid(),
    {
        proof {
            use_type_invariant(&*self);
        }
        if self.complete {
            return Step::Done(Err(SearchError::SearchComplete));
        }
        if let Reply::Fault(e) = reply {
            self.cursor = Cursor::Ready;
            return Step::Done(Err(SearchError::BusError(e)));
        }
        match self.cursor {
            Cursor::Ready => match reply {
                Reply::Presence(true) => {
                    self.cursor = Cursor::Command;
                    Step::Ask(Request::SendByte(self.command))
                },
                Reply::Presence(false) => Step::Done(Err(SearchError::NoDevicesPresent)),
                _ => self.next(),
            },
            Cursor::Command => match reply {
                Reply::Sent => {
                    self.cursor = Cursor::Probe { position: 0, path: self.address, last_zero: None };
                    Step::Ask(Request::ReadPair)
                },
                _ => self.next(),
            },
            Cursor::Probe { position, path, last_zero } => match reply {
                Reply::Pair(first, second) => {
                    match self.pick(position, path, Self::classify(first, second)) {
                        Some((direction, keep)) => {
                            proof {
                                crate::bits::lemma_with_bit(path, position, direction, position);
                            }
                            self.cursor = Cursor::Select {
                                position,
                                path: set_word_bit(path, position, direction),
                                last_zero: if keep {
                                    Some(position)
                                } else {
                                    last_zero
                                },
                                direction,
                            };
                            Step::Ask(Request::WriteBit(direction))
                        },
                        None => {
                            self.cursor = Cursor::Ready;
                            Step::Done(Err(SearchError::NoDevicesPresent))
                        },
                    }
                },
                _ => self.next(),
            },
            Cursor::Select { position, path, last_zero, direction } => match reply {
                Reply::Sent => {
                    if position + 1 == ADDRESS_BITS {
                        self.cursor = Cursor::Ready;
                        self.address = path;
                        self.last_discrepancy = last_zero;
                        self.complete = last_zero.is_none();
                        Step::Done(Ok(Address(path)))
                    } else {
                        self.cursor = Cursor::Probe { position: position + 1, path, last_zero };
                        Step::Ask(Request::ReadPair)
                    }
                },
                _ => self.next(),
            },
        }
    }
}

} // verus!
