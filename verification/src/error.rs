//! What can go wrong on the bus, and how faults of the lower layers are
//! carried upward.

use vstd::prelude::*;

verus! {

/// A fault reported by the pulse-train peripheral itself.
#[derive(Clone, Copy, Debug, PartialEq, Eq, Structural)]
pub enum RmtError {
    /// The desired frequency is impossible to reach.
    UnreachableTargetFrequency,
    /// The amount of pulses exceeds the size of the peripheral's memory.
    Overflow,
    /// An argument is invalid.
    InvalidArgument,
    /// An error occurred during transmission.
    TransmissionError,
    /// No transmission end marker was found.
    EndMarkerMissing,
}

/// Why a bus transaction failed.
#[derive(Clone, Copy, Debug, PartialEq, Eq, Structural)]
pub enum Error {
    /// The line was not idle-high when the transaction was to begin.
    InputNotHigh,
    /// Nothing was received before the deadline pulse ran out.
    ReceiveTimedOut,
    /// The receiving channel reported a fault.
    ReceiveError(RmtError),
    /// The transmitting channel reported a fault.
    SendError(RmtError),
}

/// Why a discovery pass yielded no address.
#[derive(Clone, Copy, Debug, PartialEq, Eq, Structural)]
pub enum SearchError {
    /// Every branch of the address tree has been walked.
    SearchComplete,
    /// No device answered the reset, or none answered a later probe.
    NoDevicesPresent,
    /// A bus transaction failed.
    BusError(Error),
}

impl From<RmtError> for Error {
    /// A bare peripheral fault counts as a fault of the transmitting side.
    fn from(e: RmtError) -> (r: Error) {
        Error::SendError(e)
    }
}

impl vstd::std_specs::convert::FromSpecImpl<RmtError> for Error {
    open spec fn obeys_from_spec() -> bool {
        true
    }

    open spec fn from_spec(e: RmtError) -> Error {
        Error::SendError(e)
    }
}

impl From<Error> for SearchError {
    fn from(e: Error) -> (r: SearchError) {
        SearchError::BusError(e)
    }
}

impl vstd::std_specs::convert::FromSpecImpl<Error> for SearchError {
    open spec fn obeys_from_spec() -> bool {
        true
    }

    open spec fn from_spec(e: Error) -> SearchError {
        SearchError::BusError(e)
    }
}

} // verus!
