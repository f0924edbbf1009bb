//! Master-side protocol engine for a single-wire, open-drain, multi-drop bus,
//! driven through timed pulse trains.
//!
//! The engine performs no input or output. It says which pulses to drive and
//! what the sampled pulses mean, and it walks the device-discovery tree one
//! bus transaction at a time; the caller moves the pulses.

pub mod address;
pub mod bits;
pub mod bus;
pub mod error;
pub mod master;
pub mod pulse;
pub mod search;
pub mod transfer;

pub use address::Address;
pub use error::{Error, RmtError, SearchError};
pub use master::OneWire;
pub use pulse::Level;
pub use search::{Cursor, Reading, Reply, Request, Search, SearchState, Step};
pub use transfer::{Dispatch, Race, Signal, Transfer};
