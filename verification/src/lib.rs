//! A small TCP chat service: the server keeps the set of connected peers,
//! announces arrivals and departures, and relays each line a peer writes to
//! everyone; the terminal client shows what it receives.
//!
//! The decisions of the service live here and are verified; the sockets, the
//! async runtime and the terminal are driven by the program around it, which
//! hands the library plain values and performs the actions it returns.

use vstd::prelude::*;

pub mod chan;
pub mod text;
pub mod roster;
pub mod state;
pub mod server;
pub mod terminal;

verus! {

/// Asks a peer's session to stop.
#[derive(Clone, Copy, Debug, PartialEq, Eq, Structural)]
pub enum ShutdownSignal {
    Cease,
}

} // verus!
