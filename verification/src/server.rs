//! The standalone server: an event loop whose roster holds only each peer's
//! message channel, with one session per peer; and a relay that writes every
//! message read from one socket to all open sockets.

pub mod relay;
pub mod state;
