//! Authoritative game-state engine for a grid-based mine puzzle, with the
//! master/slave replication protocol that keeps several participants'
//! boards in agreement over a datagram transport.
//!
//! The crate holds the verified core: grid addressing, the minefield state
//! machine (placement, uncovering with cascading reveal, flagging, win/loss
//! detection), the authoritative session, the mirrored client board, the
//! master's player directory and the protocol message types. Sockets,
//! threads and rendering live outside the library.

use vstd::prelude::*;

pub mod args;
pub mod client;
pub mod coordinations;
pub mod field;
pub mod game;
pub mod local;
pub mod master;
pub mod players;
pub mod protocol;
mod rng;
pub mod session;
pub mod slave;

verus! {

/// The largest number of participants one board admits.
pub const MAX_PLAYERS: u8 = 10;

} // verus!
