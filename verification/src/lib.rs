//! A verified model of a local message-exchange daemon.
//!
//! Local apps talk to the daemon over framed IPC requests; the daemon
//! multiplexes them against a peer-to-peer overlay and a relational
//! store of apps, inboxes, outboxes and announcements.  This crate
//! holds the daemon's logic: the frame codec, the protocol types, the
//! store with its transactional invariants, and the coordinator that
//! dispatches client requests and overlay events.  The surrounding
//! process (sockets, the overlay transport, persistence) drives this
//! logic from outside.

pub mod codec;
pub mod dirs;
pub mod json;
pub mod laws;
pub mod protocol;
pub mod store;
pub mod swarm;
pub mod daemon;

use vstd::prelude::*;

verus! {

/// Number of bytes in the length prefix of one IPC frame.
pub fn frame_header_len() -> (n: usize)
    ensures
        n == 4,
{
    4
}

} // verus!
