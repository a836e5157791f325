//! Core of a relay that lets users declare lightweight file-serving
//! endpoints backed by a remote storage account.
//!
//! The crate holds the verified heart of the system: the server manager
//! (a serialized control loop over a live table of instances), the
//! per-instance log sinks with subscriber fan-out, the latest-value state
//! broadcaster, and the proxy target resolution that maps a short instance
//! id to a live backend URL. Process spawning, persistence and the HTTP
//! surface live outside and talk to this crate through plain values.

pub mod auth;
pub mod broadcast;
pub mod common;
pub mod deploy;
pub mod logsink;
pub mod manager;
pub mod resolver;
pub mod util;

use vstd::prelude::*;

verus! {

/// The number of log lines each instance's sink retains.
pub const LOG_CAPACITY: usize = 100;

} // verus!
