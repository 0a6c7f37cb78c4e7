//! A verified core for a Wayland clipboard-history daemon.
//!
//! The library owns the clipboard history store (commit, dedupe, eviction,
//! recall-promotion), the byte-level persistence codec with its encryption
//! boundary, the protocol-side decisions (mime negotiation, payload
//! classification, the connection state machine), and the picker-facing
//! view of the history.  Process plumbing — sockets, pipes, files, the
//! compositor connection — lives outside, and hands this library plain
//! values.

pub mod cli;
pub mod codec;
pub mod config;
pub mod error;
pub mod history;
pub mod item;
pub mod menu;
pub mod protocol;
pub mod secure;
