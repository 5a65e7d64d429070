//! A throttled content sender: a preloaded payload is handed to each
//! connection in fixed-size chunks, with a fixed pause between chunks.
//!
//! The crate holds the rules of the server and none of its I/O:
//!
//! * [`plan`]: the transmission plan shared by all connections, and the
//!   arithmetic of one pass over the payload;
//! * [`sender`]: the per-connection state machine that decides what to write,
//!   when to flush, when to pause and when to stop;
//! * [`trace`]: what a run of that machine delivers, with the proofs;
//! * [`config`]: the command line, turned into settings;
//! * [`decimal`]: numbers as they are written on the command line;
//! * [`error`]: the ways a configuration can be rejected.

pub mod config;
pub mod decimal;
pub mod error;
pub mod plan;
pub mod sender;
pub mod trace;
