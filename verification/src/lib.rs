//! Decision logic of a self-extracting launcher: which extracted generation of
//! the embedded archives to reuse, which stale generations may be swept, how
//! the runtime is invoked, and how interrupts and exit codes are relayed.
//!
//! Every function here works on plain values. The caller owns the file system,
//! the process table and the signal handlers: it performs the actions that
//! these functions ask for and reports back what happened.

pub mod artifacts;
pub mod cleanup;
pub mod extract;
pub mod listing;
pub mod names;
pub mod node;
pub mod signal;
pub mod world;
