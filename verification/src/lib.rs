//! Dormant process resumption for Python: the part of the snapshot engine that computes.
//!
//! `snapshot` holds the on-disk format, its writer and its reader, `capture` decides what
//! goes into a snapshot, `loader` decides what comes out of one, and `cli` holds the rules
//! of the command line. Talking to the interpreter, to the kernel and to the disk is left
//! to the program around this library.

pub mod error;
pub mod text;

pub mod capture;
pub mod cli;
pub mod loader;
pub mod snapshot;
