//! A small interactive shell core: a command parser and a dispatch engine.
//!
//! The library is split in three parts. `parse` turns a raw input line into
//! a structured command. `num` reads decimal integers out of argument
//! tokens. `shell` owns the session state (working directory, history,
//! tracked process ids) and dispatches parsed commands, describing every
//! outside action (printing, spawning, signalling) as an `Effect` value
//! that the surrounding program performs.

pub mod num;
pub mod parse;
pub mod shell;
