//! A small verified engine for single-tape, binary-alphabet Turing machines.
//!
//! The crate parses a textual machine description (tape literal, initial and
//! final states, transition instructions, optional composition of library
//! routines), builds an executable machine, and steps it while keeping a
//! margin of blank cells around the head and watching for suspected
//! non-termination.

pub mod error;
pub mod instruction;
pub mod laws;
pub mod lexer;
pub mod library;
pub mod output;
pub mod parser;
pub mod turing;
