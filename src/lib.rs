//! An interpreter for the eight-instruction tape language: a loader that
//! filters source bytes and resolves loop brackets, and a stepping engine
//! over a fixed tape of byte cells.

pub mod program;
pub mod runtime;
