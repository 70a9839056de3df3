//! An interpreter for the eight-instruction tape language: a growable band of
//! byte cells with a movable pointer, and an engine that runs program text
//! against it.

pub mod parser;
pub mod state;
