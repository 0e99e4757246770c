//! Declaring typed command-line flags under a tree of commands, and resolving
//! an argument vector against that tree into bound flag values.
pub mod command;
pub mod flag;
pub mod laws;
pub mod text;
