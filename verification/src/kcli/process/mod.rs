//! Turning a command line into handler calls.

pub mod state;
pub mod help;
pub mod plan;
pub mod run;
pub mod parse;
