//! Demo option groups, and the demo programs' configuration.

pub mod common;
pub mod alpha;
pub mod beta;
pub mod gamma;
pub mod programs;
pub mod sdk_alpha;
