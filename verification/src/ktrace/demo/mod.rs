//! Demo trace loggers, as the demo programs and SDKs declare them.

pub mod common;
pub mod alpha;
pub mod beta;
pub mod gamma;
pub mod sdk_gamma;
