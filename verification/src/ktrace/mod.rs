//! Namespaced trace channels enabled by selectors, and the lines they print.

pub mod model;
pub mod selectors;
pub mod colors;
pub mod format;
pub mod identity;
pub mod registry;
pub mod laws;
pub mod cli;
pub mod demo;
