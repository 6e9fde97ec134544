//! Command-line option parsing with inline option roots (`kcli`) and
//! namespaced, selector-driven trace logging (`ktrace`).

pub mod text;

pub mod sink;

pub mod kcli;

pub mod ktrace;
