//! Command-line parsing for an end-user option set plus "inline" option
//! groups that share a root (`--build`, `--build-flag`, `--build-value x`).

pub mod model;
pub mod normalize;
pub mod process;
pub mod backend;
pub mod parser;
pub mod laws;
pub mod demo;

pub use model::{CliError, ConfigError, HandlerContext, HandlerResult};
pub use parser::{InlineParser, Parser};
