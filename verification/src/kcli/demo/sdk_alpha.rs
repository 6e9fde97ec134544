//! The alpha group as the stand-alone alpha SDK ships it.

pub use crate::kcli::demo::alpha::get_inline_parser;
