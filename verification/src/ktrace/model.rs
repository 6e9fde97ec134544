//! The values the trace logger works with.
use vstd::prelude::*;

verus! {

/// A terminal color number (0 to 255), or `DEFAULT_COLOR`.
pub type ColorId = u16;

/// No particular color.
pub const DEFAULT_COLOR: u16 = 0xFFFF;

/// What a trace line shows besides its namespace, label and message.
#[derive(Clone, Copy, Debug, Default, PartialEq, Eq, Structural)]
pub struct OutputOptions {
    pub filenames: bool,
    pub line_numbers: bool,
    pub function_names: bool,
    pub timestamps: bool,
}

/// Where a line was logged from.
#[derive(Clone, Copy, Debug, PartialEq, Eq)]
pub struct SourceLocation {
    pub file: &'static str,
    pub line: u32,
    pub function: &'static str,
}

impl SourceLocation {
    pub fn new(file: &'static str, line: u32, function: &'static str) -> (r: Self)
        ensures
            r.file == file,
            r.line == line,
            r.function == function,
    {
        SourceLocation { file, line, function }
    }
}

/// Why a trace operation was refused.
#[derive(Clone, Debug)]
pub struct TraceError {
    message: String,
}

impl TraceError {
    pub closed spec fn message_view(&self) -> Seq<char> {
        self.message@
    }

    pub fn new(message: &str) -> (e: Self)
        ensures
            e.message_view() == message@,
    {
        TraceError { message: String::from_str(message) }
    }

    pub fn from_string(message: String) -> (e: Self)
        ensures
            e.message_view() == message@,
    {
        TraceError { message }
    }

    /// The text of the error.
    pub fn message(&self) -> (r: String)
        ensures
            r@ == self.message_view(),
    {
        self.message.clone()
    }
}

/// The error carrying `m`.
pub open spec fn trace_err<T>(r: Result<T, TraceError>, m: Seq<char>) -> bool {
    r matches Err(e) && e.message_view() == m
}

/// How serious a logged message is.
#[derive(Clone, Copy, Debug, PartialEq, Eq, Structural)]
pub enum Severity {
    Info,
    Warning,
    Error,
}

/// A parsed channel selector.
#[derive(Debug)]
pub struct Selector {
    pub any_namespace: bool,
    pub trace_namespace: String,
    pub channel_tokens: Vec<String>,
    pub include_top_level: bool,
}

pub struct SelectorView {
    pub any_namespace: bool,
    pub trace_namespace: Seq<char>,
    pub channel_tokens: Seq<Seq<char>>,
    pub include_top_level: bool,
}

impl Selector {
    pub open spec fn view(&self) -> SelectorView {
        SelectorView {
            any_namespace: self.any_namespace,
            trace_namespace: self.trace_namespace@,
            channel_tokens: crate::kcli::model::strings_view(self.channel_tokens@),
            include_top_level: self.include_top_level,
        }
    }
}

} // verus!
