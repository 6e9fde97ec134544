//! Values produced while a command line is planned and run.
use vstd::prelude::*;
use crate::kcli::model::strings_view;

verus! {

/// Why a parse failed.
pub enum ParseFailure {
    AliasPresetsValuesForFlag { alias: String, option: String },
    MissingRequiredValue { option: String },
    UnknownRootValue { option: String },
    UnknownOption { option: String },
    HandlerFailed { option: String, message: String },
}

pub enum FailureView {
    AliasPresetsValuesForFlag { alias: Seq<char>, option: Seq<char> },
    MissingRequiredValue { option: Seq<char> },
    UnknownRootValue { option: Seq<char> },
    UnknownOption { option: Seq<char> },
    HandlerFailed { option: Seq<char>, message: Seq<char> },
}

/// The option a failure is reported against.
pub open spec fn failure_option_spec(f: FailureView) -> Seq<char> {
    match f {
        FailureView::AliasPresetsValuesForFlag { alias, .. } => alias,
        FailureView::MissingRequiredValue { option } => option,
        FailureView::UnknownRootValue { option } => option,
        FailureView::UnknownOption { option } => option,
        FailureView::HandlerFailed { option, .. } => option,
    }
}

/// The text a failure is reported with.
pub open spec fn failure_message_spec(f: FailureView) -> Seq<char> {
    match f {
        FailureView::AliasPresetsValuesForFlag { alias, option } => "alias '"@ + alias
            + "' presets values for option '"@ + option + "' which does not accept values"@,
        FailureView::MissingRequiredValue { option } => "option '"@ + option
            + "' requires a value"@,
        FailureView::UnknownRootValue { option } => "unknown value for option '"@ + option + "'"@,
        FailureView::UnknownOption { option } => "unknown option "@ + option,
        FailureView::HandlerFailed { option, message } => if option.len() == 0 {
            message
        } else {
            "option '"@ + option + "': "@ + message
        },
    }
}

impl ParseFailure {
    pub open spec fn view(&self) -> FailureView {
        match self {
            ParseFailure::AliasPresetsValuesForFlag { alias, option } => {
                FailureView::AliasPresetsValuesForFlag { alias: alias@, option: option@ }
            },
            ParseFailure::MissingRequiredValue { option } => FailureView::MissingRequiredValue {
                option: option@,
            },
            ParseFailure::UnknownRootValue { option } => FailureView::UnknownRootValue {
                option: option@,
            },
            ParseFailure::UnknownOption { option } => FailureView::UnknownOption {
                option: option@,
            },
            ParseFailure::HandlerFailed { option, message } => FailureView::HandlerFailed {
                option: option@,
                message: message@,
            },
        }
    }

    pub fn option(&self) -> (r: &str)
        ensures
            r@ == failure_option_spec(self.view()),
    {
        match self {
            ParseFailure::AliasPresetsValuesForFlag { alias, .. } => alias.as_str(),
            ParseFailure::MissingRequiredValue { option } => option.as_str(),
            ParseFailure::UnknownRootValue { option } => option.as_str(),
            ParseFailure::UnknownOption { option } => option.as_str(),
            ParseFailure::HandlerFailed { option, .. } => option.as_str(),
        }
    }

    pub fn render_message(&self) -> (r: String)
        ensures
            r@ == failure_message_spec(self.view()),
    {
        match self {
            ParseFailure::AliasPresetsValuesForFlag { alias, option } => {
                let r = String::from_str("alias '");
                let r = r.concat(alias.as_str());
                let r = r.concat("' presets values for option '");
                let r = r.concat(option.as_str());
                r.concat("' which does not accept values")
            },
            ParseFailure::MissingRequiredValue { option } => {
                crate::text::concat3("option '", option.as_str(), "' requires a value")
            },
            ParseFailure::UnknownRootValue { option } => {
                crate::text::concat3("unknown value for option '", option.as_str(), "'")
            },
            ParseFailure::UnknownOption { option } => {
                crate::text::concat2("unknown option ", option.as_str())
            },
            ParseFailure::HandlerFailed { option, message } => {
                if option.as_str().is_empty() {
                    message.clone()
                } else {
                    let r = crate::text::concat3("option '", option.as_str(), "': ");
                    r.concat(message.as_str())
                }
            },
        }
    }
}

/// Whether the parse still holds, and the first failure if not.
pub struct ParseOutcome {
    pub ok: bool,
    pub error: Option<ParseFailure>,
}

impl ParseOutcome {
    pub open spec fn failure(&self) -> Option<FailureView> {
        match self.error {
            Some(f) => Some(f.view()),
            None => None,
        }
    }

    /// The outcome holds no failure exactly when it is still ok.
    pub open spec fn wf(&self) -> bool {
        self.ok <==> self.error is None
    }

    pub fn new() -> (r: Self)
        ensures
            r.ok,
            r.error is None,
    {
        ParseOutcome { ok: true, error: None }
    }

    /// Records `failure` unless a failure is already recorded.
    pub fn report_error(&mut self, failure: ParseFailure)
        requires
            old(self).wf(),
        ensures
            final(self).wf(),
            !final(self).ok,
            final(self).failure() == if old(self).ok {
                Some(failure.view())
            } else {
                old(self).failure()
            },
    {
        if self.ok {
            self.ok = false;
            self.error = Some(failure);
        }
    }
}

/// Value tokens taken after an option.
pub struct CollectedValues {
    pub has_value: bool,
    pub parts: Vec<String>,
    pub last_index: usize,
}

impl CollectedValues {
    pub fn new(option_index: usize) -> (r: Self)
        ensures
            !r.has_value,
            r.parts@.len() == 0,
            r.last_index == option_index,
    {
        CollectedValues { has_value: false, parts: Vec::new(), last_index: option_index }
    }
}

/// Which registered handler an invocation runs.
#[derive(Clone, Copy, Debug, PartialEq, Eq, Structural)]
pub enum HandlerRef {
    /// The end-user command at this position.
    Primary(usize),
    /// The command at the second position of the inline parser at the first.
    Inline(usize, usize),
    /// The root value handler of the inline parser at this position.
    InlineRoot(usize),
}

/// A handler call or a help listing, decided before anything runs.
pub enum Invocation {
    Flag { root: String, option: String, command: String, target: HandlerRef },
    Value {
        root: String,
        option: String,
        command: String,
        value_tokens: Vec<String>,
        target: HandlerRef,
    },
    Positional { value_tokens: Vec<String> },
    PrintHelp { root: String, help_rows: Vec<(String, String)> },
}

pub enum InvocationView {
    Flag { root: Seq<char>, option: Seq<char>, command: Seq<char>, target: HandlerRef },
    Value {
        root: Seq<char>,
        option: Seq<char>,
        command: Seq<char>,
        value_tokens: Seq<Seq<char>>,
        target: HandlerRef,
    },
    Positional { value_tokens: Seq<Seq<char>> },
    PrintHelp { root: Seq<char>, rows: Seq<(Seq<char>, Seq<char>)> },
}

pub open spec fn rows_view(rows: Seq<(String, String)>) -> Seq<(Seq<char>, Seq<char>)> {
    rows.map_values(|r: (String, String)| (r.0@, r.1@))
}

impl Invocation {
    pub open spec fn view(&self) -> InvocationView {
        match self {
            Invocation::Flag { root, option, command, target } => InvocationView::Flag {
                root: root@,
                option: option@,
                command: command@,
                target: *target,
            },
            Invocation::Value { root, option, command, value_tokens, target } => {
                InvocationView::Value {
                    root: root@,
                    option: option@,
                    command: command@,
                    value_tokens: strings_view(value_tokens@),
                    target: *target,
                }
            },
            Invocation::Positional { value_tokens } => InvocationView::Positional {
                value_tokens: strings_view(value_tokens@),
            },
            Invocation::PrintHelp { root, help_rows } => InvocationView::PrintHelp {
                root: root@,
                rows: rows_view(help_rows@),
            },
        }
    }
}

pub open spec fn invocations_view(v: Seq<Invocation>) -> Seq<InvocationView> {
    v.map_values(|i: Invocation| i.view())
}

/// How a `--` token relates to the inline parsers.
#[derive(Clone, Copy, Debug, PartialEq, Eq, Structural)]
pub enum InlineTokenKind {
    NoMatch,
    BareRoot,
    DashOption,
}

pub struct InlineTokenMatch {
    pub kind: InlineTokenKind,
    /// Position of the matched inline parser.
    pub parser: Option<usize>,
    /// What follows `--<root>-`.
    pub suffix: String,
}

impl Default for InlineTokenMatch {
    fn default() -> (r: Self)
        ensures
            r.kind == InlineTokenKind::NoMatch,
            r.parser is None,
            r.suffix@.len() == 0,
    {
        InlineTokenMatch { kind: InlineTokenKind::NoMatch, parser: None, suffix: String::new() }
    }
}

} // verus!
