//! The `--trace` option group: what its options print and change.
use vstd::prelude::*;
use crate::kcli::demo::common::lemma_short_option_ok;
use crate::sink::{pointee, report, reported, share, sink_callable};
use crate::kcli::model::{
    find_key, lemma_strings_view_push, strings_view, BindingView, ConfigError, ContextView, HandlerContext, HandlerResult, InlineView,
    ValueArity,
};
use crate::kcli::normalize::normalize_inline_root_option_spec;
use crate::kcli::parser::InlineParser;
use crate::ktrace::model::{OutputOptions, TraceError};
use crate::ktrace::registry::{channels_of, list_state_effect, normalized_options, LoggerView};
use crate::text::{lemma_no_ws, lemma_trim_unchanged, str_views, trim_spec};
use crate::kcli::parser::{
    flag_fn_gives, flag_fn_gives_with, inline_flag_stored, inline_root_stored, other_than_inline_command, targets_inline_command,
    targets_inline_root, value_fn_gives, value_fn_gives_with,
};
use crate::kcli::backend::upsert_index;
use crate::kcli::normalize::normalize_inline_handler_option_spec;
use crate::kcli::process::run::{outcome_view, CallTarget, CallView};
use crate::kcli::process::state::HandlerRef;
use std::rc::Rc;

verus! {

/// The selector examples `--<root>-examples` lists: each selector and what it selects.
pub open spec fn example_table() -> Seq<(Seq<char>, Option<Seq<char>>)> {
    seq![
        (".abc"@, Some("Select local 'abc' in current namespace"@)),
        (".abc.xyz"@, Some("Select local nested channel in current namespace"@)),
        ("otherapp.channel"@, Some("Select explicit namespace channel"@)),
        ("*.*"@, Some("Select all <namespace>.<channel> channels"@)),
        ("*.*.*"@, Some("Select all channels up to 2 levels"@)),
        ("*.*.*.*"@, Some("Select all channels up to 3 levels"@)),
        ("alpha.*"@, Some("Select all top-level channels in alpha"@)),
        ("alpha.*.*"@, Some("Select all channels in alpha (up to 2 levels)"@)),
        ("alpha.*.*.*"@, Some("Select all channels in alpha (up to 3 levels)"@)),
        ("*.net"@, Some("Select 'net' across all namespaces"@)),
        ("*.scheduler.tick"@, Some("Select 'scheduler.tick' across namespaces"@)),
        ("*.net.*"@, Some("Select subchannels under 'net' across namespaces"@)),
        ("*.{net,io}"@, Some("Select 'net' and 'io' across all namespaces"@)),
        ("{alpha,beta}.*"@, Some("Select all top-level channels in alpha and beta"@)),
        ("alpha.net"@, None),
        ("beta.scheduler.tick"@, None),
        ("alpha.net,beta.io"@, None),
        ("gamma.physics.*"@, None),
        ("gamma.physics.*.*"@, None),
        ("alpha.{net,cache}"@, None),
        ("beta.{io,scheduler}.packet"@, None),
        ("{alpha,beta}.net"@, None),
    ]
}

fn example_entries() -> (r: Vec<(&'static str, Option<&'static str>)>)
    ensures
        r@.map_values(|e: (&'static str, Option<&'static str>)| (e.0@, match e.1 { Some(d) => Some(d@), None => None })) == example_table(),
{
    let mut r: Vec<(&'static str, Option<&'static str>)> = Vec::new();
    r.push((".abc", Some("Select local 'abc' in current namespace")));
    r.push((".abc.xyz", Some("Select local nested channel in current namespace")));
    r.push(("otherapp.channel", Some("Select explicit namespace channel")));
    r.push(("*.*", Some("Select all <namespace>.<channel> channels")));
    r.push(("*.*.*", Some("Select all channels up to 2 levels")));
    r.push(("*.*.*.*", Some("Select all channels up to 3 levels")));
    r.push(("alpha.*", Some("Select all top-level channels in alpha")));
    r.push(("alpha.*.*", Some("Select all channels in alpha (up to 2 levels)")));
    r.push(("alpha.*.*.*", Some("Select all channels in alpha (up to 3 levels)")));
    r.push(("*.net", Some("Select 'net' across all namespaces")));
    r.push(("*.scheduler.tick", Some("Select 'scheduler.tick' across namespaces")));
    r.push(("*.net.*", Some("Select subchannels under 'net' across namespaces")));
    r.push(("*.{net,io}", Some("Select 'net' and 'io' across all namespaces")));
    r.push(("{alpha,beta}.*", Some("Select all top-level channels in alpha and beta")));
    r.push(("alpha.net", None));
    r.push(("beta.scheduler.tick", None));
    r.push(("alpha.net,beta.io", None));
    r.push(("gamma.physics.*", None));
    r.push(("gamma.physics.*.*", None));
    r.push(("alpha.{net,cache}", None));
    r.push(("beta.{io,scheduler}.packet", None));
    r.push(("{alpha,beta}.net", None));
    assert(r@.map_values(|e: (&'static str, Option<&'static str>)| (e.0@, match e.1 { Some(d) => Some(d@), None => None })) =~= example_table());
    r
}

/// `  <root> '<selector>' <description>`, or without the description.
pub open spec fn example_line_spec(option_root: Seq<char>, selector: Seq<char>, description: Option<Seq<char>>) -> Seq<char> {
    match description {
        Some(d) => "  "@ + option_root + " '"@ + selector + "' "@ + d,
        None => "  "@ + option_root + " '"@ + selector + "'"@,
    }
}

/// What `--<root>-examples` prints for the option root `option_root` (`--<root>`).
pub open spec fn examples_spec(option_root: Seq<char>) -> Seq<Seq<char>> {
    seq![
        Seq::empty(),
        "General trace selector pattern:"@,
        "  "@ + option_root + " <namespace>.<channel>[.<subchannel>[.<subchannel>]]"@,
        Seq::empty(),
        "Trace selector examples:"@,
    ] + example_table().map_values(|e: (Seq<char>, Option<Seq<char>>)| example_line_spec(option_root, e.0, e.1))
        + seq![Seq::<char>::empty()]
}

/// The lines `--<root>-examples` prints.
pub fn trace_examples(option_root: &str) -> (r: Vec<String>)
    ensures
        strings_view(r@) == examples_spec(option_root@),
{
    let mut r: Vec<String> = Vec::new();
    push_line(&mut r, String::new());
    push_line(&mut r, String::from_str("General trace selector pattern:"));
    push_line(&mut r, crate::text::concat3("  ", option_root, " <namespace>.<channel>[.<subchannel>[.<subchannel>]]"));
    push_line(&mut r, String::new());
    push_line(&mut r, String::from_str("Trace selector examples:"));
    let ghost head = strings_view(r@);
    let entries = example_entries();
    let ghost t = example_table();
    let ghost lines = t.map_values(|e: (Seq<char>, Option<Seq<char>>)| example_line_spec(option_root@, e.0, e.1));
    let mut i: usize = 0;
    assert(strings_view(r@) =~= head + lines.take(0));
    while i < entries.len()
        invariant
            entries@.map_values(|e: (&'static str, Option<&'static str>)| (e.0@, match e.1 { Some(d) => Some(d@), None => None })) == t,
            lines == t.map_values(|e: (Seq<char>, Option<Seq<char>>)| example_line_spec(option_root@, e.0, e.1)),
            i <= entries@.len(),
            strings_view(r@) == head + lines.take(i as int),
        decreases entries@.len() - i,
    {
        let (selector, description) = entries[i];
        let mut line = crate::text::concat3("  ", option_root, " '");
        line.append(selector);
        match description {
            Some(d) => {
                line.append("' ");
                line.append(d);
            },
            None => {
                line.append("'");
            },
        }
        assert(t[i as int] == (selector@, match description { Some(d) => Some(d@), None => None }));
        assert(line@ == lines[i as int]);
        proof {
            lemma_strings_view_push(r@, line);
        }
        push_line(&mut r, line);
        i = i + 1;
        assert(strings_view(r@) =~= head + lines.take(i as int));
    }
    push_line(&mut r, String::new());
    assert(lines.take(i as int) =~= lines);
    assert(strings_view(r@) =~= examples_spec(option_root@));
    r
}

/// What `--<root>-namespaces` prints for the sorted namespaces `names`.
pub open spec fn namespace_lines_spec(names: Seq<Seq<char>>) -> Seq<Seq<char>> {
    if names.len() == 0 {
        seq!["No trace namespaces defined."@, Seq::empty()]
    } else {
        seq![Seq::empty(), "Available trace namespaces:"@] + names.map_values(|n: Seq<char>| "  "@ + n)
            + seq![Seq::<char>::empty()]
    }
}

fn push_line(r: &mut Vec<String>, line: String)
    ensures
        strings_view(final(r)@) == strings_view(old(r)@).push(line@),
{
    proof {
        lemma_strings_view_push(r@, line);
    }
    r.push(line);
}

/// Lines listing each of `items` indented by two spaces.
fn indented(items: &Vec<String>) -> (r: Vec<String>)
    ensures
        strings_view(r@) == strings_view(items@).map_values(|n: Seq<char>| "  "@ + n),
{
    let mut r: Vec<String> = Vec::new();
    let mut i: usize = 0;
    while i < items.len()
        invariant
            i <= items@.len(),
            strings_view(r@) == strings_view(items@).map_values(|n: Seq<char>| "  "@ + n).take(i as int),
        decreases items@.len() - i,
    {
        let line = crate::text::concat2("  ", items[i].as_str());
        proof {
            lemma_strings_view_push(r@, line);
        }
        push_line(&mut r, line);
        i = i + 1;
        assert(strings_view(r@) =~= strings_view(items@).map_values(|n: Seq<char>| "  "@ + n).take(i as int));
    }
    assert(strings_view(items@).map_values(|n: Seq<char>| "  "@ + n).take(i as int) =~= strings_view(items@).map_values(|n: Seq<char>| "  "@ + n));
    r
}

fn append_all(r: &mut Vec<String>, items: Vec<String>)
    ensures
        strings_view(final(r)@) == strings_view(old(r)@) + strings_view(items@),
{
    let ghost start = strings_view(r@);
    let mut i: usize = 0;
    while i < items.len()
        invariant
            i <= items@.len(),
            strings_view(r@) == start + strings_view(items@).take(i as int),
        decreases items@.len() - i,
    {
        let s = items[i].clone();
        proof {
            lemma_strings_view_push(r@, s);
        }
        push_line(r, s);
        i = i + 1;
        assert(strings_view(r@) =~= start + strings_view(items@).take(i as int));
    }
    assert(strings_view(items@).take(i as int) =~= strings_view(items@));
}

/// The lines `--<root>-namespaces` prints.
pub fn namespace_lines(names: &Vec<String>) -> (r: Vec<String>)
    ensures
        strings_view(r@) == namespace_lines_spec(strings_view(names@)),
{
    let mut r: Vec<String> = Vec::new();
    if names.len() == 0 {
        push_line(&mut r, String::from_str("No trace namespaces defined."));
        push_line(&mut r, String::new());
        assert(strings_view(r@) =~= namespace_lines_spec(strings_view(names@)));
        return r;
    }
    push_line(&mut r, String::new());
    push_line(&mut r, String::from_str("Available trace namespaces:"));
    append_all(&mut r, indented(names));
    push_line(&mut r, String::new());
    assert(strings_view(r@) =~= namespace_lines_spec(strings_view(names@)));
    r
}

/// What `--<root>-colors` prints for the color names `names`.
pub open spec fn color_lines_spec(names: Seq<Seq<char>>) -> Seq<Seq<char>> {
    seq![Seq::empty(), "Available trace colors:"@] + names.map_values(|n: Seq<char>| "  "@ + n)
        + seq![Seq::<char>::empty()]
}

/// The lines `--<root>-colors` prints.
pub fn color_lines() -> (r: Vec<String>)
    ensures
        exists|names: Seq<Seq<char>>|
            crate::text::sorted_strict(names) && names.to_set() == crate::ktrace::colors::listed_color_names()
                && strings_view(r@) == color_lines_spec(names),
{
    let names = crate::ktrace::colors::available_color_names();
    let mut owned: Vec<String> = Vec::new();
    let mut i: usize = 0;
    while i < names.len()
        invariant
            i <= names@.len(),
            strings_view(owned@) == str_views(names@).take(i as int),
        decreases names@.len() - i,
    {
        let s = String::from_str(names[i]);
        proof {
            lemma_strings_view_push(owned@, s);
        }
        owned.push(s);
        i = i + 1;
        assert(strings_view(owned@) =~= str_views(names@).take(i as int));
    }
    assert(str_views(names@).take(i as int) =~= str_views(names@));
    let mut r: Vec<String> = Vec::new();
    push_line(&mut r, String::new());
    push_line(&mut r, String::from_str("Available trace colors:"));
    append_all(&mut r, indented(&owned));
    push_line(&mut r, String::new());
    assert(strings_view(r@) =~= color_lines_spec(str_views(names@)));
    r
}

/// What `--<root>-channels` prints: `namespace.channel` for each namespace's sorted channels.
pub open spec fn channel_lines_spec(listing: Seq<(Seq<char>, Seq<Seq<char>>)>) -> Seq<Seq<char>> {
    let items = qualified_listing(listing);
    if items.len() == 0 {
        seq!["No trace channels defined."@, Seq::empty()]
    } else {
        seq![Seq::empty(), "Available trace channels:"@] + items.map_values(|n: Seq<char>| "  "@ + n)
            + seq![Seq::<char>::empty()]
    }
}

/// `namespace.channel` for every channel of every namespace, in order.
pub open spec fn qualified_listing(listing: Seq<(Seq<char>, Seq<Seq<char>>)>) -> Seq<Seq<char>>
    decreases listing.len(),
{
    if listing.len() == 0 {
        Seq::empty()
    } else {
        let last = listing.last();
        qualified_listing(listing.drop_last()) + last.1.map_values(|c: Seq<char>| last.0 + "."@ + c)
    }
}

pub open spec fn listing_view(listing: Seq<(String, Vec<String>)>) -> Seq<(Seq<char>, Seq<Seq<char>>)> {
    listing.map_values(|e: (String, Vec<String>)| (e.0@, strings_view(e.1@)))
}

/// The lines `--<root>-channels` prints for the namespaces and their channels `listing`.
pub fn channel_lines(listing: &Vec<(String, Vec<String>)>) -> (r: Vec<String>)
    ensures
        strings_view(r@) == channel_lines_spec(listing_view(listing@)),
{
    let ghost lv = listing_view(listing@);
    let mut items: Vec<String> = Vec::new();
    let mut i: usize = 0;
    assert(lv.take(0) =~= Seq::<(Seq<char>, Seq<Seq<char>>)>::empty());
    while i < listing.len()
        invariant
            lv == listing_view(listing@),
            i <= listing@.len(),
            strings_view(items@) == qualified_listing(lv.take(i as int)),
        decreases listing@.len() - i,
    {
        let ns = &listing[i].0;
        let channels = &listing[i].1;
        let ghost before = strings_view(items@);
        let ghost extra = strings_view(channels@).map_values(|c: Seq<char>| ns@ + "."@ + c);
        let mut k: usize = 0;
        while k < channels.len()
            invariant
                k <= channels@.len(),
                extra == strings_view(channels@).map_values(|c: Seq<char>| ns@ + "."@ + c),
                strings_view(items@) == before + extra.take(k as int),
            decreases channels@.len() - k,
        {
            let q = crate::text::concat3(ns.as_str(), ".", channels[k].as_str());
            proof {
                lemma_strings_view_push(items@, q);
            }
            items.push(q);
            k = k + 1;
            assert(strings_view(items@) =~= before + extra.take(k as int));
        }
        proof {
            assert(extra.take(k as int) =~= extra);
            assert(lv.take(i as int + 1).drop_last() =~= lv.take(i as int));
            assert(lv.take(i as int + 1).last() == (ns@, strings_view(channels@)));
        }
        i = i + 1;
    }
    assert(lv.take(i as int) =~= lv);
    let mut r: Vec<String> = Vec::new();
    if items.len() == 0 {
        push_line(&mut r, String::from_str("No trace channels defined."));
        push_line(&mut r, String::new());
        assert(strings_view(r@) =~= channel_lines_spec(lv));
        return r;
    }
    push_line(&mut r, String::new());
    push_line(&mut r, String::from_str("Available trace channels:"));
    append_all(&mut r, indented(&items));
    push_line(&mut r, String::new());
    assert(strings_view(r@) =~= channel_lines_spec(lv));
    r
}

/// A flag of the `--trace` group that changes what trace lines show.
#[derive(Clone, Copy, Debug, PartialEq, Eq, Structural)]
pub enum OutputFlag {
    /// `-files`: source file and line.
    Files,
    /// `-functions`: source file, line and function.
    Functions,
    /// `-timestamps`: the time.
    Timestamps,
}

pub open spec fn with_output_flag_spec(o: OutputOptions, flag: OutputFlag) -> OutputOptions {
    match flag {
        OutputFlag::Files => OutputOptions { filenames: true, line_numbers: true, ..o },
        OutputFlag::Functions => OutputOptions {
            filenames: true,
            line_numbers: true,
            function_names: true,
            ..o
        },
        OutputFlag::Timestamps => OutputOptions { timestamps: true, ..o },
    }
}

/// The options once `flag` is turned on.
pub fn with_output_flag(options: OutputOptions, flag: OutputFlag) -> (r: OutputOptions)
    ensures
        r == with_output_flag_spec(options, flag),
{
    let mut o = options;
    match flag {
        OutputFlag::Files => {
            o.filenames = true;
            o.line_numbers = true;
        },
        OutputFlag::Functions => {
            o.filenames = true;
            o.line_numbers = true;
            o.function_names = true;
        },
        OutputFlag::Timestamps => {
            o.timestamps = true;
        },
    }
    o
}

/// What an option of the `--trace` group asks of the logger it was made for.
pub enum TraceRequest {
    /// Enable the channels `selectors` names (`.channel` meaning `local_namespace`).
    Enable { selectors: String, local_namespace: String },
    /// List the namespaces.
    Namespaces,
    /// List the channels.
    Channels,
    /// Turn on what a flag shows in trace lines.
    Output(OutputFlag),
    /// List the selector examples for the option root `option_root`.
    Examples { option_root: String },
    /// List the color names.
    Colors,
}

/// A request as plain values.
pub enum TraceRequestView {
    Enable(Seq<char>, Seq<char>),
    Namespaces,
    Channels,
    Output(OutputFlag),
    Examples(Seq<char>),
    Colors,
}

impl TraceRequest {
    pub open spec fn view(&self) -> TraceRequestView {
        match self {
            TraceRequest::Enable { selectors, local_namespace } => TraceRequestView::Enable(selectors@, local_namespace@),
            TraceRequest::Namespaces => TraceRequestView::Namespaces,
            TraceRequest::Channels => TraceRequestView::Channels,
            TraceRequest::Output(f) => TraceRequestView::Output(*f),
            TraceRequest::Examples { option_root } => TraceRequestView::Examples(option_root@),
            TraceRequest::Colors => TraceRequestView::Colors,
        }
    }
}

/// The logger control `c` may be handed every request.
pub open spec fn request_callable<C: Fn(TraceRequest) -> Result<Vec<String>, String>>(c: C) -> bool {
    forall|q: TraceRequest| call_requires(c, (q,))
}

/// What a handler reports once the control answered `res`: success, or the error text.
pub open spec fn request_outcome(res: Result<Vec<String>, String>) -> Result<(), Seq<char>> {
    match res {
        Ok(_) => Ok(()),
        Err(m) => Err(m@),
    }
}

pub open spec fn control_gives_with<C: Fn(TraceRequest) -> Result<Vec<String>, String>>(
    c: C,
    req: TraceRequestView,
    out: Result<(), Seq<char>>,
    q: TraceRequest,
    res: Result<Vec<String>, String>,
) -> bool {
    q.view() == req && call_ensures(c, (q,), res) && request_outcome(res) == out
}

/// `out` is what a handler reports after handing `req` to the control `c`.
pub open spec fn control_gives<C: Fn(TraceRequest) -> Result<Vec<String>, String>>(
    c: C,
    req: TraceRequestView,
    out: Result<(), Seq<char>>,
) -> bool {
    exists|q: TraceRequest, res: Result<Vec<String>, String>| #[trigger] control_gives_with(c, req, out, q, res)
}

/// Every line of a successful answer `res` was handed to `sink`.
pub open spec fn lines_reported<S: Fn(String)>(sink: S, res: Result<Vec<String>, String>) -> bool {
    res matches Ok(lines) ==> forall|i: int| 0 <= i < lines@.len() ==> reported(sink, #[trigger] lines@[i]@)
}

/// `out` is what a handler reports after handing `req` to the control `c` and handing each
/// line of a successful answer to `sink`.
pub open spec fn control_reports<C: Fn(TraceRequest) -> Result<Vec<String>, String>, S: Fn(String)>(
    c: C,
    sink: S,
    req: TraceRequestView,
    out: Result<(), Seq<char>>,
) -> bool {
    exists|q: TraceRequest, res: Result<Vec<String>, String>|
        #[trigger] control_gives_with(c, req, out, q, res) && lines_reported(sink, res)
}

/// What the command at position `ci` of the group hands the control `c` when called on a
/// context whose view is `ctx`, judged by its outcome `out`.
pub open spec fn trace_command_gives<C: Fn(TraceRequest) -> Result<Vec<String>, String>, S: Fn(String)>(
    c: C,
    sink: S,
    ci: int,
    ctx: ContextView,
    out: Result<(), Seq<char>>,
) -> bool {
    if ci == 0 {
        control_reports(c, sink, TraceRequestView::Examples("--"@ + ctx.root), out)
    } else if ci == 1 {
        control_reports(c, sink, TraceRequestView::Namespaces, out)
    } else if ci == 2 {
        control_reports(c, sink, TraceRequestView::Channels, out)
    } else if ci == 3 {
        control_reports(c, sink, TraceRequestView::Colors, out)
    } else if ci == 4 {
        control_gives(c, TraceRequestView::Output(OutputFlag::Files), out)
    } else if ci == 5 {
        control_gives(c, TraceRequestView::Output(OutputFlag::Functions), out)
    } else if ci == 6 {
        control_gives(c, TraceRequestView::Output(OutputFlag::Timestamps), out)
    } else {
        true
    }
}

/// Every handler of `p` reports what `c` answered to the request its option stands for:
/// the root value enables its channels in `local_namespace`.
pub open spec fn trace_handlers<C: Fn(TraceRequest) -> Result<Vec<String>, String>, S: Fn(String)>(
    p: InlineParser,
    c: C,
    sink: S,
    local_namespace: Seq<char>,
    n: int,
) -> bool {
    &&& forall|call: CallView, out: Result<(), Seq<char>>|
        targets_inline_root(call.target) && call.value is Some && #[trigger] p.gives(call, out)
            ==> control_reports(c, sink, TraceRequestView::Enable(call.value->0, local_namespace), out)
    &&& forall|call: CallView, out: Result<(), Seq<char>>|
        inline_command_of(call.target) < n && call.value is None && #[trigger] p.gives(call, out)
            ==> trace_command_gives(c, sink, inline_command_of(call.target), call.context, out)
}

/// The position of the group command a call names, or -1 for other calls.
pub open spec fn inline_command_of(t: CallTarget) -> int {
    match t {
        CallTarget::Handler(HandlerRef::Inline(_, ci)) => ci as int,
        _ => -1,
    }
}

/// A result as plain values: the lines, or the error text.
pub open spec fn answer_view(r: Result<Vec<String>, String>) -> Result<Seq<Seq<char>>, Seq<char>> {
    match r {
        Ok(lines) => Ok(strings_view(lines@)),
        Err(m) => Err(m@),
    }
}

/// A logger result as plain values: the lines, or the error's text.
pub open spec fn trace_answer_view(r: Result<Vec<String>, TraceError>) -> Result<Seq<Seq<char>>, Seq<char>> {
    match r {
        Ok(lines) => Ok(strings_view(lines@)),
        Err(e) => Err(e.message_view()),
    }
}

/// `listing` names each listed namespace of `v` once, in ascending order, each with its
/// registered channels in ascending order.
pub open spec fn listing_of(v: LoggerView, listing: Seq<(Seq<char>, Seq<Seq<char>>)>) -> bool {
    let names = listing.map_values(|e: (Seq<char>, Seq<Seq<char>>)| e.0);
    &&& crate::text::sorted_strict(names)
    &&& names.to_set() == v.namespaces
    &&& forall|k: int| 0 <= k < listing.len() ==> {
        &&& crate::text::sorted_strict(#[trigger] listing[k].1)
        &&& listing[k].1.to_set() == channels_of(v.channels, listing[k].0)
    }
}

/// What answering `req` does to a logger in state `old`, and what it gives back.
pub open spec fn request_effect(
    old: LoggerView,
    new: LoggerView,
    req: TraceRequestView,
    r: Result<Vec<String>, String>,
) -> bool {
    match req {
        TraceRequestView::Enable(selectors, local_namespace) => exists|r0: Result<Vec<String>, TraceError>|
            list_state_effect(old, new, r0, selectors, local_namespace, true) && #[trigger] trace_answer_view(r0)
                == answer_view(r),
        TraceRequestView::Namespaces => new == old && exists|names: Seq<Seq<char>>|
            crate::text::sorted_strict(names) && names.to_set() == old.namespaces && #[trigger] namespace_lines_spec(names)
                == answer_view(r)->Ok_0 && r is Ok,
        TraceRequestView::Channels => new == old && r is Ok && exists|listing: Seq<(Seq<char>, Seq<Seq<char>>)>|
            listing_of(old, listing) && #[trigger] channel_lines_spec(listing) == answer_view(r)->Ok_0,
        TraceRequestView::Output(flag) => r is Ok && answer_view(r)->Ok_0.len() == 0 && new == (LoggerView {
            options: normalized_options(with_output_flag_spec(old.options, flag)),
            ..old
        }),
        TraceRequestView::Examples(option_root) => new == old && answer_view(r) == Ok::<Seq<Seq<char>>, Seq<char>>(
            examples_spec(option_root),
        ),
        TraceRequestView::Colors => new == old && r is Ok && exists|names: Seq<Seq<char>>|
            crate::text::sorted_strict(names) && names.to_set() == crate::ktrace::colors::listed_color_names()
                && #[trigger] color_lines_spec(names) == answer_view(r)->Ok_0,
    }
}

/// Hands each of `lines` to `sink`, in order.
fn emit_all<S: Fn(String)>(sink: &Rc<S>, lines: Vec<String>)
    requires
        sink_callable(**sink),
    ensures
        forall|i: int| 0 <= i < lines@.len() ==> reported(**sink, #[trigger] lines@[i]@),
{
    let mut i: usize = 0;
    while i < lines.len()
        invariant
            i <= lines@.len(),
            sink_callable(**sink),
            forall|j: int| 0 <= j < i ==> reported(**sink, #[trigger] lines@[j]@),
        decreases lines@.len() - i,
    {
        report(sink, lines[i].clone());
        i = i + 1;
    }
}

/// The root of the group: `trace`, or `trace_root` when it is not blank.
pub open spec fn trace_root_spec(trace_root: Seq<char>) -> Result<Seq<char>, Seq<char>> {
    if trim_spec(trace_root).len() == 0 {
        Ok("trace"@)
    } else {
        normalize_inline_root_option_spec(trace_root)
    }
}

pub open spec fn flag_view(description: Seq<char>) -> BindingView {
    BindingView { expects_value: false, arity: ValueArity::Required, description }
}

/// What the group configures under the root `root`.
pub open spec fn trace_view(root: Seq<char>) -> InlineView {
    InlineView {
        root,
        has_root_handler: true,
        placeholder: "<channels>"@,
        description: "Trace selected channels."@,
        command_keys: seq![
            "examples"@,
            "namespaces"@,
            "channels"@,
            "colors"@,
            "files"@,
            "functions"@,
            "timestamps"@,
        ],
        bindings: seq![
            flag_view("Show selector examples."@),
            flag_view("Show initialized trace namespaces."@),
            flag_view("Show initialized trace channels."@),
            flag_view("Show available trace colors."@),
            flag_view("Include source file and line in trace output."@),
            flag_view("Include function names in trace output."@),
            flag_view("Include timestamps in trace output."@),
        ],
    }
}

proof fn lemma_description_ok(d: Seq<char>)
    requires
        d.len() > 0,
        !crate::text::is_ws_spec(d[0]),
        !crate::text::is_ws_spec(d.last()),
    ensures
        crate::kcli::normalize::normalize_description_spec(d) == Ok::<Seq<char>, Seq<char>>(d),
{
    lemma_trim_unchanged(d);
}


/// Setting the command at position `k` to a handler that reports what the control answered
/// to the command's request extends what `trace_handlers` covers by that command.
proof fn lemma_command_step<C: Fn(TraceRequest) -> Result<Vec<String>, String>, S: Fn(String), F: Fn(&HandlerContext) -> HandlerResult>(
    old: InlineParser,
    new: InlineParser,
    c: C,
    sink: S,
    ns: Seq<char>,
    k: int,
    option: Seq<char>,
    f: F,
)
    requires
        trace_handlers(old, c, sink, ns, k),
        old.view().command_keys.len() == k,
        upsert_index(old.view().command_keys, normalize_inline_handler_option_spec(option, old.view().root)->Ok_0) == k,
        inline_flag_stored(old, new, Ok(()), option, f),
        forall|ctx: &HandlerContext, hr: HandlerResult| #[trigger] call_ensures(f, (ctx,), hr) ==> trace_command_gives(c, sink, k, ctx.view(), outcome_view(hr)),
    ensures
        trace_handlers(new, c, sink, ns, k + 1),
{
    assert forall|call: CallView, out: Result<(), Seq<char>>|
        targets_inline_root(call.target) && call.value is Some && #[trigger] new.gives(call, out)
            implies control_reports(c, sink, TraceRequestView::Enable(call.value->0, ns), out) by {
        assert(other_than_inline_command(call.target, k, k));
        assert(old.gives(call, out));
    }
    assert forall|call: CallView, out: Result<(), Seq<char>>|
        inline_command_of(call.target) < k + 1 && call.value is None && #[trigger] new.gives(call, out)
            implies trace_command_gives(c, sink, inline_command_of(call.target), call.context, out) by {
        if inline_command_of(call.target) == k {
            assert(targets_inline_command(call.target, k));
            assert(flag_fn_gives(f, call.context, out));
            let (ctx, hr) = choose|ctx: HandlerContext, hr: HandlerResult| #[trigger] flag_fn_gives_with(f, call.context, out, ctx, hr);
            assert(call_ensures(f, (&ctx,), hr));
            assert(trace_command_gives(c, sink, k, ctx.view(), outcome_view(hr)));
        } else {
            assert(other_than_inline_command(call.target, k, k));
            assert(old.gives(call, out));
        }
    }
}

/// A group with no commands whose root value handler reports what the control answered to
/// enabling the value's channels in `ns`.
proof fn lemma_root_step<C: Fn(TraceRequest) -> Result<Vec<String>, String>, S: Fn(String), F: Fn(&HandlerContext, &str) -> HandlerResult>(
    old: InlineParser,
    new: InlineParser,
    c: C,
    sink: S,
    ns: Seq<char>,
    f: F,
)
    requires
        inline_root_stored(old, new, f),
        forall|ctx: &HandlerContext, v: &str, hr: HandlerResult| #[trigger] call_ensures(f, (ctx, v), hr)
            ==> control_reports(c, sink, TraceRequestView::Enable(v@, ns), outcome_view(hr)),
    ensures
        trace_handlers(new, c, sink, ns, 0),
{
    assert forall|call: CallView, out: Result<(), Seq<char>>|
        targets_inline_root(call.target) && call.value is Some && #[trigger] new.gives(call, out)
            implies control_reports(c, sink, TraceRequestView::Enable(call.value->0, ns), out) by {
        assert(value_fn_gives(f, call.context, call.value->0, out));
        let (ctx, v, hr) = choose|ctx: HandlerContext, v: &str, hr: HandlerResult|
            #[trigger] value_fn_gives_with(f, call.context, call.value->0, out, ctx, v, hr);
        assert(call_ensures(f, (&ctx, v), hr));
        assert(control_reports(c, sink, TraceRequestView::Enable(v@, ns), outcome_view(hr)));
    }
}

impl crate::ktrace::registry::Logger {
    /// Answers a request of the `--trace` group: enables channels, lists namespaces,
    /// channels, examples or colors, or turns on an output flag; see `request_effect`.
    pub fn apply_request(&mut self, request: TraceRequest) -> (r: Result<Vec<String>, String>)
        ensures
            final(self).id_view() == old(self).id_view(),
            request_effect(old(self).view(), final(self).view(), request.view(), r),
    {
        match request {
            TraceRequest::Enable { selectors, local_namespace } => {
                let r0 = self.enable_channels(selectors.as_str(), local_namespace.as_str());
                let ghost g0 = r0;
                let r = match r0 {
                    Ok(lines) => Ok(lines),
                    Err(e) => Err(e.message()),
                };
                assert(trace_answer_view(g0) == answer_view(r));
                r
            },
            TraceRequest::Namespaces => {
                let names = match self.get_namespaces() {
                    Ok(v) => v,
                    Err(e) => {
                        return Err(e.message());
                    },
                };
                let lines = namespace_lines(&names);
                assert(namespace_lines_spec(strings_view(names@)) == answer_view(Ok::<Vec<String>, String>(lines))->Ok_0);
                Ok(lines)
            },
            TraceRequest::Channels => {
                let listing = match self.channel_listing() {
                    Ok(v) => v,
                    Err(e) => {
                        return Err(e.message());
                    },
                };
                let lines = channel_lines(&listing);
                proof {
                    let lv = listing_view(listing@);
                    assert(lv.map_values(|e: (Seq<char>, Seq<Seq<char>>)| e.0) =~= listing@.map_values(
                        |e: (String, Vec<String>)| e.0@,
                    ));
                    assert forall|k: int| 0 <= k < lv.len() implies {
                        &&& crate::text::sorted_strict(#[trigger] lv[k].1)
                        &&& lv[k].1.to_set() == channels_of(self.view().channels, lv[k].0)
                    } by {
                        assert(lv[k].1 == strings_view(listing@[k].1@));
                    }
                    assert(listing_of(self.view(), lv));
                    assert(channel_lines_spec(lv) == answer_view(Ok::<Vec<String>, String>(lines))->Ok_0);
                }
                Ok(lines)
            },
            TraceRequest::Output(flag) => {
                match self.apply_output_flag(flag) {
                    Ok(()) => {},
                    Err(e) => {
                        return Err(e.message());
                    },
                }
                let lines: Vec<String> = Vec::new();
                assert(strings_view(lines@) =~= Seq::<Seq<char>>::empty());
                Ok(lines)
            },
            TraceRequest::Examples { option_root } => Ok(trace_examples(option_root.as_str())),
            TraceRequest::Colors => {
                let lines = color_lines();
                proof {
                    let names = choose|names: Seq<Seq<char>>|
                        crate::text::sorted_strict(names) && names.to_set() == crate::ktrace::colors::listed_color_names()
                            && strings_view(lines@) == color_lines_spec(names);
                    assert(color_lines_spec(names) == answer_view(Ok::<Vec<String>, String>(lines))->Ok_0);
                }
                Ok(lines)
            },
        }
    }

    /// The `--trace` group for a program whose own trace logger is `local_trace_logger`:
    /// `--trace <channels>` asks `control` to enable channels, `-examples`, `-namespaces`,
    /// `-channels` and `-colors` ask it for listings, `-files`, `-functions` and `-timestamps`
    /// ask it to change what trace lines show. Each handler reports what `control` answered,
    /// and all but the last three hand the answer's lines to `sink` (`trace_handlers`).
    pub fn make_inline_parser<
        C: Fn(TraceRequest) -> Result<Vec<String>, String> + 'static,
        S: Fn(String) + 'static,
    >(
        control: C,
        sink: Rc<S>,
        local_trace_logger: &crate::ktrace::registry::TraceLogger,
        trace_root: &str,
    ) -> (r: Result<InlineParser, ConfigError>)
        requires
            request_callable(control),
            sink_callable(*sink),
        ensures
            match trace_root_spec(trace_root@) {
                Ok(root) => r matches Ok(p) && p.view() == trace_view(root) && trace_handlers(
                    p,
                    control,
                    *sink,
                    local_trace_logger.namespace_view(),
                    7,
                ),
                Err(m) => r matches Err(e) && e.message_view() == m,
            },
    {
        proof {
            reveal_strlit("trace");
            reveal_strlit("<channels>");
            reveal_strlit("Trace selected channels.");
            lemma_trim_unchanged("trace"@);
            lemma_no_ws("trace"@);
            lemma_trim_unchanged("<channels>"@);
            lemma_description_ok("Trace selected channels."@);
        }
        let shared = Rc::new(control);
        let local_namespace = String::from_str(local_trace_logger.namespace());
        let mut parser = match InlineParser::new("trace") {
            Ok(p) => p,
            Err(e) => {
                return Err(e);
            },
        };
        if crate::text::trim_str(trace_root).unicode_len() > 0 {
            match parser.set_root(trace_root) {
                Ok(()) => {},
                Err(e) => {
                    return Err(e);
                },
            }
        }
        let ghost root = parser.view().root;
        let ghost ns = local_namespace@;
        let c0 = share(&shared);
        let s0 = share(&sink);
        let ns0 = local_namespace.clone();
        let ghost p0 = parser;
        let root_handler = move |context: &HandlerContext, value: &str| -> (r: HandlerResult)
            requires
                request_callable(*c0),
                sink_callable(*s0),
            ensures
                control_reports(*c0, *s0, TraceRequestView::Enable(value@, ns0@), outcome_view(r)),
            {
                let q = TraceRequest::Enable { selectors: String::from_str(value), local_namespace: ns0.clone() };
                let ghost gq = q;
                let res = (*c0)(q);
                let ghost gres = res;
                proof {
                    assert(control_gives_with(*c0, TraceRequestView::Enable(value@, ns0@), request_outcome(res), gq, res));
                }
                match res {
                    Ok(lines) => {
                        emit_all(&s0, lines);
                        assert(lines_reported(*s0, gres));
                        Ok(())
                    },
                    Err(m) => Err(m),
                }
            };
        match parser.set_root_value_handler_with_help(root_handler, "<channels>", "Trace selected channels.") {
            Ok(()) => {},
            Err(e) => {
                return Err(e);
            },
        }
        proof {
            lemma_root_step(p0, parser, control, pointee(&sink), ns, root_handler);
        }
        proof {
            reveal_strlit("-examples");
            reveal_strlit("examples");
            reveal_strlit("-namespaces");
            reveal_strlit("namespaces");
            reveal_strlit("-channels");
            reveal_strlit("channels");
            reveal_strlit("-colors");
            reveal_strlit("colors");
            reveal_strlit("-files");
            reveal_strlit("files");
            reveal_strlit("-functions");
            reveal_strlit("functions");
            reveal_strlit("-timestamps");
            reveal_strlit("timestamps");
            reveal_strlit("Show selector examples.");
            reveal_strlit("Show initialized trace namespaces.");
            reveal_strlit("Show initialized trace channels.");
            reveal_strlit("Show available trace colors.");
            reveal_strlit("Include source file and line in trace output.");
            reveal_strlit("Include function names in trace output.");
            reveal_strlit("Include timestamps in trace output.");
            assert("-examples"@.subrange(1, 9) =~= "examples"@);
            lemma_short_option_ok("-examples"@, "examples"@, root);
            assert("-namespaces"@.subrange(1, 11) =~= "namespaces"@);
            lemma_short_option_ok("-namespaces"@, "namespaces"@, root);
            assert("-channels"@.subrange(1, 9) =~= "channels"@);
            lemma_short_option_ok("-channels"@, "channels"@, root);
            assert("-colors"@.subrange(1, 7) =~= "colors"@);
            lemma_short_option_ok("-colors"@, "colors"@, root);
            assert("-files"@.subrange(1, 6) =~= "files"@);
            lemma_short_option_ok("-files"@, "files"@, root);
            assert("-functions"@.subrange(1, 10) =~= "functions"@);
            lemma_short_option_ok("-functions"@, "functions"@, root);
            assert("-timestamps"@.subrange(1, 11) =~= "timestamps"@);
            lemma_short_option_ok("-timestamps"@, "timestamps"@, root);
            lemma_description_ok("Show selector examples."@);
            lemma_description_ok("Show initialized trace namespaces."@);
            lemma_description_ok("Show initialized trace channels."@);
            lemma_description_ok("Show available trace colors."@);
            lemma_description_ok("Include source file and line in trace output."@);
            lemma_description_ok("Include function names in trace output."@);
            lemma_description_ok("Include timestamps in trace output."@);
        }
        assert(find_key(parser.view().command_keys, "examples"@, 0) is None);
        let c1 = share(&shared);
        let s1 = share(&sink);
        let ghost pk = parser;
        let handler1 = move |context: &HandlerContext| -> (r: HandlerResult)
            requires
                request_callable(*c1),
                sink_callable(*s1),
            ensures
                control_reports(*c1, *s1, TraceRequestView::Examples("--"@ + context.root@), outcome_view(r)),
            {
                let option_root = crate::text::concat2("--", context.root.as_str());
                let q = TraceRequest::Examples { option_root };
                let ghost gq = q;
                let res = (*c1)(q);
                let ghost gres = res;
                proof {
                    assert(control_gives_with(*c1, TraceRequestView::Examples("--"@ + context.root@), request_outcome(res), gq, res));
                }
                match res {
                    Ok(lines) => {
                        emit_all(&s1, lines);
                        assert(lines_reported(*s1, gres));
                        Ok(())
                    },
                    Err(m) => Err(m),
                }
            };
        proof {
            assert(find_key(parser.view().command_keys, "examples"@, 0) is None);
            lemma_short_option_ok("-examples"@, "examples"@, root);
        }
        match parser.set_flag_handler("-examples", handler1, "Show selector examples.") {
            Ok(()) => {},
            Err(e) => {
                return Err(e);
            },
        }
        proof {
            lemma_command_step(pk, parser, control, pointee(&sink), ns, 0, "-examples"@, handler1);
        }
        assert(parser.view().command_keys =~= seq!["examples"@]);
        assert(find_key(parser.view().command_keys, "namespaces"@, 1) is None);
        let c2 = share(&shared);
        let s2 = share(&sink);
        let ghost pk = parser;
        let handler2 = move |context: &HandlerContext| -> (r: HandlerResult)
            requires
                request_callable(*c2),
                sink_callable(*s2),
            ensures
                control_reports(*c2, *s2, TraceRequestView::Namespaces, outcome_view(r)),
            {
                let q = TraceRequest::Namespaces;
                let ghost gq = q;
                let res = (*c2)(q);
                let ghost gres = res;
                proof {
                    assert(control_gives_with(*c2, TraceRequestView::Namespaces, request_outcome(res), gq, res));
                }
                match res {
                    Ok(lines) => {
                        emit_all(&s2, lines);
                        assert(lines_reported(*s2, gres));
                        Ok(())
                    },
                    Err(m) => Err(m),
                }
            };
        proof {
            assert(find_key(parser.view().command_keys, "namespaces"@, 0) is None);
            lemma_short_option_ok("-namespaces"@, "namespaces"@, root);
        }
        match parser.set_flag_handler("-namespaces", handler2, "Show initialized trace namespaces.") {
            Ok(()) => {},
            Err(e) => {
                return Err(e);
            },
        }
        proof {
            lemma_command_step(pk, parser, control, pointee(&sink), ns, 1, "-namespaces"@, handler2);
        }
        assert(parser.view().command_keys =~= seq!["examples"@, "namespaces"@]);
        assert("channels"@[0] != "examples"@[0]);
        assert(find_key(parser.view().command_keys, "channels"@, 2) is None);
        assert(find_key(parser.view().command_keys, "channels"@, 1) is None);
        let c3 = share(&shared);
        let s3 = share(&sink);
        let ghost pk = parser;
        let handler3 = move |context: &HandlerContext| -> (r: HandlerResult)
            requires
                request_callable(*c3),
                sink_callable(*s3),
            ensures
                control_reports(*c3, *s3, TraceRequestView::Channels, outcome_view(r)),
            {
                let q = TraceRequest::Channels;
                let ghost gq = q;
                let res = (*c3)(q);
                let ghost gres = res;
                proof {
                    assert(control_gives_with(*c3, TraceRequestView::Channels, request_outcome(res), gq, res));
                }
                match res {
                    Ok(lines) => {
                        emit_all(&s3, lines);
                        assert(lines_reported(*s3, gres));
                        Ok(())
                    },
                    Err(m) => Err(m),
                }
            };
        proof {
            assert(find_key(parser.view().command_keys, "channels"@, 0) is None);
            lemma_short_option_ok("-channels"@, "channels"@, root);
        }
        match parser.set_flag_handler("-channels", handler3, "Show initialized trace channels.") {
            Ok(()) => {},
            Err(e) => {
                return Err(e);
            },
        }
        proof {
            lemma_command_step(pk, parser, control, pointee(&sink), ns, 2, "-channels"@, handler3);
        }
        assert(parser.view().command_keys =~= seq!["examples"@, "namespaces"@, "channels"@]);
        assert(find_key(parser.view().command_keys, "colors"@, 3) is None);
        assert(find_key(parser.view().command_keys, "colors"@, 2) is None);
        assert(find_key(parser.view().command_keys, "colors"@, 1) is None);
        let c4 = share(&shared);
        let s4 = share(&sink);
        let ghost pk = parser;
        let handler4 = move |context: &HandlerContext| -> (r: HandlerResult)
            requires
                request_callable(*c4),
                sink_callable(*s4),
            ensures
                control_reports(*c4, *s4, TraceRequestView::Colors, outcome_view(r)),
            {
                let q = TraceRequest::Colors;
                let ghost gq = q;
                let res = (*c4)(q);
                let ghost gres = res;
                proof {
                    assert(control_gives_with(*c4, TraceRequestView::Colors, request_outcome(res), gq, res));
                }
                match res {
                    Ok(lines) => {
                        emit_all(&s4, lines);
                        assert(lines_reported(*s4, gres));
                        Ok(())
                    },
                    Err(m) => Err(m),
                }
            };
        proof {
            assert(find_key(parser.view().command_keys, "colors"@, 0) is None);
            lemma_short_option_ok("-colors"@, "colors"@, root);
        }
        match parser.set_flag_handler("-colors", handler4, "Show available trace colors.") {
            Ok(()) => {},
            Err(e) => {
                return Err(e);
            },
        }
        proof {
            lemma_command_step(pk, parser, control, pointee(&sink), ns, 3, "-colors"@, handler4);
        }
        assert(parser.view().command_keys =~= seq!["examples"@, "namespaces"@, "channels"@, "colors"@]);
        assert(find_key(parser.view().command_keys, "files"@, 4) is None);
        assert(find_key(parser.view().command_keys, "files"@, 3) is None);
        assert(find_key(parser.view().command_keys, "files"@, 2) is None);
        assert(find_key(parser.view().command_keys, "files"@, 1) is None);
        let c5 = share(&shared);
        let ghost pk = parser;
        let handler5 = move |context: &HandlerContext| -> (r: HandlerResult)
            requires
                request_callable(*c5),
            ensures
                control_gives(*c5, TraceRequestView::Output(OutputFlag::Files), outcome_view(r)),
            {
                let q = TraceRequest::Output(OutputFlag::Files);
                let ghost gq = q;
                let res = (*c5)(q);
                proof {
                    assert(control_gives_with(*c5, TraceRequestView::Output(OutputFlag::Files), request_outcome(res), gq, res));
                }
                match res {
                    Ok(_) => {
                        Ok(())
                    },
                    Err(m) => Err(m),
                }
            };
        proof {
            assert(find_key(parser.view().command_keys, "files"@, 0) is None);
            lemma_short_option_ok("-files"@, "files"@, root);
        }
        match parser.set_flag_handler("-files", handler5, "Include source file and line in trace output.") {
            Ok(()) => {},
            Err(e) => {
                return Err(e);
            },
        }
        proof {
            lemma_command_step(pk, parser, control, pointee(&sink), ns, 4, "-files"@, handler5);
        }
        assert(parser.view().command_keys =~= seq!["examples"@, "namespaces"@, "channels"@, "colors"@, "files"@]);
        assert(find_key(parser.view().command_keys, "functions"@, 5) is None);
        assert(find_key(parser.view().command_keys, "functions"@, 4) is None);
        assert(find_key(parser.view().command_keys, "functions"@, 3) is None);
        assert(find_key(parser.view().command_keys, "functions"@, 2) is None);
        assert(find_key(parser.view().command_keys, "functions"@, 1) is None);
        let c6 = share(&shared);
        let ghost pk = parser;
        let handler6 = move |context: &HandlerContext| -> (r: HandlerResult)
            requires
                request_callable(*c6),
            ensures
                control_gives(*c6, TraceRequestView::Output(OutputFlag::Functions), outcome_view(r)),
            {
                let q = TraceRequest::Output(OutputFlag::Functions);
                let ghost gq = q;
                let res = (*c6)(q);
                proof {
                    assert(control_gives_with(*c6, TraceRequestView::Output(OutputFlag::Functions), request_outcome(res), gq, res));
                }
                match res {
                    Ok(_) => {
                        Ok(())
                    },
                    Err(m) => Err(m),
                }
            };
        proof {
            assert(find_key(parser.view().command_keys, "functions"@, 0) is None);
            lemma_short_option_ok("-functions"@, "functions"@, root);
        }
        match parser.set_flag_handler("-functions", handler6, "Include function names in trace output.") {
            Ok(()) => {},
            Err(e) => {
                return Err(e);
            },
        }
        proof {
            lemma_command_step(pk, parser, control, pointee(&sink), ns, 5, "-functions"@, handler6);
        }
        assert(parser.view().command_keys =~= seq!["examples"@, "namespaces"@, "channels"@, "colors"@, "files"@, "functions"@]);
        assert("timestamps"@[0] != "namespaces"@[0]);
        assert(find_key(parser.view().command_keys, "timestamps"@, 6) is None);
        assert(find_key(parser.view().command_keys, "timestamps"@, 5) is None);
        assert(find_key(parser.view().command_keys, "timestamps"@, 4) is None);
        assert(find_key(parser.view().command_keys, "timestamps"@, 3) is None);
        assert(find_key(parser.view().command_keys, "timestamps"@, 2) is None);
        assert(find_key(parser.view().command_keys, "timestamps"@, 1) is None);
        let c7 = share(&shared);
        let ghost pk = parser;
        let handler7 = move |context: &HandlerContext| -> (r: HandlerResult)
            requires
                request_callable(*c7),
            ensures
                control_gives(*c7, TraceRequestView::Output(OutputFlag::Timestamps), outcome_view(r)),
            {
                let q = TraceRequest::Output(OutputFlag::Timestamps);
                let ghost gq = q;
                let res = (*c7)(q);
                proof {
                    assert(control_gives_with(*c7, TraceRequestView::Output(OutputFlag::Timestamps), request_outcome(res), gq, res));
                }
                match res {
                    Ok(_) => {
                        Ok(())
                    },
                    Err(m) => Err(m),
                }
            };
        proof {
            assert(find_key(parser.view().command_keys, "timestamps"@, 0) is None);
            lemma_short_option_ok("-timestamps"@, "timestamps"@, root);
        }
        match parser.set_flag_handler("-timestamps", handler7, "Include timestamps in trace output.") {
            Ok(()) => {},
            Err(e) => {
                return Err(e);
            },
        }
        proof {
            lemma_command_step(pk, parser, control, pointee(&sink), ns, 6, "-timestamps"@, handler7);
        }
        assert(parser.view().command_keys =~= trace_view(root).command_keys);
        assert(parser.view().bindings =~= trace_view(root).bindings);
        Ok(parser)
    }
}

} // verus!
