//! Running planned invocations: handler calls in command-line order, stopping at the first error.
use vstd::prelude::*;
use crate::kcli::model::{
    clone_strings, strings_view, BindingAction, ContextView, HandlerContext, HandlerResult,
    InlineParserData, ParserData,
};
use crate::kcli::process::help::{help_text_spec, render_help};
use crate::sink::{report, reported, sink_callable};
use std::rc::Rc;
use crate::kcli::process::plan::{all_invocations_ok, join_spec, join_with_spaces, target_ok};
use crate::kcli::process::state::{
    invocations_view, rows_view, FailureView, HandlerRef, Invocation, InvocationView,
    ParseFailure, ParseOutcome,
};

verus! {

/// Who is called.
pub enum CallTarget {
    Handler(HandlerRef),
    Positional,
}

/// One handler call: whom, with what context, and the value for value handlers.
pub struct CallView {
    pub target: CallTarget,
    pub context: ContextView,
    pub value: Option<Seq<char>>,
}

/// What a handler returned, as plain values.
pub open spec fn outcome_view(r: HandlerResult) -> Result<(), Seq<char>> {
    match r {
        Ok(()) => Ok(()),
        Err(m) => Err(m@),
    }
}

/// The call an invocation makes (help listings make none).
pub open spec fn call_of(inv: InvocationView) -> CallView {
    match inv {
        InvocationView::Flag { root, option, command, target } => CallView {
            target: CallTarget::Handler(target),
            context: ContextView { root, option, command, value_tokens: Seq::empty() },
            value: None,
        },
        InvocationView::Value { root, option, command, value_tokens, target } => CallView {
            target: CallTarget::Handler(target),
            context: ContextView { root, option, command, value_tokens },
            value: Some(join_spec(value_tokens)),
        },
        InvocationView::Positional { value_tokens } => CallView {
            target: CallTarget::Positional,
            context: ContextView {
                root: Seq::empty(),
                option: Seq::empty(),
                command: Seq::empty(),
                value_tokens,
            },
            value: None,
        },
        InvocationView::PrintHelp { .. } => CallView {
            target: CallTarget::Positional,
            context: ContextView {
                root: Seq::empty(),
                option: Seq::empty(),
                command: Seq::empty(),
                value_tokens: Seq::empty(),
            },
            value: None,
        },
    }
}

/// The option a failing handler is reported against; empty for positional arguments.
pub open spec fn call_option(inv: InvocationView) -> Seq<char> {
    match inv {
        InvocationView::Flag { option, .. } => option,
        InvocationView::Value { option, .. } => option,
        _ => Seq::empty(),
    }
}

/// From position `k`, the help listings up to the next handler call.
pub open spec fn advance(invs: Seq<InvocationView>, k: int, out: Seq<Seq<char>>) -> (int, Seq<Seq<char>>)
    decreases invs.len() - k,
{
    if k < 0 || k >= invs.len() {
        (k, out)
    } else {
        match invs[k] {
            InvocationView::PrintHelp { root, rows } => advance(
                invs,
                k + 1,
                out.push(help_text_spec(root, rows)),
            ),
            _ => (k, out),
        }
    }
}

/// The progress of a run.
pub struct RunState {
    /// Position of the next handler call, or the end.
    pub next: int,
    /// Help listings produced so far.
    pub outputs: Seq<Seq<char>>,
    /// Handler calls made so far.
    pub calls: Seq<CallView>,
    pub failure: Option<FailureView>,
}

/// The run once the handlers have returned `rs`, in order.
pub open spec fn run_after(invs: Seq<InvocationView>, rs: Seq<Result<(), Seq<char>>>) -> RunState
    decreases rs.len(),
{
    if rs.len() == 0 {
        let a = advance(invs, 0, Seq::empty());
        RunState { next: a.0, outputs: a.1, calls: Seq::empty(), failure: None }
    } else {
        let s = run_after(invs, rs.drop_last());
        if s.failure is Some || s.next < 0 || s.next >= invs.len() {
            s
        } else {
            let inv = invs[s.next];
            let calls = s.calls.push(call_of(inv));
            match rs.last() {
                Ok(_) => {
                    let a = advance(invs, s.next + 1, s.outputs);
                    RunState { next: a.0, outputs: a.1, calls, failure: None }
                },
                Err(m) => RunState {
                    next: s.next,
                    outputs: s.outputs,
                    calls,
                    failure: Some(FailureView::HandlerFailed { option: call_option(inv), message: m }),
                },
            }
        }
    }
}

/// The run has stopped: at a failure, or past the last invocation.
pub open spec fn run_finished(invs: Seq<InvocationView>, s: RunState) -> bool {
    s.failure is Some || s.next >= invs.len()
}

proof fn lemma_advance_bounds(invs: Seq<InvocationView>, k: int, out: Seq<Seq<char>>)
    requires
        0 <= k,
    ensures
        k <= advance(invs, k, out).0,
        advance(invs, k, out).0 < invs.len() ==> !(invs[advance(invs, k, out).0] is PrintHelp),
    decreases invs.len() - k,
{
    if k < invs.len() {
        if let InvocationView::PrintHelp { root, rows } = invs[k] {
            lemma_advance_bounds(invs, k + 1, out.push(help_text_spec(root, rows)));
        }
    }
}

/// What the flag call for `target` may give: the result of the flag handler bound there.
pub open spec fn flag_call_result(data: &ParserData, target: HandlerRef, context: &HandlerContext, r: HandlerResult) -> bool {
    match target {
        HandlerRef::Primary(ci) => match data.commands.entries_view()[ci as int].binding.action {
            BindingAction::Flag(h) => h.may_return(context, r),
            BindingAction::Value(_, _) => r is Ok,
        },
        HandlerRef::Inline(pi, ci) => match data.inline_parsers.entries_view()[pi as int].commands.entries_view()[ci as int].binding.action {
            BindingAction::Flag(h) => h.may_return(context, r),
            BindingAction::Value(_, _) => r is Ok,
        },
        HandlerRef::InlineRoot(_) => r is Ok,
    }
}

/// What the value call for `target` may give: the result of the value handler bound there.
pub open spec fn value_call_result(
    data: &ParserData,
    target: HandlerRef,
    context: &HandlerContext,
    value: &str,
    r: HandlerResult,
) -> bool {
    match target {
        HandlerRef::Primary(ci) => match data.commands.entries_view()[ci as int].binding.action {
            BindingAction::Value(h, _) => h.may_return(context, value, r),
            BindingAction::Flag(_) => r is Ok,
        },
        HandlerRef::Inline(pi, ci) => match data.inline_parsers.entries_view()[pi as int].commands.entries_view()[ci as int].binding.action {
            BindingAction::Value(h, _) => h.may_return(context, value, r),
            BindingAction::Flag(_) => r is Ok,
        },
        HandlerRef::InlineRoot(pi) => match data.inline_parsers.entries_view()[pi as int].root_value_handler {
            Some(h) => h.may_return(context, value, r),
            None => r is Ok,
        },
    }
}

/// The call `call` could have given `out`, with witnesses: the context handed over, the value
/// (for value handlers) and the handler's own result.
pub open spec fn call_gives_with(
    data: &ParserData,
    call: CallView,
    out: Result<(), Seq<char>>,
    c: HandlerContext,
    v: &str,
    hr: HandlerResult,
) -> bool {
    &&& c.view() == call.context
    &&& outcome_view(hr) == out
    &&& match call.target {
        CallTarget::Handler(t) => match call.value {
            None => flag_call_result(data, t, &c, hr),
            Some(value) => v@ == value && value_call_result(data, t, &c, v, hr),
        },
        CallTarget::Positional => match data.positional_handler {
            Some(h) => h.may_return(&c, hr),
            None => hr is Ok,
        },
    }
}

/// `out` is what the handler that `call` names returned for the call's context and value.
pub open spec fn call_gives(data: &ParserData, call: CallView, out: Result<(), Seq<char>>) -> bool {
    exists|c: HandlerContext, v: &str, hr: HandlerResult| #[trigger] call_gives_with(data, call, out, c, v, hr)
}

/// For a call into an inline parser: `out` is what `p`'s handler gave, with the witnesses
/// for the context, the value and the handler's own result.
pub open spec fn inline_call_gives_with(
    p: InlineParserData,
    call: CallView,
    out: Result<(), Seq<char>>,
    c: HandlerContext,
    v: &str,
    hr: HandlerResult,
) -> bool {
    &&& c.view() == call.context
    &&& outcome_view(hr) == out
    &&& match call.target {
        CallTarget::Handler(HandlerRef::Inline(_, ci)) => match call.value {
            None => match p.commands.entries_view()[ci as int].binding.action {
                BindingAction::Flag(h) => h.may_return(&c, hr),
                BindingAction::Value(_, _) => hr is Ok,
            },
            Some(value) => v@ == value && match p.commands.entries_view()[ci as int].binding.action {
                BindingAction::Value(h, _) => h.may_return(&c, v, hr),
                BindingAction::Flag(_) => hr is Ok,
            },
        },
        CallTarget::Handler(HandlerRef::InlineRoot(_)) => match call.value {
            None => hr is Ok,
            Some(value) => v@ == value && match p.root_value_handler {
                Some(h) => h.may_return(&c, v, hr),
                None => hr is Ok,
            },
        },
        _ => false,
    }
}

/// The call goes into the inline parser at position `pi`.
pub open spec fn targets_inline(t: CallTarget, pi: int) -> bool {
    match t {
        CallTarget::Handler(HandlerRef::Inline(p, _)) => p == pi,
        CallTarget::Handler(HandlerRef::InlineRoot(p)) => p == pi,
        _ => false,
    }
}

/// A call into the inline parser at position `pi` gives what that parser's handler gives.
pub proof fn lemma_inline_call_gives(
    data: &ParserData,
    pi: int,
    call: CallView,
    out: Result<(), Seq<char>>,
    c: HandlerContext,
    v: &str,
    hr: HandlerResult,
)
    requires
        0 <= pi < data.inline_parsers.entries_view().len(),
        targets_inline(call.target, pi),
    ensures
        call_gives_with(data, call, out, c, v, hr) == inline_call_gives_with(
            data.inline_parsers.entries_view()[pi],
            call,
            out,
            c,
            v,
            hr,
        ),
{
}

/// Calls the flag handler that `target` names.
fn call_flag(data: &ParserData, target: HandlerRef, context: &HandlerContext) -> (r: HandlerResult)
    requires
        data.wf(),
        target_ok(data.view(), target, false),
    ensures
        flag_call_result(data, target, context, r),
{
    match target {
        HandlerRef::Primary(ci) => {
            let entry = data.commands.entry(ci);
            assert(data.commands.entries_view()[ci as int].binding.wf());
            match &entry.binding.action {
                BindingAction::Flag(h) => h.invoke(context),
                BindingAction::Value(_, _) => {
                    assert(data.view().bindings[ci as int] == entry.binding.view());
                    Ok(())
                },
            }
        },
        HandlerRef::Inline(pi, ci) => {
            let parser = data.inline_parsers.entry(pi);
            assert(data.inline_parsers.entries_view()[pi as int].wf());
            let entry = parser.commands.entry(ci);
            assert(parser.commands.entries_view()[ci as int].binding.wf());
            match &entry.binding.action {
                BindingAction::Flag(h) => h.invoke(context),
                BindingAction::Value(_, _) => {
                    assert(data.view().inlines[pi as int] == parser.view());
                    assert(parser.view().bindings[ci as int] == entry.binding.view());
                    Ok(())
                },
            }
        },
        HandlerRef::InlineRoot(_) => Ok(()),
    }
}

/// Calls the value handler that `target` names, with `value`.
fn call_value(data: &ParserData, target: HandlerRef, context: &HandlerContext, value: &str) -> (r: HandlerResult)
    requires
        data.wf(),
        target_ok(data.view(), target, true),
    ensures
        value_call_result(data, target, context, value, r),
{
    match target {
        HandlerRef::Primary(ci) => {
            let entry = data.commands.entry(ci);
            assert(data.commands.entries_view()[ci as int].binding.wf());
            match &entry.binding.action {
                BindingAction::Value(h, _) => h.invoke(context, value),
                BindingAction::Flag(_) => {
                    assert(data.view().bindings[ci as int] == entry.binding.view());
                    Ok(())
                },
            }
        },
        HandlerRef::Inline(pi, ci) => {
            let parser = data.inline_parsers.entry(pi);
            assert(data.inline_parsers.entries_view()[pi as int].wf());
            let entry = parser.commands.entry(ci);
            assert(parser.commands.entries_view()[ci as int].binding.wf());
            match &entry.binding.action {
                BindingAction::Value(h, _) => h.invoke(context, value),
                BindingAction::Flag(_) => {
                    assert(data.view().inlines[pi as int] == parser.view());
                    assert(parser.view().bindings[ci as int] == entry.binding.view());
                    Ok(())
                },
            }
        },
        HandlerRef::InlineRoot(pi) => {
            let parser = data.inline_parsers.entry(pi);
            assert(data.inline_parsers.entries_view()[pi as int].wf());
            assert(data.view().inlines[pi as int] == parser.view());
            match &parser.root_value_handler {
                Some(h) => h.invoke(context, value),
                None => Ok(()),
            }
        },
    }
}

/// Calls the positional handler, if there is one.
fn call_positional(data: &ParserData, context: &HandlerContext) -> (r: HandlerResult)
    requires
        data.wf(),
    ensures
        match data.positional_handler {
            Some(h) => h.may_return(context, r),
            None => r is Ok,
        },
{
    match &data.positional_handler {
        Some(h) => h.invoke(context),
        None => Ok(()),
    }
}

/// Runs the invocations in order; each help listing is handed to `show` when reached, and
/// all are returned as text.
pub fn execute_invocations<S: Fn(String)>(
    data: &ParserData,
    invocations: &Vec<Invocation>,
    result: &mut ParseOutcome,
    show: &Rc<S>,
) -> (r: (
    Vec<String>,
    Ghost<Seq<Result<(), Seq<char>>>>,
    Ghost<Seq<CallView>>,
))
    requires
        data.wf(),
        old(result).wf(),
        all_invocations_ok(data.view(), invocations_view(invocations@)),
        sink_callable(**show),
    ensures
        forall|i: int| 0 <= i < r.0@.len() ==> reported(**show, #[trigger] r.0@[i]@),
        old(result).ok ==> ({
            let s = run_after(invocations_view(invocations@), r.1@);
            &&& run_finished(invocations_view(invocations@), s)
            &&& final(result).failure() == s.failure
            &&& strings_view(r.0@) == s.outputs
            &&& r.2@ == s.calls
        }),
        r.1@.len() == r.2@.len(),
        forall|k: int| 0 <= k < r.1@.len() ==> call_gives(data, #[trigger] r.2@[k], r.1@[k]),
        !old(result).ok ==> *final(result) == *old(result) && r.0@.len() == 0 && r.1@.len() == 0,
        final(result).wf(),
{
    if !result.ok {
        return (Vec::new(), Ghost(Seq::empty()), Ghost(Seq::empty()));
    }
    let ghost invs = invocations_view(invocations@);
    let mut outputs: Vec<String> = Vec::new();
    let ghost mut rs: Seq<Result<(), Seq<char>>> = Seq::empty();
    let ghost mut calls: Seq<CallView> = Seq::empty();
    let mut k: usize = 0;
    proof {
        assert(strings_view(outputs@) =~= Seq::<Seq<char>>::empty());
    }
    while k < invocations.len()
        invariant
            invs == invocations_view(invocations@),
            data.wf(),
            all_invocations_ok(data.view(), invs),
            k <= invocations@.len(),
            result.ok,
            result.wf(),
            ({
                let s = run_after(invs, rs);
                &&& s.failure is None
                &&& advance(invs, k as int, strings_view(outputs@)) == (s.next, s.outputs)
                &&& s.calls == calls
            }),
            old(result).ok,
            rs.len() == calls.len(),
            forall|j: int| 0 <= j < rs.len() ==> call_gives(data, #[trigger] calls[j], rs[j]),
            sink_callable(**show),
            forall|i: int| 0 <= i < outputs@.len() ==> reported(**show, #[trigger] outputs@[i]@),
        decreases invocations@.len() - k,
    {
        let inv = &invocations[k];
        assert(invs[k as int] == inv.view());
        let ghost s = run_after(invs, rs);
        let ghost out_before = strings_view(outputs@);
        let execution: HandlerResult;
        let option: String;
        match inv {
            Invocation::PrintHelp { root, help_rows } => {
                let text = render_help(root.as_str(), help_rows.as_slice());
                report(show, text.clone());
                proof {
                    crate::kcli::model::lemma_strings_view_push(outputs@, text);
                }
                outputs.push(text);
                k = k + 1;
                continue;
            },
            Invocation::Flag { root, option: opt, command, target } => {
                assert(invocation_ok_at(data, invs, k as int));
                let context = HandlerContext {
                    root: root.clone(),
                    option: opt.clone(),
                    command: command.clone(),
                    value_tokens: Vec::new(),
                };
                proof {
                    assert(strings_view(context.value_tokens@) =~= Seq::<Seq<char>>::empty());
                    assert(context.view() == call_of(inv.view()).context);
                }
                execution = call_flag(data, *target, &context);
                option = opt.clone();
                proof {
                    let call = CallView { target: CallTarget::Handler(*target), context: context.view(), value: None };
                    assert(call_gives_with(data, call, outcome_view(execution), context, "", execution));
                    calls = calls.push(call);
                }
            },
            Invocation::Value { root, option: opt, command, value_tokens, target } => {
                assert(invocation_ok_at(data, invs, k as int));
                let context = HandlerContext {
                    root: root.clone(),
                    option: opt.clone(),
                    command: command.clone(),
                    value_tokens: clone_strings(value_tokens),
                };
                let value = join_with_spaces(value_tokens);
                let value_str = value.as_str();
                execution = call_value(data, *target, &context, value_str);
                option = opt.clone();
                proof {
                    let call = CallView {
                        target: CallTarget::Handler(*target),
                        context: context.view(),
                        value: Some(value@),
                    };
                    assert(call_gives_with(data, call, outcome_view(execution), context, value_str, execution));
                    calls = calls.push(call);
                }
            },
            Invocation::Positional { value_tokens } => {
                let context = HandlerContext {
                    root: String::new(),
                    option: String::new(),
                    command: String::new(),
                    value_tokens: clone_strings(value_tokens),
                };
                execution = call_positional(data, &context);
                option = String::new();
                proof {
                    let call = CallView { target: CallTarget::Positional, context: context.view(), value: None };
                    assert(call_gives_with(data, call, outcome_view(execution), context, "", execution));
                    calls = calls.push(call);
                }
            },
        }
        proof {
            lemma_advance_bounds(invs, k as int, out_before);
            assert(s.next == k as int);
            assert(s.outputs == out_before);
            assert(calls == s.calls.push(call_of(invs[k as int])));
            let rs_old = rs;
            rs = rs.push(outcome_view(execution));
            assert(rs.drop_last() =~= rs_old);
        }
        match execution {
            Ok(()) => {
                k = k + 1;
            },
            Err(message) => {
                result.report_error(ParseFailure::HandlerFailed { option, message });
                return (outputs, Ghost(rs), Ghost(calls));
            },
        }
    }
    proof {
        assert(advance(invs, k as int, strings_view(outputs@)).0 == k as int);
    }
    (outputs, Ghost(rs), Ghost(calls))
}

pub open spec fn invocation_ok_at(data: &ParserData, invs: Seq<InvocationView>, k: int) -> bool {
    crate::kcli::process::plan::invocation_ok(data.view(), invs[k])
}

} // verus!
