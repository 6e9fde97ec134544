//! Properties of parsing that hold for every configuration and command line.
use vstd::prelude::*;
use crate::kcli::model::{find_key, AliasView, BindingView, ParserView};
use crate::kcli::normalize::{has_dash, has_double_dash};
use crate::kcli::process::parse::{parse_calls_spec, parse_finished, parse_outcome_spec};
use crate::kcli::process::plan::{
    alias_of, alias_presets, follow_run, taken_positions, collect_last, collected_parts, inline_match, schedule_spec, InlineMatch, consumed_after_positionals, run_end, first_unknown, is_positional, parse_plan_spec,
    plan_spec, positional_values, token_step, PlanState, plan_from, positional_invocations, initial_plan, bare_root_spec,
};
use crate::kcli::process::run::{advance, call_of, call_option, run_after, run_finished, CallView, RunState};
use crate::kcli::process::state::{FailureView, HandlerRef, InvocationView};

verus! {

proof fn lemma_run_after_empty(rs: Seq<Result<(), Seq<char>>>)
    ensures
        run_after(Seq::empty(), rs) == (RunState {
            next: 0,
            outputs: Seq::empty(),
            calls: Seq::empty(),
            failure: None,
        }),
    decreases rs.len(),
{
    if rs.len() > 0 {
        lemma_run_after_empty(rs.drop_last());
    }
}

/// A command line holding only the program name is accepted: no handler is called and
/// nothing is printed, whatever the configuration.
pub proof fn lemma_program_name_only(p: ParserView, t: Seq<Seq<char>>, rs: Seq<Result<(), Seq<char>>>)
    requires
        t.len() <= 1,
    ensures
        parse_plan_spec(p, t) == Ok::<Seq<InvocationView>, FailureView>(Seq::empty()),
        parse_outcome_spec(p, t, rs) == Ok::<Seq<Seq<char>>, FailureView>(Seq::empty()),
        parse_calls_spec(p, t, rs) == Seq::<CallView>::empty(),
        parse_finished(p, t, rs),
{
    lemma_run_after_empty(rs);
    if t.len() == 1 {
        assert(positional_values(t, plan_spec(p, t).consumed, 1) =~= Seq::empty());
        assert(plan_spec(p, t).invocations =~= Seq::empty());
        assert(first_unknown(t, consumed_after_positionals(p, t, plan_spec(p, t).consumed), 1)
            is None);
        assert(parse_plan_spec(p, t) == Ok::<Seq<InvocationView>, FailureView>(
            Seq::<InvocationView>::empty() + Seq::empty(),
        ));
        assert(Seq::<InvocationView>::empty() + Seq::empty() =~= Seq::<InvocationView>::empty());
    }
}

/// A refused command line runs no handler: the refusal is reported whatever the handlers
/// would have returned.
pub proof fn lemma_refused_line_runs_nothing(p: ParserView, t: Seq<Seq<char>>, rs: Seq<Result<(), Seq<char>>>)
    requires
        parse_plan_spec(p, t) is Err,
    ensures
        parse_calls_spec(p, t, rs).len() == 0,
        parse_outcome_spec(p, t, rs) == Err::<Seq<Seq<char>>, FailureView>(
            parse_plan_spec(p, t)->Err_0,
        ),
{
}

proof fn lemma_advance_next(invs: Seq<InvocationView>, k: int, out: Seq<Seq<char>>)
    requires
        0 <= k,
    ensures
        k <= advance(invs, k, out).0,
    decreases invs.len() - k,
{
    if k < invs.len() {
        if let InvocationView::PrintHelp { root, rows } = invs[k] {
            lemma_advance_next(invs, k + 1, out.push(crate::kcli::process::help::help_text_spec(root, rows)));
        }
    }
}

/// Handlers run one after another and the run stops at the first one that fails: every
/// call but the last returned `Ok`, and a failure carries what the last call returned.
pub proof fn lemma_run_stops_at_first_failure(invs: Seq<InvocationView>, rs: Seq<Result<(), Seq<char>>>)
    ensures
        ({
            let s = run_after(invs, rs);
            &&& s.calls.len() <= rs.len()
            &&& 0 <= s.next
            &&& (s.failure is None && s.next < invs.len() ==> s.calls.len() == rs.len())
            &&& forall|i: int|
                0 <= i < s.calls.len() && (s.failure is None || i < s.calls.len() - 1)
                    ==> #[trigger] rs[i] is Ok
            &&& s.failure is Some ==> {
                &&& s.calls.len() > 0
                &&& rs[s.calls.len() - 1] is Err
                &&& s.failure matches Some(FailureView::HandlerFailed { message, .. })
                &&& message == rs[s.calls.len() - 1]->Err_0
            }
        }),
    decreases rs.len(),
{
    if rs.len() == 0 {
        lemma_advance_next(invs, 0, Seq::empty());
    } else {
        let prev = rs.drop_last();
        lemma_run_stops_at_first_failure(invs, prev);
        let s = run_after(invs, prev);
        if !(s.failure is Some || s.next < 0 || s.next >= invs.len()) {
            lemma_advance_next(invs, s.next + 1, s.outputs);
        }
        assert forall|i: int| 0 <= i < prev.len() implies prev[i] == rs[i] by {}
    }
}

proof fn lemma_first_unknown_none(t: Seq<Seq<char>>, consumed: Seq<bool>, j: int, k: int)
    requires
        first_unknown(t, consumed, j) is None,
        0 <= j <= k < t.len(),
        t[k].len() > 0,
        has_dash(t[k]),
    ensures
        consumed[k],
    decreases k - j,
{
    if j < k {
        lemma_first_unknown_none(t, consumed, j + 1, k);
    }
}

/// On an accepted command line every token after the program name that starts with `-`
/// was taken: as an option, an alias, or the value of an option.
pub proof fn lemma_accepted_line_takes_every_option(p: ParserView, t: Seq<Seq<char>>, k: int)
    requires
        parse_plan_spec(p, t) is Ok,
        1 <= k < t.len(),
        has_dash(t[k]),
    ensures
        consumed_after_positionals(p, t, plan_spec(p, t).consumed)[k],
{
    lemma_first_unknown_none(t, consumed_after_positionals(p, t, plan_spec(p, t).consumed), 1, k);
}

/// The positional handler is handed only tokens that are empty or do not start with `-`,
/// in command-line order.
pub proof fn lemma_positional_values_are_not_options(t: Seq<Seq<char>>, consumed: Seq<bool>, n: int)
    ensures
        forall|x: int|
            0 <= x < positional_values(t, consumed, n).len() ==> {
                let v = #[trigger] positional_values(t, consumed, n)[x];
                v.len() == 0 || !has_dash(v)
            },
    decreases n,
{
    if n > 1 {
        lemma_positional_values_are_not_options(t, consumed, n - 1);
        if is_positional(t, consumed, n - 1) {
            let prev = positional_values(t, consumed, n - 1);
            assert forall|x: int| 0 <= x < prev.len() implies prev.push(t[n - 1])[x] == prev[x] by {}
        }
    }
}

/// An alias without preset tokens acts, where it stands, exactly as its target would.
///
/// Registered aliases always have a `--` target (`add_alias` refuses any other).
pub proof fn lemma_alias_acts_as_target(p: ParserView, t: Seq<Seq<char>>, i: int, st: PlanState, a: AliasView)
    requires
        0 <= i < t.len(),
        alias_of(p, t[i]) == Some(a),
        a.presets.len() == 0,
        has_double_dash(a.target),
    ensures
        token_step(p, t, i, st) == token_step(p, t.update(i, a.target), i, st),
{
    let u = t.update(i, a.target);
    assert(u[i] == a.target);
    assert(alias_of(p, u[i]) is None);
    assert forall|x: int| i < x < t.len() implies u[x] == t[x] by {}
    let eff = a.target;
    match inline_match(p.inlines, eff, 0) {
        InlineMatch::BareRoot(pi) => {
            lemma_collect_agree(t, u, i);
        },
        InlineMatch::Dash(pi, suffix) => {
            if suffix.len() > 0 {
                if let Some(ci) = find_key(p.inlines[pi].command_keys, suffix, 0) {
                    lemma_schedule_agree(
                        p.inlines[pi].bindings[ci],
                        a,
                        p.inlines[pi].root,
                        suffix,
                        eff,
                        i,
                        t,
                        u,
                        st,
                        HandlerRef::Inline(pi as usize, ci as usize),
                    );
                }
            }
        },
        InlineMatch::NoMatch => {
            let command = eff.subrange(2, eff.len() as int);
            if let Some(ci) = find_key(p.command_keys, command, 0) {
                lemma_schedule_agree(
                    p.bindings[ci],
                    a,
                    Seq::empty(),
                    command,
                    eff,
                    i,
                    t,
                    u,
                    st,
                    HandlerRef::Primary(ci as usize),
                );
            }
        },
    }
}

proof fn lemma_collect_agree(t: Seq<Seq<char>>, u: Seq<Seq<char>>, i: int)
    requires
        0 <= i < t.len(),
        t.len() == u.len(),
        forall|x: int| i < x < t.len() ==> u[x] == t[x],
    ensures
        collect_last(t, i, true) == collect_last(u, i, true),
        collect_last(t, i, false) == collect_last(u, i, false),
        forall|l: int| i < l < t.len() ==> #[trigger] collected_parts(t, i, Some(l))
            == collected_parts(u, i, Some(l)),
        collected_parts(t, i, collect_last(t, i, true)) == collected_parts(u, i, collect_last(u, i, true)),
        collected_parts(t, i, collect_last(t, i, false)) == collected_parts(u, i, collect_last(u, i, false)),
{
    lemma_run_end_agree(t, u, i + 2);
    if i + 2 <= t.len() {
        lemma_run_end_bounds(t, i + 2);
    }
    assert forall|l: int| i < l < t.len() implies #[trigger] collected_parts(t, i, Some(l))
        == collected_parts(u, i, Some(l)) by {
        assert(collected_parts(t, i, Some(l)) =~= collected_parts(u, i, Some(l)));
    }
}

proof fn lemma_schedule_agree(
    b: BindingView,
    a: AliasView,
    root: Seq<char>,
    command: Seq<char>,
    option: Seq<char>,
    i: int,
    t: Seq<Seq<char>>,
    u: Seq<Seq<char>>,
    st: PlanState,
    target: HandlerRef,
)
    requires
        0 <= i < t.len(),
        t.len() == u.len(),
        forall|x: int| i < x < t.len() ==> u[x] == t[x],
        a.presets.len() == 0,
    ensures
        schedule_spec(b, Some(a), root, command, option, i, t, st, target)
            == schedule_spec(b, None, root, command, option, i, u, st, target),
{
    lemma_collect_agree(t, u, i);
    assert(alias_presets(Some(a)) =~= alias_presets(None));
}

proof fn lemma_run_end_bounds(t: Seq<Seq<char>>, j: int)
    requires
        0 <= j <= t.len(),
    ensures
        j <= run_end(t, j) <= t.len(),
    decreases t.len() - j,
{
    if j < t.len() && !has_dash(t[j]) {
        lemma_run_end_bounds(t, j + 1);
    }
}

proof fn lemma_run_end_agree(t: Seq<Seq<char>>, u: Seq<Seq<char>>, j: int)
    requires
        t.len() == u.len(),
        forall|x: int| j - 1 <= x < t.len() && 0 <= x ==> t[x] == u[x],
    ensures
        run_end(t, j) == run_end(u, j),
    decreases t.len() - j,
{
    if 0 <= j < t.len() && !has_dash(t[j]) {
        lemma_run_end_agree(t, u, j + 1);
    }
}


/// No invocation of `invs` calls the positional handler.
pub open spec fn no_positional(invs: Seq<InvocationView>) -> bool {
    forall|k: int| 0 <= k < invs.len() ==> !(#[trigger] invs[k] is Positional)
}

proof fn lemma_step_no_positional(p: ParserView, t: Seq<Seq<char>>, i: int, st: PlanState)
    requires
        0 <= i < t.len(),
        no_positional(st.invocations),
    ensures
        no_positional(token_step(p, t, i, st).1.invocations),
{
    let r = token_step(p, t, i, st).1.invocations;
    assert forall|k: int| 0 <= k < r.len() implies !(#[trigger] r[k] is Positional) by {
        if k < st.invocations.len() {
        }
    }
}

proof fn lemma_plan_no_positional(p: ParserView, t: Seq<Seq<char>>, i: int, st: PlanState)
    requires
        no_positional(st.invocations),
    ensures
        no_positional(plan_from(p, t, i, st).invocations),
    decreases t.len() - i,
{
    if 0 <= i < t.len() {
        lemma_step_no_positional(p, t, i, st);
        let r = token_step(p, t, i, st);
        let next = if r.0 > i { r.0 + 1 } else { i + 1 };
        if !(r.1.failure is Some || next >= t.len()) {
            lemma_plan_no_positional(p, t, next, r.1);
        }
    }
}

/// Planning calls the positional handler at most once, after every option's handler: in the
/// invocations of an accepted plan a positional call can only come last, and a refused plan
/// holds none.
pub proof fn lemma_positional_call_comes_last(p: ParserView, t: Seq<Seq<char>>)
    ensures
        ({
            let st = plan_spec(p, t);
            let invs = st.invocations + positional_invocations(p, t, st.consumed);
            &&& no_positional(st.invocations)
            &&& forall|k: int| 0 <= k < invs.len() && #[trigger] invs[k] is Positional ==> k == invs.len() - 1
        }),
{
    let st = plan_spec(p, t);
    assert(no_positional(Seq::<InvocationView>::empty()));
    lemma_plan_no_positional(p, t, 1, crate::kcli::process::plan::initial_plan(t));
    let invs = st.invocations + positional_invocations(p, t, st.consumed);
    assert forall|k: int| 0 <= k < invs.len() && #[trigger] invs[k] is Positional implies k == invs.len() - 1 by {
        if k < st.invocations.len() {
            assert(invs[k] == st.invocations[k]);
        }
    }
}


/// The invocations among the first `n` that call a handler (help listings call none).
pub open spec fn handlers_before(invs: Seq<InvocationView>, n: int) -> Seq<InvocationView> {
    invs.take(n).filter(|v: InvocationView| !(v is PrintHelp))
}

proof fn lemma_handlers_step(invs: Seq<InvocationView>, k: int)
    requires
        0 <= k < invs.len(),
    ensures
        handlers_before(invs, k + 1) == if invs[k] is PrintHelp {
            handlers_before(invs, k)
        } else {
            handlers_before(invs, k).push(invs[k])
        },
{
    reveal(Seq::filter);
    assert(invs.take(k + 1).drop_last() =~= invs.take(k));
    assert(invs.take(k + 1).last() == invs[k]);
}

proof fn lemma_advance_skips_help(invs: Seq<InvocationView>, k: int, out: Seq<Seq<char>>)
    requires
        0 <= k <= invs.len(),
    ensures
        k <= advance(invs, k, out).0 <= invs.len(),
        handlers_before(invs, advance(invs, k, out).0) == handlers_before(invs, k),
        advance(invs, k, out).0 < invs.len() ==> !(invs[advance(invs, k, out).0] is PrintHelp),
    decreases invs.len() - k,
{
    if k < invs.len() {
        if let InvocationView::PrintHelp { root, rows } = invs[k] {
            lemma_handlers_step(invs, k);
            lemma_advance_skips_help(invs, k + 1, out.push(crate::kcli::process::help::help_text_spec(root, rows)));
        }
    }
}

/// The handlers run in the order of the invocations, each with the context and value its
/// invocation holds (`call_of`): the calls made are those of the handler invocations up to
/// where the run stands, and a failure names the option of the invocation that failed (its
/// message is the failing handler's, by `lemma_run_stops_at_first_failure`).
pub proof fn lemma_run_calls_in_order(invs: Seq<InvocationView>, rs: Seq<Result<(), Seq<char>>>)
    ensures
        ({
            let s = run_after(invs, rs);
            &&& 0 <= s.next <= invs.len()
            &&& s.failure is None && s.next < invs.len() ==> !(invs[s.next] is PrintHelp)
            &&& s.failure is None ==> s.calls == handlers_before(invs, s.next).map_values(|v: InvocationView| call_of(v))
            &&& s.failure is Some ==> {
                &&& s.next < invs.len()
                &&& s.calls == handlers_before(invs, s.next + 1).map_values(|v: InvocationView| call_of(v))
                &&& s.failure matches Some(FailureView::HandlerFailed { option, .. })
                &&& option == call_option(invs[s.next])
            }
        }),
    decreases rs.len(),
{
    if rs.len() == 0 {
        lemma_advance_skips_help(invs, 0, Seq::empty());
        assert(handlers_before(invs, 0) =~= Seq::<InvocationView>::empty()) by {
            reveal(Seq::filter);
            assert(invs.take(0) =~= Seq::<InvocationView>::empty());
        }
        assert(Seq::<InvocationView>::empty().map_values(|v: InvocationView| call_of(v)) =~= Seq::<CallView>::empty());
    } else {
        let prev = rs.drop_last();
        lemma_run_calls_in_order(invs, prev);
        let s = run_after(invs, prev);
        if !(s.failure is Some || s.next < 0 || s.next >= invs.len()) {
            let inv = invs[s.next];
            lemma_handlers_step(invs, s.next);
            let hb = handlers_before(invs, s.next);
            assert(hb.push(inv).map_values(|v: InvocationView| call_of(v)) =~= hb.map_values(
                |v: InvocationView| call_of(v),
            ).push(call_of(inv)));
            match rs.last() {
                Ok(_) => {
                    lemma_advance_skips_help(invs, s.next + 1, s.outputs);
                },
                Err(_) => {},
            }
        }
    }
}


/// The first position at or after `j` that is free and holds a token starting with `-`, or
/// the end.
pub open spec fn free_dash_stop(t: Seq<Seq<char>>, c: Seq<bool>, j: int) -> int
    decreases t.len() - j,
{
    if j < 0 || j >= t.len() || (!c[j] && has_dash(t[j])) {
        j
    } else {
        free_dash_stop(t, c, j + 1)
    }
}

/// The free positions in `[from, to)`, in order, are exactly the entries of `ps`.
pub open spec fn lists_free_between(ps: Seq<int>, c: Seq<bool>, from: int, to: int) -> bool {
    &&& forall|i: int| 0 <= i < ps.len() ==> from <= #[trigger] ps[i] < to && !c[ps[i]]
    &&& forall|i: int, j: int| 0 <= i < j < ps.len() ==> ps[i] < ps[j]
    &&& forall|x: int| from <= x < to && !c[x] ==> ps.contains(x)
}

proof fn lemma_follow_run_lists_free(t: Seq<Seq<char>>, c: Seq<bool>, j: int)
    requires
        0 <= j <= t.len(),
        c.len() == t.len(),
    ensures
        j <= free_dash_stop(t, c, j) <= t.len(),
        lists_free_between(follow_run(t, c, j), c, j, free_dash_stop(t, c, j)),
    decreases t.len() - j,
{
    if j < t.len() && !(!c[j] && has_dash(t[j])) {
        lemma_follow_run_lists_free(t, c, j + 1);
        let rest = follow_run(t, c, j + 1);
        let stop = free_dash_stop(t, c, j);
        if c[j] {
            assert forall|x: int| j <= x < stop && !c[x] implies follow_run(t, c, j).contains(x) by {
                assert(x != j);
            }
        } else {
            let ps = seq![j] + rest;
            assert(follow_run(t, c, j) == ps);
            assert forall|i: int| 0 <= i < ps.len() implies j <= #[trigger] ps[i] < stop && !c[ps[i]] by {
                if i > 0 {
                    assert(ps[i] == rest[i - 1]);
                }
            }
            assert forall|i: int, k: int| 0 <= i < k < ps.len() implies ps[i] < ps[k] by {
                assert(ps[k] == rest[k - 1]);
                if i > 0 {
                    assert(ps[i] == rest[i - 1]);
                }
            }
            assert forall|x: int| j <= x < stop && !c[x] implies ps.contains(x) by {
                if x == j {
                    assert(ps[0] == j);
                } else {
                    let w = choose|w: int| 0 <= w < rest.len() && rest[w] == x;
                    assert(ps[w + 1] == x);
                }
            }
        }
    }
}

/// What an option's value tokens are. With `f` the position after the option: nothing when
/// `f` is past the end or already taken, or its token starts with `-` and a first value may
/// not; `f` alone when its token starts with `-` and may; otherwise `f` and, in order, every
/// free position after it before the first free token that starts with `-`.
pub proof fn lemma_taken_positions_shape(t: Seq<Seq<char>>, c: Seq<bool>, k: int, allow_dash_first: bool)
    requires
        0 <= k < t.len(),
        c.len() == t.len(),
    ensures
        ({
            let f = k + 1;
            let ps = taken_positions(t, c, k, allow_dash_first);
            if f >= t.len() || c[f] || (has_dash(t[f]) && !allow_dash_first) {
                ps.len() == 0
            } else if has_dash(t[f]) {
                ps == seq![f]
            } else {
                &&& ps.len() >= 1
                &&& ps[0] == f
                &&& lists_free_between(ps.drop_first(), c, f + 1, free_dash_stop(t, c, f + 1))
            }
        }),
{
    let f = k + 1;
    if f < t.len() && !c[f] && !has_dash(t[f]) {
        lemma_follow_run_lists_free(t, c, f + 1);
        assert(taken_positions(t, c, k, allow_dash_first).drop_first() =~= follow_run(t, c, f + 1));
    }
}


/// `b` carries on from `a`: as many token marks, every token taken in `a` still taken, the
/// tokens before `from` as they were, and `a`'s invocations first, in order.
pub open spec fn plan_extends(a: PlanState, b: PlanState, from: int) -> bool {
    &&& b.consumed.len() == a.consumed.len()
    &&& forall|k: int| 0 <= k < a.consumed.len() && #[trigger] a.consumed[k] ==> b.consumed[k]
    &&& forall|k: int| 0 <= k < from && k < a.consumed.len() ==> #[trigger] b.consumed[k] == a.consumed[k]
    &&& a.invocations.len() <= b.invocations.len()
    &&& forall|k: int| 0 <= k < a.invocations.len() ==> #[trigger] b.invocations[k] == a.invocations[k]
}

/// One token's step: it adds at most one invocation, after those already planned, takes
/// only tokens at or after its own, and never gives back a taken token.
pub proof fn lemma_token_step_extends(p: ParserView, t: Seq<Seq<char>>, i: int, st: PlanState)
    requires
        0 <= i < t.len(),
        st.consumed.len() == t.len(),
    ensures
        token_step(p, t, i, st).0 >= i,
        plan_extends(st, token_step(p, t, i, st).1, i),
        token_step(p, t, i, st).1.invocations.len() <= st.invocations.len() + 1,
{
    let arg = t[i];
    if arg.len() > 0 {
        let alias = alias_of(p, arg);
        let eff = match alias {
            Some(a) => a.target,
            None => arg,
        };
        if !(!has_dash(eff) || eff == crate::kcli::process::help::double_dash() || !has_double_dash(eff)) {
            match inline_match(p.inlines, eff, 0) {
                InlineMatch::BareRoot(pi) => {
                    lemma_bare_root_extends(p, pi, eff, alias_presets(alias), i, t, st);
                },
                InlineMatch::Dash(pi, suffix) => {
                    if suffix.len() > 0 {
                        match find_key(p.inlines[pi].command_keys, suffix, 0) {
                            Some(ci) => {
                                lemma_schedule_extends(
                                    p.inlines[pi].bindings[ci],
                                    alias,
                                    p.inlines[pi].root,
                                    suffix,
                                    eff,
                                    i,
                                    t,
                                    st,
                                    HandlerRef::Inline(pi as usize, ci as usize),
                                );
                            },
                            None => {},
                        }
                    }
                },
                InlineMatch::NoMatch => {
                    let command = eff.subrange(2, eff.len() as int);
                    match find_key(p.command_keys, command, 0) {
                        Some(ci) => {
                            lemma_schedule_extends(
                                p.bindings[ci],
                                alias,
                                Seq::empty(),
                                command,
                                eff,
                                i,
                                t,
                                st,
                                HandlerRef::Primary(ci as usize),
                            );
                        },
                        None => {},
                    }
                },
            }
        }
    }
}

proof fn lemma_run_end_at_least(t: Seq<Seq<char>>, j: int)
    requires
        0 <= j,
    ensures
        run_end(t, j) >= j,
    decreases t.len() - j,
{
    if j < t.len() && !has_dash(t[j]) {
        lemma_run_end_at_least(t, j + 1);
    }
}

/// Marking taken the option at `i` and the values after it.
proof fn lemma_mark_extends(st: PlanState, b: PlanState, t: Seq<Seq<char>>, i: int, last: Option<int>)
    requires
        0 <= i < t.len(),
        st.consumed.len() == t.len(),
        b.consumed == crate::kcli::process::plan::collected_consumed(st.consumed.update(i, true), i, last),
        b.invocations == st.invocations || exists|x: InvocationView| b.invocations == st.invocations.push(x),
    ensures
        plan_extends(st, b, i),
        b.invocations.len() <= st.invocations.len() + 1,
{
    if b.invocations != st.invocations {
        let x = choose|x: InvocationView| b.invocations == st.invocations.push(x);
        assert forall|k: int| 0 <= k < st.invocations.len() implies #[trigger] b.invocations[k] == st.invocations[k] by {
            assert(st.invocations.push(x)[k] == st.invocations[k]);
        }
    }
}

proof fn lemma_schedule_extends(
    b: BindingView,
    alias: Option<AliasView>,
    root: Seq<char>,
    command: Seq<char>,
    option: Seq<char>,
    i: int,
    t: Seq<Seq<char>>,
    st: PlanState,
    target: HandlerRef,
)
    requires
        0 <= i < t.len(),
        st.consumed.len() == t.len(),
    ensures
        schedule_spec(b, alias, root, command, option, i, t, st, target).0 >= i,
        plan_extends(st, schedule_spec(b, alias, root, command, option, i, t, st, target).1, i),
        schedule_spec(b, alias, root, command, option, i, t, st, target).1.invocations.len() <= st.invocations.len() + 1,
{
    let r = schedule_spec(b, alias, root, command, option, i, t, st, target).1;
    lemma_run_end_at_least(t, i + 2);
    if !b.expects_value {
        lemma_mark_extends(st, r, t, i, None);
    } else {
        lemma_mark_extends(st, r, t, i, collect_last(t, i, b.arity == crate::kcli::model::ValueArity::Required));
    }
}

proof fn lemma_bare_root_extends(
    p: ParserView,
    pi: int,
    option: Seq<char>,
    presets: Seq<Seq<char>>,
    i: int,
    t: Seq<Seq<char>>,
    st: PlanState,
)
    requires
        0 <= i < t.len(),
        st.consumed.len() == t.len(),
    ensures
        bare_root_spec(p, pi, option, presets, i, t, st).0 >= i,
        plan_extends(st, bare_root_spec(p, pi, option, presets, i, t, st).1, i),
        bare_root_spec(p, pi, option, presets, i, t, st).1.invocations.len() <= st.invocations.len() + 1,
{
    lemma_run_end_at_least(t, i + 2);
    lemma_mark_extends(st, bare_root_spec(p, pi, option, presets, i, t, st).1, t, i, collect_last(t, i, false));
}

/// Planning from token `i` on carries on from `st`, adding at most one invocation per token.
proof fn lemma_plan_from_extends(p: ParserView, t: Seq<Seq<char>>, i: int, st: PlanState)
    requires
        0 <= i,
        st.consumed.len() == t.len(),
    ensures
        plan_extends(st, plan_from(p, t, i, st), i),
        plan_from(p, t, i, st).invocations.len() <= st.invocations.len() + (if i < t.len() { t.len() - i } else { 0 }),
    decreases t.len() - i,
{
    if i < t.len() {
        lemma_token_step_extends(p, t, i, st);
        let r = token_step(p, t, i, st);
        let next = if r.0 > i { r.0 + 1 } else { i + 1 };
        if !(r.1.failure is Some || next >= t.len()) {
            lemma_plan_from_extends(p, t, next, r.1);
        }
    }
}

/// Planning a command line reads its tokens from the second on, in order: each token adds at
/// most one invocation, after those of the tokens before it; a token once taken stays taken;
/// the program name is never taken; nothing is called while planning (the plan is a value).
pub proof fn lemma_plan_reads_in_order(p: ParserView, t: Seq<Seq<char>>)
    requires
        t.len() >= 1,
    ensures
        plan_extends(initial_plan(t), plan_spec(p, t), 1),
        !plan_spec(p, t).consumed[0],
        plan_spec(p, t).invocations.len() <= t.len() - 1,
{
    lemma_plan_from_extends(p, t, 1, initial_plan(t));
    assert(!initial_plan(t).consumed[0]);
}


/// A finished run: the handlers of the invocations ran in list order, each with the context
/// and value its invocation holds (`call_of`: a value handler gets its tokens and their
/// join, a flag handler no tokens), up to and including the first that failed and none after;
/// every call before the last returned `Ok`; with no failure, every handler ran; with one, it
/// names the failing invocation's option (empty for the positional call) and its message.
pub proof fn lemma_finished_run(invs: Seq<InvocationView>, rs: Seq<Result<(), Seq<char>>>)
    requires
        run_finished(invs, run_after(invs, rs)),
    ensures
        ({
            let s = run_after(invs, rs);
            &&& s.failure is None ==> s.calls == handlers_before(invs, invs.len() as int).map_values(
                |v: InvocationView| call_of(v),
            )
            &&& forall|i: int|
                0 <= i < s.calls.len() && (s.failure is None || i < s.calls.len() - 1)
                    ==> #[trigger] rs[i] is Ok
            &&& s.failure is Some ==> {
                &&& s.next < invs.len()
                &&& s.calls == handlers_before(invs, s.next + 1).map_values(|v: InvocationView| call_of(v))
                &&& rs[s.calls.len() - 1] is Err
                &&& s.failure == Some(FailureView::HandlerFailed {
                    option: call_option(invs[s.next]),
                    message: rs[s.calls.len() - 1]->Err_0,
                })
            }
        }),
{
    lemma_run_stops_at_first_failure(invs, rs);
    lemma_run_calls_in_order(invs, rs);
    let s = run_after(invs, rs);
    if s.failure is None {
        assert(s.next == invs.len());
    }
}

} // verus!
