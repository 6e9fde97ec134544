//! Planning: deciding, before any handler runs, which handlers a command line calls.
use vstd::prelude::*;
use crate::kcli::model::{
    find_key, strings_view, AliasView, BindingView, ParserView, ValueArity,
};
use crate::kcli::normalize::{has_dash, has_double_dash};
use crate::kcli::process::help::{double_dash, help_rows_spec};
use crate::kcli::model::{AliasBinding, CommandBinding, ParserData};
use crate::kcli::process::state::{
    invocations_view, CollectedValues, FailureView, HandlerRef, InlineTokenKind, InlineTokenMatch,
    Invocation, InvocationView, ParseFailure, ParseOutcome,
};
use crate::text::starts_with_spec;

verus! {

/// The state of planning: what was scheduled, which tokens were taken, the first failure.
#[verifier::ext_equal]
pub struct PlanState {
    pub invocations: Seq<InvocationView>,
    pub consumed: Seq<bool>,
    pub failure: Option<FailureView>,
}

/// `consumed` with positions `from..to` marked taken.
pub open spec fn mark(consumed: Seq<bool>, from: int, to: int) -> Seq<bool> {
    Seq::new(consumed.len(), |x: int| if from <= x < to { true } else { consumed[x] })
}

/// The first position at or after `j` holding a token that starts with `-`, or the end.
pub open spec fn run_end(t: Seq<Seq<char>>, j: int) -> int
    decreases t.len() - j,
{
    if j < 0 || j >= t.len() || has_dash(t[j]) {
        j
    } else {
        run_end(t, j + 1)
    }
}

/// The position of the last value token taken after the option at `k`, if any.
///
/// A first token starting with `-` is taken only when `allow_dash_first`, and then alone;
/// otherwise tokens are taken up to the next one that starts with `-`.
pub open spec fn collect_last(t: Seq<Seq<char>>, k: int, allow_dash_first: bool) -> Option<int> {
    let f = k + 1;
    if f >= t.len() {
        None
    } else if has_dash(t[f]) {
        if allow_dash_first {
            Some(f)
        } else {
            None
        }
    } else {
        Some(run_end(t, f + 1) - 1)
    }
}

pub open spec fn collected_parts(t: Seq<Seq<char>>, k: int, last: Option<int>) -> Seq<Seq<char>> {
    match last {
        Some(l) => t.subrange(k + 1, l + 1),
        None => Seq::empty(),
    }
}

pub open spec fn collected_consumed(consumed: Seq<bool>, k: int, last: Option<int>) -> Seq<bool> {
    match last {
        Some(l) => mark(consumed, k + 1, l + 1),
        None => consumed,
    }
}

pub open spec fn alias_name(alias: Option<AliasView>) -> Seq<char> {
    match alias {
        Some(a) => a.alias,
        None => Seq::empty(),
    }
}

pub open spec fn alias_presets(alias: Option<AliasView>) -> Seq<Seq<char>> {
    match alias {
        Some(a) => a.presets,
        None => Seq::empty(),
    }
}

/// Scheduling the handler bound to the option at `i`; yields the last position used.
pub open spec fn schedule_spec(
    b: BindingView,
    alias: Option<AliasView>,
    root: Seq<char>,
    command: Seq<char>,
    option: Seq<char>,
    i: int,
    t: Seq<Seq<char>>,
    st: PlanState,
    target: HandlerRef,
) -> (int, PlanState) {
    let consumed = st.consumed.update(i, true);
    let presets = alias_presets(alias);
    if !b.expects_value {
        if presets.len() > 0 {
            (
                i,
                PlanState {
                    invocations: st.invocations,
                    consumed,
                    failure: Some(
                        FailureView::AliasPresetsValuesForFlag { alias: alias_name(alias), option },
                    ),
                },
            )
        } else {
            (
                i,
                PlanState {
                    invocations: st.invocations.push(
                        InvocationView::Flag { root, option, command, target },
                    ),
                    consumed,
                    failure: None,
                },
            )
        }
    } else {
        let last = collect_last(t, i, b.arity == ValueArity::Required);
        let consumed2 = collected_consumed(consumed, i, last);
        if last is None && presets.len() == 0 && b.arity == ValueArity::Required {
            (
                i,
                PlanState {
                    invocations: st.invocations,
                    consumed: consumed2,
                    failure: Some(FailureView::MissingRequiredValue { option }),
                },
            )
        } else {
            (
                match last {
                    Some(l) => l,
                    None => i,
                },
                PlanState {
                    invocations: st.invocations.push(
                        InvocationView::Value {
                            root,
                            option,
                            command,
                            value_tokens: presets + collected_parts(t, i, last),
                            target,
                        },
                    ),
                    consumed: consumed2,
                    failure: None,
                },
            )
        }
    }
}

/// Handling `--<root>` at `i`: help without a value, the root value handler with one.
pub open spec fn bare_root_spec(
    p: ParserView,
    pi: int,
    option: Seq<char>,
    presets: Seq<Seq<char>>,
    i: int,
    t: Seq<Seq<char>>,
    st: PlanState,
) -> (int, PlanState) {
    let consumed = st.consumed.update(i, true);
    let last = collect_last(t, i, false);
    let consumed2 = collected_consumed(consumed, i, last);
    let parser = p.inlines[pi];
    if last is None && presets.len() == 0 {
        (
            i,
            PlanState {
                invocations: st.invocations.push(
                    InvocationView::PrintHelp { root: parser.root, rows: help_rows_spec(parser) },
                ),
                consumed: consumed2,
                failure: None,
            },
        )
    } else if !parser.has_root_handler {
        (
            i,
            PlanState {
                invocations: st.invocations,
                consumed: consumed2,
                failure: Some(FailureView::UnknownRootValue { option }),
            },
        )
    } else {
        (
            match last {
                Some(l) => l,
                None => i,
            },
            PlanState {
                invocations: st.invocations.push(
                    InvocationView::Value {
                        root: parser.root,
                        option,
                        command: Seq::empty(),
                        value_tokens: presets + collected_parts(t, i, last),
                        target: HandlerRef::InlineRoot(pi as usize),
                    },
                ),
                consumed: consumed2,
                failure: None,
            },
        )
    }
}

/// How a `--` token relates to the inline parsers.
pub enum InlineMatch {
    NoMatch,
    /// Exactly `--<root>` of the parser at this position.
    BareRoot(int),
    /// `--<root>-<suffix>` of the parser at this position.
    Dash(int, Seq<char>),
}

/// The first inline parser, from position `j`, whose root the token names.
pub open spec fn inline_match(inlines: Seq<crate::kcli::model::InlineView>, arg: Seq<char>, j: int) -> InlineMatch
    decreases inlines.len() - j,
{
    if j < 0 || j >= inlines.len() {
        InlineMatch::NoMatch
    } else {
        let root_option = double_dash() + inlines[j].root;
        if arg == root_option {
            InlineMatch::BareRoot(j)
        } else if starts_with_spec(arg, root_option.push('-')) {
            InlineMatch::Dash(j, arg.subrange(root_option.len() as int + 1, arg.len() as int))
        } else {
            inline_match(inlines, arg, j + 1)
        }
    }
}

/// The alias a token names: only single-dash tokens are looked up.
pub open spec fn alias_of(p: ParserView, arg: Seq<char>) -> Option<AliasView> {
    if has_dash(arg) && !has_double_dash(arg) {
        match find_key(p.alias_keys, arg, 0) {
            Some(a) => Some(p.aliases[a]),
            None => None,
        }
    } else {
        None
    }
}

/// Handling the token at `i`; yields the last position it used.
pub open spec fn token_step(p: ParserView, t: Seq<Seq<char>>, i: int, st: PlanState) -> (int, PlanState) {
    let arg = t[i];
    if arg.len() == 0 {
        (i, st)
    } else {
        let alias = alias_of(p, arg);
        let eff = match alias {
            Some(a) => a.target,
            None => arg,
        };
        if !has_dash(eff) || eff == double_dash() || !has_double_dash(eff) {
            (i, st)
        } else {
            match inline_match(p.inlines, eff, 0) {
                InlineMatch::BareRoot(pi) => bare_root_spec(p, pi, eff, alias_presets(alias), i, t, st),
                InlineMatch::Dash(pi, suffix) => {
                    if suffix.len() > 0 {
                        match find_key(p.inlines[pi].command_keys, suffix, 0) {
                            Some(ci) => schedule_spec(
                                p.inlines[pi].bindings[ci],
                                alias,
                                p.inlines[pi].root,
                                suffix,
                                eff,
                                i,
                                t,
                                st,
                                HandlerRef::Inline(pi as usize, ci as usize),
                            ),
                            None => (i, st),
                        }
                    } else {
                        (i, st)
                    }
                },
                InlineMatch::NoMatch => {
                    let command = eff.subrange(2, eff.len() as int);
                    match find_key(p.command_keys, command, 0) {
                        Some(ci) => schedule_spec(
                            p.bindings[ci],
                            alias,
                            Seq::empty(),
                            command,
                            eff,
                            i,
                            t,
                            st,
                            HandlerRef::Primary(ci as usize),
                        ),
                        None => (i, st),
                    }
                },
            }
        }
    }
}

/// Planning from position `i` on, until the end or the first failure.
pub open spec fn plan_from(p: ParserView, t: Seq<Seq<char>>, i: int, st: PlanState) -> PlanState
    decreases t.len() - i,
{
    if i < 0 || i >= t.len() {
        st
    } else {
        let r = token_step(p, t, i, st);
        let next = if r.0 > i {
            r.0 + 1
        } else {
            i + 1
        };
        if r.1.failure is Some || next >= t.len() {
            r.1
        } else {
            plan_from(p, t, next, r.1)
        }
    }
}

pub open spec fn initial_plan(t: Seq<Seq<char>>) -> PlanState {
    PlanState {
        invocations: Seq::empty(),
        consumed: Seq::new(t.len(), |k: int| false),
        failure: None,
    }
}

/// The plan for a command line; the first token is the program name and is skipped.
pub open spec fn plan_spec(p: ParserView, t: Seq<Seq<char>>) -> PlanState {
    plan_from(p, t, 1, initial_plan(t))
}

/// A token the positional handler takes: not taken already, empty or not starting with `-`.
pub open spec fn is_positional(t: Seq<Seq<char>>, consumed: Seq<bool>, k: int) -> bool {
    1 <= k < t.len() && !consumed[k] && (t[k].len() == 0 || !has_dash(t[k]))
}

/// The positional tokens among the first `n`, in order.
pub open spec fn positional_values(t: Seq<Seq<char>>, consumed: Seq<bool>, n: int) -> Seq<Seq<char>>
    decreases n,
{
    if n <= 1 {
        Seq::empty()
    } else if is_positional(t, consumed, n - 1) {
        positional_values(t, consumed, n - 1).push(t[n - 1])
    } else {
        positional_values(t, consumed, n - 1)
    }
}

pub open spec fn takes_positionals(p: ParserView, t: Seq<Seq<char>>) -> bool {
    p.has_positional && t.len() > 1
}

pub open spec fn positional_invocations(p: ParserView, t: Seq<Seq<char>>, consumed: Seq<bool>) -> Seq<
    InvocationView,
> {
    if takes_positionals(p, t) && positional_values(t, consumed, t.len() as int).len() > 0 {
        seq![
            InvocationView::Positional {
                value_tokens: positional_values(t, consumed, t.len() as int),
            },
        ]
    } else {
        Seq::empty()
    }
}

pub open spec fn consumed_after_positionals(p: ParserView, t: Seq<Seq<char>>, consumed: Seq<bool>) -> Seq<
    bool,
> {
    if takes_positionals(p, t) {
        Seq::new(consumed.len(), |k: int| consumed[k] || is_positional(t, consumed, k))
    } else {
        consumed
    }
}

/// The first token from `k` on that starts with `-` and was not taken.
pub open spec fn first_unknown(t: Seq<Seq<char>>, consumed: Seq<bool>, k: int) -> Option<int>
    decreases t.len() - k,
{
    if k < 0 || k >= t.len() {
        None
    } else if !consumed[k] && t[k].len() > 0 && has_dash(t[k]) {
        Some(k)
    } else {
        first_unknown(t, consumed, k + 1)
    }
}

/// The handler calls a command line plans, or why it is refused.
pub open spec fn parse_plan_spec(p: ParserView, t: Seq<Seq<char>>) -> Result<Seq<InvocationView>, FailureView> {
    if t.len() == 0 {
        Ok(Seq::empty())
    } else {
        let st = plan_spec(p, t);
        match st.failure {
            Some(f) => Err(f),
            None => match first_unknown(t, consumed_after_positionals(p, t, st.consumed), 1) {
                Some(k) => Err(FailureView::UnknownOption { option: t[k] }),
                None => Ok(st.invocations + positional_invocations(p, t, st.consumed)),
            },
        }
    }
}

/// Whether every scheduled call names a handler of the right kind.
pub open spec fn target_ok(p: ParserView, target: HandlerRef, expects_value: bool) -> bool {
    match target {
        HandlerRef::Primary(ci) => ci < p.bindings.len() && p.bindings[ci as int].expects_value
            == expects_value,
        HandlerRef::Inline(pi, ci) => pi < p.inlines.len() && ci < p.inlines[pi as int].bindings.len()
            && p.inlines[pi as int].bindings[ci as int].expects_value == expects_value,
        HandlerRef::InlineRoot(pi) => pi < p.inlines.len() && p.inlines[pi as int].has_root_handler
            && expects_value,
    }
}

pub open spec fn invocation_ok(p: ParserView, inv: InvocationView) -> bool {
    match inv {
        InvocationView::Flag { target, .. } => target_ok(p, target, false),
        InvocationView::Value { target, .. } => target_ok(p, target, true),
        InvocationView::Positional { .. } => p.has_positional,
        InvocationView::PrintHelp { .. } => true,
    }
}

pub open spec fn all_invocations_ok(p: ParserView, invs: Seq<InvocationView>) -> bool {
    forall|k: int| 0 <= k < invs.len() ==> invocation_ok(p, #[trigger] invs[k])
}

/// The token starts with `-`.
pub fn starts_with_dash(s: &str) -> (r: bool)
    ensures
        r == has_dash(s@),
{
    s.unicode_len() > 0 && s.get_char(0) == '-'
}

/// A token after the first value token is taken only if it does not start with `-`.
pub fn is_collectable_follow_on_value_token(value: &str) -> (r: bool)
    ensures
        r == !has_dash(value@),
{
    !starts_with_dash(value)
}

/// Marks position `index` taken.
pub fn consume_index(consumed: &mut Vec<bool>, index: usize)
    ensures
        index < old(consumed)@.len() ==> final(consumed)@ == old(consumed)@.update(index as int, true),
        index >= old(consumed)@.len() ==> final(consumed)@ == old(consumed)@,
{
    if index < consumed.len() && !consumed[index] {
        consumed.set(index, true);
    } else if index < consumed.len() {
        assert(old(consumed)@.update(index as int, true) =~= old(consumed)@);
    }
}

/// From position `j` on, skipping tokens already taken: the positions of the tokens taken as
/// further values, up to the first free token that starts with `-`.
pub open spec fn follow_run(t: Seq<Seq<char>>, c: Seq<bool>, j: int) -> Seq<int>
    decreases t.len() - j,
{
    if j < 0 || j >= t.len() {
        Seq::empty()
    } else if c[j] {
        follow_run(t, c, j + 1)
    } else if has_dash(t[j]) {
        Seq::empty()
    } else {
        seq![j] + follow_run(t, c, j + 1)
    }
}

/// The positions of the value tokens taken for the option at `k`, given the tokens already
/// taken `c`: none when the next token is taken or (unless `allow_dash_first`) starts with
/// `-`; a first token starting with `-` alone; otherwise the next token and the free ones
/// after it up to the next free one that starts with `-`.
pub open spec fn taken_positions(t: Seq<Seq<char>>, c: Seq<bool>, k: int, allow_dash_first: bool) -> Seq<int> {
    let f = k + 1;
    if f < 0 || f >= t.len() || c[f] {
        Seq::empty()
    } else if has_dash(t[f]) {
        if allow_dash_first {
            seq![f]
        } else {
            Seq::empty()
        }
    } else {
        seq![f] + follow_run(t, c, f + 1)
    }
}

/// `c` with the positions `ps` marked taken.
pub open spec fn mark_positions(c: Seq<bool>, ps: Seq<int>) -> Seq<bool> {
    Seq::new(c.len(), |x: int| c[x] || ps.contains(x))
}

proof fn lemma_follow_free(t: Seq<Seq<char>>, c: Seq<bool>, j: int)
    requires
        0 <= j <= t.len(),
        c.len() == t.len(),
        forall|x: int| j <= x < t.len() ==> !c[x],
    ensures
        j <= run_end(t, j) <= t.len(),
        follow_run(t, c, j) == Seq::new((run_end(t, j) - j) as nat, |i: int| j + i),
    decreases t.len() - j,
{
    if j < t.len() && !has_dash(t[j]) {
        lemma_follow_free(t, c, j + 1);
        assert(seq![j] + Seq::new((run_end(t, j + 1) - (j + 1)) as nat, |i: int| j + 1 + i) =~= Seq::new(
            (run_end(t, j) - j) as nat,
            |i: int| j + i,
        ));
    } else {
        assert(Seq::<int>::empty() =~= Seq::new((run_end(t, j) - j) as nat, |i: int| j + i));
    }
}

/// With every token after `k` free, the positions taken are the run `collect_last` names.
proof fn lemma_taken_free(t: Seq<Seq<char>>, c: Seq<bool>, k: int, allow: bool)
    requires
        0 <= k < t.len(),
        c.len() == t.len(),
        forall|x: int| k < x < t.len() ==> !c[x],
    ensures
        ({
            let ps = taken_positions(t, c, k, allow);
            let last = collect_last(t, k, allow);
            &&& (ps.len() > 0) == (last is Some)
            &&& last matches Some(l) ==> k < l < t.len() && ps == Seq::new((l - k) as nat, |i: int| k + 1 + i)
        }),
{
    let f = k + 1;
    if f < t.len() && !has_dash(t[f]) {
        lemma_follow_free(t, c, f + 1);
        let l = run_end(t, f + 1) - 1;
        assert(seq![f] + Seq::new((run_end(t, f + 1) - (f + 1)) as nat, |i: int| f + 1 + i) =~= Seq::new(
            (l - k) as nat,
            |i: int| k + 1 + i,
        ));
    } else if f < t.len() && allow {
        assert(seq![f] =~= Seq::new((f - k) as nat, |i: int| k + 1 + i));
    }
}

/// Takes the value tokens that follow the option at `option_index`, skipping tokens already
/// taken; see `taken_positions`.
pub fn collect_value_tokens(
    option_index: usize,
    tokens: &Vec<String>,
    consumed: &mut Vec<bool>,
    allow_option_like_first_value: bool,
) -> (r: CollectedValues)
    requires
        option_index < tokens@.len(),
        old(consumed)@.len() == tokens@.len(),
    ensures
        ({
            let t = strings_view(tokens@);
            let ps = taken_positions(t, old(consumed)@, option_index as int, allow_option_like_first_value);
            &&& r.has_value == (ps.len() > 0)
            &&& r.last_index as int == if ps.len() > 0 {
                ps.last()
            } else {
                option_index as int
            }
            &&& strings_view(r.parts@) == ps.map_values(|p: int| t[p])
            &&& final(consumed)@ == mark_positions(old(consumed)@, ps)
        }),
        (forall|k: int| option_index < k < tokens@.len() ==> !old(consumed)@[k]) ==> ({
            let t = strings_view(tokens@);
            let last = collect_last(t, option_index as int, allow_option_like_first_value);
            &&& r.has_value == last is Some
            &&& r.last_index as int == match last {
                Some(l) => l,
                None => option_index as int,
            }
            &&& strings_view(r.parts@) == collected_parts(t, option_index as int, last)
            &&& final(consumed)@ == collected_consumed(old(consumed)@, option_index as int, last)
            &&& last matches Some(l) ==> option_index < l < t.len()
        }),
{
    let ghost t = strings_view(tokens@);
    let ghost c0 = consumed@;
    let ghost k = option_index as int;
    let ghost ps = taken_positions(t, c0, k, allow_option_like_first_value);
    proof {
        if forall|x: int| k < x < t.len() ==> !c0[x] {
            lemma_taken_free(t, c0, k, allow_option_like_first_value);
        }
    }
    let mut collected = CollectedValues::new(option_index);
    let n = tokens.len();
    let first_value_index = option_index + 1;
    if first_value_index >= tokens.len() || consumed[first_value_index] {
        proof {
            assert(ps.len() == 0);
            assert(strings_view(collected.parts@) =~= ps.map_values(|p: int| t[p]));
            assert(consumed@ =~= mark_positions(c0, ps));
            lemma_old_clauses(t, c0, k, allow_option_like_first_value, collected, consumed@);
        }
        return collected;
    }
    let first = &tokens[first_value_index];
    let first_is_dash = starts_with_dash(first.as_str());
    assert(t[first_value_index as int] == first@);
    if !allow_option_like_first_value && first_is_dash {
        proof {
            assert(ps.len() == 0);
            assert(strings_view(collected.parts@) =~= ps.map_values(|p: int| t[p]));
            assert(consumed@ =~= mark_positions(c0, ps));
            lemma_old_clauses(t, c0, k, allow_option_like_first_value, collected, consumed@);
        }
        return collected;
    }
    collected.has_value = true;
    collected.parts.push(first.clone());
    consumed.set(first_value_index, true);
    collected.last_index = first_value_index;
    let ghost f = first_value_index as int;
    let ghost mut taken: Seq<int> = seq![f];
    proof {
        assert(strings_view(collected.parts@) =~= taken.map_values(|p: int| t[p]));
        assert forall|x: int| 0 <= x < c0.len() implies consumed@[x] == (c0[x] || taken.contains(x)) by {
            if taken.contains(x) {
                assert(taken[0] == f);
            }
            if x == f {
                assert(taken[0] == x);
            }
        }
        assert(consumed@ =~= mark_positions(c0, taken));
    }
    if allow_option_like_first_value && first_is_dash {
        proof {
            assert(ps == taken);
            lemma_old_clauses(t, c0, k, allow_option_like_first_value, collected, consumed@);
        }
        return collected;
    }
    let mut scan = first_value_index + 1;
    let mut done = false;
    proof {
        assert(ps == taken + follow_run(t, c0, scan as int));
    }
    while scan < tokens.len() && !done
        invariant
            t == strings_view(tokens@),
            c0.len() == tokens@.len(),
            consumed@.len() == tokens@.len(),
            f < scan <= tokens@.len(),
            taken.len() > 0,
            taken.last() == collected.last_index as int,
            collected.has_value,
            forall|j: int| 0 <= j < taken.len() ==> #[trigger] taken[j] < scan,
            strings_view(collected.parts@) == taken.map_values(|p: int| t[p]),
            consumed@ == mark_positions(c0, taken),
            done ==> ps == taken,
            !done ==> ps == taken + follow_run(t, c0, scan as int),
        decreases 2 * (tokens@.len() - scan) + if done { 0int } else { 1int },
    {
        assert(consumed@[scan as int] == c0[scan as int]);
        if consumed[scan] {
            scan = scan + 1;
        } else {
            assert(t[scan as int] == tokens@[scan as int]@);
            if is_collectable_follow_on_value_token(tokens[scan].as_str()) {
                let ghost before = collected.parts@;
                let tok = tokens[scan].clone();
                proof {
                    crate::kcli::model::lemma_strings_view_push(before, tok);
                }
                collected.parts.push(tok);
                consumed.set(scan, true);
                collected.last_index = scan;
                proof {
                    let old_taken = taken;
                    taken = taken.push(scan as int);
                    assert(taken.map_values(|p: int| t[p]) =~= old_taken.map_values(|p: int| t[p]).push(t[scan as int]));
                    assert(strings_view(collected.parts@) =~= taken.map_values(|p: int| t[p]));
                    assert(consumed@ =~= mark_positions(c0, taken)) by {
                        assert forall|x: int| 0 <= x < c0.len() implies consumed@[x] == (c0[x] || taken.contains(x)) by {
                            if x == scan {
                                assert(taken[taken.len() - 1] == x);
                            } else {
                                if old_taken.contains(x) {
                                    let j = choose|j: int| 0 <= j < old_taken.len() && old_taken[j] == x;
                                    assert(taken[j] == x);
                                }
                                if taken.contains(x) {
                                    let j = choose|j: int| 0 <= j < taken.len() && taken[j] == x;
                                    assert(old_taken[j] == x);
                                }
                            }
                        }
                    }
                    assert(seq![scan as int] + follow_run(t, c0, scan + 1) == follow_run(t, c0, scan as int));
                    assert(old_taken + follow_run(t, c0, scan as int) =~= taken + follow_run(t, c0, scan + 1));
                }
                scan = scan + 1;
            } else {
                done = true;
                proof {
                    assert(ps =~= taken);
                }
            }
        }
    }
    proof {
        if !done {
            assert(ps =~= taken);
        }
        lemma_old_clauses(t, c0, k, allow_option_like_first_value, collected, consumed@);
    }
    collected
}

/// With every token after `k` free, the general account of what was collected is the run
/// `collect_last` names.
proof fn lemma_old_clauses(
    t: Seq<Seq<char>>,
    c0: Seq<bool>,
    k: int,
    allow: bool,
    collected: CollectedValues,
    c1: Seq<bool>,
)
    requires
        0 <= k < t.len(),
        c0.len() == t.len(),
        ({
            let ps = taken_positions(t, c0, k, allow);
            &&& collected.has_value == (ps.len() > 0)
            &&& collected.last_index as int == if ps.len() > 0 {
                ps.last()
            } else {
                k
            }
            &&& strings_view(collected.parts@) == ps.map_values(|p: int| t[p])
            &&& c1 == mark_positions(c0, ps)
        }),
    ensures
        (forall|x: int| k < x < t.len() ==> !c0[x]) ==> ({
            let last = collect_last(t, k, allow);
            &&& collected.has_value == last is Some
            &&& collected.last_index as int == match last {
                Some(l) => l,
                None => k,
            }
            &&& strings_view(collected.parts@) == collected_parts(t, k, last)
            &&& c1 == collected_consumed(c0, k, last)
            &&& last matches Some(l) ==> k < l < t.len()
        }),
{
    if forall|x: int| k < x < t.len() ==> !c0[x] {
        lemma_taken_free(t, c0, k, allow);
        let ps = taken_positions(t, c0, k, allow);
        match collect_last(t, k, allow) {
            Some(l) => {
                assert(ps.map_values(|p: int| t[p]) =~= t.subrange(k + 1, l + 1));
                assert forall|x: int| 0 <= x < c0.len() implies c1[x] == mark(c0, k + 1, l + 1)[x] by {
                    if k + 1 <= x < l + 1 {
                        assert(ps[x - k - 1] == x);
                    }
                    if ps.contains(x) {
                        let j = choose|j: int| 0 <= j < ps.len() && ps[j] == x;
                        assert(ps[j] == k + 1 + j);
                    }
                }
                assert(c1 =~= mark(c0, k + 1, l + 1));
            },
            None => {
                assert(ps.map_values(|p: int| t[p]) =~= Seq::<Seq<char>>::empty());
                assert(c1 =~= c0);
            },
        }
    }
}

/// `parts` joined by single spaces.
pub open spec fn join_spec(parts: Seq<Seq<char>>) -> Seq<char>
    decreases parts.len(),
{
    if parts.len() == 0 {
        Seq::empty()
    } else if parts.len() == 1 {
        parts[0]
    } else {
        join_spec(parts.drop_last()) + seq![' '] + parts.last()
    }
}

pub fn join_with_spaces(parts: &Vec<String>) -> (r: String)
    ensures
        r@ == join_spec(strings_view(parts@)),
{
    let ghost v = strings_view(parts@);
    let mut r = String::new();
    let mut i: usize = 0;
    while i < parts.len()
        invariant
            v == strings_view(parts@),
            i <= parts@.len(),
            r@ == join_spec(v.subrange(0, i as int)),
        decreases parts@.len() - i,
    {
        if i > 0 {
            crate::text::push_char(&mut r, ' ');
        }
        r.append(parts[i].as_str());
        i = i + 1;
        proof {
            let s = v.subrange(0, i as int);
            assert(s.drop_last() =~= v.subrange(0, i - 1));
            assert(s.last() == parts@[i - 1]@);
            if i == 1 {
                assert(v.subrange(0, 0) =~= Seq::<Seq<char>>::empty());
            }
        }
    }
    assert(v.subrange(0, parts@.len() as int) =~= v);
    r
}

fn dashed_chars(root: &str) -> (r: Vec<char>)
    ensures
        r@ == double_dash() + root@,
{
    let mut r: Vec<char> = Vec::new();
    r.push('-');
    r.push('-');
    let rc = crate::text::to_chars(root);
    let mut i: usize = 0;
    while i < rc.len()
        invariant
            i <= rc@.len(),
            r@ == double_dash() + rc@.subrange(0, i as int),
        decreases rc@.len() - i,
    {
        r.push(rc[i]);
        i = i + 1;
        assert(r@ =~= double_dash() + rc@.subrange(0, i as int));
    }
    assert(rc@.subrange(0, rc@.len() as int) =~= rc@);
    r
}

/// The first inline parser whose root the token `arg` names.
pub fn match_inline_token(data: &ParserData, arg: &[char]) -> (r: InlineTokenMatch)
    ensures
        match inline_match(data.view().inlines, arg@, 0) {
            InlineMatch::NoMatch => r.kind == InlineTokenKind::NoMatch,
            InlineMatch::BareRoot(j) => r.kind == InlineTokenKind::BareRoot && (r.parser matches Some(
                x,
            ) && x as int == j),
            InlineMatch::Dash(j, suffix) => r.kind == InlineTokenKind::DashOption && (r.parser matches Some(
                x,
            ) && x as int == j) && r.suffix@ == suffix,
        },
        r.parser matches Some(j) ==> j < data.view().inlines.len(),
{
    let ghost inl = data.view().inlines;
    let n = data.inline_parsers.len();
    let mut j: usize = 0;
    while j < n
        invariant
            inl == data.view().inlines,
            n == inl.len(),
            j <= n,
            inline_match(inl, arg@, 0) == inline_match(inl, arg@, j as int),
        decreases n - j,
    {
        let parser = data.inline_parsers.entry(j);
        let root_option = dashed_chars(parser.root_name.as_str());
        assert(inl[j as int].root == parser.root_name@);
        if crate::text::chars_eq(arg, root_option.as_slice()) {
            return InlineTokenMatch {
                kind: InlineTokenKind::BareRoot,
                parser: Some(j),
                suffix: String::new(),
            };
        }
        let mut root_dash_prefix = root_option.clone();
        root_dash_prefix.push('-');
        if crate::text::starts_with(arg, root_dash_prefix.as_slice()) {
            let suffix = crate::text::string_of(arg, root_dash_prefix.len(), arg.len());
            return InlineTokenMatch { kind: InlineTokenKind::DashOption, parser: Some(j), suffix };
        }
        j = j + 1;
    }
    InlineTokenMatch::default()
}

/// The alias a token names, if the token is in single-dash form.
pub fn find_alias_binding(data: &ParserData, token: &[char]) -> (r: Option<usize>)
    ensures
        match alias_of(data.view(), token@) {
            Some(a) => r matches Some(i) && i < data.view().aliases.len() && data.view().aliases[i as int] == a,
            None => r is None,
        },
{
    let single = token.len() >= 1 && token[0] == '-' && !(token.len() >= 2 && token[1] == '-');
    if !single {
        return None;
    }
    let r = data.aliases.find(token);
    proof {
        if r is Some {
            crate::kcli::model::lemma_find_key_some(data.view().alias_keys, token@, 0);
        }
    }
    r
}

pub open spec fn alias_view_of(alias: Option<&AliasBinding>) -> Option<AliasView> {
    match alias {
        Some(a) => Some(a.view()),
        None => None,
    }
}

pub fn has_alias_preset_tokens(alias_binding: Option<&AliasBinding>) -> (r: bool)
    ensures
        r == (alias_presets(alias_view_of(alias_binding)).len() > 0),
{
    match alias_binding {
        Some(binding) => binding.preset_tokens.len() > 0,
        None => false,
    }
}

/// The alias's preset tokens followed by the collected ones.
pub fn build_effective_value_tokens(alias_binding: Option<&AliasBinding>, collected_parts: &Vec<String>) -> (r: Vec<String>)
    ensures
        strings_view(r@) == alias_presets(alias_view_of(alias_binding)) + strings_view(collected_parts@),
{
    let mut merged: Vec<String> = Vec::new();
    if let Some(alias) = alias_binding {
        let mut i: usize = 0;
        while i < alias.preset_tokens.len()
            invariant
                i <= alias.preset_tokens@.len(),
                strings_view(merged@) == strings_view(alias.preset_tokens@).subrange(0, i as int),
            decreases alias.preset_tokens@.len() - i,
        {
            let ghost before = merged@;
            let tok = alias.preset_tokens[i].clone();
            proof {
                crate::kcli::model::lemma_strings_view_push(before, tok);
            }
            merged.push(tok);
            i = i + 1;
            assert(strings_view(merged@) =~= strings_view(alias.preset_tokens@).subrange(0, i as int));
        }
        assert(strings_view(alias.preset_tokens@).subrange(0, i as int) =~= strings_view(alias.preset_tokens@));
    }
    let ghost head = merged@;
    assert(strings_view(head) =~= alias_presets(alias_view_of(alias_binding)));
    let mut k: usize = 0;
    while k < collected_parts.len()
        invariant
            k <= collected_parts@.len(),
            strings_view(merged@) == strings_view(head) + strings_view(collected_parts@).subrange(0, k as int),
        decreases collected_parts@.len() - k,
    {
        let ghost before = merged@;
        let tok = collected_parts[k].clone();
        proof {
            crate::kcli::model::lemma_strings_view_push(before, tok);
        }
        merged.push(tok);
        k = k + 1;
        assert(strings_view(merged@) =~= strings_view(head) + strings_view(collected_parts@).subrange(0, k as int));
    }
    assert(strings_view(collected_parts@).subrange(0, k as int) =~= strings_view(collected_parts@));
    merged
}

proof fn lemma_invocations_push(v: Seq<Invocation>, x: Invocation)
    ensures
        invocations_view(v.push(x)) == invocations_view(v).push(x.view()),
{
    assert(invocations_view(v.push(x)) =~= invocations_view(v).push(x.view()));
}

/// Schedules the handler bound to the option at `index`; returns the last position used.
pub fn schedule_invocation(
    binding: &CommandBinding,
    alias_binding: Option<&AliasBinding>,
    root: &str,
    command: &str,
    option_token: &str,
    index: usize,
    tokens: &Vec<String>,
    consumed: &mut Vec<bool>,
    invocations: &mut Vec<Invocation>,
    result: &mut ParseOutcome,
    target: HandlerRef,
    Ghost(p): Ghost<ParserView>,
) -> (r: usize)
    requires
        old(result).ok,
        old(result).wf(),
        index < tokens@.len(),
        old(consumed)@.len() == tokens@.len(),
        forall|k: int| index < k < tokens@.len() ==> !old(consumed)@[k],
        target_ok(p, target, binding.view().expects_value),
        all_invocations_ok(p, invocations_view(old(invocations)@)),
    ensures
        ({
            let s = schedule_spec(
                binding.view(),
                alias_view_of(alias_binding),
                root@,
                command@,
                option_token@,
                index as int,
                strings_view(tokens@),
                PlanState {
                    invocations: invocations_view(old(invocations)@),
                    consumed: old(consumed)@,
                    failure: None,
                },
                target,
            );
            &&& r as int == s.0
            &&& invocations_view(final(invocations)@) == s.1.invocations
            &&& final(consumed)@ == s.1.consumed
            &&& final(result).failure() == s.1.failure
        }),
        final(result).wf(),
        index <= r < tokens@.len(),
        final(consumed)@.len() == tokens@.len(),
        forall|k: int| r < k < tokens@.len() ==> !final(consumed)@[k],
        all_invocations_ok(p, invocations_view(final(invocations)@)),
{
    let ghost t = strings_view(tokens@);
    let ghost old_invs = invocations@;
    consume_index(consumed, index);
    if !binding.expects_value() {
        if let Some(alias_binding) = alias_binding {
            if alias_binding.preset_tokens.len() > 0 {
                result.report_error(
                    ParseFailure::AliasPresetsValuesForFlag {
                        alias: alias_binding.alias.clone(),
                        option: String::from_str(option_token),
                    },
                );
                return index;
            }
        }
        let inv = Invocation::Flag {
            root: String::from_str(root),
            option: String::from_str(option_token),
            command: String::from_str(command),
            target,
        };
        proof {
            lemma_invocations_push(old_invs, inv);
        }
        invocations.push(inv);
        return index;
    }
    let required = binding.value_arity() == ValueArity::Required;
    let collected = collect_value_tokens(index, tokens, consumed, required);
    if !collected.has_value && !has_alias_preset_tokens(alias_binding) && required {
        result.report_error(ParseFailure::MissingRequiredValue { option: String::from_str(option_token) });
        return index;
    }
    let mut final_index = index;
    if collected.has_value {
        final_index = collected.last_index;
    }
    let inv = Invocation::Value {
        root: String::from_str(root),
        option: String::from_str(option_token),
        command: String::from_str(command),
        value_tokens: build_effective_value_tokens(alias_binding, &collected.parts),
        target,
    };
    proof {
        lemma_invocations_push(old_invs, inv);
    }
    invocations.push(inv);
    final_index
}

/// Plans the token at `index`; returns the last position it used.
pub fn plan_token(
    data: &ParserData,
    tokens: &Vec<String>,
    index: usize,
    consumed: &mut Vec<bool>,
    invocations: &mut Vec<Invocation>,
    result: &mut ParseOutcome,
) -> (r: usize)
    requires
        data.wf(),
        old(result).ok,
        old(result).wf(),
        1 <= index < tokens@.len(),
        old(consumed)@.len() == tokens@.len(),
        forall|k: int| index <= k < tokens@.len() ==> !old(consumed)@[k],
        all_invocations_ok(data.view(), invocations_view(old(invocations)@)),
    ensures
        ({
            let s = token_step(
                data.view(),
                strings_view(tokens@),
                index as int,
                PlanState {
                    invocations: invocations_view(old(invocations)@),
                    consumed: old(consumed)@,
                    failure: None,
                },
            );
            &&& r as int == s.0
            &&& invocations_view(final(invocations)@) == s.1.invocations
            &&& final(consumed)@ == s.1.consumed
            &&& final(result).failure() == s.1.failure
        }),
        final(result).wf(),
        index <= r < tokens@.len(),
        final(consumed)@.len() == tokens@.len(),
        final(result).ok ==> forall|k: int| r < k < tokens@.len() ==> !final(consumed)@[k],
        all_invocations_ok(data.view(), invocations_view(final(invocations)@)),
{
    let ghost p = data.view();
    let ghost t = strings_view(tokens@);
    let ghost old_invs = invocations@;
    let arg = &tokens[index];
    assert(t[index as int] == arg@);
    let arg_chars = crate::text::to_chars(arg.as_str());
    if arg_chars.len() == 0 {
        return index;
    }
    let alias_index = find_alias_binding(data, arg_chars.as_slice());
    let alias_binding: Option<&AliasBinding> = match alias_index {
        Some(a) => Some(data.aliases.entry(a)),
        None => None,
    };
    assert(alias_view_of(alias_binding) == alias_of(p, arg@));
    let effective: String = match alias_binding {
        Some(b) => b.target_token.clone(),
        None => arg.clone(),
    };
    let eff = crate::text::to_chars(effective.as_str());
    let is_dash = eff.len() >= 1 && eff[0] == '-';
    let is_double = eff.len() >= 2 && eff[0] == '-' && eff[1] == '-';
    proof {
        if eff@.len() == 2 && is_double {
            assert(eff@ =~= double_dash());
        }
    }
    if !is_dash || (eff.len() == 2 && is_double) || !is_double {
        return index;
    }
    assert(eff@ != double_dash());
    let m = match_inline_token(data, eff.as_slice());
    match m.kind {
        InlineTokenKind::BareRoot => {
            let pi = m.parser.unwrap();
            let parser = data.inline_parsers.entry(pi);
            assert(p.inlines[pi as int] == parser.view());
            consume_index(consumed, index);
            let collected = collect_value_tokens(index, tokens, consumed, false);
            if !collected.has_value && !has_alias_preset_tokens(alias_binding) {
                let inv = Invocation::PrintHelp {
                    root: parser.root_name.clone(),
                    help_rows: crate::kcli::process::help::build_help_rows(parser),
                };
                proof {
                    lemma_invocations_push(old_invs, inv);
                }
                invocations.push(inv);
                return index;
            }
            if parser.root_value_handler.is_none() {
                result.report_error(ParseFailure::UnknownRootValue { option: effective.clone() });
                return index;
            }
            let inv = Invocation::Value {
                root: parser.root_name.clone(),
                option: effective.clone(),
                command: String::new(),
                value_tokens: build_effective_value_tokens(alias_binding, &collected.parts),
                target: HandlerRef::InlineRoot(pi),
            };
            proof {
                lemma_invocations_push(old_invs, inv);
            }
            invocations.push(inv);
            let r = if collected.has_value {
                collected.last_index
            } else {
                index
            };
            proof {
                let st = PlanState {
                    invocations: invocations_view(old_invs),
                    consumed: old(consumed)@,
                    failure: None,
                };
                let alias = alias_of(p, arg@);
                assert(inline_match(p.inlines, eff@, 0) == InlineMatch::BareRoot(pi as int));
                let b = bare_root_spec(p, pi as int, eff@, alias_presets(alias), index as int, t, st);
                assert(token_step(p, t, index as int, st) == b);
                assert(r as int == b.0);
                assert(consumed@ == b.1.consumed);
                assert(result.failure() == b.1.failure);
                assert(invocations_view(invocations@) == b.1.invocations);
            }
            return r;
        },
        InlineTokenKind::DashOption => {
            let pi = m.parser.unwrap();
            let parser = data.inline_parsers.entry(pi);
            assert(p.inlines[pi as int] == parser.view());
            let suffix = crate::text::to_chars(m.suffix.as_str());
            if suffix.len() == 0 {
                return index;
            }
            match parser.commands.find(suffix.as_slice()) {
                Some(ci) => {
                    let entry = parser.commands.entry(ci);
                    assert(p.inlines[pi as int].bindings[ci as int] == entry.binding.view());
                    schedule_invocation(
                        &entry.binding,
                        alias_binding,
                        parser.root_name.as_str(),
                        m.suffix.as_str(),
                        effective.as_str(),
                        index,
                        tokens,
                        consumed,
                        invocations,
                        result,
                        HandlerRef::Inline(pi, ci),
                        Ghost(p),
                    )
                },
                None => index,
            }
        },
        InlineTokenKind::NoMatch => {
            let command = crate::text::string_of(eff.as_slice(), 2, eff.len());
            let command_chars = crate::text::to_chars(command.as_str());
            match data.commands.find(command_chars.as_slice()) {
                Some(ci) => {
                    let entry = data.commands.entry(ci);
                    assert(p.bindings[ci as int] == entry.binding.view());
                    let no_root = String::new();
                    schedule_invocation(
                        &entry.binding,
                        alias_binding,
                        no_root.as_str(),
                        command.as_str(),
                        effective.as_str(),
                        index,
                        tokens,
                        consumed,
                        invocations,
                        result,
                        HandlerRef::Primary(ci),
                        Ghost(p),
                    )
                },
                None => index,
            }
        },
    }
}

/// Plans the whole command line: every token after the program name, then the positionals.
pub fn plan_invocations(
    data: &ParserData,
    tokens: &Vec<String>,
    consumed: &mut Vec<bool>,
    result: &mut ParseOutcome,
) -> (invocations: Vec<Invocation>)
    requires
        data.wf(),
        tokens@.len() >= 1,
        old(consumed)@ == Seq::new(tokens@.len(), |k: int| false),
        old(result).ok,
        old(result).wf(),
    ensures
        ({
            let p = data.view();
            let t = strings_view(tokens@);
            let st = plan_spec(p, t);
            &&& final(result).failure() == st.failure
            &&& st.failure is None ==> invocations_view(invocations@) == st.invocations
                + positional_invocations(p, t, st.consumed)
            &&& st.failure is None ==> final(consumed)@ == consumed_after_positionals(p, t, st.consumed)
            &&& st.failure is Some ==> invocations_view(invocations@) == st.invocations
            &&& st.failure is Some ==> final(consumed)@ == st.consumed
        }),
        final(result).wf(),
        final(consumed)@.len() == tokens@.len(),
        all_invocations_ok(data.view(), invocations_view(invocations@)),
{
    let ghost p = data.view();
    let ghost t = strings_view(tokens@);
    let mut invocations: Vec<Invocation> = Vec::new();
    let mut index: usize = 1;
    proof {
        assert(invocations_view(invocations@) =~= Seq::<InvocationView>::empty());
        assert(initial_plan(t).consumed =~= consumed@);
    }
    while index < tokens.len()
        invariant_except_break
            result.ok,
            plan_spec(p, t) == plan_from(
                p,
                t,
                index as int,
                PlanState {
                    invocations: invocations_view(invocations@),
                    consumed: consumed@,
                    failure: None,
                },
            ),
            forall|k: int| index <= k < tokens@.len() ==> !consumed@[k],
        invariant
            p == data.view(),
            t == strings_view(tokens@),
            data.wf(),
            1 <= index,
            consumed@.len() == tokens@.len(),
            result.wf(),
            all_invocations_ok(p, invocations_view(invocations@)),
        ensures
            plan_spec(p, t) == (PlanState {
                invocations: invocations_view(invocations@),
                consumed: consumed@,
                failure: result.failure(),
            }),
        decreases tokens@.len() - index,
    {
        let last = plan_token(data, tokens, index, consumed, &mut invocations, result);
        if !result.ok {
            break;
        }
        index = last + 1;
    }
    if result.ok {
        schedule_positionals(data, tokens, consumed, &mut invocations);
    }
    invocations
}

/// Collects the tokens no option took, when a positional handler is set.
pub fn schedule_positionals(
    data: &ParserData,
    tokens: &Vec<String>,
    consumed: &mut Vec<bool>,
    invocations: &mut Vec<Invocation>,
)
    requires
        old(consumed)@.len() == tokens@.len(),
        all_invocations_ok(data.view(), invocations_view(old(invocations)@)),
    ensures
        invocations_view(final(invocations)@) == invocations_view(old(invocations)@)
            + positional_invocations(data.view(), strings_view(tokens@), old(consumed)@),
        final(consumed)@ == consumed_after_positionals(
            data.view(),
            strings_view(tokens@),
            old(consumed)@,
        ),
        all_invocations_ok(data.view(), invocations_view(final(invocations)@)),
{
    let ghost p = data.view();
    let ghost t = strings_view(tokens@);
    let ghost c0 = consumed@;
    if data.positional_handler.is_none() || tokens.len() <= 1 {
        assert(invocations_view(invocations@) =~= invocations_view(old(invocations)@) + Seq::empty());
        return;
    }
    let mut value_tokens: Vec<String> = Vec::new();
    let mut index: usize = 1;
    proof {
        assert(consumed@ =~= Seq::new(
            c0.len(),
            |x: int| c0[x] || (x < 1 && is_positional(t, c0, x)),
        ));
    }
    while index < tokens.len()
        invariant
            t == strings_view(tokens@),
            c0.len() == tokens@.len(),
            consumed@.len() == tokens@.len(),
            1 <= index <= tokens@.len(),
            strings_view(value_tokens@) == positional_values(t, c0, index as int),
            consumed@ == Seq::new(
                c0.len(),
                |x: int| c0[x] || (x < index && is_positional(t, c0, x)),
            ),
        decreases tokens@.len() - index,
    {
        assert(consumed@[index as int] == c0[index as int]);
        if !consumed[index] {
            let token = &tokens[index];
            assert(t[index as int] == token@);
            if token.as_str().is_empty() || !starts_with_dash(token.as_str()) {
                consumed.set(index, true);
                let ghost before = value_tokens@;
                let tok = token.clone();
                proof {
                    crate::kcli::model::lemma_strings_view_push(before, tok);
                }
                value_tokens.push(tok);
            }
        }
        index = index + 1;
        proof {
            assert(consumed@ =~= Seq::new(
                c0.len(),
                |x: int| c0[x] || (x < index && is_positional(t, c0, x)),
            ));
        }
    }
    proof {
        assert(consumed@ =~= consumed_after_positionals(p, t, c0));
    }
    if value_tokens.len() > 0 {
        let inv = Invocation::Positional { value_tokens };
        proof {
            lemma_invocations_push(old(invocations)@, inv);
        }
        invocations.push(inv);
        assert(invocations_view(invocations@) =~= invocations_view(old(invocations)@)
            + positional_invocations(p, t, c0));
    } else {
        assert(invocations_view(invocations@) =~= invocations_view(old(invocations)@) + Seq::empty());
    }
}

/// Reports the first option-like token that nothing took.
pub fn report_unconsumed_option_tokens(tokens: &Vec<String>, consumed: &Vec<bool>, result: &mut ParseOutcome)
    requires
        consumed@.len() == tokens@.len(),
        old(result).wf(),
    ensures
        final(result).wf(),
        !old(result).ok ==> *final(result) == *old(result),
        old(result).ok ==> final(result).failure() == match first_unknown(
            strings_view(tokens@),
            consumed@,
            1,
        ) {
            Some(k) => Some(FailureView::UnknownOption { option: strings_view(tokens@)[k] }),
            None => None,
        },
{
    if !result.ok {
        return;
    }
    let ghost t = strings_view(tokens@);
    let mut index: usize = 1;
    while index < tokens.len()
        invariant
            t == strings_view(tokens@),
            consumed@.len() == tokens@.len(),
            1 <= index,
            result.ok,
            old(result).ok,
            result.wf(),
            first_unknown(t, consumed@, 1) == first_unknown(t, consumed@, index as int),
        decreases tokens@.len() - index,
    {
        if !consumed[index] {
            let token = &tokens[index];
            assert(t[index as int] == token@);
            if !token.as_str().is_empty() && starts_with_dash(token.as_str()) {
                result.report_error(ParseFailure::UnknownOption { option: token.clone() });
                return;
            }
        }
        index = index + 1;
    }
}

} // verus!
