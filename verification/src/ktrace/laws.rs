//! Properties of channel enablement that hold for every logger state.
use vstd::prelude::*;
use crate::ktrace::model::{OutputOptions, SelectorView, SourceLocation, TraceError};
use crate::ktrace::registry::{
    changed_effect, site_key_spec, trace_line_effect, enabled_spec, exact_state_effect, list_state_effect, matched_keys, normalized_options,
    registered_spec, register_all, register_step, channel_names, parent_of, LoggerView,
};
use crate::ktrace::model::DEFAULT_COLOR;
use crate::kcli::model::unique_keys;
use crate::ktrace::selectors::{channel_path_spec, exact_selector_spec, matches_spec, qualified_key_spec, selector_list_spec};
use crate::ktrace::format::{function_label_spec, source_label_spec, source_part_spec};
use crate::text::{decimal_spec, digit_char, is_ws_spec, trim_end_spec, trim_spec};
use crate::ktrace::registry::{Logger, TraceLogger};
use crate::ktrace::cli::{listing_of, qualified_listing, request_effect, with_output_flag_spec, OutputFlag, TraceRequestView};
use crate::ktrace::selectors::{find_char, is_ident_char, is_identifier, split_spec, star, lemma_split_nonempty, lemma_split_without_sep};

verus! {

/// Enabling a registered channel by name makes it print; disabling it makes it silent.
pub proof fn lemma_exact_switch_decides(
    old: LoggerView,
    new: LoggerView,
    r: Result<Vec<String>, TraceError>,
    qualified_channel: Seq<char>,
    local_namespace: Seq<char>,
    on: bool,
    ns: Seq<char>,
    ch: Seq<char>,
)
    requires
        exact_state_effect(old, new, r, qualified_channel, local_namespace, on),
        exact_selector_spec(qualified_channel, local_namespace) == Ok::<(Seq<char>, Seq<char>), Seq<char>>((ns, ch)),
        registered_spec(old, ns, ch),
    ensures
        enabled_spec(new, ns, ch) == on,
        r is Ok,
{
}

/// Naming a channel that is not registered changes nothing; the call only warns.
pub proof fn lemma_exact_switch_unregistered_ignored(
    old: LoggerView,
    new: LoggerView,
    r: Result<Vec<String>, TraceError>,
    qualified_channel: Seq<char>,
    local_namespace: Seq<char>,
    on: bool,
    ns: Seq<char>,
    ch: Seq<char>,
)
    requires
        exact_state_effect(old, new, r, qualified_channel, local_namespace, on),
        exact_selector_spec(qualified_channel, local_namespace) == Ok::<(Seq<char>, Seq<char>), Seq<char>>((ns, ch)),
        !registered_spec(old, ns, ch),
    ensures
        new == old,
        r matches Ok(lines) && lines@.len() == 1,
{
}

/// Switching one channel leaves every other channel as it was.
pub proof fn lemma_exact_switch_is_local(
    old: LoggerView,
    new: LoggerView,
    r: Result<Vec<String>, TraceError>,
    qualified_channel: Seq<char>,
    local_namespace: Seq<char>,
    on: bool,
    key: Seq<char>,
)
    requires
        exact_state_effect(old, new, r, qualified_channel, local_namespace, on),
        exact_selector_spec(qualified_channel, local_namespace) matches Ok((ns, ch)) && key
            != qualified_key_spec(ns, ch),
    ensures
        new.enabled.contains(key) == old.enabled.contains(key),
        new.channels == old.channels,
        new.namespaces == old.namespaces,
        new.options == old.options,
{
}

/// A selector list only ever enables registered channels.
pub proof fn lemma_list_enables_only_registered(
    old: LoggerView,
    new: LoggerView,
    r: Result<Vec<String>, TraceError>,
    selectors_csv: Seq<char>,
    local_namespace: Seq<char>,
    key: Seq<char>,
)
    requires
        list_state_effect(old, new, r, selectors_csv, local_namespace, true),
        new.enabled.contains(key),
        !old.enabled.contains(key),
    ensures
        exists|p: (Seq<char>, Seq<char>)| old.channels.dom().contains(p) && key == qualified_key_spec(p.0, p.1),
{
    let text = trim_spec(selectors_csv);
    if text.len() > 0 {
        if let Ok(sels) = selector_list_spec(text, local_namespace) {
            assert(matched_keys(old.channels, sels).contains(key));
        }
    }
}

/// After a selector list is applied, every registered channel a selector takes prints (when
/// enabling) or is silent (when disabling).
pub proof fn lemma_list_switches_every_match(
    old: LoggerView,
    new: LoggerView,
    r: Result<Vec<String>, TraceError>,
    selectors_csv: Seq<char>,
    local_namespace: Seq<char>,
    on: bool,
    j: int,
    ns: Seq<char>,
    ch: Seq<char>,
)
    requires
        list_state_effect(old, new, r, selectors_csv, local_namespace, on),
        trim_spec(selectors_csv).len() > 0,
        selector_list_spec(trim_spec(selectors_csv), local_namespace) matches Ok(sels) && 0 <= j
            < sels.len() && matches_spec(sels[j], ns, ch),
        registered_spec(old, ns, ch),
    ensures
        enabled_spec(new, ns, ch) == on,
        r is Ok,
{
    let sels = selector_list_spec(trim_spec(selectors_csv), local_namespace)->Ok_0;
    let p = (ns, ch);
    assert(old.channels.dom().contains(p));
    assert(matched_keys(old.channels, sels).contains(qualified_key_spec(ns, ch)));
}

/// A refused selector list changes nothing.
pub proof fn lemma_list_refusal_changes_nothing(
    old: LoggerView,
    new: LoggerView,
    r: Result<Vec<String>, TraceError>,
    selectors_csv: Seq<char>,
    local_namespace: Seq<char>,
    on: bool,
)
    requires
        list_state_effect(old, new, r, selectors_csv, local_namespace, on),
        r is Err,
    ensures
        new == old,
{
}

/// Stored output options never show line numbers or function names without file names.
pub proof fn lemma_options_need_filenames(o: OutputOptions)
    ensures
        normalized_options(o).line_numbers ==> normalized_options(o).filenames,
        normalized_options(o).function_names ==> normalized_options(o).filenames,
        normalized_options(normalized_options(o)) == normalized_options(o),
{
}

/// Tracing the same key twice in a row at one call site prints at most once: the second call
/// is silent and records nothing new.
pub proof fn lemma_changed_repeat_is_silent(
    c0: Map<Seq<char>, Seq<char>>,
    c1: Map<Seq<char>, Seq<char>>,
    c2: Map<Seq<char>, Seq<char>>,
    logger: LoggerView,
    trace_namespace: Seq<char>,
    channel: Seq<char>,
    key: Seq<char>,
    location: SourceLocation,
    message1: Seq<char>,
    message2: Seq<char>,
    r1: Result<Option<String>, TraceError>,
    r2: Result<Option<String>, TraceError>,
)
    requires
        changed_effect(c0, c1, logger, trace_namespace, channel, key, location, message1, r1),
        changed_effect(c1, c2, logger, trace_namespace, channel, key, location, message2, r2),
        channel_path_spec(trim_spec(channel)) is Some,
    ensures
        r2 matches Ok(None),
        c2 == c1,
{
}

/// A different key at the same call site is traced again.
pub proof fn lemma_changed_new_key_traces(
    c0: Map<Seq<char>, Seq<char>>,
    c1: Map<Seq<char>, Seq<char>>,
    logger: LoggerView,
    trace_namespace: Seq<char>,
    channel: Seq<char>,
    key: Seq<char>,
    location: SourceLocation,
    message: Seq<char>,
    r: Result<Option<String>, TraceError>,
)
    requires
        changed_effect(c0, c1, logger, trace_namespace, channel, key, location, message, r),
        channel_path_spec(trim_spec(channel)) is Some,
        !(c0.dom().contains(site_key_spec(location, trim_spec(channel))) && c0[site_key_spec(location, trim_spec(channel))] == key),
    ensures
        trace_line_effect(logger, trace_namespace, channel, location, message, r),
        c1[site_key_spec(location, trim_spec(channel))] == key,
{
}


/// What a successful registration leaves: every channel is there, under its own color when
/// it named one, and with its parent; nothing that was there before is lost.
proof fn lemma_register_all_leaves(
    m: Map<(Seq<char>, Seq<char>), u16>,
    ns: Seq<char>,
    cs: Seq<(Seq<char>, u16)>,
)
    requires
        register_all(m, ns, cs) is Ok,
        unique_keys(channel_names(cs)),
    ensures
        ({
            let m1 = register_all(m, ns, cs)->Ok_0;
            &&& forall|k: (Seq<char>, Seq<char>)| m.dom().contains(k) ==> #[trigger] m1.dom().contains(k)
            &&& forall|i: int| 0 <= i < cs.len() ==> settled(m1, ns, #[trigger] cs[i])
        }),
    decreases cs.len(),
{
    if cs.len() > 0 {
        let front = cs.drop_last();
        assert(channel_names(front) =~= channel_names(cs).drop_last());
        lemma_register_all_leaves(m, ns, front);
        let m2 = register_all(m, ns, front)->Ok_0;
        let m1 = register_all(m, ns, cs)->Ok_0;
        let c = cs.last();
        assert(register_step(m2, ns, c) == Ok::<Map<(Seq<char>, Seq<char>), u16>, Seq<char>>(m1));
        assert forall|i: int| 0 <= i < cs.len() implies settled(m1, ns, #[trigger] cs[i]) by {
            if i < cs.len() - 1 {
                assert(front[i] == cs[i]);
                assert(channel_names(cs)[i] != channel_names(cs)[cs.len() - 1]);
            }
        }
    }
}

/// The channel `c` of `ns` is in `m`, with its parent, and under its color if it named one.
spec fn settled(m: Map<(Seq<char>, Seq<char>), u16>, ns: Seq<char>, c: (Seq<char>, u16)) -> bool {
    &&& m.dom().contains((ns, c.0))
    &&& c.1 != DEFAULT_COLOR ==> m[(ns, c.0)] == c.1 && c.1 <= 255
    &&& parent_of(c.0) matches Some(p) ==> m.dom().contains((ns, p))
}

/// Registering `cs` into a map where each of its channels is already settled changes nothing.
proof fn lemma_register_all_settled(
    m: Map<(Seq<char>, Seq<char>), u16>,
    ns: Seq<char>,
    cs: Seq<(Seq<char>, u16)>,
    k: int,
)
    requires
        0 <= k <= cs.len(),
        forall|i: int| 0 <= i < cs.len() ==> settled(m, ns, #[trigger] cs[i]),
    ensures
        register_all(m, ns, cs.take(k)) == Ok::<Map<(Seq<char>, Seq<char>), u16>, Seq<char>>(m),
    decreases k,
{
    if k > 0 {
        assert(cs.take(k).drop_last() =~= cs.take(k - 1));
        lemma_register_all_settled(m, ns, cs, k - 1);
        let c = cs[k - 1];
        assert(cs.take(k).last() == c);
        assert(settled(m, ns, c));
        assert(m.insert((ns, c.0), m[(ns, c.0)]) =~= m);
    } else {
        assert(cs.take(0) =~= Seq::<(Seq<char>, u16)>::empty());
    }
}

/// Registering a trace logger again, after it was registered, succeeds and changes no
/// channel or color.
pub proof fn lemma_register_twice_changes_nothing(
    m: Map<(Seq<char>, Seq<char>), u16>,
    ns: Seq<char>,
    cs: Seq<(Seq<char>, u16)>,
)
    requires
        unique_keys(channel_names(cs)),
        register_all(m, ns, cs) is Ok,
    ensures
        register_all(register_all(m, ns, cs)->Ok_0, ns, cs) == register_all(m, ns, cs),
{
    lemma_register_all_leaves(m, ns, cs);
    lemma_register_all_settled(register_all(m, ns, cs)->Ok_0, ns, cs, cs.len() as int);
    assert(cs.take(cs.len() as int) =~= cs);
}


/// A trimmed text that is not empty ends in a character that is not white space.
proof fn lemma_trim_end_last(s: Seq<char>)
    ensures
        trim_end_spec(s).len() > 0 ==> !is_ws_spec(trim_end_spec(s).last()),
    decreases s.len(),
{
    if s.len() > 0 && is_ws_spec(s.last()) {
        lemma_trim_end_last(s.drop_last());
    }
}

/// Scanning for `c` from `i` finds the first `c` at or after `i`.
proof fn lemma_find_first(s: Seq<char>, c: char, i: int, at: int)
    requires
        0 <= i <= at < s.len(),
        s[at] == c,
        forall|j: int| i <= j < at ==> s[j] != c,
    ensures
        find_char(s, c, i) == Some(at),
    decreases at - i,
{
    if i < at {
        lemma_find_first(s, c, i + 1, at);
    }
}

/// A trace logger's channel prints exactly when the trace logger joined the logger, the
/// channel name (trimmed) is a valid channel path, and the logger prints the channel named
/// in full, `namespace.channel`, under any local namespace.
pub proof fn lemma_trace_logger_asks_its_logger(t: TraceLogger, logger: Logger, channel: Seq<char>, local: Seq<char>)
    requires
        is_identifier(t.namespace_view()),
    ensures
        (channel_path_spec(trim_spec(channel)) is Some && enabled_spec(t.sees(&logger), t.namespace_view(), trim_spec(channel)))
            == (channel_path_spec(trim_spec(channel)) is Some && t.attached_view() == Some(logger.id_view())
                && match exact_selector_spec(t.namespace_view() + seq!['.'] + trim_spec(channel), local) {
                    Ok((ns, ch)) => enabled_spec(logger.view(), ns, ch),
                    Err(_) => false,
                }),
{
    let ns = t.namespace_view();
    let c = trim_spec(channel);
    if channel_path_spec(c) is Some {
        let q = ns + seq!['.'] + c;
        lemma_trim_end_last(crate::text::trim_start_spec(channel));
        assert(is_ident_char(ns[0]));
        assert(!is_ws_spec(q[0]));
        assert(q.last() == c.last());
        assert(crate::text::trim_start_spec(q) == q);
        assert(trim_end_spec(q) == q);
        assert(trim_spec(q) == q);
        assert forall|j: int| 0 <= j < ns.len() implies q[j] != '.' by {
            assert(is_ident_char(ns[j]));
        }
        lemma_find_first(q, '.', 0, ns.len() as int);
        assert(q.take(ns.len() as int) =~= ns);
        assert(q.skip(ns.len() + 1int) =~= c);
    }
}


/// The pieces joined back with the separator between them.
pub open spec fn join_with(parts: Seq<Seq<char>>, sep: char) -> Seq<char>
    decreases parts.len(),
{
    if parts.len() <= 1 {
        if parts.len() == 1 {
            parts[0]
        } else {
            Seq::empty()
        }
    } else {
        join_with(parts.drop_last(), sep) + seq![sep] + parts.last()
    }
}

/// Splitting and joining again gives the text back.
proof fn lemma_join_split(s: Seq<char>, sep: char)
    ensures
        join_with(split_spec(s, sep), sep) == s,
    decreases s.len(),
{
    if s.len() > 0 {
        lemma_join_split(s.drop_last(), sep);
        lemma_split_nonempty(s.drop_last(), sep);
        let p = split_spec(s.drop_last(), sep);
        if s.last() == sep {
            assert(p.push(Seq::empty()).drop_last() =~= p);
            assert(s.drop_last() + seq![sep] + Seq::<char>::empty() =~= s);
        } else {
            let q = p.update(p.len() - 1, p.last().push(s.last()));
            if p.len() == 1 {
                assert(p.last() == s.drop_last());
                assert(s.drop_last().push(s.last()) =~= s);
            } else {
                assert(q.drop_last() =~= p.drop_last());
                assert(q.last() == p.last().push(s.last()));
                assert(join_with(p, sep) == join_with(p.drop_last(), sep) + seq![sep] + p.last());
                assert(join_with(q, sep) == join_with(q.drop_last(), sep) + seq![sep] + q.last());
                assert(join_with(q, sep) =~= (join_with(p.drop_last(), sep) + seq![sep] + p.last()).push(s.last()));
                assert(s.drop_last().push(s.last()) =~= s);
            }
        }
    }
}

/// Text made of two pieces without the separator, joined by it, splits into those pieces.
proof fn lemma_split_two(a: Seq<char>, b: Seq<char>, sep: char)
    requires
        forall|i: int| 0 <= i < a.len() ==> a[i] != sep,
        forall|i: int| 0 <= i < b.len() ==> b[i] != sep,
    ensures
        split_spec(a + seq![sep] + b, sep) == seq![a, b],
    decreases b.len(),
{
    let s = a + seq![sep] + b;
    if b.len() == 0 {
        lemma_split_without_sep(a, sep);
        assert(s.drop_last() =~= a);
        assert(b =~= Seq::<char>::empty());
        assert(seq![a].push(Seq::<char>::empty()) =~= seq![a, b]);
    } else {
        let b0 = b.drop_last();
        lemma_split_two(a, b0, sep);
        assert(s.drop_last() =~= a + seq![sep] + b0);
        let p = seq![a, b0];
        assert(b0.push(b.last()) =~= b);
        assert(p.update(1, b0.push(b.last())) =~= seq![a, b]);
    }
}

/// A selector naming a namespace's channel by two names (neither `*`) takes exactly the
/// channel whose path is those two names: `ns.a.b` takes `a.b` and nothing else.
pub proof fn lemma_two_name_selector_takes_one_channel(sel: SelectorView, ns: Seq<char>, channel: Seq<char>)
    requires
        sel.any_namespace || sel.trace_namespace == ns,
        sel.channel_tokens.len() == 2,
        is_identifier(sel.channel_tokens[0]),
        is_identifier(sel.channel_tokens[1]),
        !sel.include_top_level,
    ensures
        matches_spec(sel, ns, channel) <==> channel == sel.channel_tokens[0] + seq!['.'] + sel.channel_tokens[1],
{
    let a = sel.channel_tokens[0];
    let b = sel.channel_tokens[1];
    reveal_strlit("*");
    assert(a != star()) by {
        assert(is_ident_char(a[0]));
    }
    assert(b != star()) by {
        assert(is_ident_char(b[0]));
    }
    if channel == a + seq!['.'] + b {
        assert forall|i: int| 0 <= i < a.len() implies a[i] != '.' by {
            assert(is_ident_char(a[i]));
        }
        assert forall|i: int| 0 <= i < b.len() implies b[i] != '.' by {
            assert(is_ident_char(b[i]));
        }
        lemma_split_two(a, b, '.');
        let t = split_spec(channel, '.');
        assert(t == seq![a, b]);
        assert(channel_path_spec(channel) == Some(t));
    }
    if matches_spec(sel, ns, channel) {
        let parts = channel_path_spec(channel)->Some_0;
        assert(parts == split_spec(channel, '.'));
        lemma_join_split(channel, '.');
        assert(parts.len() == 2 && parts[0] == a && parts[1] == b);
        assert(join_with(parts, '.') == join_with(parts.drop_last(), '.') + seq!['.'] + parts.last());
        assert(parts.drop_last() =~= seq![a]);
    }
}


/// Turning on an output flag: `Files` shows the source file and line, `Functions` the file,
/// line and function, `Timestamps` the time; each turns nothing off and leaves every option
/// it does not name as it was.
pub proof fn lemma_output_flags(o: OutputOptions)
    ensures
        ({
            let f = with_output_flag_spec(o, OutputFlag::Files);
            &&& f.filenames && f.line_numbers
            &&& f.function_names == o.function_names && f.timestamps == o.timestamps
        }),
        ({
            let f = with_output_flag_spec(o, OutputFlag::Functions);
            &&& f.filenames && f.line_numbers && f.function_names
            &&& f.timestamps == o.timestamps
        }),
        ({
            let f = with_output_flag_spec(o, OutputFlag::Timestamps);
            &&& f.timestamps
            &&& f.filenames == o.filenames && f.line_numbers == o.line_numbers && f.function_names == o.function_names
        }),
{
}


/// Answering the `--<root>-files` request: the logger's trace lines then show the source file
/// and line; the function names and timestamps shown, and everything registered or enabled,
/// stay as they were.
pub proof fn lemma_files_request_shows_file_and_line(
    old: LoggerView,
    new: LoggerView,
    r: Result<Vec<String>, String>,
)
    requires
        request_effect(old, new, TraceRequestView::Output(OutputFlag::Files), r),
    ensures
        r is Ok,
        new.options.filenames,
        new.options.line_numbers,
        new.options.function_names == old.options.function_names,
        new.options.timestamps == old.options.timestamps,
        new.enabled == old.enabled,
        new.namespaces == old.namespaces,
        new.channels == old.channels,
{
}


proof fn lemma_digit_char(d: nat)
    requires
        d < 10,
    ensures
        digit_char(d) as u32 == 48 + d,
        digit_char(d) != ':',
{
    assert(('0' as u32) == 48);
}

/// A decimal writing holds digits only, two or more from ten on.
proof fn lemma_decimal_digits(n: nat)
    ensures
        decimal_spec(n).len() >= 1,
        n < 10 ==> decimal_spec(n).len() == 1,
        n >= 10 ==> decimal_spec(n).len() >= 2,
        forall|i: int| 0 <= i < decimal_spec(n).len() ==> #[trigger] decimal_spec(n)[i] != ':',
    decreases n,
{
    if n < 10 {
        lemma_digit_char(n);
    } else {
        lemma_decimal_digits(n / 10);
        lemma_digit_char(n % 10);
    }
}

spec fn a_len_differs(n1: nat, n2: nat) -> bool {
    decimal_spec(n1).len() != decimal_spec(n2).len()
}

/// Different numbers are written differently.
proof fn lemma_decimal_injective(n1: nat, n2: nat)
    requires
        decimal_spec(n1) == decimal_spec(n2),
    ensures
        n1 == n2,
    decreases n1,
{
    lemma_decimal_digits(n1);
    lemma_decimal_digits(n2);
    if n1 < 10 && n2 < 10 {
        lemma_digit_char(n1);
        lemma_digit_char(n2);
        assert(decimal_spec(n1) == seq![digit_char(n1)]);
        assert(decimal_spec(n2) == seq![digit_char(n2)]);
        assert(seq![digit_char(n1)][0] == digit_char(n1));
        assert(seq![digit_char(n2)][0] == digit_char(n2));
        assert(decimal_spec(n1)[0] == decimal_spec(n2)[0]);
        assert(digit_char(n1) == digit_char(n2));
        assert(digit_char(n1) as u32 == digit_char(n2) as u32);
        assert(n1 == n2);
    } else if n1 >= 10 && n2 >= 10 {
        let a = decimal_spec(n1);
        let b = decimal_spec(n2);
        assert(a.drop_last() =~= decimal_spec(n1 / 10));
        assert(b.drop_last() =~= decimal_spec(n2 / 10));
        lemma_decimal_injective(n1 / 10, n2 / 10);
        lemma_digit_char(n1 % 10);
        lemma_digit_char(n2 % 10);
        assert(a.last() == b.last());
        assert(a.last() == digit_char(n1 % 10));
        assert(b.last() == digit_char(n2 % 10));
        assert(n1 % 10 == n2 % 10);
        assert(n1 == 10 * (n1 / 10) + n1 % 10);
        assert(n2 == 10 * (n2 / 10) + n2 % 10);
        assert(n1 == n2);
    } else {
        assert(a_len_differs(n1, n2));
    }
}

/// Two texts cut at their first separator agree on both sides of it.
proof fn lemma_cut_at_first(x1: Seq<char>, r1: Seq<char>, x2: Seq<char>, r2: Seq<char>, c: char)
    requires
        forall|i: int| 0 <= i < x1.len() ==> x1[i] != c,
        forall|i: int| 0 <= i < x2.len() ==> x2[i] != c,
        x1 + seq![c] + r1 == x2 + seq![c] + r2,
    ensures
        x1 == x2,
        r1 == r2,
{
    let k = x1 + seq![c] + r1;
    if x1.len() < x2.len() {
        assert(k[x1.len() as int] == c);
        assert(k[x1.len() as int] == x2[x1.len() as int]);
    } else if x2.len() < x1.len() {
        assert(k[x2.len() as int] == c);
        assert(k[x2.len() as int] == x1[x2.len() as int]);
    }
    assert(x1 =~= k.take(x1.len() as int));
    assert(x2 =~= k.take(x2.len() as int));
    assert(r1 =~= k.skip(x1.len() + 1int));
    assert(r2 =~= k.skip(x2.len() + 1int));
}

/// The call-site key of `trace_changed_with_location` tells call sites apart: for files
/// without `:`, two locations give the same key on a channel only when they name the same
/// file, line and function.
pub proof fn lemma_site_key_tells_sites_apart(l1: SourceLocation, l2: SourceLocation, channel: Seq<char>)
    requires
        forall|i: int| 0 <= i < l1.file@.len() ==> l1.file@[i] != ':',
        forall|i: int| 0 <= i < l2.file@.len() ==> l2.file@[i] != ':',
        site_key_spec(l1, channel) == site_key_spec(l2, channel),
    ensures
        l1.file@ == l2.file@,
        l1.line == l2.line,
        l1.function@ == l2.function@,
{
    reveal_strlit(":");
    let d1 = decimal_spec(l1.line as nat);
    let d2 = decimal_spec(l2.line as nat);
    let t1 = l1.function@ + seq![':'] + channel;
    let t2 = l2.function@ + seq![':'] + channel;
    assert(site_key_spec(l1, channel) =~= l1.file@ + seq![':'] + (d1 + seq![':'] + t1));
    assert(site_key_spec(l2, channel) =~= l2.file@ + seq![':'] + (d2 + seq![':'] + t2));
    lemma_cut_at_first(l1.file@, d1 + seq![':'] + t1, l2.file@, d2 + seq![':'] + t2, ':');
    lemma_decimal_digits(l1.line as nat);
    lemma_decimal_digits(l2.line as nat);
    lemma_cut_at_first(d1, t1, d2, t2, ':');
    lemma_decimal_injective(l1.line as nat, l2.line as nat);
    let f1 = l1.function@;
    let f2 = l2.function@;
    assert(f1.len() == f2.len());
    assert(f1 =~= t1.take(f1.len() as int));
    assert(f2 =~= t2.take(f2.len() as int));
}


/// A name is listed exactly when some entry's namespace and one of its channels make it.
proof fn lemma_qualified_listing_members(listing: Seq<(Seq<char>, Seq<Seq<char>>)>, x: Seq<char>)
    ensures
        qualified_listing(listing).contains(x) <==> exists|k: int, j: int|
            0 <= k < listing.len() && 0 <= j < listing[k].1.len() && x == #[trigger] listing[k].0 + "."@ + #[trigger] listing[k].1[j],
    decreases listing.len(),
{
    if listing.len() > 0 {
        let init = listing.drop_last();
        let last = listing.last();
        lemma_qualified_listing_members(init, x);
        let a = qualified_listing(init);
        let b = last.1.map_values(|c: Seq<char>| last.0 + "."@ + c);
        assert(qualified_listing(listing) == a + b);
        if qualified_listing(listing).contains(x) {
            let i = choose|i: int| 0 <= i < (a + b).len() && (a + b)[i] == x;
            if i < a.len() {
                assert(a.contains(x));
                let (k, j) = choose|k: int, j: int|
                    0 <= k < init.len() && 0 <= j < init[k].1.len() && x == #[trigger] init[k].0 + "."@ + #[trigger] init[k].1[j];
                assert(listing[k] == init[k]);
                assert(x == listing[k].0 + "."@ + listing[k].1[j]);
            } else {
                let j = i - a.len();
                assert(b[j] == x);
                let k = listing.len() - 1;
                assert(x == listing[k].0 + "."@ + listing[k].1[j]);
            }
        }
        if exists|k: int, j: int|
            0 <= k < listing.len() && 0 <= j < listing[k].1.len() && x == #[trigger] listing[k].0 + "."@ + #[trigger] listing[k].1[j] {
            let (k, j) = choose|k: int, j: int|
                0 <= k < listing.len() && 0 <= j < listing[k].1.len() && x == #[trigger] listing[k].0 + "."@ + #[trigger] listing[k].1[j];
            if k < init.len() {
                assert(init[k] == listing[k]);
                assert(x == init[k].0 + "."@ + init[k].1[j]);
                assert(a.contains(x));
                let i = choose|i: int| 0 <= i < a.len() && a[i] == x;
                assert((a + b)[i] == x);
            } else {
                assert(b[j] == x);
                assert((a + b)[a.len() + j] == x);
            }
        }
    }
}

/// The `--<root>-channels` listing of a logger names every registered channel under its own
/// namespace and nothing else: a name is listed exactly when it is `ns.c` for a listed
/// namespace `ns` and a channel `c` registered in it.
pub proof fn lemma_channel_listing_names(v: LoggerView, listing: Seq<(Seq<char>, Seq<Seq<char>>)>, x: Seq<char>)
    requires
        listing_of(v, listing),
    ensures
        qualified_listing(listing).contains(x) <==> exists|ns: Seq<char>, c: Seq<char>|
            v.namespaces.contains(ns) && #[trigger] v.channels.dom().contains((ns, c)) && x == ns + "."@ + c,
{
    lemma_qualified_listing_members(listing, x);
    let names = listing.map_values(|e: (Seq<char>, Seq<Seq<char>>)| e.0);
    if qualified_listing(listing).contains(x) {
        let (k, j) = choose|k: int, j: int|
            0 <= k < listing.len() && 0 <= j < listing[k].1.len() && x == #[trigger] listing[k].0 + "."@ + #[trigger] listing[k].1[j];
        let ns = listing[k].0;
        let c = listing[k].1[j];
        assert(names[k] == ns);
        assert(names.to_set().contains(ns));
        assert(listing[k].1.to_set().contains(c));
        assert(crate::ktrace::registry::channels_of(v.channels, ns).contains(c));
        assert(v.channels.dom().contains((ns, c)));
    }
    if exists|ns: Seq<char>, c: Seq<char>|
        v.namespaces.contains(ns) && #[trigger] v.channels.dom().contains((ns, c)) && x == ns + "."@ + c {
        let (ns, c) = choose|ns: Seq<char>, c: Seq<char>|
            v.namespaces.contains(ns) && #[trigger] v.channels.dom().contains((ns, c)) && x == ns + "."@ + c;
        assert(names.to_set().contains(ns));
        let k = choose|k: int| 0 <= k < names.len() && names[k] == ns;
        assert(listing[k].0 == ns);
        assert(crate::ktrace::registry::channels_of(v.channels, ns).contains(c));
        assert(listing[k].1.to_set().contains(c));
        let j = choose|j: int| 0 <= j < listing[k].1.len() && listing[k].1[j] == c;
        assert(x == listing[k].0 + "."@ + listing[k].1[j]);
    }
}


/// With file names and function names shown, a source location whose file and function
/// label are not empty shows the function label last, whether or not line numbers are
/// shown: the source part is `[<file label>` then the line (when shown), then
/// `:<function label>]`.
pub proof fn lemma_source_part_shows_function(options: OutputOptions, file: Seq<char>, line: u32, function: Seq<char>)
    requires
        options.filenames,
        options.function_names,
        file.len() > 0,
        function_label_spec(function).len() > 0,
    ensures
        source_part_spec(options, file, line, function) matches Some(p) && {
            let label = function_label_spec(function);
            &&& p.len() >= label.len() + 2
            &&& p.subrange(p.len() - label.len() - 2, p.len() as int) == ":"@ + label + "]"@
            &&& p.subrange(0, source_label_spec(file).len() + 1int) == "["@ + source_label_spec(file)
        },
{
    reveal_strlit(":");
    reveal_strlit("]");
    reveal_strlit("[");
    let label = function_label_spec(function);
    let p = source_part_spec(options, file, line, function)->Some_0;
    let with_line = if options.line_numbers && line > 0 {
        "["@ + source_label_spec(file) + ":"@ + decimal_spec(line as nat)
    } else {
        "["@ + source_label_spec(file)
    };
    assert(p == with_line + ":"@ + label + "]"@);
    assert(p.subrange(p.len() - label.len() - 2, p.len() as int) =~= ":"@ + label + "]"@);
    assert(p.subrange(0, source_label_spec(file).len() + 1int) =~= "["@ + source_label_spec(file));
}

} // verus!
