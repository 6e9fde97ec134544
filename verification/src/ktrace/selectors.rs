//! Channel names and selector expressions: `namespace.channel[.sub[.sub]]`, `*` wildcards,
//! `{a,b}` alternatives and comma-separated lists.
use vstd::prelude::*;
use crate::kcli::model::{lemma_strings_view_push, strings_view};
use crate::ktrace::model::{trace_err, Selector, SelectorView, TraceError, DEFAULT_COLOR};
use crate::text::{to_chars, trim_spec, string_of, string_of_all};

verus! {

/// A character allowed in namespaces and channel names.
pub open spec fn is_ident_char(c: char) -> bool {
    ||| 'a' <= c <= 'z'
    ||| 'A' <= c <= 'Z'
    ||| '0' <= c <= '9'
    ||| c == '_'
    ||| c == '-'
}

/// A non-empty run of ASCII letters, digits, `_` and `-`.
pub open spec fn is_identifier(s: Seq<char>) -> bool {
    s.len() > 0 && forall|i: int| 0 <= i < s.len() ==> is_ident_char(#[trigger] s[i])
}

pub fn is_ident_char_exec(c: char) -> (r: bool)
    ensures
        r == is_ident_char(c),
{
    ('a' <= c && c <= 'z') || ('A' <= c && c <= 'Z') || ('0' <= c && c <= '9') || c == '_' || c
        == '-'
}

pub fn is_identifier_chars(s: &[char]) -> (r: bool)
    ensures
        r == is_identifier(s@),
{
    if s.len() == 0 {
        return false;
    }
    let mut i: usize = 0;
    while i < s.len()
        invariant
            i <= s@.len(),
            forall|k: int| 0 <= k < i ==> is_ident_char(#[trigger] s@[k]),
        decreases s@.len() - i,
    {
        if !is_ident_char_exec(s[i]) {
            return false;
        }
        i = i + 1;
    }
    true
}

/// Whether `token` is a valid namespace or channel name.
pub fn is_selector_identifier(token: &str) -> (r: bool)
    ensures
        r == is_identifier(token@),
{
    let chars = to_chars(token);
    is_identifier_chars(chars.as_slice())
}

/// `str::split(sep)`: the pieces between separators, empty ones included.
pub open spec fn split_spec(s: Seq<char>, sep: char) -> Seq<Seq<char>>
    decreases s.len(),
{
    if s.len() == 0 {
        seq![Seq::empty()]
    } else {
        let p = split_spec(s.drop_last(), sep);
        if s.last() == sep {
            p.push(Seq::empty())
        } else {
            p.update(p.len() - 1, p.last().push(s.last()))
        }
    }
}

pub proof fn lemma_split_nonempty(s: Seq<char>, sep: char)
    ensures
        split_spec(s, sep).len() >= 1,
    decreases s.len(),
{
    if s.len() > 0 {
        lemma_split_nonempty(s.drop_last(), sep);
    }
}

/// The pieces of `s` between the separators `sep`.
pub fn split_chars(s: &[char], sep: char) -> (r: Vec<Vec<char>>)
    ensures
        r@.map_values(|v: Vec<char>| v@) == split_spec(s@, sep),
{
    let mut parts: Vec<Vec<char>> = Vec::new();
    let mut cur: Vec<char> = Vec::new();
    let mut i: usize = 0;
    proof {
        assert(s@.take(0) =~= Seq::<char>::empty());
        assert(parts@.map_values(|v: Vec<char>| v@).push(cur@) =~= split_spec(s@.take(0), sep));
    }
    while i < s.len()
        invariant
            i <= s@.len(),
            parts@.map_values(|v: Vec<char>| v@).push(cur@) == split_spec(s@.take(i as int), sep),
        decreases s@.len() - i,
    {
        let c = s[i];
        let ghost before = parts@.map_values(|v: Vec<char>| v@);
        let ghost cur_before = cur@;
        proof {
            assert(s@.take(i as int + 1).drop_last() =~= s@.take(i as int));
            assert(s@.take(i as int + 1).last() == c);
        }
        if c == sep {
            parts.push(cur);
            cur = Vec::new();
            proof {
                assert(parts@.map_values(|v: Vec<char>| v@) =~= before.push(cur_before));
                assert(parts@.map_values(|v: Vec<char>| v@).push(cur@) =~= split_spec(
                    s@.take(i as int + 1),
                    sep,
                ));
            }
        } else {
            cur.push(c);
            proof {
                assert(parts@.map_values(|v: Vec<char>| v@).push(cur@) =~= before.push(
                    cur_before,
                ).update(before.len() as int, cur_before.push(c)));
            }
        }
        i = i + 1;
    }
    proof {
        assert(s@.take(i as int) =~= s@);
    }
    let ghost before = parts@.map_values(|v: Vec<char>| v@);
    parts.push(cur);
    assert(parts@.map_values(|v: Vec<char>| v@) =~= before.push(cur@));
    parts
}

/// A channel path: one to three names separated by `.`.
pub open spec fn channel_path_spec(s: Seq<char>) -> Option<Seq<Seq<char>>> {
    let t = split_spec(s, '.');
    if s.len() == 0 || t.len() > 3 || exists|i: int| 0 <= i < t.len() && !is_identifier(#[trigger] t[i]) {
        None
    } else {
        Some(t)
    }
}

/// Text without the separator splits into itself alone.
pub proof fn lemma_split_without_sep(s: Seq<char>, sep: char)
    requires
        forall|i: int| 0 <= i < s.len() ==> s[i] != sep,
    ensures
        split_spec(s, sep) == seq![s],
    decreases s.len(),
{
    if s.len() > 0 {
        lemma_split_without_sep(s.drop_last(), sep);
        let p = split_spec(s.drop_last(), sep);
        assert(s.drop_last().push(s.last()) =~= s);
        assert(p.last() == s.drop_last());
        assert(p.update(p.len() - 1, p.last().push(s.last())) =~= seq![s]);
    } else {
        assert(s =~= Seq::<char>::empty());
    }
}

/// A single name is a channel path of depth one.
pub proof fn lemma_single_name_path(s: Seq<char>)
    requires
        is_identifier(s),
    ensures
        channel_path_spec(s) == Some(seq![s]),
{
    assert forall|i: int| 0 <= i < s.len() implies s[i] != '.' by {
        assert(is_ident_char(s[i]));
    }
    lemma_split_without_sep(s, '.');
}

/// The names of the channel path `channel`, or `None` when it is not one.
pub fn split_channel_path(channel: &str) -> (r: Option<Vec<String>>)
    ensures
        match channel_path_spec(channel@) {
            Some(t) => r matches Some(v) && strings_view(v@) == t,
            None => r is None,
        },
{
    let chars = to_chars(channel);
    if chars.len() == 0 {
        return None;
    }
    let parts = split_chars(chars.as_slice(), '.');
    let ghost t = split_spec(channel@, '.');
    assert(parts@.len() == t.len());
    if parts.len() > 3 {
        return None;
    }
    let mut out: Vec<String> = Vec::new();
    let mut i: usize = 0;
    while i < parts.len()
        invariant
            parts@.map_values(|v: Vec<char>| v@) == t,
            t == split_spec(channel@, '.'),
            channel@.len() > 0,
            i <= parts@.len(),
            forall|k: int| 0 <= k < i ==> is_identifier(#[trigger] t[k]),
            strings_view(out@) == t.take(i as int),
        decreases parts@.len() - i,
    {
        assert(t[i as int] == parts@[i as int]@);
        if !is_identifier_chars(parts[i].as_slice()) {
            return None;
        }
        let s = string_of_all(parts[i].as_slice());
        proof {
            lemma_strings_view_push(out@, s);
        }
        out.push(s);
        assert(strings_view(out@) =~= t.take(i as int + 1));
        i = i + 1;
    }
    assert(t.take(i as int) =~= t);
    Some(out)
}

/// Whether `channel` is a channel path.
pub fn is_valid_channel_path(channel: &str) -> (r: bool)
    ensures
        r == channel_path_spec(channel@) is Some,
{
    split_channel_path(channel).is_some()
}

/// `namespace.channel`, or empty when either part is empty.
pub open spec fn qualified_key_spec(trace_namespace: Seq<char>, channel: Seq<char>) -> Seq<char> {
    if trace_namespace.len() == 0 || channel.len() == 0 {
        Seq::empty()
    } else {
        trace_namespace + "."@ + channel
    }
}

pub fn make_qualified_channel_key(trace_namespace: &str, channel: &str) -> (r: String)
    ensures
        r@ == qualified_key_spec(trace_namespace@, channel@),
{
    if trace_namespace.unicode_len() == 0 || channel.unicode_len() == 0 {
        return String::new();
    }
    crate::text::concat3(trace_namespace, ".", channel)
}

/// The state of a left-to-right scan for top-level commas.
pub struct CommaScan {
    /// Finished pieces, trimmed.
    pub parts: Seq<Seq<char>>,
    /// The piece being read.
    pub cur: Seq<char>,
    /// How many `{` are open.
    pub depth: nat,
    /// A `}` closed nothing.
    pub unmatched_close: bool,
}

pub open spec fn comma_scan(s: Seq<char>) -> CommaScan
    decreases s.len(),
{
    if s.len() == 0 {
        CommaScan { parts: Seq::empty(), cur: Seq::empty(), depth: 0, unmatched_close: false }
    } else {
        let st = comma_scan(s.drop_last());
        let c = s.last();
        if st.unmatched_close {
            st
        } else if c == '{' {
            CommaScan { cur: st.cur.push(c), depth: st.depth + 1, ..st }
        } else if c == '}' {
            if st.depth == 0 {
                CommaScan { unmatched_close: true, ..st }
            } else {
                CommaScan { cur: st.cur.push(c), depth: (st.depth - 1) as nat, ..st }
            }
        } else if c == ',' && st.depth == 0 {
            CommaScan { parts: st.parts.push(trim_spec(st.cur)), cur: Seq::empty(), ..st }
        } else {
            CommaScan { cur: st.cur.push(c), ..st }
        }
    }
}

/// The trimmed pieces of `s` between commas outside braces, or why the braces do not match.
pub open spec fn split_commas_spec(s: Seq<char>) -> Result<Seq<Seq<char>>, Seq<char>> {
    let st = comma_scan(s);
    if st.unmatched_close {
        Err("unmatched '}'"@)
    } else if st.depth != 0 {
        Err("unmatched '{'"@)
    } else {
        Ok(st.parts.push(trim_spec(st.cur)))
    }
}

proof fn lemma_comma_scan_lengths(s: Seq<char>)
    ensures
        comma_scan(s).cur.len() <= s.len(),
        forall|k: int| 0 <= k < comma_scan(s).parts.len() ==> #[trigger] comma_scan(s).parts[k].len() <= s.len(),
    decreases s.len(),
{
    if s.len() > 0 {
        lemma_comma_scan_lengths(s.drop_last());
        let st = comma_scan(s.drop_last());
        crate::text::lemma_trim_len(st.cur);
    }
}

/// The pieces of `split_commas_spec` are no longer than the text.
pub proof fn lemma_split_commas_lengths(s: Seq<char>)
    ensures
        split_commas_spec(s) matches Ok(parts) ==> forall|k: int| 0 <= k < parts.len() ==> #[trigger] parts[k].len() <= s.len(),
{
    lemma_comma_scan_lengths(s);
    crate::text::lemma_trim_len(comma_scan(s).cur);
}

/// Splits `value` at the commas outside braces; each piece is trimmed.
pub fn split_by_top_level_commas(value: &[char]) -> (r: Result<Vec<String>, String>)
    ensures
        match split_commas_spec(value@) {
            Ok(parts) => r matches Ok(v) && strings_view(v@) == parts,
            Err(m) => r matches Err(e) && e@ == m,
        },
{
    proof {
        reveal_strlit("unmatched '}'");
        reveal_strlit("unmatched '{'");
    }
    let mut parts: Vec<String> = Vec::new();
    let mut cur: Vec<char> = Vec::new();
    let mut depth: usize = 0;
    let mut i: usize = 0;
    assert(value@.take(0) =~= Seq::<char>::empty());
    while i < value.len()
        invariant
            i <= value@.len(),
            depth <= i,
            ({
                let st = comma_scan(value@.take(i as int));
                &&& !st.unmatched_close
                &&& strings_view(parts@) == st.parts
                &&& cur@ == st.cur
                &&& depth == st.depth
            }),
        decreases value@.len() - i,
    {
        let c = value[i];
        proof {
            assert(value@.take(i as int + 1).drop_last() =~= value@.take(i as int));
            assert(value@.take(i as int + 1).last() == c);
        }
        if c == '{' {
            cur.push(c);
            depth = depth + 1;
        } else if c == '}' {
            if depth == 0 {
                proof {
                    lemma_comma_scan_stuck(value@, i as int + 1);
                }
                return Err(String::from_str("unmatched '}'"));
            }
            cur.push(c);
            depth = depth - 1;
        } else if c == ',' && depth == 0 {
            let piece = string_of_all(crate::text::trim_chars(cur.as_slice()).as_slice());
            proof {
                lemma_strings_view_push(parts@, piece);
            }
            parts.push(piece);
            cur = Vec::new();
        } else {
            cur.push(c);
        }
        i = i + 1;
    }
    assert(value@.take(i as int) =~= value@);
    if depth != 0 {
        return Err(String::from_str("unmatched '{'"));
    }
    let last = string_of_all(crate::text::trim_chars(cur.as_slice()).as_slice());
    proof {
        lemma_strings_view_push(parts@, last);
    }
    parts.push(last);
    Ok(parts)
}

/// Once a `}` has closed nothing, the scan stays stopped.
proof fn lemma_comma_scan_stuck(s: Seq<char>, i: int)
    requires
        0 <= i <= s.len(),
        comma_scan(s.take(i)).unmatched_close,
    ensures
        comma_scan(s).unmatched_close,
    decreases s.len() - i,
{
    if i < s.len() {
        assert(s.take(i + 1).drop_last() =~= s.take(i));
        lemma_comma_scan_stuck(s, i + 1);
    } else {
        assert(s.take(i) =~= s);
    }
}

/// The first position at or after `i` holding `c`.
pub open spec fn find_char(s: Seq<char>, c: char, i: int) -> Option<int>
    decreases s.len() - i,
{
    if i < 0 || i >= s.len() {
        None
    } else if s[i] == c {
        Some(i)
    } else {
        find_char(s, c, i + 1)
    }
}

/// Scanning from `i` with `depth` braces open: where the count first falls back to zero.
pub open spec fn close_brace(s: Seq<char>, i: int, depth: int) -> Option<int>
    decreases s.len() - i,
{
    if i < 0 || i >= s.len() {
        None
    } else if s[i] == '{' {
        close_brace(s, i + 1, depth + 1)
    } else if s[i] == '}' {
        if depth - 1 == 0 {
            Some(i)
        } else {
            close_brace(s, i + 1, depth - 1)
        }
    } else {
        close_brace(s, i + 1, depth)
    }
}

/// The expansions of `prefix + a + suffix` for each alternative `a`, in order; `n` bounds
/// the length of what is expanded.
pub open spec fn expand_alts(prefix: Seq<char>, alts: Seq<Seq<char>>, suffix: Seq<char>, n: int) -> Result<
    Seq<Seq<char>>,
    Seq<char>,
>
    decreases n, alts.len(),
{
    if alts.len() == 0 {
        Ok(Seq::empty())
    } else if alts[0].len() == 0 {
        Err("empty brace alternative"@)
    } else {
        let combined = prefix + alts[0] + suffix;
        if combined.len() >= n {
            Err(Seq::empty())
        } else {
            match expand_spec(combined) {
                Err(m) => Err(m),
                Ok(e) => match expand_alts(prefix, alts.drop_first(), suffix, n) {
                    Err(m) => Err(m),
                    Ok(rest) => Ok(e + rest),
                },
            }
        }
    }
}

/// Brace expansion: the first `{...}` group is replaced by each of its comma-separated
/// alternatives in turn, and the results are expanded again.
/// Where the search for the closing brace starts: at the character whose index is the
/// number of UTF-8 bytes before the opening brace at `open` (the opening brace itself when
/// everything before it is ASCII).
pub open spec fn brace_scan_start(v: Seq<char>, open: int) -> int {
    crate::kcli::process::help::utf8_len(v.take(open)) as int
}

pub open spec fn expand_spec(v: Seq<char>) -> Result<Seq<Seq<char>>, Seq<char>>
    decreases v.len(), 0int,
{
    match find_char(v, '{', 0) {
        None => Ok(seq![v]),
        Some(open) => match close_brace(v, brace_scan_start(v, open), 0) {
            None => Err("unmatched '{'"@),
            Some(close) => {
                if close <= open || close >= v.len() {
                    Err(Seq::empty())
                } else {
                    let inside = v.subrange(open + 1, close);
                    if inside.len() == 0 {
                        Err("empty brace group"@)
                    } else {
                        match split_commas_spec(inside) {
                            Err(m) => Err(m),
                            Ok(alts) => expand_alts(
                                v.take(open),
                                alts,
                                v.skip(close + 1),
                                v.len() - 1,
                            ),
                        }
                    }
                }
            },
        },
    }
}

proof fn lemma_find_char_bounds(s: Seq<char>, c: char, i: int)
    requires
        0 <= i,
    ensures
        find_char(s, c, i) matches Some(k) ==> i <= k < s.len() && s[k] == c,
    decreases s.len() - i,
{
    if i < s.len() && s[i] != c {
        lemma_find_char_bounds(s, c, i + 1);
    }
}

proof fn lemma_close_brace_bounds(s: Seq<char>, i: int, depth: int)
    requires
        0 <= i,
    ensures
        close_brace(s, i, depth) matches Some(k) ==> i <= k < s.len(),
    decreases s.len() - i,
{
    if 0 <= i < s.len() {
        lemma_close_brace_bounds(s, i + 1, depth + 1);
        lemma_close_brace_bounds(s, i + 1, depth - 1);
        lemma_close_brace_bounds(s, i + 1, depth);
    }
}

/// `a`, `b` and `c` one after another.
pub fn concat_chars3(a: &[char], b: &[char], c: &[char]) -> (r: Vec<char>)
    ensures
        r@ == a@ + b@ + c@,
{
    let mut r: Vec<char> = Vec::new();
    let mut i: usize = 0;
    while i < a.len()
        invariant
            i <= a@.len(),
            r@ == a@.take(i as int),
        decreases a@.len() - i,
    {
        r.push(a[i]);
        i = i + 1;
        assert(r@ =~= a@.take(i as int));
    }
    assert(a@.take(i as int) =~= a@);
    let mut j: usize = 0;
    while j < b.len()
        invariant
            j <= b@.len(),
            r@ == a@ + b@.take(j as int),
        decreases b@.len() - j,
    {
        r.push(b[j]);
        j = j + 1;
        assert(r@ =~= a@ + b@.take(j as int));
    }
    assert(b@.take(j as int) =~= b@);
    let mut k: usize = 0;
    while k < c.len()
        invariant
            k <= c@.len(),
            r@ == a@ + b@ + c@.take(k as int),
        decreases c@.len() - k,
    {
        r.push(c[k]);
        k = k + 1;
        assert(r@ =~= a@ + b@ + c@.take(k as int));
    }
    assert(c@.take(k as int) =~= c@);
    r
}

pub fn slice_to_vec(v: &[char], from: usize, to: usize) -> (r: Vec<char>)
    requires
        from <= to <= v@.len(),
    ensures
        r@ == v@.subrange(from as int, to as int),
{
    let mut r: Vec<char> = Vec::new();
    let mut i = from;
    while i < to
        invariant
            from <= i <= to,
            to <= v@.len(),
            r@ == v@.subrange(from as int, i as int),
        decreases to - i,
    {
        r.push(v[i]);
        i = i + 1;
        assert(r@ =~= v@.subrange(from as int, i as int));
    }
    r
}

/// `r` is the expansion `prefix` put before the expansion `rest`.
pub open spec fn prepend(prefix: Seq<Seq<char>>, rest: Result<Seq<Seq<char>>, Seq<char>>) -> Result<
    Seq<Seq<char>>,
    Seq<char>,
> {
    match rest {
        Ok(v) => Ok(prefix + v),
        Err(m) => Err(m),
    }
}

/// Expands the brace groups of `value`; see `expand_spec`.
pub fn expand_brace_expression(value: &[char]) -> (r: Result<Vec<String>, String>)
    ensures
        match expand_spec(value@) {
            Ok(items) => r matches Ok(v) && strings_view(v@) == items,
            Err(m) => r matches Err(e) && e@ == m,
        },
    decreases value@.len(),
{
    proof {
        reveal_strlit("unmatched '{'");
        reveal_strlit("empty brace group");
        reveal_strlit("empty brace alternative");
    }
    let mut open: usize = 0;
    while open < value.len() && value[open] != '{'
        invariant
            open <= value@.len(),
            find_char(value@, '{', 0) == find_char(value@, '{', open as int),
        decreases value@.len() - open,
    {
        open = open + 1;
    }
    if open == value.len() {
        let mut out: Vec<String> = Vec::new();
        let whole = string_of_all(value);
        proof {
            lemma_strings_view_push(out@, whole);
        }
        out.push(whole);
        assert(strings_view(out@) =~= seq![value@]);
        return Ok(out);
    }
    let before = crate::text::string_of(value, 0, open);
    let start: usize = before.as_str().len();
    assert(start as int == brace_scan_start(value@, open as int));
    if start >= value.len() {
        return Err(String::from_str("unmatched '{'"));
    }
    let mut depth: i128 = 0;
    let mut k: usize = start;
    let mut close: usize = value.len();
    while k < value.len()
        invariant_except_break
            close == value@.len(),
            close_brace(value@, start as int, 0) == close_brace(value@, k as int, depth as int),
        invariant
            start < value@.len(),
            start <= k <= value@.len(),
            -(k - start) <= depth <= k - start,
        ensures
            close <= value@.len(),
            close < value@.len() ==> close_brace(value@, start as int, 0) == Some(close as int),
            close == value@.len() ==> close_brace(value@, start as int, 0) is None,
        decreases value@.len() - k,
    {
        let c = value[k];
        if c == '{' {
            depth = depth + 1;
        } else if c == '}' {
            if depth == 1 {
                close = k;
                break;
            }
            depth = depth - 1;
        }
        k = k + 1;
    }
    if close == value.len() {
        return Err(String::from_str("unmatched '{'"));
    }
    proof {
        lemma_close_brace_bounds(value@, start as int, 0);
    }
    if close <= open {
        return Err(String::new());
    }
    assert(open < close < value@.len());
    if close == open + 1 {
        return Err(String::from_str("empty brace group"));
    }
    let inside = slice_to_vec(value, open + 1, close);
    let prefix = slice_to_vec(value, 0, open);
    let suffix = slice_to_vec(value, close + 1, value.len());
    assert(prefix@ =~= value@.take(open as int));
    assert(suffix@ =~= value@.skip(close as int + 1));
    let alts = match split_by_top_level_commas(inside.as_slice()) {
        Ok(a) => a,
        Err(e) => {
            return Err(e);
        },
    };
    let ghost alts_v = strings_view(alts@);
    let ghost n = value@.len() - 1;
    proof {
        lemma_split_commas_lengths(inside@);
    }
    assert(find_char(value@, '{', open as int) == Some(open as int));
    assert(inside@ == value@.subrange(open as int + 1, close as int));
    assert(expand_spec(value@) == expand_alts(prefix@, alts_v, suffix@, n));
    let mut expanded: Vec<String> = Vec::new();
    let mut j: usize = 0;
    assert(alts_v.skip(0) =~= alts_v);
    assert(strings_view(expanded@) =~= Seq::<Seq<char>>::empty());
    assert(prepend(Seq::empty(), expand_alts(prefix@, alts_v, suffix@, n)) =~~= expand_alts(prefix@, alts_v, suffix@, n)) by {
        match expand_alts(prefix@, alts_v, suffix@, n) {
            Ok(v) => {
                assert(Seq::<Seq<char>>::empty() + v =~= v);
            },
            Err(_) => {},
        }
    }
    while j < alts.len()
        invariant
            alts_v == strings_view(alts@),
            n == value@.len() - 1,
            expand_spec(value@) == expand_alts(prefix@, alts_v, suffix@, n),
            j <= alts@.len(),
            inside@.len() + 2 + prefix@.len() + suffix@.len() == value@.len(),
            forall|x: int| 0 <= x < alts_v.len() ==> #[trigger] alts_v[x].len() <= inside@.len(),
            expand_alts(prefix@, alts_v, suffix@, n) == prepend(
                strings_view(expanded@),
                expand_alts(prefix@, alts_v.skip(j as int), suffix@, n),
            ),
        decreases alts@.len() - j,
    {
        let ghost rest = alts_v.skip(j as int);
        assert(rest[0] == alts_v[j as int]);
        assert(alts_v[j as int] == alts@[j as int]@);
        let alt_chars = to_chars(alts[j].as_str());
        if alt_chars.len() == 0 {
            return Err(String::from_str("empty brace alternative"));
        }
        let combined = concat_chars3(prefix.as_slice(), alt_chars.as_slice(), suffix.as_slice());
        let sub = match expand_brace_expression(combined.as_slice()) {
            Ok(v) => v,
            Err(e) => {
                return Err(e);
            },
        };
        proof {
            assert(rest.drop_first() =~= alts_v.skip(j as int + 1));
            let tail = expand_alts(prefix@, alts_v.skip(j as int + 1), suffix@, n);
            match tail {
                Ok(t) => {
                    assert(strings_view(expanded@) + (strings_view(sub@) + t) =~= (strings_view(expanded@) + strings_view(sub@)) + t);
                },
                Err(_) => {},
            }
        }
        let mut q: usize = 0;
        let ghost base = strings_view(expanded@);
        while q < sub.len()
            invariant
                q <= sub@.len(),
                strings_view(expanded@) == base + strings_view(sub@).take(q as int),
            decreases sub@.len() - q,
        {
            let item = sub[q].clone();
            proof {
                lemma_strings_view_push(expanded@, item);
            }
            expanded.push(item);
            q = q + 1;
            assert(strings_view(expanded@) =~= base + strings_view(sub@).take(q as int));
        }
        assert(strings_view(sub@).take(q as int) =~= strings_view(sub@));
        j = j + 1;
    }
    proof {
        assert(alts_v.skip(j as int) =~= Seq::<Seq<char>>::empty());
        assert(strings_view(expanded@) + Seq::<Seq<char>>::empty() =~= strings_view(expanded@));
    }
    Ok(expanded)
}

pub open spec fn star() -> Seq<char> {
    "*"@
}

/// The trimmed pieces of `s` between dots.
pub open spec fn dot_tokens(s: Seq<char>) -> Seq<Seq<char>> {
    split_spec(s, '.').map_values(|t: Seq<char>| trim_spec(t))
}

/// A channel token of a selector: `*` or a name.
pub open spec fn is_pattern_token(t: Seq<char>) -> bool {
    t == star() || is_identifier(t)
}

/// The channel part of a selector: its tokens, and whether it is `*.*` (which also takes
/// top-level channels).
pub open spec fn channel_pattern_spec(e: Seq<char>) -> Result<(Seq<Seq<char>>, bool), Seq<char>> {
    let tokens = dot_tokens(e);
    if e.len() == 0 {
        Err("missing channel expression"@)
    } else if tokens.len() > 3 {
        Err("channel depth exceeds 3"@)
    } else if exists|i: int| 0 <= i < tokens.len() && !is_pattern_token(#[trigger] tokens[i]) {
        Err("invalid channel token"@)
    } else {
        Ok((tokens, tokens.len() == 2 && tokens[0] == star() && tokens[1] == star()))
    }
}

pub fn is_star(t: &[char]) -> (r: bool)
    ensures
        r == (t@ == star()),
{
    proof {
        reveal_strlit("*");
    }
    let r = t.len() == 1 && t[0] == '*';
    assert(r ==> t@ =~= star());
    r
}

pub fn parse_selector_channel_pattern(expression: &[char]) -> (r: Result<(Vec<String>, bool), String>)
    ensures
        match channel_pattern_spec(expression@) {
            Ok((tokens, top)) => r matches Ok((v, b)) && strings_view(v@) == tokens && b == top,
            Err(m) => r matches Err(e) && e@ == m,
        },
{
    proof {
        reveal_strlit("missing channel expression");
        reveal_strlit("channel depth exceeds 3");
        reveal_strlit("invalid channel token");
    }
    if expression.len() == 0 {
        return Err(String::from_str("missing channel expression"));
    }
    let parts = split_chars(expression, '.');
    let ghost tokens = dot_tokens(expression@);
    assert(parts@.len() == tokens.len());
    if parts.len() > 3 {
        return Err(String::from_str("channel depth exceeds 3"));
    }
    let mut out: Vec<String> = Vec::new();
    let mut i: usize = 0;
    while i < parts.len()
        invariant
            parts@.map_values(|v: Vec<char>| v@) == split_spec(expression@, '.'),
            tokens == dot_tokens(expression@),
            expression@.len() > 0,
            tokens.len() <= 3,
            i <= parts@.len(),
            forall|k: int| 0 <= k < i ==> is_pattern_token(#[trigger] tokens[k]),
            strings_view(out@) == tokens.take(i as int),
        decreases parts@.len() - i,
    {
        let t = crate::text::trim_chars(parts[i].as_slice());
        assert(t@ == tokens[i as int]);
        if !(is_star(t.as_slice()) || is_identifier_chars(t.as_slice())) {
            return Err(String::from_str("invalid channel token"));
        }
        let s = string_of_all(t.as_slice());
        proof {
            lemma_strings_view_push(out@, s);
        }
        out.push(s);
        assert(strings_view(out@) =~= tokens.take(i as int + 1));
        i = i + 1;
    }
    assert(tokens.take(i as int) =~= tokens);
    let top = out.len() == 2 && str_is_star(out[0].as_str()) && str_is_star(out[1].as_str());
    Ok((out, top))
}

pub fn str_is_star(t: &str) -> (r: bool)
    ensures
        r == (t@ == star()),
{
    let chars = to_chars(t);
    is_star(chars.as_slice())
}

/// The selector `raw` names: `namespace.pattern`, `*.pattern`, or `.pattern` for `local_namespace`.
pub open spec fn selector_spec(raw: Seq<char>, local_namespace: Seq<char>) -> Result<SelectorView, Seq<char>> {
    match find_char(raw, '.', 0) {
        None => Err("did you mean '.*'?"@),
        Some(dot) => {
            let ns = raw.take(dot);
            match channel_pattern_spec(raw.skip(dot + 1)) {
                Err(m) => Err(m),
                Ok((tokens, top)) => {
                    if ns == star() {
                        Ok(SelectorView {
                            any_namespace: true,
                            trace_namespace: Seq::empty(),
                            channel_tokens: tokens,
                            include_top_level: top,
                        })
                    } else if ns.len() == 0 {
                        if is_identifier(trim_spec(local_namespace)) {
                            Ok(SelectorView {
                                any_namespace: false,
                                trace_namespace: trim_spec(local_namespace),
                                channel_tokens: tokens,
                                include_top_level: top,
                            })
                        } else {
                            Err("missing namespace"@)
                        }
                    } else if is_identifier(ns) {
                        Ok(SelectorView {
                            any_namespace: false,
                            trace_namespace: ns,
                            channel_tokens: tokens,
                            include_top_level: top,
                        })
                    } else {
                        Err("invalid namespace '"@ + ns + "'"@)
                    }
                },
            }
        },
    }
}

pub fn find_char_exec(s: &[char], c: char) -> (r: Option<usize>)
    ensures
        r is None <==> find_char(s@, c, 0) is None,
        r matches Some(k) ==> find_char(s@, c, 0) == Some(k as int) && k < s@.len(),
{
    let mut i: usize = 0;
    while i < s.len()
        invariant
            i <= s@.len(),
            find_char(s@, c, 0) == find_char(s@, c, i as int),
        decreases s@.len() - i,
    {
        if s[i] == c {
            return Some(i);
        }
        i = i + 1;
    }
    None
}

/// Parses one selector; see `selector_spec`.
pub fn parse_selector_expression(raw_token: &[char], local_namespace: &str) -> (r: Result<Selector, String>)
    ensures
        match selector_spec(raw_token@, local_namespace@) {
            Ok(sel) => r matches Ok(s) && s.view() == sel,
            Err(m) => r matches Err(e) && e@ == m,
        },
{
    proof {
        reveal_strlit("did you mean '.*'?");
        reveal_strlit("missing namespace");
        reveal_strlit("invalid namespace '");
        reveal_strlit("'");
    }
    let dot = match find_char_exec(raw_token, '.') {
        Some(d) => d,
        None => {
            return Err(String::from_str("did you mean '.*'?"));
        },
    };
    let n = raw_token.len();
    assert(dot < n);
    let ns = slice_to_vec(raw_token, 0, dot);
    let pattern = slice_to_vec(raw_token, dot + 1, n);
    assert(ns@ =~= raw_token@.take(dot as int));
    assert(pattern@ =~= raw_token@.skip(dot as int + 1));
    let (tokens, top) = match parse_selector_channel_pattern(pattern.as_slice()) {
        Ok(p) => p,
        Err(e) => {
            return Err(e);
        },
    };
    if is_star(ns.as_slice()) {
        return Ok(
            Selector {
                any_namespace: true,
                trace_namespace: String::new(),
                channel_tokens: tokens,
                include_top_level: top,
            },
        );
    }
    if ns.len() == 0 {
        let name = crate::text::trim_str(local_namespace);
        if !is_selector_identifier(name.as_str()) {
            return Err(String::from_str("missing namespace"));
        }
        return Ok(
            Selector {
                any_namespace: false,
                trace_namespace: name,
                channel_tokens: tokens,
                include_top_level: top,
            },
        );
    }
    if is_identifier_chars(ns.as_slice()) {
        return Ok(
            Selector {
                any_namespace: false,
                trace_namespace: string_of_all(ns.as_slice()),
                channel_tokens: tokens,
                include_top_level: top,
            },
        );
    }
    let ns_text = string_of_all(ns.as_slice());
    Err(crate::text::concat3("invalid namespace '", ns_text.as_str(), "'"))
}

/// Joins `parts` with `sep` between them.
pub open spec fn join_with(parts: Seq<Seq<char>>, sep: Seq<char>) -> Seq<char>
    decreases parts.len(),
{
    if parts.len() == 0 {
        Seq::empty()
    } else if parts.len() == 1 {
        parts[0]
    } else {
        join_with(parts.drop_last(), sep) + sep + parts.last()
    }
}

pub fn join_strings(parts: &Vec<String>, sep: &str) -> (r: String)
    ensures
        r@ == join_with(strings_view(parts@), sep@),
{
    let mut r = String::new();
    let mut i: usize = 0;
    while i < parts.len()
        invariant
            i <= parts@.len(),
            r@ == join_with(strings_view(parts@).take(i as int), sep@),
        decreases parts@.len() - i,
    {
        proof {
            let t = strings_view(parts@).take(i as int + 1);
            assert(t.drop_last() =~= strings_view(parts@).take(i as int));
            assert(t.last() == parts@[i as int]@);
        }
        if i > 0 {
            r.append(sep);
        } else {
            assert(strings_view(parts@).take(0) =~= Seq::<Seq<char>>::empty());
            assert(r@ =~= Seq::<char>::empty());
        }
        r.append(parts[i].as_str());
        proof {
            if i == 0 {
                assert(r@ =~= parts@[0]@);
            }
        }
        i = i + 1;
    }
    assert(strings_view(parts@).take(i as int) =~= strings_view(parts@));
    r
}

/// How a selector is written back: `namespace.tokens` or `*.tokens`.
pub open spec fn format_selector_spec(sel: SelectorView) -> Seq<char> {
    (if sel.any_namespace {
        star()
    } else {
        sel.trace_namespace
    }) + "."@ + join_with(sel.channel_tokens, "."@)
}

pub fn format_selector(selector: &Selector) -> (r: String)
    ensures
        r@ == format_selector_spec(selector.view()),
{
    let label = if selector.any_namespace {
        String::from_str("*")
    } else {
        selector.trace_namespace.clone()
    };
    let tokens = join_strings(&selector.channel_tokens, ".");
    crate::text::concat3(label.as_str(), ".", tokens.as_str())
}

/// Selectors parsed so far, and the tokens refused so far (with the reason).
pub struct ListScan {
    pub selectors: Seq<SelectorView>,
    pub invalid: Seq<Seq<char>>,
}

pub open spec fn with_reason(item: Seq<char>, reason: Seq<char>) -> Seq<char> {
    item + " ("@ + reason + ")"@
}

pub open spec fn item_step(acc: ListScan, item: Seq<char>, local_namespace: Seq<char>) -> ListScan {
    match selector_spec(item, local_namespace) {
        Ok(sel) => ListScan { selectors: acc.selectors.push(sel), invalid: acc.invalid },
        Err(r) => ListScan { selectors: acc.selectors, invalid: acc.invalid.push(with_reason(item, r)) },
    }
}

pub open spec fn items_fold(acc: ListScan, items: Seq<Seq<char>>, local_namespace: Seq<char>) -> ListScan
    decreases items.len(),
{
    if items.len() == 0 {
        acc
    } else {
        item_step(items_fold(acc, items.drop_last(), local_namespace), items.last(), local_namespace)
    }
}

pub open spec fn list_token_step(acc: ListScan, token: Seq<char>, local_namespace: Seq<char>) -> ListScan {
    let name = trim_spec(token);
    if name.len() == 0 {
        ListScan { selectors: acc.selectors, invalid: acc.invalid.push("<empty>"@) }
    } else {
        match expand_spec(name) {
            Ok(items) => items_fold(acc, items, local_namespace),
            Err(r) => ListScan { selectors: acc.selectors, invalid: acc.invalid.push(with_reason(name, r)) },
        }
    }
}

pub open spec fn tokens_fold(tokens: Seq<Seq<char>>, local_namespace: Seq<char>) -> ListScan
    decreases tokens.len(),
{
    if tokens.len() == 0 {
        ListScan { selectors: Seq::empty(), invalid: Seq::empty() }
    } else {
        list_token_step(tokens_fold(tokens.drop_last(), local_namespace), tokens.last(), local_namespace)
    }
}

pub open spec fn quote_all(items: Seq<Seq<char>>) -> Seq<Seq<char>> {
    items.map_values(|t: Seq<char>| "'"@ + t + "'"@)
}

/// The selectors of a comma-separated list, or the message naming every refused token.
pub open spec fn selector_list_spec(list: Seq<char>, local_namespace: Seq<char>) -> Result<Seq<SelectorView>, Seq<char>> {
    match split_commas_spec(list) {
        Err(r) => Err("invalid trace selector '"@ + list + "' ("@ + r + ")"@),
        Ok(tokens) => {
            let st = tokens_fold(tokens, local_namespace);
            if st.invalid.len() == 0 {
                Ok(st.selectors)
            } else {
                Err("Invalid trace selector(s): "@ + join_with(quote_all(st.invalid), ", "@))
            }
        },
    }
}

pub open spec fn selectors_view(v: Seq<Selector>) -> Seq<SelectorView> {
    v.map_values(|s: Selector| s.view())
}

/// Parses a comma-separated selector list; see `selector_list_spec`.
pub fn parse_selector_list(list: &str, local_namespace: &str) -> (r: Result<Vec<Selector>, TraceError>)
    ensures
        match selector_list_spec(list@, local_namespace@) {
            Ok(sels) => r matches Ok(v) && selectors_view(v@) == sels,
            Err(m) => trace_err(r, m),
        },
{
    proof {
        reveal_strlit("<empty>");
    }
    let list_chars = to_chars(list);
    let tokens = match split_by_top_level_commas(list_chars.as_slice()) {
        Ok(t) => t,
        Err(reason) => {
            let mut m = crate::text::concat3("invalid trace selector '", list, "' (");
            m.append(reason.as_str());
            m.append(")");
            return Err(TraceError::from_string(m));
        },
    };
    let ghost tv = strings_view(tokens@);
    let mut selectors: Vec<Selector> = Vec::new();
    let mut invalid: Vec<String> = Vec::new();
    let mut i: usize = 0;
    assert(tv.take(0) =~= Seq::<Seq<char>>::empty());
    assert(selectors_view(selectors@) =~= Seq::<SelectorView>::empty());
    assert(strings_view(invalid@) =~= Seq::<Seq<char>>::empty());
    while i < tokens.len()
        invariant
            tv == strings_view(tokens@),
            i <= tokens@.len(),
            ({
                let st = tokens_fold(tv.take(i as int), local_namespace@);
                &&& selectors_view(selectors@) == st.selectors
                &&& strings_view(invalid@) == st.invalid
            }),
        decreases tokens@.len() - i,
    {
        let ghost acc = ListScan { selectors: selectors_view(selectors@), invalid: strings_view(invalid@) };
        proof {
            assert(tv.take(i as int + 1).drop_last() =~= tv.take(i as int));
            assert(tv.take(i as int + 1).last() == tokens@[i as int]@);
        }
        let name = crate::text::trim_chars(to_chars(tokens[i].as_str()).as_slice());
        if name.len() == 0 {
            let e = String::from_str("<empty>");
            proof {
                lemma_strings_view_push(invalid@, e);
            }
            invalid.push(e);
        } else {
            match expand_brace_expression(name.as_slice()) {
                Ok(items) => {
                    let ghost iv = strings_view(items@);
                    let mut q: usize = 0;
                    assert(iv.take(0) =~= Seq::<Seq<char>>::empty());
                    while q < items.len()
                        invariant
                            iv == strings_view(items@),
                            q <= items@.len(),
                            ({
                                let st = items_fold(acc, iv.take(q as int), local_namespace@);
                                &&& selectors_view(selectors@) == st.selectors
                                &&& strings_view(invalid@) == st.invalid
                            }),
                        decreases items@.len() - q,
                    {
                        proof {
                            assert(iv.take(q as int + 1).drop_last() =~= iv.take(q as int));
                            assert(iv.take(q as int + 1).last() == items@[q as int]@);
                        }
                        let item = to_chars(items[q].as_str());
                        match parse_selector_expression(item.as_slice(), local_namespace) {
                            Ok(sel) => {
                                let ghost before = selectors@;
                                selectors.push(sel);
                                assert(selectors_view(selectors@) =~= selectors_view(before).push(sel.view()));
                            },
                            Err(reason) => {
                                let mut t = crate::text::concat2(items[q].as_str(), " (");
                                t.append(reason.as_str());
                                t.append(")");
                                proof {
                                    lemma_strings_view_push(invalid@, t);
                                }
                                invalid.push(t);
                            },
                        }
                        q = q + 1;
                    }
                    assert(iv.take(q as int) =~= iv);
                },
                Err(reason) => {
                    let name_text = string_of_all(name.as_slice());
                    let mut t = crate::text::concat2(name_text.as_str(), " (");
                    t.append(reason.as_str());
                    t.append(")");
                    proof {
                        lemma_strings_view_push(invalid@, t);
                    }
                    invalid.push(t);
                },
            }
        }
        i = i + 1;
    }
    assert(tv.take(i as int) =~= tv);
    if invalid.len() == 0 {
        return Ok(selectors);
    }
    let mut quoted: Vec<String> = Vec::new();
    let mut k: usize = 0;
    while k < invalid.len()
        invariant
            k <= invalid@.len(),
            strings_view(quoted@) == quote_all(strings_view(invalid@)).take(k as int),
        decreases invalid@.len() - k,
    {
        let t = crate::text::concat3("'", invalid[k].as_str(), "'");
        proof {
            lemma_strings_view_push(quoted@, t);
        }
        quoted.push(t);
        k = k + 1;
        assert(strings_view(quoted@) =~= quote_all(strings_view(invalid@)).take(k as int));
    }
    assert(quote_all(strings_view(invalid@)).take(k as int) =~= quote_all(strings_view(invalid@)));
    let details = join_strings(&quoted, ", ");
    Err(TraceError::from_string(crate::text::concat2("Invalid trace selector(s): ", details.as_str())))
}

/// A selector token accepts a channel name: it is `*` or the name itself.
pub open spec fn token_accepts(token: Seq<char>, part: Seq<char>) -> bool {
    token == star() || token == part
}

/// Whether the selector takes the channel `channel` of `trace_namespace`.
///
/// One token takes top-level channels; two take second-level ones (and `*.*` top-level ones
/// too); three take third-level ones, and `*.*.*` every channel up to the third level.
pub open spec fn matches_spec(sel: SelectorView, trace_namespace: Seq<char>, channel: Seq<char>) -> bool {
    if !sel.any_namespace && sel.trace_namespace != trace_namespace {
        false
    } else {
        match channel_path_spec(channel) {
            None => false,
            Some(parts) => {
                let t = sel.channel_tokens;
                if t.len() == 1 {
                    parts.len() == 1 && token_accepts(t[0], parts[0])
                } else if t.len() == 2 {
                    (parts.len() == 1 && sel.include_top_level) || (parts.len() == 2
                        && token_accepts(t[0], parts[0]) && token_accepts(t[1], parts[1]))
                } else if t.len() == 3 {
                    if t[0] == star() && t[1] == star() && t[2] == star() {
                        1 <= parts.len() <= 3
                    } else {
                        parts.len() == 3 && token_accepts(t[0], parts[0]) && token_accepts(
                            t[1],
                            parts[1],
                        ) && token_accepts(t[2], parts[2])
                    }
                } else {
                    false
                }
            },
        }
    }
}

fn accepts(token: &String, part: &String) -> (r: bool)
    ensures
        r == token_accepts(token@, part@),
{
    str_is_star(token.as_str()) || crate::text::str_eq(token.as_str(), part.as_str())
}

/// Whether `selector` takes the channel `channel` of `trace_namespace`; see `matches_spec`.
pub fn matches_selector(selector: &Selector, trace_namespace: &str, channel: &str) -> (r: bool)
    ensures
        r == matches_spec(selector.view(), trace_namespace@, channel@),
{
    if !selector.any_namespace && !crate::text::str_eq(selector.trace_namespace.as_str(), trace_namespace) {
        return false;
    }
    let parts = match split_channel_path(channel) {
        Some(p) => p,
        None => {
            return false;
        },
    };
    let t = &selector.channel_tokens;
    proof {
        assert(strings_view(t@).len() == t@.len());
        assert(strings_view(parts@).len() == parts@.len());
    }
    if t.len() == 1 {
        parts.len() == 1 && accepts(&t[0], &parts[0])
    } else if t.len() == 2 {
        if parts.len() == 1 && selector.include_top_level {
            return true;
        }
        parts.len() == 2 && accepts(&t[0], &parts[0]) && accepts(&t[1], &parts[1])
    } else if t.len() == 3 {
        if str_is_star(t[0].as_str()) && str_is_star(t[1].as_str()) && str_is_star(t[2].as_str()) {
            return 1 <= parts.len() && parts.len() <= 3;
        }
        parts.len() == 3 && accepts(&t[0], &parts[0]) && accepts(&t[1], &parts[1]) && accepts(
            &t[2],
            &parts[2],
        )
    } else {
        false
    }
}

/// The namespace and channel `selector_text` names exactly: `namespace.channel`, or
/// `.channel` in `local_namespace`.
pub open spec fn exact_selector_spec(selector_text: Seq<char>, local_namespace: Seq<char>) -> Result<
    (Seq<char>, Seq<char>),
    Seq<char>,
> {
    let sel = trim_spec(selector_text);
    match find_char(sel, '.', 0) {
        None => Err("invalid channel selector '"@ + sel
            + "' (expected namespace.channel or .channel)"@),
        Some(dot) => {
            let ns = if dot == 0 {
                trim_spec(local_namespace)
            } else {
                sel.take(dot)
            };
            let channel = sel.skip(dot + 1);
            if !is_identifier(ns) {
                Err("invalid trace namespace '"@ + ns + "'"@)
            } else if channel_path_spec(channel) is None {
                Err("invalid trace channel '"@ + channel + "'"@)
            } else {
                Ok((ns, channel))
            }
        },
    }
}

pub fn parse_exact_selector(selector_text: &str, local_namespace: &str) -> (r: Result<(String, String), TraceError>)
    ensures
        match exact_selector_spec(selector_text@, local_namespace@) {
            Ok((ns, ch)) => r matches Ok((a, b)) && a@ == ns && b@ == ch,
            Err(m) => trace_err(r, m),
        },
{
    let sel = crate::text::trim_chars(to_chars(selector_text).as_slice());
    let dot = match find_char_exec(sel.as_slice(), '.') {
        Some(d) => d,
        None => {
            let text = string_of_all(sel.as_slice());
            return Err(
                TraceError::from_string(
                    crate::text::concat3(
                        "invalid channel selector '",
                        text.as_str(),
                        "' (expected namespace.channel or .channel)",
                    ),
                ),
            );
        },
    };
    let n = sel.len();
    assert(dot < n);
    let ns = if dot == 0 {
        crate::text::trim_str(local_namespace)
    } else {
        string_of(sel.as_slice(), 0, dot)
    };
    let channel = string_of(sel.as_slice(), dot + 1, n);
    assert(sel@.subrange(0, dot as int) =~= sel@.take(dot as int));
    assert(sel@.subrange(dot as int + 1, n as int) =~= sel@.skip(dot as int + 1));
    if !is_selector_identifier(ns.as_str()) {
        return Err(TraceError::from_string(crate::text::concat3("invalid trace namespace '", ns.as_str(), "'")));
    }
    if !is_valid_channel_path(channel.as_str()) {
        return Err(TraceError::from_string(crate::text::concat3("invalid trace channel '", channel.as_str(), "'")));
    }
    Ok((ns, channel))
}

/// The color a channel keeps when registered again with `new_color`.
pub open spec fn merge_color_spec(existing: u16, new_color: u16, qualified_name: Seq<char>) -> Result<u16, Seq<char>> {
    if new_color == DEFAULT_COLOR {
        Ok(existing)
    } else if new_color > 255 {
        Err("invalid trace color id '"@ + crate::text::decimal_spec(new_color as nat) + "'"@)
    } else if existing == DEFAULT_COLOR || existing == new_color {
        Ok(new_color)
    } else {
        Err("conflicting trace color for '"@ + qualified_name + "'"@)
    }
}

pub fn merge_color(existing_color: u16, new_color: u16, qualified_name: &str) -> (r: Result<u16, TraceError>)
    ensures
        match merge_color_spec(existing_color, new_color, qualified_name@) {
            Ok(c) => r == Ok::<u16, TraceError>(c),
            Err(m) => trace_err(r, m),
        },
{
    if new_color == DEFAULT_COLOR {
        return Ok(existing_color);
    }
    if new_color > 255 {
        let digits = crate::text::decimal(new_color as u64);
        return Err(TraceError::from_string(crate::text::concat3("invalid trace color id '", digits.as_str(), "'")));
    }
    if existing_color == DEFAULT_COLOR || existing_color == new_color {
        return Ok(new_color);
    }
    Err(TraceError::from_string(crate::text::concat3("conflicting trace color for '", qualified_name, "'")))
}

} // verus!
