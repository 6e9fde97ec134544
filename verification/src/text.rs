//! Character-level helpers shared by the option parser and the trace logger.
//!
//! Strings are reasoned about through their view, a `Seq<char>`.
use vstd::prelude::*;

verus! {

/// Unicode `White_Space` code points; this is the set `char::is_whitespace` tests.
pub open spec fn is_ws_spec(c: char) -> bool {
    let u = c as u32;
    ||| 0x9 <= u <= 0xD
    ||| u == 0x20
    ||| u == 0x85
    ||| u == 0xA0
    ||| u == 0x1680
    ||| 0x2000 <= u <= 0x200A
    ||| u == 0x2028
    ||| u == 0x2029
    ||| u == 0x202F
    ||| u == 0x205F
    ||| u == 0x3000
}

/// The sequence with leading white space removed.
pub open spec fn trim_start_spec(s: Seq<char>) -> Seq<char>
    decreases s.len(),
{
    if s.len() > 0 && is_ws_spec(s[0]) {
        trim_start_spec(s.drop_first())
    } else {
        s
    }
}

/// The sequence with trailing white space removed.
pub open spec fn trim_end_spec(s: Seq<char>) -> Seq<char>
    decreases s.len(),
{
    if s.len() > 0 && is_ws_spec(s.last()) {
        trim_end_spec(s.drop_last())
    } else {
        s
    }
}

/// `str::trim`: leading and trailing white space removed.
pub open spec fn trim_spec(s: Seq<char>) -> Seq<char> {
    trim_end_spec(trim_start_spec(s))
}

pub open spec fn starts_with_spec(s: Seq<char>, prefix: Seq<char>) -> bool {
    prefix.len() <= s.len() && s.subrange(0, prefix.len() as int) == prefix
}

pub open spec fn has_ws_spec(s: Seq<char>) -> bool {
    exists|i: int| 0 <= i < s.len() && is_ws_spec(#[trigger] s[i])
}

pub open spec fn contains_char_spec(s: Seq<char>, c: char) -> bool {
    exists|i: int| 0 <= i < s.len() && s[i] == c
}

/// A text that neither starts nor ends with white space is its own trim.
pub proof fn lemma_trim_unchanged(s: Seq<char>)
    requires
        s.len() > 0,
        !is_ws_spec(s[0]),
        !is_ws_spec(s.last()),
    ensures
        trim_spec(s) == s,
{
}

proof fn lemma_trim_start_len(s: Seq<char>)
    ensures
        trim_start_spec(s).len() <= s.len(),
    decreases s.len(),
{
    if s.len() > 0 && is_ws_spec(s[0]) {
        lemma_trim_start_len(s.drop_first());
    }
}

proof fn lemma_trim_end_len(s: Seq<char>)
    ensures
        trim_end_spec(s).len() <= s.len(),
    decreases s.len(),
{
    if s.len() > 0 && is_ws_spec(s.last()) {
        lemma_trim_end_len(s.drop_last());
    }
}

/// Trimming never lengthens a text.
pub proof fn lemma_trim_len(s: Seq<char>)
    ensures
        trim_spec(s).len() <= s.len(),
{
    lemma_trim_start_len(s);
    lemma_trim_end_len(trim_start_spec(s));
}

/// A name (ASCII letters, digits, `_`, `-`) is its own trim.
pub proof fn lemma_trim_unchanged_name(s: Seq<char>)
    requires
        crate::ktrace::selectors::is_identifier(s),
    ensures
        trim_spec(s) == s,
{
    assert(crate::ktrace::selectors::is_ident_char(s[0]));
    assert(crate::ktrace::selectors::is_ident_char(s.last()));
    lemma_trim_unchanged(s);
}

/// A text with no white-space character has no white space.
pub proof fn lemma_no_ws(s: Seq<char>)
    requires
        forall|i: int| 0 <= i < s.len() ==> !is_ws_spec(#[trigger] s[i]),
    ensures
        !has_ws_spec(s),
{
}

pub fn is_ws(c: char) -> (r: bool)
    ensures
        r == is_ws_spec(c),
{
    let u = c as u32;
    (0x9 <= u && u <= 0xD) || u == 0x20 || u == 0x85 || u == 0xA0 || u == 0x1680 || (0x2000 <= u
        && u <= 0x200A) || u == 0x2028 || u == 0x2029 || u == 0x202F || u == 0x205F || u == 0x3000
}

/// `String::push`: appends one character.
#[verifier::external_body]
pub(crate) fn push_char(s: &mut String, c: char)
    ensures
        final(s)@ == old(s)@.push(c),
{
    s.push(c);
}

/// The characters of a string slice.
pub fn to_chars(s: &str) -> (v: Vec<char>)
    ensures
        v@ == s@,
{
    let n = s.unicode_len();
    let mut v: Vec<char> = Vec::new();
    let mut i: usize = 0;
    while i < n
        invariant
            n == s@.len(),
            i <= n,
            v@ == s@.subrange(0, i as int),
        decreases n - i,
    {
        let c = s.get_char(i);
        v.push(c);
        i = i + 1;
        assert(v@ =~= s@.subrange(0, i as int));
    }
    assert(v@ =~= s@);
    v
}

/// A string holding the characters `v[from..to]`.
pub fn string_of(v: &[char], from: usize, to: usize) -> (s: String)
    requires
        from <= to <= v@.len(),
    ensures
        s@ == v@.subrange(from as int, to as int),
{
    let mut s = String::new();
    let mut i = from;
    while i < to
        invariant
            from <= i <= to,
            to <= v@.len(),
            s@ == v@.subrange(from as int, i as int),
        decreases to - i,
    {
        push_char(&mut s, v[i]);
        i = i + 1;
        assert(s@ =~= v@.subrange(from as int, i as int));
    }
    s
}

/// A string holding all of `v`.
pub fn string_of_all(v: &[char]) -> (s: String)
    ensures
        s@ == v@,
{
    let s = string_of(v, 0, v.len());
    assert(v@.subrange(0, v@.len() as int) =~= v@);
    s
}

/// Index of the first character that is not white space, at or after `from`.
pub fn skip_ws_forward(v: &[char]) -> (i: usize)
    ensures
        i <= v@.len(),
        trim_start_spec(v@) == v@.subrange(i as int, v@.len() as int),
        i < v@.len() ==> !is_ws_spec(v@[i as int]),
        forall|k: int| 0 <= k < i ==> is_ws_spec(#[trigger] v@[k]),
{
    let mut i: usize = 0;
    assert(v@.subrange(0, v@.len() as int) =~= v@);
    while i < v.len() && is_ws(v[i])
        invariant
            i <= v@.len(),
            trim_start_spec(v@) == trim_start_spec(v@.subrange(i as int, v@.len() as int)),
            forall|k: int| 0 <= k < i ==> is_ws_spec(#[trigger] v@[k]),
        decreases v@.len() - i,
    {
        assert(v@.subrange(i as int, v@.len() as int).drop_first() =~= v@.subrange(
            i + 1,
            v@.len() as int,
        ));
        i = i + 1;
    }
    i
}

proof fn lemma_trim_end_prefix(v: Seq<char>, j: int)
    requires
        0 <= j <= v.len(),
        forall|k: int| j <= k < v.len() ==> is_ws_spec(#[trigger] v[k]),
    ensures
        trim_end_spec(v) == trim_end_spec(v.subrange(0, j)),
    decreases v.len() - j,
{
    if j < v.len() {
        assert(v.drop_last() =~= v.subrange(0, v.len() - 1));
        assert(is_ws_spec(v.last()));
        lemma_trim_end_prefix(v.drop_last(), j);
        assert(v.drop_last().subrange(0, j) =~= v.subrange(0, j));
    } else {
        assert(v.subrange(0, j) =~= v);
    }
}

/// Bounds `[start, end)` of `v` with leading and trailing white space removed.
pub fn trim_bounds(v: &[char]) -> (r: (usize, usize))
    ensures
        r.0 <= r.1 <= v@.len(),
        v@.subrange(r.0 as int, r.1 as int) == trim_spec(v@),
{
    let start = skip_ws_forward(v);
    let ghost rest = v@.subrange(start as int, v@.len() as int);
    let mut end = v.len();
    while end > start && is_ws(v[end - 1])
        invariant
            start <= end <= v@.len(),
            rest == v@.subrange(start as int, v@.len() as int),
            forall|k: int| end <= k < v@.len() ==> is_ws_spec(#[trigger] v@[k]),
        decreases end - start,
    {
        end = end - 1;
    }
    proof {
        assert forall|k: int| end - start <= k < rest.len() implies is_ws_spec(#[trigger] rest[k]) by {
            assert(rest[k] == v@[k + start]);
        }
        lemma_trim_end_prefix(rest, end - start);
        assert(rest.subrange(0, end - start) =~= v@.subrange(start as int, end as int));
        let t = v@.subrange(start as int, end as int);
        if t.len() > 0 {
            assert(t.last() == v@[end - 1]);
        }
        assert(trim_end_spec(t) == t);
    }
    (start, end)
}

/// `str::trim` on characters.
pub fn trim_chars(v: &[char]) -> (r: Vec<char>)
    ensures
        r@ == trim_spec(v@),
{
    let (s, e) = trim_bounds(v);
    let mut r: Vec<char> = Vec::new();
    let mut i = s;
    while i < e
        invariant
            s <= i <= e <= v@.len(),
            r@ == v@.subrange(s as int, i as int),
        decreases e - i,
    {
        r.push(v[i]);
        i = i + 1;
        assert(r@ =~= v@.subrange(s as int, i as int));
    }
    r
}

/// `str::trim` returning an owned string.
pub fn trim_str(s: &str) -> (r: String)
    ensures
        r@ == trim_spec(s@),
{
    let v = to_chars(s);
    let (a, b) = trim_bounds(v.as_slice());
    string_of(v.as_slice(), a, b)
}

pub fn starts_with(s: &[char], prefix: &[char]) -> (r: bool)
    ensures
        r == starts_with_spec(s@, prefix@),
{
    if prefix.len() > s.len() {
        return false;
    }
    let mut i: usize = 0;
    while i < prefix.len()
        invariant
            prefix@.len() <= s@.len(),
            i <= prefix@.len(),
            forall|k: int| 0 <= k < i ==> s@[k] == prefix@[k],
        decreases prefix@.len() - i,
    {
        if s[i] != prefix[i] {
            assert(s@.subrange(0, prefix@.len() as int)[i as int] != prefix@[i as int]);
            return false;
        }
        i = i + 1;
    }
    assert(s@.subrange(0, prefix@.len() as int) =~= prefix@);
    true
}

pub fn has_ws(s: &[char]) -> (r: bool)
    ensures
        r == has_ws_spec(s@),
{
    let mut i: usize = 0;
    while i < s.len()
        invariant
            i <= s@.len(),
            forall|k: int| 0 <= k < i ==> !is_ws_spec(#[trigger] s@[k]),
        decreases s@.len() - i,
    {
        if is_ws(s[i]) {
            return true;
        }
        i = i + 1;
    }
    false
}

pub fn chars_eq(a: &[char], b: &[char]) -> (r: bool)
    ensures
        r == (a@ == b@),
{
    if a.len() != b.len() {
        return false;
    }
    let mut i: usize = 0;
    while i < a.len()
        invariant
            a@.len() == b@.len(),
            i <= a@.len(),
            forall|k: int| 0 <= k < i ==> a@[k] == b@[k],
        decreases a@.len() - i,
    {
        if a[i] != b[i] {
            return false;
        }
        i = i + 1;
    }
    assert(a@ =~= b@);
    true
}

/// Equality of two strings by their characters.
pub fn str_eq(a: &str, b: &str) -> (r: bool)
    ensures
        r == (a@ == b@),
{
    let va = to_chars(a);
    let vb = to_chars(b);
    chars_eq(va.as_slice(), vb.as_slice())
}

/// `a` followed by `b`, as a new string.
pub fn concat2(a: &str, b: &str) -> (r: String)
    ensures
        r@ == a@ + b@,
{
    let r = String::from_str(a);
    r.concat(b)
}

/// `a`, `b` and `c` joined, as a new string.
pub fn concat3(a: &str, b: &str, c: &str) -> (r: String)
    ensures
        r@ == a@ + b@ + c@,
{
    let r = String::from_str(a);
    let r = r.concat(b);
    r.concat(c)
}

/// The decimal digit character for `d` (below ten).
pub open spec fn digit_char(d: nat) -> char {
    (('0' as u32) + d) as char
}

/// The decimal writing of `n`, without leading zeros.
pub open spec fn decimal_spec(n: nat) -> Seq<char>
    decreases n,
{
    if n < 10 {
        seq![digit_char(n)]
    } else {
        decimal_spec(n / 10).push(digit_char(n % 10))
    }
}

/// The decimal writing of `n`.
pub fn decimal(n: u64) -> (r: String)
    ensures
        r@ == decimal_spec(n as nat),
    decreases n,
{
    let d = (n % 10) as u8;
    let c = ('0' as u8 + d) as char;
    assert(c == digit_char((n % 10) as nat));
    if n < 10 {
        let mut s = String::new();
        push_char(&mut s, c);
        assert(s@ =~= seq![c]);
        s
    } else {
        let mut s = decimal(n / 10);
        push_char(&mut s, c);
        s
    }
}

/// Lexicographic order by character code: the order of `str`'s `<`.
pub open spec fn lex_lt(a: Seq<char>, b: Seq<char>) -> bool
    decreases a.len(),
{
    if a.len() == 0 {
        b.len() > 0
    } else if b.len() == 0 {
        false
    } else if (a[0] as int) < (b[0] as int) {
        true
    } else if a[0] == b[0] {
        lex_lt(a.drop_first(), b.drop_first())
    } else {
        false
    }
}

pub proof fn lemma_lex_irreflexive(a: Seq<char>)
    ensures
        !lex_lt(a, a),
    decreases a.len(),
{
    if a.len() > 0 {
        lemma_lex_irreflexive(a.drop_first());
    }
}

pub proof fn lemma_lex_transitive(a: Seq<char>, b: Seq<char>, c: Seq<char>)
    requires
        lex_lt(a, b),
        lex_lt(b, c),
    ensures
        lex_lt(a, c),
    decreases a.len(),
{
    if a.len() > 0 && b.len() > 0 && c.len() > 0 && a[0] == b[0] && b[0] == c[0] {
        lemma_lex_transitive(a.drop_first(), b.drop_first(), c.drop_first());
    }
}

pub proof fn lemma_lex_total(a: Seq<char>, b: Seq<char>)
    ensures
        a == b || lex_lt(a, b) || lex_lt(b, a),
    decreases a.len(),
{
    if a.len() > 0 && b.len() > 0 && a[0] == b[0] {
        lemma_lex_total(a.drop_first(), b.drop_first());
        if a.drop_first() == b.drop_first() {
            assert(a.drop_first().len() == a.len() - 1);
            assert(b.drop_first().len() == b.len() - 1);
            assert(a.len() == b.len());
            assert forall|k: int| 0 <= k < a.len() implies a[k] == b[k] by {
                if k > 0 {
                    assert(a[k] == a.drop_first()[k - 1]);
                    assert(b[k] == b.drop_first()[k - 1]);
                }
            }
            assert(a =~= b);
        }
    } else if a.len() == 0 && b.len() == 0 {
        assert(a =~= b);
    } else if a.len() > 0 && b.len() > 0 {
        assert((a[0] as int) != (b[0] as int));
    }
}

/// Whether `a` comes before `b` in lexicographic order.
pub fn str_lt(a: &str, b: &str) -> (r: bool)
    ensures
        r == lex_lt(a@, b@),
{
    let va = to_chars(a);
    let vb = to_chars(b);
    let mut i: usize = 0;
    assert(a@.skip(0) =~= a@);
    assert(b@.skip(0) =~= b@);
    while i < va.len() && i < vb.len() && va[i] == vb[i]
        invariant
            va@ == a@,
            vb@ == b@,
            i <= va@.len(),
            i <= vb@.len(),
            lex_lt(a@, b@) == lex_lt(a@.skip(i as int), b@.skip(i as int)),
        decreases va@.len() - i,
    {
        proof {
            assert(a@.skip(i as int).drop_first() =~= a@.skip(i as int + 1));
            assert(b@.skip(i as int).drop_first() =~= b@.skip(i as int + 1));
        }
        i = i + 1;
    }
    if i == va.len() {
        i < vb.len()
    } else if i == vb.len() {
        false
    } else {
        va[i] < vb[i]
    }
}

/// Strictly increasing: sorted, with nothing twice.
pub open spec fn sorted_strict(s: Seq<Seq<char>>) -> bool {
    forall|i: int, j: int| 0 <= i < j < s.len() ==> lex_lt(#[trigger] s[i], #[trigger] s[j])
}

pub open spec fn str_views(v: Seq<&str>) -> Seq<Seq<char>> {
    v.map_values(|s: &str| s@)
}

/// The texts of `v` in increasing order, each once.
pub fn sort_unique<'a>(v: &Vec<&'a str>) -> (r: Vec<&'a str>)
    ensures
        sorted_strict(str_views(r@)),
        str_views(r@).to_set() == str_views(v@).to_set(),
{
    let mut r: Vec<&'a str> = Vec::new();
    let mut i: usize = 0;
    assert(str_views(r@).to_set() =~= str_views(v@).take(0).to_set());
    while i < v.len()
        invariant
            i <= v@.len(),
            sorted_strict(str_views(r@)),
            str_views(r@).to_set() == str_views(v@).take(i as int).to_set(),
        decreases v@.len() - i,
    {
        let x = v[i];
        let mut p: usize = 0;
        while p < r.len() && str_lt(r[p], x)
            invariant
                p <= r@.len(),
                forall|k: int| 0 <= k < p ==> lex_lt(#[trigger] str_views(r@)[k], x@),
            decreases r@.len() - p,
        {
            p = p + 1;
        }
        let ghost old_r = str_views(r@);
        proof {
            assert(str_views(v@).take(i as int + 1) =~= str_views(v@).take(i as int).push(x@));
            str_views(v@).take(i as int).lemma_push_to_set_commute(x@);
        }
        if p < r.len() && str_eq(r[p], x) {
            assert(old_r.to_set().contains(x@)) by {
                assert(old_r[p as int] == x@);
            }
            assert(str_views(v@).take(i as int + 1).to_set() =~= old_r.to_set());
        } else {
            proof {
                if p < r.len() {
                    lemma_lex_total(old_r[p as int], x@);
                }
            }
            r.insert(p, x);
            proof {
                let nr = str_views(r@);
                assert(nr =~= old_r.take(p as int).push(x@) + old_r.skip(p as int));
                assert forall|a: int, b: int| 0 <= a < b < nr.len() implies lex_lt(#[trigger] nr[a], #[trigger] nr[b]) by {
                    if b < p {
                        assert(nr[a] == old_r[a] && nr[b] == old_r[b]);
                    } else if b == p {
                        assert(nr[a] == old_r[a]);
                    } else if a < p {
                        assert(nr[a] == old_r[a] && nr[b] == old_r[b - 1]);
                        lemma_lex_transitive(old_r[a], x@, old_r[p as int]);
                        if b - 1 > p {
                            lemma_lex_transitive(old_r[a], old_r[p as int], old_r[b - 1]);
                        }
                    } else if a == p {
                        assert(nr[b] == old_r[b - 1]);
                        if b - 1 > p {
                            lemma_lex_transitive(x@, old_r[p as int], old_r[b - 1]);
                        }
                    } else {
                        assert(nr[a] == old_r[a - 1] && nr[b] == old_r[b - 1]);
                    }
                }
                assert(nr.to_set() =~= old_r.to_set().insert(x@)) by {
                    assert forall|y: Seq<char>| nr.to_set().contains(y) implies old_r.to_set().insert(x@).contains(y) by {
                        let k = choose|k: int| 0 <= k < nr.len() && nr[k] == y;
                        if k < p {
                            assert(nr[k] == old_r[k]);
                        } else if k > p {
                            assert(nr[k] == old_r[k - 1]);
                        }
                    }
                    assert forall|y: Seq<char>| old_r.to_set().insert(x@).contains(y) implies nr.to_set().contains(y) by {
                        if y == x@ {
                            assert(nr[p as int] == y);
                        } else {
                            let k = choose|k: int| 0 <= k < old_r.len() && old_r[k] == y;
                            if k < p {
                                assert(nr[k] == y);
                            } else {
                                assert(nr[k + 1] == y);
                            }
                        }
                    }
                }
                assert(str_views(v@).take(i as int + 1).to_set() =~= old_r.to_set().insert(x@));
            }
        }
        i = i + 1;
    }
    assert(str_views(v@).take(i as int) =~= str_views(v@));
    r
}

} // verus!
