//! The `--beta` demo group, whose worker count must be an integer.
use vstd::prelude::*;
use crate::kcli::demo::common::{group_handlers, lemma_group_step, lemma_short_option_ok, processing_line, reports_processing};
use crate::sink::{pointee, report, share, sink_callable};
use crate::kcli::model::{find_key, BindingView, ConfigError, ContextView, HandlerContext, HandlerResult, InlineView, ValueArity};
use crate::kcli::process::run::outcome_view;
use std::rc::Rc;
use crate::kcli::parser::InlineParser;
use crate::text::{lemma_no_ws, lemma_trim_unchanged, to_chars};

verus! {

pub open spec fn is_digit(c: char) -> bool {
    '0' <= c <= '9'
}

pub open spec fn all_digits(s: Seq<char>) -> bool {
    forall|i: int| 0 <= i < s.len() ==> is_digit(#[trigger] s[i])
}

/// The number the decimal digits `s` write.
pub open spec fn digits_value(s: Seq<char>) -> int
    decreases s.len(),
{
    if s.len() == 0 {
        0
    } else {
        digits_value(s.drop_last()) * 10 + (s.last() as int - '0' as int)
    }
}

/// `str::parse::<i64>`: an optional `+` or `-`, then one or more ASCII digits, in range.
pub open spec fn parse_i64_spec(s: Seq<char>) -> Option<int> {
    let signed = s.len() > 0 && (s[0] == '-' || s[0] == '+');
    let digits = if signed {
        s.drop_first()
    } else {
        s
    };
    let v = if s.len() > 0 && s[0] == '-' {
        -digits_value(digits)
    } else {
        digits_value(digits)
    };
    if digits.len() == 0 || !all_digits(digits) || v < i64::MIN || v > i64::MAX {
        None
    } else {
        Some(v)
    }
}

/// A worker count: an `i64` in decimal that must also fit an `i32`.
pub open spec fn parse_int_or_throw_spec(s: Seq<char>) -> Result<int, Seq<char>> {
    match parse_i64_spec(s) {
        None => Err("expected an integer"@),
        Some(v) => if i32::MIN <= v <= i32::MAX {
            Ok(v)
        } else {
            Err("integer is out of range"@)
        },
    }
}

proof fn lemma_digits_value_grows(s: Seq<char>, k: int)
    requires
        all_digits(s),
        0 <= k <= s.len(),
    ensures
        0 <= digits_value(s.take(k)) <= digits_value(s),
    decreases s.len(),
{
    if k == s.len() {
        assert(s.take(k) =~= s);
        if s.len() > 0 {
            lemma_digits_value_grows(s.drop_last(), k - 1);
            assert(s.drop_last().take(k - 1) =~= s.drop_last());
        }
    } else {
        lemma_digits_value_grows(s.drop_last(), k);
        assert(s.drop_last().take(k) =~= s.take(k));
    }
}

/// Parses a worker count; see `parse_int_or_throw_spec`.
pub fn parse_int_or_throw(value: &str) -> (r: Result<i32, String>)
    ensures
        match parse_int_or_throw_spec(value@) {
            Ok(v) => r matches Ok(x) && x == v,
            Err(m) => r matches Err(e) && e@ == m,
        },
{
    proof {
        reveal_strlit("expected an integer");
        reveal_strlit("integer is out of range");
    }
    let chars = to_chars(value);
    let n = chars.len();
    let neg = n > 0 && chars[0] == '-';
    let start: usize = if n > 0 && (chars[0] == '-' || chars[0] == '+') {
        1
    } else {
        0
    };
    let ghost digits = if start == 1 {
        value@.drop_first()
    } else {
        value@
    };
    assert(digits =~= value@.subrange(start as int, n as int));
    if start == n {
        return Err(String::from_str("expected an integer"));
    }
    let mut acc: u64 = 0;
    let mut i: usize = start;
    while i < n
        invariant
            chars@ == value@,
            n == chars@.len(),
            start <= i <= n,
            digits == value@.subrange(start as int, n as int),
            start == (if value@.len() > 0 && (value@[0] == '-' || value@[0] == '+') {
                1int
            } else {
                0int
            }),
            digits == (if start == 1 {
                value@.drop_first()
            } else {
                value@
            }),
            all_digits(digits.take(i - start)),
            acc == digits_value(digits.take(i - start)),
            acc <= 9223372036854775808u64,
        decreases n - i,
    {
        let c = chars[i];
        if !('0' <= c && c <= '9') {
            assert(!is_digit(digits[i - start]));
            return Err(String::from_str("expected an integer"));
        }
        let d = (c as u32 - '0' as u32) as u64;
        let ghost next = digits.take(i - start + 1);
        assert(next.drop_last() =~= digits.take(i - start));
        assert(next.last() == c);
        assert(all_digits(next));
        if acc > 922337203685477580u64 || (acc == 922337203685477580u64 && d > 8) {
            proof {
                if all_digits(digits) {
                    lemma_digits_value_grows(digits, i - start + 1);
                }
            }
            return Err(String::from_str("expected an integer"));
        }
        acc = acc * 10 + d;
        i = i + 1;
    }
    assert(digits.take(n - start) =~= digits);
    if !neg && acc > 9223372036854775807u64 {
        return Err(String::from_str("expected an integer"));
    }
    if neg {
        if acc > 2147483648u64 {
            return Err(String::from_str("integer is out of range"));
        }
        let v = (0 - (acc as i64)) as i32;
        Ok(v)
    } else {
        if acc > 2147483647u64 {
            return Err(String::from_str("integer is out of range"));
        }
        Ok(acc as i32)
    }
}

/// What the `--beta` group configures.
pub open spec fn beta_view() -> InlineView {
    InlineView {
        root: "beta"@,
        has_root_handler: false,
        placeholder: Seq::empty(),
        description: Seq::empty(),
        command_keys: seq!["profile"@, "workers"@],
        bindings: seq![
            BindingView {
                expects_value: true,
                arity: ValueArity::Required,
                description: "Select beta runtime profile."@,
            },
            BindingView {
                expects_value: true,
                arity: ValueArity::Required,
                description: "Set beta worker count."@,
            },
        ],
    }
}

/// What `--beta-workers` does with `value`: a non-empty value that is not an `i32` fails
/// with the parse error and reports nothing; otherwise it succeeds and reports the
/// processing line.
pub open spec fn workers_outcome<S: Fn(String)>(
    sink: S,
    ctx: ContextView,
    value: Seq<char>,
    out: Result<(), Seq<char>>,
) -> bool {
    if value.len() > 0 && parse_int_or_throw_spec(value) is Err {
        out == Err::<(), Seq<char>>(parse_int_or_throw_spec(value)->Err_0)
    } else {
        reports_processing(sink, ctx, value, out)
    }
}

/// What the beta commands do: `--beta-profile` as `reports_processing`, `--beta-workers` as
/// `workers_outcome`.
pub open spec fn beta_prop<S: Fn(String)>(sink: S) -> spec_fn(int, ContextView, Seq<char>, Result<(), Seq<char>>) -> bool {
    |ci: int, ctx: ContextView, v: Seq<char>, out: Result<(), Seq<char>>|
        if ci == 1 {
            workers_outcome(sink, ctx, v, out)
        } else {
            reports_processing(sink, ctx, v, out)
        }
}

/// The beta commands' outcomes: see `beta_prop`.
pub open spec fn beta_handlers<S: Fn(String)>(p: InlineParser, sink: S) -> bool {
    group_handlers(p, beta_prop(sink), 2)
}

/// The `--beta` group: `--beta-profile <value>` and `--beta-workers <value>`; a non-empty
/// worker count that is not an `i32` fails the handler.
pub fn get_inline_parser<S: Fn(String) + 'static>(sink: Rc<S>) -> (r: Result<InlineParser, ConfigError>)
    requires
        sink_callable(*sink),
    ensures
        r matches Ok(p) && p.view() == beta_view() && beta_handlers(p, *sink),
{
    proof {
        reveal_strlit("--beta");
        reveal_strlit("beta");
        reveal_strlit("-profile");
        reveal_strlit("profile");
        reveal_strlit("-workers");
        reveal_strlit("workers");
        reveal_strlit("Select beta runtime profile.");
        reveal_strlit("Set beta worker count.");
        lemma_trim_unchanged("--beta"@);
        assert("--beta"@.subrange(2, 6) =~= "beta"@);
        lemma_trim_unchanged("beta"@);
        lemma_no_ws("beta"@);
        lemma_trim_unchanged("-profile"@);
        assert("-profile"@.subrange(1, 8) =~= "profile"@);
        lemma_no_ws("profile"@);
        lemma_trim_unchanged("-workers"@);
        assert("-workers"@.subrange(1, 8) =~= "workers"@);
        lemma_no_ws("workers"@);
        lemma_trim_unchanged("Select beta runtime profile."@);
        lemma_trim_unchanged("Set beta worker count."@);
        lemma_short_option_ok("-profile"@, "profile"@, "beta"@);
        lemma_short_option_ok("-workers"@, "workers"@, "beta"@);
    }
    let mut parser = match InlineParser::new("--beta") {
        Ok(p) => p,
        Err(e) => {
            return Err(e);
        },
    };
    assert(find_key(parser.view().command_keys, "profile"@, 0) is None);
    let s1 = share(&sink);
    let h1 = move |context: &HandlerContext, value: &str| -> (r: HandlerResult)
        requires
            sink_callable(*s1),
        ensures
            reports_processing(*s1, context.view(), value@, outcome_view(r)),
        {
            report(&s1, processing_line(context, value));
            Ok(())
        };
    let ghost p0 = parser;
    match parser.set_value_handler("-profile", h1, "Select beta runtime profile.") {
        Ok(()) => {},
        Err(e) => {
            return Err(e);
        },
    }
    proof {
        lemma_group_step(p0, parser, beta_prop(pointee(&sink)), 0, "-profile"@, h1);
    }
    assert(parser.view().command_keys =~= seq!["profile"@]);
    assert("profile"@[0] != "workers"@[0]);
    assert(find_key(parser.view().command_keys, "workers"@, 1) is None);
    assert(find_key(parser.view().command_keys, "workers"@, 0) is None);
    let s2 = share(&sink);
    let h2 = move |context: &HandlerContext, value: &str| -> (r: HandlerResult)
        requires
            sink_callable(*s2),
        ensures
            workers_outcome(*s2, context.view(), value@, outcome_view(r)),
        {
            if value.unicode_len() > 0 {
                match parse_int_or_throw(value) {
                    Ok(_) => {},
                    Err(e) => {
                        return Err(e);
                    },
                }
            }
            report(&s2, processing_line(context, value));
            Ok(())
        };
    let ghost p1 = parser;
    match parser.set_value_handler("-workers", h2, "Set beta worker count.") {
        Ok(()) => {},
        Err(e) => {
            return Err(e);
        },
    }
    proof {
        lemma_group_step(p1, parser, beta_prop(pointee(&sink)), 1, "-workers"@, h2);
    }
    assert(parser.view().command_keys =~= beta_view().command_keys);
    assert(parser.view().bindings =~= beta_view().bindings);
    Ok(parser)
}

} // verus!
