//! The prefix of a trace line: namespace, timestamp, channel or severity, source location.
use vstd::prelude::*;
use crate::kcli::model::{lemma_strings_view_push, strings_view};
use crate::ktrace::model::{OutputOptions, Severity, SourceLocation};
use crate::ktrace::selectors::join_with;
use crate::text::{decimal, decimal_spec, to_chars};

verus! {

#[verifier::external_type_specification]
#[verifier::external_body]
pub struct ExSystemTime(std::time::SystemTime);

#[verifier::external_type_specification]
#[verifier::external_body]
pub struct ExSystemTimeError(std::time::SystemTimeError);

/// `SystemTime::now`: the time the system clock shows; nothing is claimed of it.
#[verifier::external_body]
fn system_now() -> std::time::SystemTime {
    std::time::SystemTime::now()
}

/// `SystemTime::duration_since(UNIX_EPOCH)`: the time since the epoch, or an error when the
/// clock shows an earlier time; nothing is claimed of either.
#[verifier::external_body]
fn since_unix_epoch(t: &std::time::SystemTime) -> Result<std::time::Duration, std::time::SystemTimeError> {
    t.duration_since(std::time::UNIX_EPOCH)
}

/// `Duration::as_secs`: the whole seconds of a duration; nothing is claimed of the number.
#[verifier::external_body]
fn whole_seconds(d: &std::time::Duration) -> u64 {
    d.as_secs()
}

/// `Duration::subsec_micros`: the fraction of a second in whole microseconds, which the
/// documentation gives as below one million.
#[verifier::external_body]
fn subsec_micros(d: &std::time::Duration) -> (r: u32)
    ensures
        r < 1_000_000,
{
    d.subsec_micros()
}

/// The text after the last `/` or `\`.
pub open spec fn base_name(s: Seq<char>) -> Seq<char>
    decreases s.len(),
{
    if s.len() == 0 {
        s
    } else if s.last() == '/' || s.last() == '\\' {
        Seq::empty()
    } else {
        base_name(s.drop_last()).push(s.last())
    }
}

/// The text with every trailing `.rs` removed.
pub open spec fn strip_rs(s: Seq<char>) -> Seq<char>
    decreases s.len(),
{
    if s.len() >= 3 && s.skip(s.len() - 3) == ".rs"@ {
        strip_rs(s.take(s.len() - 3))
    } else {
        s
    }
}

/// A source file shown by its name without directories and `.rs`.
pub open spec fn source_label_spec(path: Seq<char>) -> Seq<char> {
    strip_rs(base_name(path))
}

/// Where the base name of `chars` starts: just after the last `/` or `\`.
fn base_name_start(chars: &Vec<char>) -> (start: usize)
    ensures
        start <= chars@.len(),
        base_name(chars@) == chars@.skip(start as int),
{
    let mut start: usize = chars.len();
    proof {
        assert(chars@.take(start as int) =~= chars@);
        assert(base_name(chars@) + chars@.skip(start as int) =~= base_name(chars@));
    }
    while start > 0 && chars[start - 1] != '/' && chars[start - 1] != '\\'
        invariant
            start <= chars@.len(),
            base_name(chars@) == base_name(chars@.take(start as int)) + chars@.skip(start as int),
        decreases start,
    {
        proof {
            let t = chars@.take(start as int);
            assert(t.drop_last() =~= chars@.take(start as int - 1));
            assert(t.last() == chars@[start as int - 1]);
            assert(base_name(t) == base_name(chars@.take(start as int - 1)).push(t.last()));
            assert(base_name(chars@.take(start as int - 1)).push(t.last()) + chars@.skip(start as int)
                =~= base_name(chars@.take(start as int - 1)) + chars@.skip(start as int - 1));
        }
        start = start - 1;
    }
    proof {
        if start == 0 {
            assert(chars@.take(0) =~= Seq::<char>::empty());
        }
        assert(base_name(chars@.take(start as int)) =~= Seq::<char>::empty());
        assert(Seq::<char>::empty() + chars@.skip(start as int) =~= chars@.skip(start as int));
    }
    start
}

/// Where `chars[start..]` ends once every trailing `.rs` is removed.
fn strip_rs_end(chars: &Vec<char>, start: usize) -> (end: usize)
    requires
        start <= chars@.len(),
    ensures
        start <= end <= chars@.len(),
        strip_rs(chars@.skip(start as int)) == chars@.subrange(start as int, end as int),
{
    let mut end: usize = chars.len();
    assert(chars@.skip(start as int) =~= chars@.subrange(start as int, end as int));
    while end - start >= 3 && chars[end - 3] == '.' && chars[end - 2] == 'r' && chars[end - 1] == 's'
        invariant
            start <= end <= chars@.len(),
            strip_rs(chars@.skip(start as int)) == strip_rs(chars@.subrange(start as int, end as int)),
        decreases end,
    {
        proof {
            reveal_strlit(".rs");
            let u = chars@.subrange(start as int, end as int);
            assert(u.skip(u.len() - 3) =~= ".rs"@);
            assert(u.take(u.len() - 3) =~= chars@.subrange(start as int, end as int - 3));
        }
        end = end - 3;
    }
    proof {
        reveal_strlit(".rs");
        let u = chars@.subrange(start as int, end as int);
        if u.len() >= 3 {
            if u.skip(u.len() - 3) == ".rs"@ {
                assert(u.skip(u.len() - 3)[0] == '.');
                assert(u.skip(u.len() - 3)[1] == 'r');
                assert(u.skip(u.len() - 3)[2] == 's');
            }
        }
    }
    end
}

pub fn format_source_label(source_path: &str) -> (r: String)
    ensures
        r@ == source_label_spec(source_path@),
{
    let chars = to_chars(source_path);
    let start = base_name_start(&chars);
    let end = strip_rs_end(&chars, start);
    crate::text::string_of(chars.as_slice(), start, end)
}

/// The text after the last `::`.
pub open spec fn function_label_spec(s: Seq<char>) -> Seq<char>
    decreases s.len(),
{
    if s.len() == 0 {
        s
    } else if s.len() >= 2 && s[s.len() - 2] == ':' && s[s.len() - 1] == ':' {
        Seq::empty()
    } else {
        function_label_spec(s.drop_last()).push(s.last())
    }
}

pub fn format_function_label(function_name: &str) -> (r: String)
    ensures
        r@ == function_label_spec(function_name@),
{
    let chars = to_chars(function_name);
    let mut start: usize = chars.len();
    proof {
        assert(function_name@.take(start as int) =~= function_name@);
        assert(function_label_spec(function_name@) + function_name@.skip(start as int) =~= function_label_spec(function_name@));
    }
    while start > 0 && !(start >= 2 && chars[start - 2] == ':' && chars[start - 1] == ':')
        invariant
            chars@ == function_name@,
            start <= chars@.len(),
            function_label_spec(function_name@) == function_label_spec(function_name@.take(start as int))
                + function_name@.skip(start as int),
        decreases start,
    {
        proof {
            let t = function_name@.take(start as int);
            assert(t.drop_last() =~= function_name@.take(start as int - 1));
            assert(t.last() == function_name@[start as int - 1]);
            if t.len() >= 2 {
                assert(t[t.len() - 2] == chars@[start as int - 2]);
            }
            assert(function_label_spec(function_name@.take(start as int - 1)).push(t.last()) + function_name@.skip(start as int)
                =~= function_label_spec(function_name@.take(start as int - 1)) + function_name@.skip(start as int - 1));
        }
        start = start - 1;
    }
    proof {
        let t = function_name@.take(start as int);
        if start == 0 {
            assert(t =~= Seq::<char>::empty());
        } else {
            assert(t[t.len() - 2] == chars@[start as int - 2]);
        }
        assert(function_label_spec(t) =~= Seq::<char>::empty());
        assert(Seq::<char>::empty() + function_name@.skip(start as int) =~= function_name@.skip(start as int));
        assert(function_name@.skip(start as int) =~= function_name@.subrange(start as int, chars@.len() as int));
    }
    crate::text::string_of(chars.as_slice(), start, chars.len())
}

/// `d` padded on the left with zeros to six characters.
pub open spec fn pad6(d: Seq<char>) -> Seq<char> {
    if d.len() >= 6 {
        d
    } else {
        Seq::new((6 - d.len()) as nat, |i: int| '0') + d
    }
}

/// `[seconds.microseconds]`, the microseconds on six digits.
pub open spec fn timestamp_spec(secs: u64, micros: u32) -> Seq<char> {
    "["@ + decimal_spec(secs as nat) + "."@ + pad6(decimal_spec(micros as nat)) + "]"@
}

fn pad_six(d: String) -> (r: String)
    ensures
        r@ == pad6(d@),
{
    let n = d.unicode_len();
    if n >= 6 {
        return d;
    }
    let mut r = String::new();
    let mut i: usize = n;
    while i < 6
        invariant
            n <= i <= 6,
            n == d@.len(),
            r@ == Seq::new((i - n) as nat, |k: int| '0'),
        decreases 6 - i,
    {
        crate::text::push_char(&mut r, '0');
        i = i + 1;
        assert(r@ =~= Seq::new((i - n) as nat, |k: int| '0'));
    }
    r.append(d.as_str());
    r
}

/// `[seconds.microseconds]` for a clock reading of `secs` seconds and `micros` microseconds.
pub fn format_timestamp(secs: u64, micros: u32) -> (r: String)
    ensures
        r@ == timestamp_spec(secs, micros),
{
    let mut r = String::from_str("[");
    r.append(decimal(secs).as_str());
    r.append(".");
    r.append(pad_six(decimal(micros as u64)).as_str());
    r.append("]");
    r
}

/// The clock reading formatted for a trace line; a clock set before 1970 reads as zero.
pub fn timestamp_label() -> (r: String)
    ensures
        exists|secs: u64, micros: u32| micros < 1_000_000 && r@ == timestamp_spec(secs, micros),
{
    let now = system_now();
    let (secs, micros) = match since_unix_epoch(&now) {
        Ok(d) => (whole_seconds(&d), subsec_micros(&d)),
        Err(_) => (0u64, 0u32),
    };
    format_timestamp(secs, micros)
}

/// `[file:line:function]` as the options ask, or nothing.
pub open spec fn source_part_spec(options: OutputOptions, file: Seq<char>, line: u32, function: Seq<char>) -> Option<Seq<char>> {
    if !options.filenames || file.len() == 0 {
        None
    } else {
        let with_line = if options.line_numbers && line > 0 {
            "["@ + source_label_spec(file) + ":"@ + decimal_spec(line as nat)
        } else {
            "["@ + source_label_spec(file)
        };
        let label = function_label_spec(function);
        let with_function = if options.function_names && label.len() > 0 {
            with_line + ":"@ + label
        } else {
            with_line
        };
        Some(with_function + "]"@)
    }
}

pub fn build_source_part(options: OutputOptions, location: SourceLocation) -> (r: Option<String>)
    ensures
        match source_part_spec(options, location.file@, location.line, location.function@) {
            Some(p) => r matches Some(s) && s@ == p,
            None => r is None,
        },
{
    if !options.filenames || location.file.unicode_len() == 0 {
        return None;
    }
    let mut source = String::from_str("[");
    source.append(format_source_label(location.file).as_str());
    if options.line_numbers && location.line > 0 {
        source.append(":");
        source.append(decimal(location.line as u64).as_str());
    }
    let function_label = format_function_label(location.function);
    if options.function_names && function_label.unicode_len() > 0 {
        source.append(":");
        source.append(function_label.as_str());
    }
    source.append("]");
    Some(source)
}

/// The prefix parts joined by spaces: `[namespace]`, the timestamp, `[label]`, the source part.
pub open spec fn prefix_spec(
    trace_namespace: Seq<char>,
    label: Seq<char>,
    options: OutputOptions,
    location: SourceLocation,
    timestamp: Seq<char>,
) -> Seq<char> {
    let p1: Seq<Seq<char>> = if trace_namespace.len() > 0 {
        seq!["["@ + trace_namespace + "]"@]
    } else {
        Seq::empty()
    };
    let p2 = if options.timestamps {
        p1.push(timestamp)
    } else {
        p1
    };
    let p3 = p2.push("["@ + label + "]"@);
    let p4 = match source_part_spec(options, location.file@, location.line, location.function@) {
        Some(s) => p3.push(s),
        None => p3,
    };
    join_with(p4, " "@)
}

/// The prefix of a line: exact, but for the clock reading when timestamps are on.
pub open spec fn is_prefix_for(
    r: Seq<char>,
    trace_namespace: Seq<char>,
    label: Seq<char>,
    options: OutputOptions,
    location: SourceLocation,
) -> bool {
    if options.timestamps {
        exists|secs: u64, micros: u32|
            micros < 1_000_000 && r == prefix_spec(
                trace_namespace,
                label,
                options,
                location,
                timestamp_spec(secs, micros),
            )
    } else {
        r == prefix_spec(trace_namespace, label, options, location, Seq::empty())
    }
}

pub fn build_prefix(trace_namespace: &str, label: &str, location: SourceLocation, options: OutputOptions) -> (r: String)
    ensures
        is_prefix_for(r@, trace_namespace@, label@, options, location),
{
    let mut parts: Vec<String> = Vec::new();
    if trace_namespace.unicode_len() > 0 {
        let p = crate::text::concat3("[", trace_namespace, "]");
        proof {
            lemma_strings_view_push(parts@, p);
        }
        parts.push(p);
    }
    let ghost p1 = strings_view(parts@);
    let mut ts = String::new();
    if options.timestamps {
        ts = timestamp_label();
        let t = ts.clone();
        proof {
            lemma_strings_view_push(parts@, t);
        }
        parts.push(t);
    }
    let l = crate::text::concat3("[", label, "]");
    proof {
        lemma_strings_view_push(parts@, l);
    }
    parts.push(l);
    match build_source_part(options, location) {
        Some(s) => {
            proof {
                lemma_strings_view_push(parts@, s);
            }
            parts.push(s);
        },
        None => {},
    }
    let r = crate::ktrace::selectors::join_strings(&parts, " ");
    proof {
        if trace_namespace@.len() > 0 {
            assert(p1 =~= seq!["["@ + trace_namespace@ + "]"@]);
        } else {
            assert(p1 =~= Seq::<Seq<char>>::empty());
        }
        if options.timestamps {
            let (secs, micros) = choose|secs: u64, micros: u32| micros < 1_000_000 && ts@ == timestamp_spec(secs, micros);
            assert(r@ == prefix_spec(trace_namespace@, label@, options, location, timestamp_spec(secs, micros)));
        } else {
            assert(r@ == prefix_spec(trace_namespace@, label@, options, location, Seq::empty()));
        }
    }
    r
}

/// The label a severity is shown with.
pub open spec fn severity_label(severity: Severity) -> Seq<char> {
    match severity {
        Severity::Info => "info"@,
        Severity::Warning => "warning"@,
        Severity::Error => "error"@,
    }
}

pub fn severity_text(severity: Severity) -> (r: &'static str)
    ensures
        r@ == severity_label(severity),
{
    match severity {
        Severity::Info => "info",
        Severity::Warning => "warning",
        Severity::Error => "error",
    }
}

/// A whole output line: the prefix, a space, the message.
pub open spec fn line_spec(prefix: Seq<char>, message: Seq<char>) -> Seq<char> {
    prefix + " "@ + message
}

pub fn make_line(prefix: &str, message: &str) -> (r: String)
    ensures
        r@ == line_spec(prefix@, message@),
{
    crate::text::concat3(prefix, " ", message)
}

} // verus!
