//! Building demo trace loggers from channel and color names.
use vstd::prelude::*;
use crate::ktrace::colors::{color, color_spec};
use crate::ktrace::model::{trace_err, SourceLocation, TraceError};
use crate::ktrace::registry::{add_channel_spec, trace_line_effect, Logger, TraceLogger};
use crate::ktrace::selectors::{channel_path_spec, is_identifier};
use crate::text::trim_spec;

verus! {

/// The channels of a trace logger for `trace_namespace` once each `(channel, color name)` of
/// `entries` is declared in order, or the first refusal.
pub open spec fn declared_spec(trace_namespace: Seq<char>, entries: Seq<(Seq<char>, Seq<char>)>) -> Result<
    Seq<(Seq<char>, u16)>,
    Seq<char>,
>
    decreases entries.len(),
{
    if entries.len() == 0 {
        if is_identifier(trim_spec(trace_namespace)) {
            Ok(Seq::empty())
        } else {
            Err("invalid trace namespace '"@ + trim_spec(trace_namespace) + "'"@)
        }
    } else {
        match declared_spec(trace_namespace, entries.drop_last()) {
            Err(m) => Err(m),
            Ok(cs) => match color_spec(entries.last().1) {
                Err(m) => Err(m),
                Ok(c) => add_channel_spec(trim_spec(trace_namespace), cs, entries.last().0, c),
            },
        }
    }
}

pub open spec fn entries_view(entries: Seq<(&str, &str)>) -> Seq<(Seq<char>, Seq<char>)> {
    entries.map_values(|e: (&str, &str)| (e.0@, e.1@))
}

/// A trace logger for `trace_namespace` with the channels and color names `entries`.
pub fn declare_trace_logger(trace_namespace: &str, entries: &[(&str, &str)]) -> (r: Result<TraceLogger, TraceError>)
    ensures
        match declared_spec(trace_namespace@, entries_view(entries@)) {
            Ok(cs) => r matches Ok(t) && t.namespace_view() == trim_spec(trace_namespace@) && t.channels_view() == cs,
            Err(m) => trace_err(r, m),
        },
{
    let mut trace = match TraceLogger::new(trace_namespace) {
        Ok(t) => t,
        Err(e) => {
            assert(entries_view(entries@).take(0) =~= Seq::<(Seq<char>, Seq<char>)>::empty());
            proof {
                lemma_declared_err(trace_namespace@, entries_view(entries@), 0);
            }
            return Err(e);
        },
    };
    let ghost ev = entries_view(entries@);
    assert(ev.take(0) =~= Seq::<(Seq<char>, Seq<char>)>::empty());
    assert(trace.channels_view() =~= Seq::<(Seq<char>, u16)>::empty());
    let mut i: usize = 0;
    while i < entries.len()
        invariant
            ev == entries_view(entries@),
            i <= entries@.len(),
            trace.namespace_view() == trim_spec(trace_namespace@),
            declared_spec(trace_namespace@, ev.take(i as int)) == Ok::<Seq<(Seq<char>, u16)>, Seq<char>>(trace.channels_view()),
        decreases entries@.len() - i,
    {
        let (channel, color_name) = entries[i];
        proof {
            assert(ev.take(i as int + 1).drop_last() =~= ev.take(i as int));
            assert(ev.take(i as int + 1).last() == (channel@, color_name@));
        }
        let c = match color(color_name) {
            Ok(c) => c,
            Err(e) => {
                proof {
                    lemma_declared_err(trace_namespace@, ev, i as int + 1);
                }
                return Err(e);
            },
        };
        match trace.add_channel(channel, c) {
            Ok(()) => {},
            Err(e) => {
                proof {
                    lemma_declared_err(trace_namespace@, ev, i as int + 1);
                }
                return Err(e);
            },
        }
        i = i + 1;
    }
    assert(ev.take(i as int) =~= ev);
    Ok(trace)
}

/// A refusal part way through stays the refusal.
proof fn lemma_declared_err(ns: Seq<char>, entries: Seq<(Seq<char>, Seq<char>)>, i: int)
    requires
        0 <= i <= entries.len(),
        declared_spec(ns, entries.take(i)) is Err,
    ensures
        declared_spec(ns, entries) == declared_spec(ns, entries.take(i)),
    decreases entries.len() - i,
{
    if i < entries.len() {
        assert(entries.take(i + 1).drop_last() =~= entries.take(i));
        lemma_declared_err(ns, entries, i + 1);
    } else {
        assert(entries.take(i) =~= entries);
    }
}

/// The line a trace result prints, if any.
pub open spec fn printed(r: Result<Option<String>, TraceError>) -> Seq<Seq<char>> {
    match r {
        Ok(Some(line)) => seq![line@],
        _ => Seq::empty(),
    }
}

/// `lines` are what tracing `m1` on `c1` and then `m2` on `c2` prints through `logger`.
pub open spec fn two_traces_ok(
    logger: crate::ktrace::registry::LoggerView,
    trace_namespace: Seq<char>,
    c1: Seq<char>,
    l1: SourceLocation,
    m1: Seq<char>,
    c2: Seq<char>,
    l2: SourceLocation,
    m2: Seq<char>,
    lines: Seq<Seq<char>>,
) -> bool {
    exists|r1: Result<Option<String>, TraceError>, r2: Result<Option<String>, TraceError>|
        #![trigger trace_line_effect(logger, trace_namespace, c1, l1, m1, r1), trace_line_effect(logger, trace_namespace, c2, l2, m2, r2)]
        trace_line_effect(logger, trace_namespace, c1, l1, m1, r1) && r1 is Ok
            && trace_line_effect(logger, trace_namespace, c2, l2, m2, r2) && r2 is Ok
            && lines == printed(r1) + printed(r2)
}

/// Traces `message1` on `channel1`, then `message2` on `channel2`, and collects the lines that print.
pub fn trace_two(
    trace: &TraceLogger,
    logger: &Logger,
    channel1: &str,
    message1: &str,
    location1: SourceLocation,
    channel2: &str,
    message2: &str,
    location2: SourceLocation,
) -> (r: Result<Vec<String>, TraceError>)
    ensures
        r matches Ok(lines) ==> two_traces_ok(
            trace.sees(logger),
            trace.namespace_view(),
            channel1@,
            location1,
            message1@,
            channel2@,
            location2,
            message2@,
            crate::kcli::model::strings_view(lines@),
        ),
        channel_path_spec(trim_spec(channel1@)) is None ==> trace_err(
            r,
            "invalid trace channel '"@ + trim_spec(channel1@) + "'"@,
        ),
        channel_path_spec(trim_spec(channel1@)) is Some && channel_path_spec(trim_spec(channel2@)) is None
            ==> trace_err(r, "invalid trace channel '"@ + trim_spec(channel2@) + "'"@),
        channel_path_spec(trim_spec(channel1@)) is Some && channel_path_spec(trim_spec(channel2@)) is Some
            ==> r is Ok,
{
    let mut lines: Vec<String> = Vec::new();
    let r1 = trace.trace_with_location(logger, channel1, location1, String::from_str(message1));
    let r2 = trace.trace_with_location(logger, channel2, location2, String::from_str(message2));
    let ghost g1 = r1;
    let ghost g2 = r2;
    let first = match r1 {
        Ok(l) => l,
        Err(e) => {
            return Err(e);
        },
    };
    let second = match r2 {
        Ok(l) => l,
        Err(e) => {
            return Err(e);
        },
    };
    match first {
        Some(l) => {
            proof {
                crate::kcli::model::lemma_strings_view_push(lines@, l);
            }
            lines.push(l);
        },
        None => {},
    }
    match second {
        Some(l) => {
            proof {
                crate::kcli::model::lemma_strings_view_push(lines@, l);
            }
            lines.push(l);
        },
        None => {},
    }
    proof {
        assert(crate::kcli::model::strings_view(lines@) =~= printed(g1) + printed(g2));
        assert(trace_line_effect(trace.sees(logger), trace.namespace_view(), channel1@, location1, message1@, g1));
        assert(trace_line_effect(trace.sees(logger), trace.namespace_view(), channel2@, location2, message2@, g2));
    }
    Ok(lines)
}

} // verus!
