//! The `beta` demo trace logger.
use vstd::prelude::*;
use crate::ktrace::demo::common::{declare_trace_logger, declared_spec, trace_two, two_traces_ok};
use crate::ktrace::model::{trace_err, SourceLocation, TraceError};
use crate::ktrace::registry::{Logger, TraceLogger};

use crate::ktrace::selectors::lemma_single_name_path;
use crate::text::lemma_trim_unchanged_name;

verus! {

pub open spec fn beta_entries() -> Seq<(Seq<char>, Seq<char>)> {
    seq![("io"@, "MediumSpringGreen"@), ("scheduler"@, "Orange3"@)]
}

/// The `beta` namespace with the channels `io` (MediumSpringGreen) and `scheduler` (Orange3).
pub fn get_trace_logger() -> (r: Result<TraceLogger, TraceError>)
    ensures
        match declared_spec("beta"@, beta_entries()) {
            Ok(cs) => r matches Ok(t) && t.namespace_view() == crate::text::trim_spec("beta"@) && t.channels_view() == cs,
            Err(m) => trace_err(r, m),
        },
{
    let entries: [(&str, &str); 2] = [("io", "MediumSpringGreen"), ("scheduler", "Orange3")];
    let r = declare_trace_logger("beta", &entries);
    assert(crate::ktrace::demo::common::entries_view(entries@) =~= beta_entries());
    r
}

/// Traces a test message on `io` and then on `scheduler` of `trace` (a trace logger for the
/// beta channels) through `logger`; the lines that print.
pub fn test_trace_logging_channels(trace: &TraceLogger, logger: &Logger) -> (r: Result<Vec<String>, TraceError>)
    ensures
        r is Ok,
        r matches Ok(lines) ==> two_traces_ok(
            trace.sees(logger),
            trace.namespace_view(),
            "io"@,
            SourceLocation { file: "src/ktrace/demo/beta.rs", line: 60, function: "" },
            "beta trace test on channel 'io'"@,
            "scheduler"@,
            SourceLocation { file: "src/ktrace/demo/beta.rs", line: 63, function: "" },
            "beta trace test on channel 'scheduler'"@,
            crate::kcli::model::strings_view(lines@),
        ),
{
    proof {
        reveal_strlit("io");
        reveal_strlit("scheduler");
        lemma_trim_unchanged_name("io"@);
        lemma_trim_unchanged_name("scheduler"@);
        lemma_single_name_path("io"@);
        lemma_single_name_path("scheduler"@);
    }
    trace_two(
        trace,
        logger,
        "io",
        "beta trace test on channel 'io'",
        SourceLocation::new("src/ktrace/demo/beta.rs", 60, ""),
        "scheduler",
        "beta trace test on channel 'scheduler'",
        SourceLocation::new("src/ktrace/demo/beta.rs", 63, ""),
    )
}

} // verus!
