//! The gamma SDK trace logger.
use vstd::prelude::*;
use crate::ktrace::demo::common::{declare_trace_logger, declared_spec, trace_two, two_traces_ok};
use crate::ktrace::model::{trace_err, SourceLocation, TraceError};
use crate::ktrace::registry::{Logger, TraceLogger};

use crate::ktrace::selectors::lemma_single_name_path;
use crate::text::lemma_trim_unchanged_name;

verus! {

pub open spec fn sdk_gamma_entries() -> Seq<(Seq<char>, Seq<char>)> {
    seq![("physics"@, "MediumOrchid1"@), ("metrics"@, "LightSkyBlue1"@)]
}

/// The `gamma` namespace of the gamma SDK: `physics` (MediumOrchid1) and `metrics` (LightSkyBlue1).
pub fn get_trace_logger() -> (r: Result<TraceLogger, TraceError>)
    ensures
        match declared_spec("gamma"@, sdk_gamma_entries()) {
            Ok(cs) => r matches Ok(t) && t.namespace_view() == crate::text::trim_spec("gamma"@) && t.channels_view() == cs,
            Err(m) => trace_err(r, m),
        },
{
    let entries: [(&str, &str); 2] = [("physics", "MediumOrchid1"), ("metrics", "LightSkyBlue1")];
    let r = declare_trace_logger("gamma", &entries);
    assert(crate::ktrace::demo::common::entries_view(entries@) =~= sdk_gamma_entries());
    r
}

/// Traces a test message on `physics` and then on `metrics` of `trace` (a trace logger for the
/// gamma channels) through `logger`; the lines that print.
pub fn test_trace_logging_channels(trace: &TraceLogger, logger: &Logger) -> (r: Result<Vec<String>, TraceError>)
    ensures
        r is Ok,
        r matches Ok(lines) ==> two_traces_ok(
            trace.sees(logger),
            trace.namespace_view(),
            "physics"@,
            SourceLocation { file: "src/ktrace/demo/sdk_gamma.rs", line: 60, function: "" },
            "gamma trace test on channel 'physics'"@,
            "metrics"@,
            SourceLocation { file: "src/ktrace/demo/sdk_gamma.rs", line: 63, function: "" },
            "gamma trace test on channel 'metrics'"@,
            crate::kcli::model::strings_view(lines@),
        ),
{
    proof {
        reveal_strlit("physics");
        reveal_strlit("metrics");
        lemma_trim_unchanged_name("physics"@);
        lemma_trim_unchanged_name("metrics"@);
        lemma_single_name_path("physics"@);
        lemma_single_name_path("metrics"@);
    }
    trace_two(
        trace,
        logger,
        "physics",
        "gamma trace test on channel 'physics'",
        SourceLocation::new("src/ktrace/demo/sdk_gamma.rs", 60, ""),
        "metrics",
        "gamma trace test on channel 'metrics'",
        SourceLocation::new("src/ktrace/demo/sdk_gamma.rs", 63, ""),
    )
}

} // verus!
