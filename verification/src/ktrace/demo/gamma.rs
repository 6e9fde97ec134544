//! The `gamma` demo trace logger.
use vstd::prelude::*;
use crate::ktrace::demo::common::{declare_trace_logger, declared_spec};
use crate::ktrace::model::{trace_err, TraceError};
use crate::ktrace::registry::TraceLogger;

verus! {

/// The `gamma` namespace with `scheduler` (BrightMagenta) and `scheduler.tick` (Orange3).
pub fn get_trace_logger() -> (r: Result<TraceLogger, TraceError>)
    ensures
        match declared_spec("gamma"@, seq![("scheduler"@, "BrightMagenta"@), ("scheduler.tick"@, "Orange3"@)]) {
            Ok(cs) => r matches Ok(t) && t.namespace_view() == crate::text::trim_spec("gamma"@) && t.channels_view() == cs,
            Err(m) => trace_err(r, m),
        },
{
    let entries: [(&str, &str); 2] = [("scheduler", "BrightMagenta"), ("scheduler.tick", "Orange3")];
    let r = declare_trace_logger("gamma", &entries);
    assert(crate::ktrace::demo::common::entries_view(entries@) =~= seq![("scheduler"@, "BrightMagenta"@), ("scheduler.tick"@, "Orange3"@)]);
    r
}

} // verus!
