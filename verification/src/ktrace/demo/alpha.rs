//! The `alpha` demo trace logger.
use vstd::prelude::*;
use crate::ktrace::demo::common::{declare_trace_logger, declared_spec};
use crate::ktrace::model::{trace_err, TraceError};
use crate::ktrace::registry::TraceLogger;

verus! {

/// The `alpha` namespace with the channels `net` (DeepSkyBlue1) and `cache` (Gold3).
pub fn get_trace_logger() -> (r: Result<TraceLogger, TraceError>)
    ensures
        match declared_spec("alpha"@, seq![("net"@, "DeepSkyBlue1"@), ("cache"@, "Gold3"@)]) {
            Ok(cs) => r matches Ok(t) && t.namespace_view() == crate::text::trim_spec("alpha"@) && t.channels_view() == cs,
            Err(m) => trace_err(r, m),
        },
{
    let entries: [(&str, &str); 2] = [("net", "DeepSkyBlue1"), ("cache", "Gold3")];
    let r = declare_trace_logger("alpha", &entries);
    assert(crate::ktrace::demo::common::entries_view(entries@) =~= seq![("net"@, "DeepSkyBlue1"@), ("cache"@, "Gold3"@)]);
    r
}

} // verus!
