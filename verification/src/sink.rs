//! Line sinks: the closures that lines shown to the user are handed to.
use vstd::prelude::*;
use std::rc::Rc;

verus! {

/// `Rc::clone`: another handle on the same value.
#[verifier::external_body]
pub fn share<T>(r: &Rc<T>) -> (s: Rc<T>)
    ensures
        *s == **r,
{
    Rc::clone(r)
}

/// The value an `Rc` points to.
pub open spec fn pointee<T>(r: &Rc<T>) -> T {
    **r
}

/// The line sink `sink` may be handed every line.
pub open spec fn sink_callable<S: Fn(String)>(sink: S) -> bool {
    forall|line: String| call_requires(sink, (line,))
}

/// `sink` was handed a line whose text is `line`.
pub open spec fn reported<S: Fn(String)>(sink: S, line: Seq<char>) -> bool {
    exists|l: String| l@ == line && #[trigger] call_ensures(sink, (l,), ())
}

/// Hands `line` to `sink`.
pub fn report<S: Fn(String)>(sink: &Rc<S>, line: String)
    requires
        sink_callable(**sink),
    ensures
        reported(**sink, line@),
{
    let ghost g = line;
    (**sink)(line);
    assert(call_ensures(**sink, (g,), ()));
}

} // verus!
