//! Parsing a command line against a configuration.
use vstd::prelude::*;
use crate::kcli::model::{default_parse_message, strings_view, CliError, ParserData};
use crate::kcli::process::plan::{parse_plan_spec, plan_invocations, report_unconsumed_option_tokens};
use crate::kcli::process::run::{call_gives, execute_invocations, run_after, run_finished, CallView};
use crate::sink::{reported, sink_callable};
use std::rc::Rc;
use crate::kcli::process::state::{failure_message_spec, failure_option_spec, FailureView, ParseOutcome};

verus! {

/// The error reported for a failure.
pub open spec fn cli_error_of(e: CliError, f: FailureView) -> bool {
    &&& e.option_view() == failure_option_spec(f)
    &&& e.message_view() == if failure_message_spec(f).len() == 0 {
        default_parse_message()
    } else {
        failure_message_spec(f)
    }
}

/// A parse result agrees with an outcome given as plain values.
pub open spec fn result_matches(
    r: Result<Vec<String>, CliError>,
    outcome: Result<Seq<Seq<char>>, FailureView>,
    shown: Seq<Seq<char>>,
) -> bool {
    match outcome {
        Ok(out) => r matches Ok(v) && strings_view(v@) == out,
        Err(f) => r matches Err(e) && cli_error_of(e, f) && e.listings_view() == shown,
    }
}

/// The help listings shown once the handlers have returned `rs`: none when planning fails,
/// else those the run reached, in order.
pub open spec fn parse_shown_spec(
    p: crate::kcli::model::ParserView,
    t: Seq<Seq<char>>,
    rs: Seq<Result<(), Seq<char>>>,
) -> Seq<Seq<char>> {
    match parse_plan_spec(p, t) {
        Err(_) => Seq::empty(),
        Ok(invs) => run_after(invs, rs).outputs,
    }
}

/// What parsing yields once the handlers have returned `rs`: the help listings or the failure.
pub open spec fn parse_outcome_spec(
    p: crate::kcli::model::ParserView,
    t: Seq<Seq<char>>,
    rs: Seq<Result<(), Seq<char>>>,
) -> Result<Seq<Seq<char>>, FailureView> {
    match parse_plan_spec(p, t) {
        Err(f) => Err(f),
        Ok(invs) => match run_after(invs, rs).failure {
            Some(f) => Err(f),
            None => Ok(run_after(invs, rs).outputs),
        },
    }
}

/// The handler calls parsing makes once the handlers have returned `rs`.
pub open spec fn parse_calls_spec(
    p: crate::kcli::model::ParserView,
    t: Seq<Seq<char>>,
    rs: Seq<Result<(), Seq<char>>>,
) -> Seq<CallView> {
    match parse_plan_spec(p, t) {
        Err(_) => Seq::empty(),
        Ok(invs) => run_after(invs, rs).calls,
    }
}

/// Once the handlers have returned `rs`, parsing has nothing left to run.
pub open spec fn parse_finished(
    p: crate::kcli::model::ParserView,
    t: Seq<Seq<char>>,
    rs: Seq<Result<(), Seq<char>>>,
) -> bool {
    match parse_plan_spec(p, t) {
        Err(_) => rs.len() == 0,
        Ok(invs) => run_finished(invs, run_after(invs, rs)),
    }
}

fn all_false(n: usize) -> (v: Vec<bool>)
    ensures
        v@ == Seq::new(n as nat, |k: int| false),
{
    let mut v: Vec<bool> = Vec::new();
    let mut i: usize = 0;
    while i < n
        invariant
            i <= n,
            v@ == Seq::new(i as nat, |k: int| false),
        decreases n - i,
    {
        v.push(false);
        i = i + 1;
        assert(v@ =~= Seq::new(i as nat, |k: int| false));
    }
    v
}

/// Plans the command line, and runs the handlers only if the whole line is valid.
///
/// Each help listing is handed to `show` when reached. Returns the help listings, and (as
/// ghost) the handler calls made.
pub fn parse_tokens<S: Fn(String)>(data: &ParserData, argv: &Vec<String>, show: &Rc<S>) -> (r: (
    Result<Vec<String>, CliError>,
    Ghost<Seq<CallView>>,
))
    requires
        data.wf(),
        sink_callable(**show),
    ensures
        r.0 matches Ok(v) ==> forall|i: int| 0 <= i < v@.len() ==> reported(**show, #[trigger] v@[i]@),
        r.0 matches Err(e) ==> forall|i: int|
            0 <= i < e.listings_view().len() ==> reported(**show, #[trigger] e.listings_view()[i]),
        exists|rs: Seq<Result<(), Seq<char>>>| {
            &&& parse_finished(data.view(), strings_view(argv@), rs)
            &&& result_matches(r.0, parse_outcome_spec(data.view(), strings_view(argv@), rs), parse_shown_spec(data.view(), strings_view(argv@), rs))
            &&& r.1@ == parse_calls_spec(data.view(), strings_view(argv@), rs)
            &&& r.1@.len() == rs.len()
            &&& forall|k: int| 0 <= k < rs.len() ==> call_gives(data, #[trigger] r.1@[k], rs[k])
        },
        parse_plan_spec(data.view(), strings_view(argv@)) is Err ==> r.1@.len() == 0,
{
    let ghost p = data.view();
    let ghost t = strings_view(argv@);
    if argv.len() == 0 {
        let ghost rs: Seq<Result<(), Seq<char>>> = Seq::empty();
        let v: Vec<String> = Vec::new();
        proof {
            assert(run_after(Seq::empty(), rs).outputs =~= Seq::empty());
            assert(strings_view(v@) =~= Seq::<Seq<char>>::empty());
            assert(result_matches(Ok(v), parse_outcome_spec(p, t, rs), parse_shown_spec(p, t, rs)));
            assert(Seq::<CallView>::empty() == parse_calls_spec(p, t, rs));
        }
        return (Ok(v), Ghost(Seq::empty()));
    }
    let mut consumed = all_false(argv.len());
    let mut result = ParseOutcome::new();
    let invocations = plan_invocations(data, argv, &mut consumed, &mut result);
    report_unconsumed_option_tokens(argv, &consumed, &mut result);
    if !result.ok {
        let failure = result.error.unwrap();
        let e = CliError::new(failure.option(), failure.render_message().as_str());
        let ghost rs: Seq<Result<(), Seq<char>>> = Seq::empty();
        assert(result_matches(Err(e), parse_outcome_spec(p, t, rs), parse_shown_spec(p, t, rs)));
        assert(Seq::<CallView>::empty() == parse_calls_spec(p, t, rs));
        return (Err(e), Ghost(Seq::empty()));
    }
    let (outputs, rs, calls) = execute_invocations(data, &invocations, &mut result, show);
    if !result.ok {
        let failure = result.error.unwrap();
        let ghost shown = outputs@;
        let e = CliError::new(failure.option(), failure.render_message().as_str()).with_listings(outputs);
        assert forall|i: int| 0 <= i < e.listings_view().len() implies reported(**show, #[trigger] e.listings_view()[i]) by {
            assert(e.listings_view()[i] == shown[i]@);
        }
        assert(result_matches(Err(e), parse_outcome_spec(p, t, rs@), parse_shown_spec(p, t, rs@)));
        assert(calls@ == parse_calls_spec(p, t, rs@));
        return (Err(e), calls);
    }
    assert(result_matches(Ok(outputs), parse_outcome_spec(p, t, rs@), parse_shown_spec(p, t, rs@)));
    assert(calls@ == parse_calls_spec(p, t, rs@));
    (Ok(outputs), calls)
}

} // verus!
