//! What the demo handlers report.
use vstd::prelude::*;
use crate::kcli::model::{strings_view, ContextView, HandlerContext, HandlerResult};
use crate::kcli::backend::upsert_index;
use crate::kcli::normalize::normalize_inline_handler_option_spec;
use crate::kcli::parser::{
    inline_value_stored, other_than_inline_command, targets_inline_command, value_fn_gives, value_fn_gives_with,
    InlineParser,
};
use crate::kcli::process::run::{outcome_view, CallTarget, CallView};
use crate::kcli::process::state::HandlerRef;
use crate::text::{lemma_no_ws, lemma_trim_unchanged};
use crate::sink::reported;

verus! {

/// A short option `-name` of a group names the command `name`.
pub proof fn lemma_short_option_ok(option: Seq<char>, name: Seq<char>, root: Seq<char>)
    requires
        option.len() >= 2,
        option[0] == '-',
        option[1] != '-',
        forall|i: int| 0 <= i < option.len() ==> !crate::text::is_ws_spec(#[trigger] option[i]),
        name == option.subrange(1, option.len() as int),
    ensures
        crate::kcli::normalize::normalize_inline_handler_option_spec(option, root) == Ok::<Seq<char>, Seq<char>>(name),
{
    lemma_trim_unchanged(option);
    lemma_no_ws(name);
}

/// A handler that succeeds and reports the processing line for what it was given.
pub open spec fn reports_processing<S: Fn(String)>(
    sink: S,
    ctx: ContextView,
    value: Seq<char>,
    out: Result<(), Seq<char>>,
) -> bool {
    out == Ok::<(), Seq<char>>(()) && reported(sink, processing_line_spec(ctx.option, ctx.value_tokens, value))
}

/// The position of the group command a call names, or -1 for other calls.
pub open spec fn group_command(t: CallTarget) -> int {
    match t {
        CallTarget::Handler(HandlerRef::Inline(_, ci)) => ci as int,
        _ => -1,
    }
}

/// What each of the first `n` value commands of the group `p` gives, as `prop` of the
/// command's position, the call's context and value, and the outcome.
pub open spec fn group_handlers(
    p: InlineParser,
    prop: spec_fn(int, ContextView, Seq<char>, Result<(), Seq<char>>) -> bool,
    n: int,
) -> bool {
    forall|call: CallView, out: Result<(), Seq<char>>|
        0 <= group_command(call.target) < n && call.value is Some && #[trigger] p.gives(call, out)
            ==> prop(group_command(call.target), call.context, call.value->0, out)
}

/// Setting command `k` of a group to a value handler whose every outcome meets `prop` at
/// `k` extends what `group_handlers` covers by that command.
pub proof fn lemma_group_step<F: Fn(&HandlerContext, &str) -> HandlerResult>(
    old: InlineParser,
    new: InlineParser,
    prop: spec_fn(int, ContextView, Seq<char>, Result<(), Seq<char>>) -> bool,
    k: int,
    option: Seq<char>,
    f: F,
)
    requires
        group_handlers(old, prop, k),
        old.view().command_keys.len() == k,
        upsert_index(old.view().command_keys, normalize_inline_handler_option_spec(option, old.view().root)->Ok_0) == k,
        inline_value_stored(old, new, Ok(()), option, f),
        forall|ctx: &HandlerContext, v: &str, hr: HandlerResult|
            #[trigger] call_ensures(f, (ctx, v), hr) ==> prop(k, ctx.view(), v@, outcome_view(hr)),
    ensures
        group_handlers(new, prop, k + 1),
{
    assert forall|call: CallView, out: Result<(), Seq<char>>|
        0 <= group_command(call.target) < k + 1 && call.value is Some && #[trigger] new.gives(call, out)
            implies prop(group_command(call.target), call.context, call.value->0, out) by {
        if group_command(call.target) == k {
            assert(targets_inline_command(call.target, k));
            assert(value_fn_gives(f, call.context, call.value->0, out));
            let (ctx, v, hr) = choose|ctx: HandlerContext, v: &str, hr: HandlerResult|
                #[trigger] value_fn_gives_with(f, call.context, call.value->0, out, ctx, v, hr);
            assert(call_ensures(f, (&ctx, v), hr));
        } else {
            assert(other_than_inline_command(call.target, k, k));
            assert(old.gives(call, out));
        }
    }
}

/// The tokens, each in double quotes, separated by commas.
pub open spec fn quoted_list(tokens: Seq<Seq<char>>) -> Seq<char>
    decreases tokens.len(),
{
    if tokens.len() == 0 {
        Seq::empty()
    } else if tokens.len() == 1 {
        "\""@ + tokens[0] + "\""@
    } else {
        quoted_list(tokens.drop_last()) + ",\""@ + tokens.last() + "\""@
    }
}

/// The line a demo handler reports for `option` given `tokens` (joined into `value`).
pub open spec fn processing_line_spec(option: Seq<char>, tokens: Seq<Seq<char>>, value: Seq<char>) -> Seq<char> {
    if tokens.len() == 0 {
        "Processing "@ + option
    } else if tokens.len() == 1 {
        "Processing "@ + option + " with value \""@ + value + "\""@
    } else {
        "Processing "@ + option + " with values ["@ + quoted_list(tokens) + "]"@
    }
}

/// The line reporting that the handler for `context.option` ran with `value`.
pub fn processing_line(context: &HandlerContext, value: &str) -> (r: String)
    ensures
        r@ == processing_line_spec(
            context.option@,
            strings_view(context.value_tokens@),
            value@,
        ),
{
    proof {
        reveal_strlit("Processing ");
        reveal_strlit(" with value \"");
        reveal_strlit("\"");
        reveal_strlit(" with values [");
        reveal_strlit("]");
        reveal_strlit(",\"");
    }
    let mut line = String::from_str("Processing ");
    line.append(context.option.as_str());
    let n = context.value_tokens.len();
    if n == 0 {
        return line;
    }
    if n == 1 {
        line.append(" with value \"");
        line.append(value);
        line.append("\"");
        return line;
    }
    line.append(" with values [");
    let ghost head = line@;
    let ghost tokens = strings_view(context.value_tokens@);
    let mut i: usize = 0;
    while i < n
        invariant
            n == context.value_tokens@.len(),
            tokens == strings_view(context.value_tokens@),
            i <= n,
            line@ == head + quoted_list(tokens.subrange(0, i as int)),
        decreases n - i,
    {
        proof {
            let sub = tokens.subrange(0, i as int + 1);
            assert(sub.drop_last() =~= tokens.subrange(0, i as int));
            assert(sub.last() == tokens[i as int]);
            assert(tokens[i as int] == context.value_tokens@[i as int]@);
        }
        if i == 0 {
            line.append("\"");
        } else {
            line.append(",\"");
        }
        line.append(context.value_tokens[i].as_str());
        line.append("\"");
        proof {
            if i == 0 {
                assert(tokens.subrange(0, 0) =~= Seq::<Seq<char>>::empty());
            }
        }
        i = i + 1;
    }
    assert(tokens.subrange(0, n as int) =~= tokens);
    line.append("]");
    line
}

} // verus!
