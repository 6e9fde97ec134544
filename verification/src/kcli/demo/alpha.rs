//! The `--alpha` demo group.
use vstd::prelude::*;
use crate::kcli::demo::common::{group_handlers, lemma_group_step, lemma_short_option_ok, processing_line, reports_processing};
use crate::sink::{pointee, report, share, sink_callable};
use crate::kcli::model::{find_key, BindingView, ConfigError, ContextView, HandlerContext, HandlerResult, InlineView, ValueArity};
use crate::kcli::process::run::outcome_view;
use std::rc::Rc;
use crate::kcli::parser::InlineParser;
use crate::text::{lemma_no_ws, lemma_trim_unchanged};

verus! {

/// What the `--alpha` group configures.
pub open spec fn alpha_view() -> InlineView {
    InlineView {
        root: "alpha"@,
        has_root_handler: false,
        placeholder: Seq::empty(),
        description: Seq::empty(),
        command_keys: seq!["message"@, "enable"@],
        bindings: seq![
            BindingView {
                expects_value: true,
                arity: ValueArity::Required,
                description: "Set alpha message label."@,
            },
            BindingView {
                expects_value: true,
                arity: ValueArity::Optional,
                description: "Enable alpha processing."@,
            },
        ],
    }
}

/// What the alpha commands do: succeed, reporting the processing line to `sink`.
pub open spec fn alpha_prop<S: Fn(String)>(sink: S) -> spec_fn(int, ContextView, Seq<char>, Result<(), Seq<char>>) -> bool {
    |ci: int, ctx: ContextView, v: Seq<char>, out: Result<(), Seq<char>>| reports_processing(sink, ctx, v, out)
}

/// Both alpha commands succeed and report the processing line for what they were given.
pub open spec fn alpha_handlers<S: Fn(String)>(p: InlineParser, sink: S) -> bool {
    group_handlers(p, alpha_prop(sink), 2)
}

/// The `--alpha` group: `--alpha-message <value>` and `--alpha-enable [value]`, both
/// reporting what they were given to `sink`.
pub fn get_inline_parser<S: Fn(String) + 'static>(sink: Rc<S>) -> (r: Result<InlineParser, ConfigError>)
    requires
        sink_callable(*sink),
    ensures
        r matches Ok(p) && p.view() == alpha_view() && alpha_handlers(p, *sink),
{
    proof {
        reveal_strlit("--alpha");
        reveal_strlit("alpha");
        reveal_strlit("-message");
        reveal_strlit("message");
        reveal_strlit("-enable");
        reveal_strlit("enable");
        reveal_strlit("Set alpha message label.");
        reveal_strlit("Enable alpha processing.");
        lemma_trim_unchanged("--alpha"@);
        assert("--alpha"@.subrange(2, 7) =~= "alpha"@);
        lemma_trim_unchanged("alpha"@);
        lemma_no_ws("alpha"@);
        lemma_trim_unchanged("-message"@);
        assert("-message"@.subrange(1, 8) =~= "message"@);
        lemma_no_ws("message"@);
        lemma_trim_unchanged("-enable"@);
        assert("-enable"@.subrange(1, 7) =~= "enable"@);
        lemma_no_ws("enable"@);
        lemma_trim_unchanged("Set alpha message label."@);
        lemma_trim_unchanged("Enable alpha processing."@);
        lemma_short_option_ok("-message"@, "message"@, "alpha"@);
        lemma_short_option_ok("-enable"@, "enable"@, "alpha"@);
    }
    let mut parser = match InlineParser::new("--alpha") {
        Ok(p) => p,
        Err(e) => {
            return Err(e);
        },
    };
    assert(find_key(parser.view().command_keys, "message"@, 0) is None);
    let s1 = share(&sink);
    let h1 = move |context: &HandlerContext, value: &str| -> (r: HandlerResult)
        requires
            sink_callable(*s1),
        ensures
            reports_processing(*s1, context.view(), value@, outcome_view(r)),
        {
            report(&s1, processing_line(context, value));
            Ok(())
        };
    let ghost p0 = parser;
    match parser.set_value_handler("-message", h1, "Set alpha message label.") {
        Ok(()) => {},
        Err(e) => {
            return Err(e);
        },
    }
    proof {
        lemma_group_step(p0, parser, alpha_prop(pointee(&sink)), 0, "-message"@, h1);
    }
    assert(parser.view().command_keys =~= seq!["message"@]);
    assert("message"@ != "enable"@);
    assert(find_key(parser.view().command_keys, "enable"@, 1) is None);
    assert(find_key(parser.view().command_keys, "enable"@, 0) is None);
    let s2 = share(&sink);
    let h2 = move |context: &HandlerContext, value: &str| -> (r: HandlerResult)
        requires
            sink_callable(*s2),
        ensures
            reports_processing(*s2, context.view(), value@, outcome_view(r)),
        {
            report(&s2, processing_line(context, value));
            Ok(())
        };
    let ghost p1 = parser;
    match parser.set_optional_value_handler("-enable", h2, "Enable alpha processing.") {
        Ok(()) => {},
        Err(e) => {
            return Err(e);
        },
    }
    proof {
        lemma_group_step(p1, parser, alpha_prop(pointee(&sink)), 1, "-enable"@, h2);
    }
    assert(parser.view().command_keys =~= alpha_view().command_keys);
    assert(parser.view().bindings =~= alpha_view().bindings);
    Ok(parser)
}

} // verus!
