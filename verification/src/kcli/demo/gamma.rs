//! The `--gamma` demo group.
use vstd::prelude::*;
use crate::kcli::demo::common::{group_handlers, lemma_group_step, lemma_short_option_ok, processing_line, reports_processing};
use crate::sink::{pointee, report, share, sink_callable};
use crate::kcli::model::{find_key, BindingView, ConfigError, ContextView, HandlerContext, HandlerResult, InlineView, ValueArity};
use crate::kcli::process::run::outcome_view;
use std::rc::Rc;
use crate::kcli::parser::InlineParser;
use crate::text::{lemma_no_ws, lemma_trim_unchanged};

verus! {

/// What the `--gamma` group configures.
pub open spec fn gamma_view() -> InlineView {
    InlineView {
        root: "gamma"@,
        has_root_handler: false,
        placeholder: Seq::empty(),
        description: Seq::empty(),
        command_keys: seq!["strict"@, "tag"@],
        bindings: seq![
            BindingView {
                expects_value: true,
                arity: ValueArity::Optional,
                description: "Enable strict gamma mode."@,
            },
            BindingView {
                expects_value: true,
                arity: ValueArity::Required,
                description: "Set a gamma tag label."@,
            },
        ],
    }
}

/// What the gamma commands do: succeed, reporting the processing line to `sink`.
pub open spec fn gamma_prop<S: Fn(String)>(sink: S) -> spec_fn(int, ContextView, Seq<char>, Result<(), Seq<char>>) -> bool {
    |ci: int, ctx: ContextView, v: Seq<char>, out: Result<(), Seq<char>>| reports_processing(sink, ctx, v, out)
}

/// Both gamma commands succeed and report the processing line for what they were given.
pub open spec fn gamma_handlers<S: Fn(String)>(p: InlineParser, sink: S) -> bool {
    group_handlers(p, gamma_prop(sink), 2)
}

/// The `--gamma` group: `--gamma-strict [value]` and `--gamma-tag <value>`, both
/// reporting what they were given to `sink`.
pub fn get_inline_parser<S: Fn(String) + 'static>(sink: Rc<S>) -> (r: Result<InlineParser, ConfigError>)
    requires
        sink_callable(*sink),
    ensures
        r matches Ok(p) && p.view() == gamma_view() && gamma_handlers(p, *sink),
{
    proof {
        reveal_strlit("--gamma");
        reveal_strlit("gamma");
        reveal_strlit("-strict");
        reveal_strlit("strict");
        reveal_strlit("-tag");
        reveal_strlit("tag");
        reveal_strlit("Enable strict gamma mode.");
        reveal_strlit("Set a gamma tag label.");
        lemma_trim_unchanged("--gamma"@);
        assert("--gamma"@.subrange(2, 7) =~= "gamma"@);
        lemma_trim_unchanged("gamma"@);
        lemma_no_ws("gamma"@);
        lemma_trim_unchanged("-strict"@);
        assert("-strict"@.subrange(1, 7) =~= "strict"@);
        lemma_no_ws("strict"@);
        lemma_trim_unchanged("-tag"@);
        assert("-tag"@.subrange(1, 4) =~= "tag"@);
        lemma_no_ws("tag"@);
        lemma_trim_unchanged("Enable strict gamma mode."@);
        lemma_trim_unchanged("Set a gamma tag label."@);
        lemma_short_option_ok("-strict"@, "strict"@, "gamma"@);
        lemma_short_option_ok("-tag"@, "tag"@, "gamma"@);
    }
    let mut parser = match InlineParser::new("--gamma") {
        Ok(p) => p,
        Err(e) => {
            return Err(e);
        },
    };
    assert(find_key(parser.view().command_keys, "strict"@, 0) is None);
    let s1 = share(&sink);
    let h1 = move |context: &HandlerContext, value: &str| -> (r: HandlerResult)
        requires
            sink_callable(*s1),
        ensures
            reports_processing(*s1, context.view(), value@, outcome_view(r)),
        {
            report(&s1, processing_line(context, value));
            Ok(())
        };
    let ghost p0 = parser;
    match parser.set_optional_value_handler("-strict", h1, "Enable strict gamma mode.") {
        Ok(()) => {},
        Err(e) => {
            return Err(e);
        },
    }
    proof {
        lemma_group_step(p0, parser, gamma_prop(pointee(&sink)), 0, "-strict"@, h1);
    }
    assert(parser.view().command_keys =~= seq!["strict"@]);
    assert("strict"@ != "tag"@);
    assert(find_key(parser.view().command_keys, "tag"@, 1) is None);
    assert(find_key(parser.view().command_keys, "tag"@, 0) is None);
    let s2 = share(&sink);
    let h2 = move |context: &HandlerContext, value: &str| -> (r: HandlerResult)
        requires
            sink_callable(*s2),
        ensures
            reports_processing(*s2, context.view(), value@, outcome_view(r)),
        {
            report(&s2, processing_line(context, value));
            Ok(())
        };
    let ghost p1 = parser;
    match parser.set_value_handler("-tag", h2, "Set a gamma tag label.") {
        Ok(()) => {},
        Err(e) => {
            return Err(e);
        },
    }
    proof {
        lemma_group_step(p1, parser, gamma_prop(pointee(&sink)), 1, "-tag"@, h2);
    }
    assert(parser.view().command_keys =~= gamma_view().command_keys);
    assert(parser.view().bindings =~= gamma_view().bindings);
    Ok(parser)
}

} // verus!
