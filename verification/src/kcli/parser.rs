//! The public parser types: an end-user `Parser` and the `InlineParser` groups it hosts.
use vstd::prelude::*;
use crate::sink::{reported, sink_callable};
use std::rc::Rc;
use crate::kcli::backend::{
    add_inline_parser, alias_effect, duplicate_root_message, inline_binding_effect,
    command_action_stored, flag_acts_as, inline_action_stored, presets_view, primary_binding_effect, refused_with, upsert_index, value_acts_as, set_alias, set_inline_flag_handler,
    set_inline_optional_value_handler, set_inline_root, set_inline_value_handler,
    set_positional_handler, set_primary_flag_handler, set_primary_optional_value_handler,
    set_primary_value_handler, set_root_value_handler, set_root_value_handler_with_help,
};
use crate::kcli::model::{
    strings_view, BindingAction, CliError, ConfigError, ContextView, FlagHandler, HandlerContext, HandlerResult,
    InlineParserData, InlineView, ParserData, ParserView, ValueArity, ValueHandler,
};
use crate::kcli::normalize::{
    normalize_description_spec, normalize_help_placeholder_spec,
    normalize_inline_handler_option_spec, normalize_inline_root_option_spec, normalize_primary_handler_option_spec,
};
use crate::kcli::process::parse::{parse_calls_spec, parse_outcome_spec, parse_tokens, parse_finished, parse_shown_spec, result_matches};
use crate::kcli::process::run::{
    call_gives, call_gives_with, inline_call_gives_with, lemma_inline_call_gives, outcome_view, targets_inline, CallTarget,
    CallView,
};
use crate::kcli::process::state::HandlerRef;

verus! {

/// `out` is what the flag handler `f` returned, called on a context whose view is `ctx`.
pub open spec fn flag_fn_gives<F: Fn(&HandlerContext) -> HandlerResult>(
    f: F,
    ctx: ContextView,
    out: Result<(), Seq<char>>,
) -> bool {
    exists|c: HandlerContext, hr: HandlerResult| #[trigger] flag_fn_gives_with(f, ctx, out, c, hr)
}

pub open spec fn flag_fn_gives_with<F: Fn(&HandlerContext) -> HandlerResult>(
    f: F,
    ctx: ContextView,
    out: Result<(), Seq<char>>,
    c: HandlerContext,
    hr: HandlerResult,
) -> bool {
    c.view() == ctx && outcome_view(hr) == out && call_ensures(f, (&c,), hr)
}

/// `out` is what the value handler `f` returned, called on a context whose view is `ctx`
/// and on the value `value`.
pub open spec fn value_fn_gives<F: Fn(&HandlerContext, &str) -> HandlerResult>(
    f: F,
    ctx: ContextView,
    value: Seq<char>,
    out: Result<(), Seq<char>>,
) -> bool {
    exists|c: HandlerContext, v: &str, hr: HandlerResult| #[trigger] value_fn_gives_with(f, ctx, value, out, c, v, hr)
}

pub open spec fn value_fn_gives_with<F: Fn(&HandlerContext, &str) -> HandlerResult>(
    f: F,
    ctx: ContextView,
    value: Seq<char>,
    out: Result<(), Seq<char>>,
    c: HandlerContext,
    v: &str,
    hr: HandlerResult,
) -> bool {
    c.view() == ctx && v@ == value && outcome_view(hr) == out && call_ensures(f, (&c, v), hr)
}

/// The call target is the command at position `i`.
pub open spec fn targets_command(t: CallTarget, i: int) -> bool {
    match t {
        CallTarget::Handler(HandlerRef::Primary(j)) => j == i,
        _ => false,
    }
}

/// A call target that setting the command at position `i` (of `n` before) leaves alone.
pub open spec fn other_than_command(t: CallTarget, i: int, n: int) -> bool {
    match t {
        CallTarget::Handler(HandlerRef::Primary(j)) => j != i && j < n,
        _ => true,
    }
}

/// On success, the command that `option` names runs the flag handler `f`, and every other
/// handler is as it was; on failure no handler changed.
pub open spec fn primary_flag_stored<F: Fn(&HandlerContext) -> HandlerResult>(
    old: Parser,
    new: Parser,
    r: Result<(), ConfigError>,
    option: Seq<char>,
    f: F,
) -> bool {
    let i = upsert_index(old.view().command_keys, normalize_primary_handler_option_spec(option)->Ok_0);
    &&& r is Ok ==> forall|call: CallView, out: Result<(), Seq<char>>|
        targets_command(call.target, i) && call.value is None
            ==> (#[trigger] new.gives(call, out) <==> flag_fn_gives(f, call.context, out))
    &&& forall|call: CallView, out: Result<(), Seq<char>>|
        (r is Err || other_than_command(call.target, i, old.view().command_keys.len() as int))
            ==> (#[trigger] new.gives(call, out) <==> old.gives(call, out))
}

/// On success, the command that `option` names runs the value handler `f`, and every other
/// handler is as it was; on failure no handler changed.
pub open spec fn primary_value_stored<F: Fn(&HandlerContext, &str) -> HandlerResult>(
    old: Parser,
    new: Parser,
    r: Result<(), ConfigError>,
    option: Seq<char>,
    f: F,
) -> bool {
    let i = upsert_index(old.view().command_keys, normalize_primary_handler_option_spec(option)->Ok_0);
    &&& r is Ok ==> forall|call: CallView, out: Result<(), Seq<char>>|
        targets_command(call.target, i) && call.value is Some
            ==> (#[trigger] new.gives(call, out) <==> value_fn_gives(f, call.context, call.value->0, out))
    &&& forall|call: CallView, out: Result<(), Seq<char>>|
        (r is Err || other_than_command(call.target, i, old.view().command_keys.len() as int))
            ==> (#[trigger] new.gives(call, out) <==> old.gives(call, out))
}

/// The call is to the inline command at position `i`.
pub open spec fn targets_inline_command(t: CallTarget, i: int) -> bool {
    match t {
        CallTarget::Handler(HandlerRef::Inline(_, ci)) => ci == i,
        _ => false,
    }
}

/// A call target that setting the inline command at position `i` (of `n` before) leaves alone.
pub open spec fn other_than_inline_command(t: CallTarget, i: int, n: int) -> bool {
    match t {
        CallTarget::Handler(HandlerRef::Inline(_, ci)) => ci != i && ci < n,
        _ => true,
    }
}

/// A call target outside the inline parser at position `n` and beyond.
pub open spec fn other_than_inline(t: CallTarget, n: int) -> bool {
    match t {
        CallTarget::Handler(HandlerRef::Inline(pi, _)) => pi < n,
        CallTarget::Handler(HandlerRef::InlineRoot(pi)) => pi < n,
        _ => true,
    }
}

/// The call is to an inline root value handler.
pub open spec fn targets_inline_root(t: CallTarget) -> bool {
    t matches CallTarget::Handler(HandlerRef::InlineRoot(_))
}

/// On success, the group command that `option` names runs the flag handler `f`; every other
/// handler of the group is as it was; on failure no handler changed.
pub open spec fn inline_flag_stored<F: Fn(&HandlerContext) -> HandlerResult>(
    old: InlineParser,
    new: InlineParser,
    r: Result<(), ConfigError>,
    option: Seq<char>,
    f: F,
) -> bool {
    let i = upsert_index(old.view().command_keys, normalize_inline_handler_option_spec(option, old.view().root)->Ok_0);
    &&& r is Ok ==> forall|call: CallView, out: Result<(), Seq<char>>|
        targets_inline_command(call.target, i) && call.value is None
            ==> (#[trigger] new.gives(call, out) <==> flag_fn_gives(f, call.context, out))
    &&& forall|call: CallView, out: Result<(), Seq<char>>|
        (r is Err || other_than_inline_command(call.target, i, old.view().command_keys.len() as int))
            ==> (#[trigger] new.gives(call, out) <==> old.gives(call, out))
}

/// On success, the group command that `option` names runs the value handler `f`; every
/// other handler of the group is as it was; on failure no handler changed.
pub open spec fn inline_value_stored<F: Fn(&HandlerContext, &str) -> HandlerResult>(
    old: InlineParser,
    new: InlineParser,
    r: Result<(), ConfigError>,
    option: Seq<char>,
    f: F,
) -> bool {
    let i = upsert_index(old.view().command_keys, normalize_inline_handler_option_spec(option, old.view().root)->Ok_0);
    &&& r is Ok ==> forall|call: CallView, out: Result<(), Seq<char>>|
        targets_inline_command(call.target, i) && call.value is Some
            ==> (#[trigger] new.gives(call, out) <==> value_fn_gives(f, call.context, call.value->0, out))
    &&& forall|call: CallView, out: Result<(), Seq<char>>|
        (r is Err || other_than_inline_command(call.target, i, old.view().command_keys.len() as int))
            ==> (#[trigger] new.gives(call, out) <==> old.gives(call, out))
}

/// The root value handler is now `f`; the commands' handlers are as they were.
pub open spec fn inline_root_stored<F: Fn(&HandlerContext, &str) -> HandlerResult>(
    old: InlineParser,
    new: InlineParser,
    f: F,
) -> bool {
    &&& forall|call: CallView, out: Result<(), Seq<char>>|
        targets_inline_root(call.target) && call.value is Some
            ==> (#[trigger] new.gives(call, out) <==> value_fn_gives(f, call.context, call.value->0, out))
    &&& forall|call: CallView, out: Result<(), Seq<char>>|
        !targets_inline_root(call.target) ==> (#[trigger] new.gives(call, out) <==> old.gives(call, out))
}

/// What the handlers of the inline parser `d` may give.
pub open spec fn inline_gives(d: InlineParserData, call: CallView, out: Result<(), Seq<char>>) -> bool {
    exists|c: HandlerContext, v: &str, hr: HandlerResult| #[trigger] inline_call_gives_with(d, call, out, c, v, hr)
}

/// Every context may be handed to the flag handler `f`.
pub open spec fn flag_callable<F: Fn(&HandlerContext) -> HandlerResult>(f: F) -> bool {
    forall|context: &HandlerContext| call_requires(f, (context,))
}

/// Every context and value may be handed to the value handler `f`.
pub open spec fn value_callable<F: Fn(&HandlerContext, &str) -> HandlerResult>(f: F) -> bool {
    forall|context: &HandlerContext, value: &str| call_requires(f, (context, value))
}

/// The plain-value view of a fresh inline parser with root `root`.
pub open spec fn fresh_inline_view(root: Seq<char>) -> InlineView {
    InlineView {
        root,
        has_root_handler: false,
        placeholder: Seq::empty(),
        description: Seq::empty(),
        command_keys: Seq::empty(),
        bindings: Seq::empty(),
    }
}

/// The plain-value view of a parser with nothing configured.
pub open spec fn empty_parser_view() -> ParserView {
    ParserView {
        has_positional: false,
        aliases: Seq::empty(),
        alias_keys: Seq::empty(),
        command_keys: Seq::empty(),
        bindings: Seq::empty(),
        inlines: Seq::empty(),
    }
}

/// A group of options under one root: `--root`, `--root <value>`, `--root-<command>`.
pub struct InlineParser {
    data: InlineParserData,
}

impl InlineParser {
    #[verifier::type_invariant]
    spec fn inv(&self) -> bool {
        self.data.wf()
    }

    /// What is configured, as plain values.
    pub closed spec fn view(&self) -> InlineView {
        self.data.view()
    }

    /// `out` is a result the handler that `call` names in this group (its command, or its
    /// root value) may return for the call's context and value, once the group is hosted.
    pub closed spec fn gives(&self, call: CallView, out: Result<(), Seq<char>>) -> bool {
        inline_gives(self.data, call, out)
    }

    /// A parser for the root `root` (written `--root` or `root`).
    pub fn new(root: &str) -> (r: Result<Self, ConfigError>)
        ensures
            match normalize_inline_root_option_spec(root@) {
                Ok(n) => r matches Ok(p) && p.view() == fresh_inline_view(n),
                Err(m) => r matches Err(e) && e.message_view() == m,
            },
    {
        let mut data = InlineParserData::new();
        assert(data.view().command_keys =~= Seq::empty());
        assert(data.view().bindings =~= Seq::empty());
        assert(data.view().placeholder =~= Seq::empty());
        assert(data.view().description =~= Seq::empty());
        match set_inline_root(&mut data, root) {
            Ok(()) => {
                let p = InlineParser { data };
                assert(p.view() == fresh_inline_view(p.view().root));
                Ok(p)
            },
            Err(e) => Err(e),
        }
    }

    fn take_data(&mut self) -> (d: InlineParserData)
        ensures
            d.wf(),
            d.view() == old(self).view(),
            d == old(self).data,
    {
        proof {
            use_type_invariant(&*self);
        }
        let mut d = InlineParserData::new();
        std::mem::swap(&mut d, &mut self.data);
        d
    }

    /// Renames the root; a refused name leaves the parser as it was.
    pub fn set_root(&mut self, root: &str) -> (r: Result<(), ConfigError>)
        ensures
            match normalize_inline_root_option_spec(root@) {
                Ok(n) => r is Ok && final(self).view() == (InlineView { root: n, ..old(self).view() }),
                Err(m) => refused_with(r, m) && final(self).view() == old(self).view(),
            },
            forall|call: CallView, out: Result<(), Seq<char>>| #[trigger] final(self).gives(call, out) <==> old(self).gives(
                call,
                out,
            ),
    {
        let mut data = self.take_data();
        let ghost od = data;
        let r = set_inline_root(&mut data, root);
        self.data = data;
        proof {
            lemma_inline_unchanged(od, data, false, true, -1, true);
        }
        r
    }

    /// Handles `--root <value>`; the root keeps no help text.
    pub fn set_root_value_handler<F: Fn(&HandlerContext, &str) -> HandlerResult + 'static>(
        &mut self,
        handler: F,
    ) -> (r: Result<(), ConfigError>)
        requires
            value_callable(handler),
        ensures
            r is Ok,
            final(self).view() == (InlineView {
                has_root_handler: true,
                placeholder: Seq::empty(),
                description: Seq::empty(),
                ..old(self).view()
            }),
            inline_root_stored(*old(self), *final(self), handler),
    {
        let mut data = self.take_data();
        let ghost od = data;
        let boxed: Box<dyn ValueHandler> = Box::new(handler);
        let r = set_root_value_handler(&mut data, boxed);
        self.data = data;
        proof {
            lemma_inline_unchanged(od, data, false, true, -1, false);
            assert forall|call: CallView, out: Result<(), Seq<char>>|
                targets_inline_root(call.target) && call.value is Some
                    implies (#[trigger] self.gives(call, out) <==> value_fn_gives(handler, call.context, call.value->0, out)) by {
                if self.gives(call, out) {
                    let (c, v, hr) = choose|c: HandlerContext, v: &str, hr: HandlerResult|
                        #[trigger] inline_call_gives_with(data, call, out, c, v, hr);
                    assert(value_fn_gives_with(handler, call.context, call.value->0, out, c, v, hr));
                }
                if value_fn_gives(handler, call.context, call.value->0, out) {
                    let (c, v, hr) = choose|c: HandlerContext, v: &str, hr: HandlerResult|
                        #[trigger] value_fn_gives_with(handler, call.context, call.value->0, out, c, v, hr);
                    assert(inline_call_gives_with(data, call, out, c, v, hr));
                }
            }
        }
        r
    }

    /// Handles `--root <value>` and lists it in the help with `value_placeholder` and `description`.
    ///
    /// The handler is kept even when a text is refused.
    pub fn set_root_value_handler_with_help<F: Fn(&HandlerContext, &str) -> HandlerResult + 'static>(
        &mut self,
        handler: F,
        value_placeholder: &str,
        description: &str,
    ) -> (r: Result<(), ConfigError>)
        requires
            value_callable(handler),
        ensures
            match normalize_help_placeholder_spec(value_placeholder@) {
                Err(m) => refused_with(r, m) && final(self).view() == (InlineView {
                    has_root_handler: true,
                    ..old(self).view()
                }),
                Ok(ph) => match normalize_description_spec(description@) {
                    Err(m) => refused_with(r, m) && final(self).view() == (InlineView {
                        has_root_handler: true,
                        placeholder: ph,
                        ..old(self).view()
                    }),
                    Ok(d) => r is Ok && final(self).view() == (InlineView {
                        has_root_handler: true,
                        placeholder: ph,
                        description: d,
                        ..old(self).view()
                    }),
                },
            },
            inline_root_stored(*old(self), *final(self), handler),
    {
        let mut data = self.take_data();
        let ghost od = data;
        let boxed: Box<dyn ValueHandler> = Box::new(handler);
        let r = set_root_value_handler_with_help(&mut data, boxed, value_placeholder, description);
        self.data = data;
        proof {
            lemma_inline_unchanged(od, data, false, true, -1, false);
            assert forall|call: CallView, out: Result<(), Seq<char>>|
                targets_inline_root(call.target) && call.value is Some
                    implies (#[trigger] self.gives(call, out) <==> value_fn_gives(handler, call.context, call.value->0, out)) by {
                if self.gives(call, out) {
                    let (c, v, hr) = choose|c: HandlerContext, v: &str, hr: HandlerResult|
                        #[trigger] inline_call_gives_with(data, call, out, c, v, hr);
                    assert(value_fn_gives_with(handler, call.context, call.value->0, out, c, v, hr));
                }
                if value_fn_gives(handler, call.context, call.value->0, out) {
                    let (c, v, hr) = choose|c: HandlerContext, v: &str, hr: HandlerResult|
                        #[trigger] value_fn_gives_with(handler, call.context, call.value->0, out, c, v, hr);
                    assert(inline_call_gives_with(data, call, out, c, v, hr));
                }
            }
        }
        r
    }

    /// Binds `--root-<command>` (given as `-command` or `--root-command`) to a flag handler.
    pub fn set_flag_handler<F: Fn(&HandlerContext) -> HandlerResult + 'static>(
        &mut self,
        option: &str,
        handler: F,
        description: &str,
    ) -> (r: Result<(), ConfigError>)
        requires
            flag_callable(handler),
        ensures
            inline_binding_effect(
                old(self).view(),
                final(self).view(),
                r,
                option@,
                description@,
                false,
                ValueArity::Required,
            ),
            inline_flag_stored(*old(self), *final(self), r, option@, handler),
    {
        let mut data = self.take_data();
        let ghost od = data;
        let boxed: Box<dyn FlagHandler> = Box::new(handler);
        let r = set_inline_flag_handler(&mut data, option, boxed, description);
        self.data = data;
        proof {
            let i = upsert_index(od.view().command_keys, normalize_inline_handler_option_spec(option@, od.view().root)->Ok_0);
            lemma_inline_unchanged(od, data, r is Err, false, i, true);
            if r is Ok {
                assert forall|call: CallView, out: Result<(), Seq<char>>|
                    targets_inline_command(call.target, i) && call.value is None
                        implies (#[trigger] self.gives(call, out) <==> flag_fn_gives(handler, call.context, out)) by {
                    if self.gives(call, out) {
                        let (c, v, hr) = choose|c: HandlerContext, v: &str, hr: HandlerResult|
                            #[trigger] inline_call_gives_with(data, call, out, c, v, hr);
                        assert(flag_fn_gives_with(handler, call.context, out, c, hr));
                    }
                    if flag_fn_gives(handler, call.context, out) {
                        let (c, hr) = choose|c: HandlerContext, hr: HandlerResult|
                            #[trigger] flag_fn_gives_with(handler, call.context, out, c, hr);
                        assert(inline_call_gives_with(data, call, out, c, "", hr));
                    }
                }
            }
        }
        r
    }

    /// Binds `--root-<command>` to a handler that requires a value.
    pub fn set_value_handler<F: Fn(&HandlerContext, &str) -> HandlerResult + 'static>(
        &mut self,
        option: &str,
        handler: F,
        description: &str,
    ) -> (r: Result<(), ConfigError>)
        requires
            value_callable(handler),
        ensures
            inline_binding_effect(
                old(self).view(),
                final(self).view(),
                r,
                option@,
                description@,
                true,
                ValueArity::Required,
            ),
            inline_value_stored(*old(self), *final(self), r, option@, handler),
    {
        let mut data = self.take_data();
        let ghost od = data;
        let boxed: Box<dyn ValueHandler> = Box::new(handler);
        let r = set_inline_value_handler(&mut data, option, boxed, description);
        self.data = data;
        proof {
            let i = upsert_index(od.view().command_keys, normalize_inline_handler_option_spec(option@, od.view().root)->Ok_0);
            lemma_inline_unchanged(od, data, r is Err, false, i, true);
            if r is Ok {
                assert forall|call: CallView, out: Result<(), Seq<char>>|
                    targets_inline_command(call.target, i) && call.value is Some
                        implies (#[trigger] self.gives(call, out) <==> value_fn_gives(handler, call.context, call.value->0, out)) by {
                    if self.gives(call, out) {
                        let (c, v, hr) = choose|c: HandlerContext, v: &str, hr: HandlerResult|
                            #[trigger] inline_call_gives_with(data, call, out, c, v, hr);
                        assert(value_fn_gives_with(handler, call.context, call.value->0, out, c, v, hr));
                    }
                    if value_fn_gives(handler, call.context, call.value->0, out) {
                        let (c, v, hr) = choose|c: HandlerContext, v: &str, hr: HandlerResult|
                            #[trigger] value_fn_gives_with(handler, call.context, call.value->0, out, c, v, hr);
                        assert(inline_call_gives_with(data, call, out, c, v, hr));
                    }
                }
            }
        }
        r
    }

    /// Binds `--root-<command>` to a handler whose value may be left out.
    pub fn set_optional_value_handler<F: Fn(&HandlerContext, &str) -> HandlerResult + 'static>(
        &mut self,
        option: &str,
        handler: F,
        description: &str,
    ) -> (r: Result<(), ConfigError>)
        requires
            value_callable(handler),
        ensures
            inline_binding_effect(
                old(self).view(),
                final(self).view(),
                r,
                option@,
                description@,
                true,
                ValueArity::Optional,
            ),
            inline_value_stored(*old(self), *final(self), r, option@, handler),
    {
        let mut data = self.take_data();
        let ghost od = data;
        let boxed: Box<dyn ValueHandler> = Box::new(handler);
        let r = set_inline_optional_value_handler(&mut data, option, boxed, description);
        self.data = data;
        proof {
            let i = upsert_index(od.view().command_keys, normalize_inline_handler_option_spec(option@, od.view().root)->Ok_0);
            lemma_inline_unchanged(od, data, r is Err, false, i, true);
            if r is Ok {
                assert forall|call: CallView, out: Result<(), Seq<char>>|
                    targets_inline_command(call.target, i) && call.value is Some
                        implies (#[trigger] self.gives(call, out) <==> value_fn_gives(handler, call.context, call.value->0, out)) by {
                    if self.gives(call, out) {
                        let (c, v, hr) = choose|c: HandlerContext, v: &str, hr: HandlerResult|
                            #[trigger] inline_call_gives_with(data, call, out, c, v, hr);
                        assert(value_fn_gives_with(handler, call.context, call.value->0, out, c, v, hr));
                    }
                    if value_fn_gives(handler, call.context, call.value->0, out) {
                        let (c, v, hr) = choose|c: HandlerContext, v: &str, hr: HandlerResult|
                            #[trigger] value_fn_gives_with(handler, call.context, call.value->0, out, c, v, hr);
                        assert(inline_call_gives_with(data, call, out, c, v, hr));
                    }
                }
            }
        }
        r
    }
}

/// An end-user command line parser hosting inline parsers.
pub struct Parser {
    data: ParserData,
}

impl Parser {
    #[verifier::type_invariant]
    spec fn inv(&self) -> bool {
        self.data.wf()
    }

    /// What is configured, as plain values.
    pub closed spec fn view(&self) -> ParserView {
        self.data.view()
    }

    /// `out` is a result the handler that `call` names may return for the call's context
    /// and value.
    pub closed spec fn gives(&self, call: CallView, out: Result<(), Seq<char>>) -> bool {
        call_gives(&self.data, call, out)
    }

    /// A parser with nothing configured.
    pub fn new() -> (p: Self)
        ensures
            p.view() == empty_parser_view(),
    {
        let data = ParserData::new();
        assert(data.view().aliases =~= Seq::empty());
        assert(data.view().alias_keys =~= Seq::empty());
        assert(data.view().bindings =~= Seq::empty());
        assert(data.view().command_keys =~= Seq::empty());
        assert(data.view().inlines =~= Seq::empty());
        Parser { data }
    }

    fn take_data(&mut self) -> (d: ParserData)
        ensures
            d.wf(),
            d.view() == old(self).view(),
            d == old(self).data,
    {
        proof {
            use_type_invariant(&*self);
        }
        let mut d = ParserData::new();
        std::mem::swap(&mut d, &mut self.data);
        d
    }

    /// Makes the single-dash `alias` stand for `target`, with `preset_tokens` put before its values.
    pub fn add_alias(&mut self, alias: &str, target: &str, preset_tokens: &[&str]) -> (r: Result<
        (),
        ConfigError,
    >)
        ensures
            alias_effect(
                old(self).view(),
                final(self).view(),
                r,
                alias@,
                target@,
                presets_view(preset_tokens@),
            ),
            forall|call: CallView, out: Result<(), Seq<char>>| #[trigger] final(self).gives(call, out) <==> old(self).gives(
                call,
                out,
            ),
    {
        let mut data = self.take_data();
        let ghost od = data;
        let r = set_alias(&mut data, alias, target, preset_tokens);
        self.data = data;
        proof {
            lemma_unchanged_gives(od, data, false, -1, true);
            assert forall|call: CallView, out: Result<(), Seq<char>>| #[trigger] self.gives(call, out) <==> old(self).gives(call, out) by {
                if !other_than_command(call.target, -1, od.view().command_keys.len() as int) {
                    assert forall|c: HandlerContext, v: &str, hr: HandlerResult|
                        call_gives_with(&data, call, out, c, v, hr) == call_gives_with(&od, call, out, c, v, hr) by {}
                    if self.gives(call, out) {
                        let (c, v, hr) = choose|c: HandlerContext, v: &str, hr: HandlerResult| #[trigger] call_gives_with(&data, call, out, c, v, hr);
                        assert(call_gives_with(&od, call, out, c, v, hr));
                    }
                    if old(self).gives(call, out) {
                        let (c, v, hr) = choose|c: HandlerContext, v: &str, hr: HandlerResult| #[trigger] call_gives_with(&od, call, out, c, v, hr);
                        assert(call_gives_with(&data, call, out, c, v, hr));
                    }
                }
            }
        }
        r
    }

    /// Binds `--<option>` to a flag handler.
    pub fn set_flag_handler<F: Fn(&HandlerContext) -> HandlerResult + 'static>(
        &mut self,
        option: &str,
        handler: F,
        description: &str,
    ) -> (r: Result<(), ConfigError>)
        requires
            flag_callable(handler),
        ensures
            primary_binding_effect(
                old(self).view(),
                final(self).view(),
                r,
                option@,
                description@,
                false,
                ValueArity::Required,
            ),
            primary_flag_stored(*old(self), *final(self), r, option@, handler),
    {
        let mut data = self.take_data();
        let ghost od = data;
        let boxed: Box<dyn FlagHandler> = Box::new(handler);
        let r = set_primary_flag_handler(&mut data, option, boxed, description);
        self.data = data;
        proof {
            let i = upsert_index(od.view().command_keys, normalize_primary_handler_option_spec(option@)->Ok_0);
            lemma_unchanged_gives(od, data, r is Err, i, true);
            if r is Ok {
                assert forall|call: CallView, out: Result<(), Seq<char>>|
                    targets_command(call.target, i) && call.value is None
                        implies (#[trigger] self.gives(call, out) <==> flag_fn_gives(handler, call.context, out)) by {
                    if self.gives(call, out) {
                        let (c, v, hr) = choose|c: HandlerContext, v: &str, hr: HandlerResult|
                            #[trigger] call_gives_with(&data, call, out, c, v, hr);
                        assert(flag_fn_gives_with(handler, call.context, out, c, hr));
                    }
                    if flag_fn_gives(handler, call.context, out) {
                        let (c, hr) = choose|c: HandlerContext, hr: HandlerResult|
                            #[trigger] flag_fn_gives_with(handler, call.context, out, c, hr);
                        assert(call_gives_with(&data, call, out, c, "", hr));
                    }
                }
            }
        }
        r
    }

    /// Binds `--<option>` to a handler that requires a value.
    pub fn set_value_handler<F: Fn(&HandlerContext, &str) -> HandlerResult + 'static>(
        &mut self,
        option: &str,
        handler: F,
        description: &str,
    ) -> (r: Result<(), ConfigError>)
        requires
            value_callable(handler),
        ensures
            primary_binding_effect(
                old(self).view(),
                final(self).view(),
                r,
                option@,
                description@,
                true,
                ValueArity::Required,
            ),
            primary_value_stored(*old(self), *final(self), r, option@, handler),
    {
        let mut data = self.take_data();
        let ghost od = data;
        let boxed: Box<dyn ValueHandler> = Box::new(handler);
        let r = set_primary_value_handler(&mut data, option, boxed, description);
        self.data = data;
        proof {
            let i = upsert_index(od.view().command_keys, normalize_primary_handler_option_spec(option@)->Ok_0);
            lemma_unchanged_gives(od, data, r is Err, i, true);
            if r is Ok {
                assert forall|call: CallView, out: Result<(), Seq<char>>|
                    targets_command(call.target, i) && call.value is Some
                        implies (#[trigger] self.gives(call, out) <==> value_fn_gives(handler, call.context, call.value->0, out)) by {
                    if self.gives(call, out) {
                        let (c, v, hr) = choose|c: HandlerContext, v: &str, hr: HandlerResult|
                            #[trigger] call_gives_with(&data, call, out, c, v, hr);
                        assert(value_fn_gives_with(handler, call.context, call.value->0, out, c, v, hr));
                    }
                    if value_fn_gives(handler, call.context, call.value->0, out) {
                        let (c, v, hr) = choose|c: HandlerContext, v: &str, hr: HandlerResult|
                            #[trigger] value_fn_gives_with(handler, call.context, call.value->0, out, c, v, hr);
                        assert(call_gives_with(&data, call, out, c, v, hr));
                    }
                }
            }
        }
        r
    }

    /// Binds `--<option>` to a handler whose value may be left out.
    pub fn set_optional_value_handler<F: Fn(&HandlerContext, &str) -> HandlerResult + 'static>(
        &mut self,
        option: &str,
        handler: F,
        description: &str,
    ) -> (r: Result<(), ConfigError>)
        requires
            value_callable(handler),
        ensures
            primary_binding_effect(
                old(self).view(),
                final(self).view(),
                r,
                option@,
                description@,
                true,
                ValueArity::Optional,
            ),
            primary_value_stored(*old(self), *final(self), r, option@, handler),
    {
        let mut data = self.take_data();
        let ghost od = data;
        let boxed: Box<dyn ValueHandler> = Box::new(handler);
        let r = set_primary_optional_value_handler(&mut data, option, boxed, description);
        self.data = data;
        proof {
            let i = upsert_index(od.view().command_keys, normalize_primary_handler_option_spec(option@)->Ok_0);
            lemma_unchanged_gives(od, data, r is Err, i, true);
            if r is Ok {
                assert forall|call: CallView, out: Result<(), Seq<char>>|
                    targets_command(call.target, i) && call.value is Some
                        implies (#[trigger] self.gives(call, out) <==> value_fn_gives(handler, call.context, call.value->0, out)) by {
                    if self.gives(call, out) {
                        let (c, v, hr) = choose|c: HandlerContext, v: &str, hr: HandlerResult|
                            #[trigger] call_gives_with(&data, call, out, c, v, hr);
                        assert(value_fn_gives_with(handler, call.context, call.value->0, out, c, v, hr));
                    }
                    if value_fn_gives(handler, call.context, call.value->0, out) {
                        let (c, v, hr) = choose|c: HandlerContext, v: &str, hr: HandlerResult|
                            #[trigger] value_fn_gives_with(handler, call.context, call.value->0, out, c, v, hr);
                        assert(call_gives_with(&data, call, out, c, v, hr));
                    }
                }
            }
        }
        r
    }

    /// Receives the arguments that are not options or option values.
    pub fn set_positional_handler<F: Fn(&HandlerContext) -> HandlerResult + 'static>(
        &mut self,
        handler: F,
    ) -> (r: Result<(), ConfigError>)
        requires
            flag_callable(handler),
        ensures
            r is Ok,
            final(self).view() == (ParserView { has_positional: true, ..old(self).view() }),
            forall|call: CallView, out: Result<(), Seq<char>>|
                call.target == CallTarget::Positional ==> (#[trigger] final(self).gives(call, out)
                    <==> flag_fn_gives(handler, call.context, out)),
            forall|call: CallView, out: Result<(), Seq<char>>|
                other_than_command(call.target, -1, old(self).view().command_keys.len() as int) && call.target
                    != CallTarget::Positional ==> (#[trigger] final(self).gives(call, out) <==> old(self).gives(
                    call,
                    out,
                )),
    {
        let mut data = self.take_data();
        let ghost od = data;
        let boxed: Box<dyn FlagHandler> = Box::new(handler);
        let r = set_positional_handler(&mut data, boxed);
        self.data = data;
        proof {
            assert forall|j: int| 0 <= j < od.commands.entries_view().len() && j != -1 implies #[trigger] data.commands.entries_view()[j]
                == od.commands.entries_view()[j] by {}
            lemma_unchanged_gives(od, data, false, -1, false);
            assert forall|call: CallView, out: Result<(), Seq<char>>|
                call.target == CallTarget::Positional implies (#[trigger] self.gives(call, out)
                    <==> flag_fn_gives(handler, call.context, out)) by {
                if self.gives(call, out) {
                    let (c, v, hr) = choose|c: HandlerContext, v: &str, hr: HandlerResult|
                        #[trigger] call_gives_with(&data, call, out, c, v, hr);
                    assert(flag_fn_gives_with(handler, call.context, out, c, hr));
                }
                if flag_fn_gives(handler, call.context, out) {
                    let (c, hr) = choose|c: HandlerContext, hr: HandlerResult|
                        #[trigger] flag_fn_gives_with(handler, call.context, out, c, hr);
                    assert(call_gives_with(&data, call, out, c, "", hr));
                }
            }
        }
        r
    }

    /// Hosts an inline parser; a second parser for the same root is refused.
    pub fn add_inline_parser(&mut self, parser: InlineParser) -> (r: Result<(), ConfigError>)
        ensures
            old(self).view().inlines.map_values(|v: InlineView| v.root).contains(parser.view().root) ==> {
                &&& refused_with(r, duplicate_root_message(parser.view().root))
                &&& final(self).view() == old(self).view()
            },
            !old(self).view().inlines.map_values(|v: InlineView| v.root).contains(parser.view().root) ==> {
                &&& r is Ok
                &&& final(self).view() == (ParserView {
                    inlines: old(self).view().inlines.push(parser.view()),
                    ..old(self).view()
                })
            },
            r is Ok ==> forall|call: CallView, out: Result<(), Seq<char>>|
                targets_inline(call.target, old(self).view().inlines.len() as int) ==> (#[trigger] final(self).gives(
                    call,
                    out,
                ) <==> parser.gives(call, out)),
            forall|call: CallView, out: Result<(), Seq<char>>|
                (r is Err || other_than_inline(call.target, old(self).view().inlines.len() as int)) ==> (
                #[trigger] final(self).gives(call, out) <==> old(self).gives(call, out)),
    {
        proof {
            use_type_invariant(&parser);
        }
        let mut data = self.take_data();
        let ghost od = data;
        let ghost pd = parser.data;
        let r = add_inline_parser(&mut data, parser.data);
        self.data = data;
        proof {
            let n = od.view().inlines.len() as int;
            assert(od.view().inlines.len() == od.inline_parsers.entries_view().len());
            assert forall|call: CallView, out: Result<(), Seq<char>>|
                (r is Err || other_than_inline(call.target, n)) implies (#[trigger] self.gives(call, out)
                <==> old(self).gives(call, out)) by {
                assert forall|c: HandlerContext, v: &str, hr: HandlerResult|
                    call_gives_with(&data, call, out, c, v, hr) == call_gives_with(&od, call, out, c, v, hr) by {
                    if r is Ok {
                        match call.target {
                            CallTarget::Handler(HandlerRef::Inline(pi, _)) => {
                                assert(data.inline_parsers.entries_view()[pi as int] == od.inline_parsers.entries_view()[pi as int]);
                            },
                            CallTarget::Handler(HandlerRef::InlineRoot(pi)) => {
                                assert(data.inline_parsers.entries_view()[pi as int] == od.inline_parsers.entries_view()[pi as int]);
                            },
                            _ => {},
                        }
                    }
                }
                if self.gives(call, out) {
                    let (c, v, hr) = choose|c: HandlerContext, v: &str, hr: HandlerResult| #[trigger] call_gives_with(&data, call, out, c, v, hr);
                    assert(call_gives_with(&od, call, out, c, v, hr));
                }
                if old(self).gives(call, out) {
                    let (c, v, hr) = choose|c: HandlerContext, v: &str, hr: HandlerResult| #[trigger] call_gives_with(&od, call, out, c, v, hr);
                    assert(call_gives_with(&data, call, out, c, v, hr));
                }
            }
            if r is Ok {
                assert(data.inline_parsers.entries_view()[n] == pd);
                assert forall|call: CallView, out: Result<(), Seq<char>>|
                    targets_inline(call.target, n) implies (#[trigger] self.gives(call, out) <==> parser.gives(call, out)) by {
                    assert forall|c: HandlerContext, v: &str, hr: HandlerResult|
                        call_gives_with(&data, call, out, c, v, hr) == inline_call_gives_with(pd, call, out, c, v, hr) by {
                        lemma_inline_call_gives(&data, n, call, out, c, v, hr);
                    }
                    if self.gives(call, out) {
                        let (c, v, hr) = choose|c: HandlerContext, v: &str, hr: HandlerResult| #[trigger] call_gives_with(&data, call, out, c, v, hr);
                        assert(inline_call_gives_with(pd, call, out, c, v, hr));
                    }
                    if parser.gives(call, out) {
                        let (c, v, hr) = choose|c: HandlerContext, v: &str, hr: HandlerResult| #[trigger] inline_call_gives_with(pd, call, out, c, v, hr);
                        assert(call_gives_with(&data, call, out, c, v, hr));
                    }
                }
            }
        }
        r
    }

    /// Parses `argv` (the program name first) and runs the handlers if the whole line is valid;
    /// as `parse_showing`, with the help listings only returned.
    pub fn parse(&self, argv: &[&str]) -> (r: Result<Vec<String>, CliError>)
        ensures
            exists|rs: Seq<Result<(), Seq<char>>>| {
                &&& parse_finished(self.view(), presets_view(argv@), rs)
                &&& result_matches(r, parse_outcome_spec(self.view(), presets_view(argv@), rs), parse_shown_spec(self.view(), presets_view(argv@), rs))
                &&& parse_calls_spec(self.view(), presets_view(argv@), rs).len() == rs.len()
                &&& forall|k: int| 0 <= k < rs.len() ==> self.gives(
                    #[trigger] parse_calls_spec(self.view(), presets_view(argv@), rs)[k],
                    rs[k],
                )
            },
    {
        let silent = |line: String| {};
        self.parse_showing(argv, Rc::new(silent))
    }

    /// Parses `argv` (the program name first) and runs the handlers if the whole line is valid.
    ///
    /// Each help listing asked for on the line is handed to `show` when the run reaches it,
    /// between the handlers before and after it. On success the listings are returned, in
    /// order; when a handler fails, the error carries those reached before it
    /// (`CliError::listings`).
    pub fn parse_showing<S: Fn(String)>(&self, argv: &[&str], show: Rc<S>) -> (r: Result<Vec<String>, CliError>)
        requires
            sink_callable(*show),
        ensures
            exists|rs: Seq<Result<(), Seq<char>>>| {
                &&& parse_finished(self.view(), presets_view(argv@), rs)
                &&& result_matches(r, parse_outcome_spec(self.view(), presets_view(argv@), rs), parse_shown_spec(self.view(), presets_view(argv@), rs))
                &&& parse_calls_spec(self.view(), presets_view(argv@), rs).len() == rs.len()
                &&& forall|k: int| 0 <= k < rs.len() ==> self.gives(
                    #[trigger] parse_calls_spec(self.view(), presets_view(argv@), rs)[k],
                    rs[k],
                )
            },
            r matches Ok(v) ==> forall|i: int| 0 <= i < v@.len() ==> reported(*show, #[trigger] v@[i]@),
            r matches Err(e) ==> forall|i: int|
                0 <= i < e.listings_view().len() ==> reported(*show, #[trigger] e.listings_view()[i]),
    {
        proof {
            use_type_invariant(self);
        }
        let mut tokens: Vec<String> = Vec::new();
        let mut i: usize = 0;
        while i < argv.len()
            invariant
                i <= argv@.len(),
                strings_view(tokens@) == presets_view(argv@).subrange(0, i as int),
            decreases argv@.len() - i,
        {
            let s = String::from_str(argv[i]);
            proof {
                crate::kcli::model::lemma_strings_view_push(tokens@, s);
            }
            tokens.push(s);
            i = i + 1;
            assert(strings_view(tokens@) =~= presets_view(argv@).subrange(0, i as int));
        }
        assert(presets_view(argv@).subrange(0, i as int) =~= presets_view(argv@));
        let (r, calls) = parse_tokens(&self.data, &tokens, &show);
        proof {
            let t = strings_view(tokens@);
            let rs = choose|rs: Seq<Result<(), Seq<char>>>| {
                &&& parse_finished(self.data.view(), t, rs)
                &&& result_matches(r, parse_outcome_spec(self.data.view(), t, rs), parse_shown_spec(self.data.view(), t, rs))
                &&& calls@ == parse_calls_spec(self.data.view(), t, rs)
                &&& calls@.len() == rs.len()
                &&& forall|k: int| 0 <= k < rs.len() ==> call_gives(&self.data, #[trigger] calls@[k], rs[k])
            };
            assert(parse_finished(self.view(), presets_view(argv@), rs));
            assert(result_matches(r, parse_outcome_spec(self.view(), presets_view(argv@), rs), parse_shown_spec(self.view(), presets_view(argv@), rs)));
            assert forall|k: int| 0 <= k < rs.len() implies self.gives(
                #[trigger] parse_calls_spec(self.view(), presets_view(argv@), rs)[k],
                rs[k],
            ) by {
                assert(call_gives(&self.data, calls@[k], rs[k]));
            }
        }
        r
    }
}

/// Handlers of an inline parser that a setter leaves alone give what they gave.
proof fn lemma_inline_unchanged(
    od: InlineParserData,
    nd: InlineParserData,
    failed: bool,
    cmds_same: bool,
    i: int,
    root_same: bool,
)
    requires
        failed ==> nd == od,
        cmds_same ==> nd.commands == od.commands,
        root_same ==> nd.root_value_handler == od.root_value_handler,
        forall|j: int|
            0 <= j < od.commands.entries_view().len() && j != i ==> #[trigger] nd.commands.entries_view()[j]
                == od.commands.entries_view()[j],
    ensures
        forall|call: CallView, out: Result<(), Seq<char>>|
            (failed || cmds_same || other_than_inline_command(call.target, i, od.view().command_keys.len() as int))
                && (failed || root_same || !targets_inline_root(call.target))
                ==> (#[trigger] inline_gives(nd, call, out) <==> inline_gives(od, call, out)),
{
    assert forall|call: CallView, out: Result<(), Seq<char>>|
        (failed || cmds_same || other_than_inline_command(call.target, i, od.view().command_keys.len() as int))
            && (failed || root_same || !targets_inline_root(call.target))
            implies (#[trigger] inline_gives(nd, call, out) <==> inline_gives(od, call, out)) by {
        assert(od.view().command_keys.len() == od.commands.entries_view().len());
        assert forall|c: HandlerContext, v: &str, hr: HandlerResult|
            inline_call_gives_with(nd, call, out, c, v, hr) == inline_call_gives_with(od, call, out, c, v, hr) by {
            if !failed {
                match call.target {
                    CallTarget::Handler(HandlerRef::Inline(_, j)) => {
                        assert(nd.commands.entries_view()[j as int] == od.commands.entries_view()[j as int]);
                    },
                    _ => {},
                }
            }
        }
        if inline_gives(nd, call, out) {
            let (c, v, hr) = choose|c: HandlerContext, v: &str, hr: HandlerResult| #[trigger] inline_call_gives_with(nd, call, out, c, v, hr);
            assert(inline_call_gives_with(od, call, out, c, v, hr));
        }
        if inline_gives(od, call, out) {
            let (c, v, hr) = choose|c: HandlerContext, v: &str, hr: HandlerResult| #[trigger] inline_call_gives_with(od, call, out, c, v, hr);
            assert(inline_call_gives_with(nd, call, out, c, v, hr));
        }
    }
}

/// What the positional handler of `d` may return.
spec fn positional_result(d: ParserData, c: &HandlerContext, hr: HandlerResult) -> bool {
    match d.positional_handler {
        Some(h) => h.may_return(c, hr),
        None => hr is Ok,
    }
}

/// Handlers that a setter leaves alone give what they gave.
proof fn lemma_unchanged_gives(od: ParserData, nd: ParserData, failed: bool, i: int, pos_same: bool)
    requires
        failed ==> nd == od,
        nd.inline_parsers == od.inline_parsers,
        pos_same ==> forall|c: &HandlerContext, hr: HandlerResult| #[trigger] positional_result(nd, c, hr) == positional_result(od, c, hr),
        forall|j: int|
            0 <= j < od.commands.entries_view().len() && j != i ==> #[trigger] nd.commands.entries_view()[j]
                == od.commands.entries_view()[j],
    ensures
        forall|call: CallView, out: Result<(), Seq<char>>|
            (failed || other_than_command(call.target, i, od.view().command_keys.len() as int)) && (pos_same
                || call.target != CallTarget::Positional)
                ==> (#[trigger] call_gives(&nd, call, out) <==> call_gives(&od, call, out)),
{
    assert forall|call: CallView, out: Result<(), Seq<char>>|
        (failed || other_than_command(call.target, i, od.view().command_keys.len() as int)) && (pos_same
            || call.target != CallTarget::Positional)
            implies (#[trigger] call_gives(&nd, call, out) <==> call_gives(&od, call, out)) by {
        assert(od.view().command_keys.len() == od.commands.entries_view().len());
        assert forall|c: HandlerContext, v: &str, hr: HandlerResult|
            call_gives_with(&nd, call, out, c, v, hr) == call_gives_with(&od, call, out, c, v, hr) by {
            if !failed {
                match call.target {
                    CallTarget::Handler(HandlerRef::Primary(j)) => {
                        assert(nd.commands.entries_view()[j as int] == od.commands.entries_view()[j as int]);
                    },
                    CallTarget::Positional => {
                        assert(positional_result(nd, &c, hr) == positional_result(od, &c, hr));
                    },
                    _ => {},
                }
            }
        }
        if call_gives(&nd, call, out) {
            let (c, v, hr) = choose|c: HandlerContext, v: &str, hr: HandlerResult| #[trigger] call_gives_with(&nd, call, out, c, v, hr);
            assert(call_gives_with(&od, call, out, c, v, hr));
        }
        if call_gives(&od, call, out) {
            let (c, v, hr) = choose|c: HandlerContext, v: &str, hr: HandlerResult| #[trigger] call_gives_with(&od, call, out, c, v, hr);
            assert(call_gives_with(&nd, call, out, c, v, hr));
        }
    }
}

impl Default for Parser {
    fn default() -> (p: Self)
        ensures
            p.view() == empty_parser_view(),
    {
        Parser::new()
    }
}

} // verus!
