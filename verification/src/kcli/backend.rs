//! Registration: normalizing what is configured and storing it.
use vstd::prelude::*;
use crate::kcli::model::{
    config_view, find_key, strings_view, upsert_keys, upsert_values, AliasBinding, AliasView, BindingAction,
    BindingView, CommandBinding, CommandEntry, CommandTable, ConfigError, FlagHandler, HandlerContext, HandlerResult, InlineParserData,
    InlineView, ParserData, ParserView, ValueArity, ValueHandler,
};
use crate::kcli::normalize::{
    normalize_alias, normalize_alias_spec, normalize_alias_target_option,
    normalize_alias_target_option_spec, normalize_description, normalize_description_spec,
    normalize_help_placeholder, normalize_help_placeholder_spec, normalize_inline_handler_option,
    normalize_inline_handler_option_spec, normalize_inline_root_option,
    normalize_inline_root_option_spec, normalize_primary_handler_option,
    normalize_primary_handler_option_spec,
};

verus! {

/// The configuration error carrying `m`.
pub open spec fn refused_with(r: Result<(), ConfigError>, m: Seq<char>) -> bool {
    r matches Err(e) && e.message_view() == m
}

/// An inline parser after its command `cmd` is bound to `b`.
pub open spec fn inline_command_set(v: InlineView, cmd: Seq<char>, b: BindingView) -> InlineView {
    InlineView {
        root: v.root,
        has_root_handler: v.has_root_handler,
        placeholder: v.placeholder,
        description: v.description,
        command_keys: upsert_keys(v.command_keys, cmd),
        bindings: upsert_values(v.command_keys, v.bindings, cmd, b),
    }
}

/// A parser after its end-user command `cmd` is bound to `b`.
pub open spec fn primary_command_set(v: ParserView, cmd: Seq<char>, b: BindingView) -> ParserView {
    ParserView {
        has_positional: v.has_positional,
        aliases: v.aliases,
        alias_keys: v.alias_keys,
        command_keys: upsert_keys(v.command_keys, cmd),
        bindings: upsert_values(v.command_keys, v.bindings, cmd, b),
        inlines: v.inlines,
    }
}

pub open spec fn flag_binding_view(description: Seq<char>) -> BindingView {
    BindingView { expects_value: false, arity: ValueArity::Required, description }
}

pub open spec fn value_binding_view(description: Seq<char>, arity: ValueArity) -> BindingView {
    BindingView { expects_value: true, arity, description }
}

/// The effect of binding an inline command: refused with the first error, else stored.
pub open spec fn inline_binding_effect(
    old: InlineView,
    new: InlineView,
    r: Result<(), ConfigError>,
    option: Seq<char>,
    description: Seq<char>,
    expects_value: bool,
    arity: ValueArity,
) -> bool {
    match normalize_inline_handler_option_spec(option, old.root) {
        Err(m) => refused_with(r, m) && new == old,
        Ok(cmd) => match normalize_description_spec(description) {
            Err(m) => refused_with(r, m) && new == old,
            Ok(d) => r is Ok && new == inline_command_set(
                old,
                cmd,
                BindingView { expects_value, arity, description: d },
            ),
        },
    }
}

/// The effect of binding an end-user command: refused with the first error, else stored.
pub open spec fn primary_binding_effect(
    old: ParserView,
    new: ParserView,
    r: Result<(), ConfigError>,
    option: Seq<char>,
    description: Seq<char>,
    expects_value: bool,
    arity: ValueArity,
) -> bool {
    match normalize_primary_handler_option_spec(option) {
        Err(m) => refused_with(r, m) && new == old,
        Ok(cmd) => match normalize_description_spec(description) {
            Err(m) => refused_with(r, m) && new == old,
            Ok(d) => r is Ok && new == primary_command_set(
                old,
                cmd,
                BindingView { expects_value, arity, description: d },
            ),
        },
    }
}

/// `action` runs a flag handler that gives what `f` gives.
pub open spec fn flag_acts_as(action: BindingAction, f: Box<dyn FlagHandler>) -> bool {
    match action {
        BindingAction::Flag(h) => forall|c: &HandlerContext, hr: HandlerResult| #[trigger] h.may_return(c, hr) == f.may_return(c, hr),
        BindingAction::Value(_, _) => false,
    }
}

/// `action` runs a value handler that gives what `f` gives, with value arity `arity`.
pub open spec fn value_acts_as(action: BindingAction, f: Box<dyn ValueHandler>, arity: ValueArity) -> bool {
    match action {
        BindingAction::Value(h, a) => a == arity && forall|c: &HandlerContext, v: &str, hr: HandlerResult|
            #[trigger] h.may_return(c, v, hr) == f.may_return(c, v, hr),
        BindingAction::Flag(_) => false,
    }
}

pub fn make_flag_binding(handler: Box<dyn FlagHandler>, description: &str) -> (r: Result<
    CommandBinding,
    ConfigError,
>)
    requires
        handler.callable(),
    ensures
        match normalize_description_spec(description@) {
            Ok(d) => r matches Ok(b) && b.view() == flag_binding_view(d) && b.wf()
                && flag_acts_as(b.action, handler),
            Err(m) => r matches Err(e) && e.message_view() == m,
        },
{
    let description = normalize_description(description);
    match description {
        Ok(description) => Ok(CommandBinding { action: BindingAction::Flag(handler), description }),
        Err(e) => Err(e),
    }
}

pub fn make_value_binding(handler: Box<dyn ValueHandler>, description: &str, arity: ValueArity) -> (r: Result<
    CommandBinding,
    ConfigError,
>)
    requires
        handler.callable(),
    ensures
        match normalize_description_spec(description@) {
            Ok(d) => r matches Ok(b) && b.view() == value_binding_view(d, arity) && b.wf()
                && value_acts_as(b.action, handler, arity),
            Err(m) => r matches Err(e) && e.message_view() == m,
        },
{
    let description = normalize_description(description);
    match description {
        Ok(description) => Ok(
            CommandBinding { action: BindingAction::Value(handler, arity), description },
        ),
        Err(e) => Err(e),
    }
}

/// Binds `command`, keeping its place if it is already bound.
pub fn upsert_command(commands: &mut CommandTable, command: String, binding: CommandBinding)
    requires
        old(commands).wf(),
        binding.wf(),
    ensures
        final(commands).wf(),
        final(commands).keys() == upsert_keys(old(commands).keys(), command@),
        final(commands).bindings() == upsert_values(
            old(commands).keys(),
            old(commands).bindings(),
            command@,
            binding.view(),
        ),
        match find_key(old(commands).keys(), command@, 0) {
            Some(i) => final(commands).entries_view() == old(commands).entries_view().update(
                i,
                CommandEntry { command, binding },
            ),
            None => final(commands).entries_view() == old(commands).entries_view().push(
                CommandEntry { command, binding },
            ),
        },
{
    commands.insert_or_replace(command, binding);
}

/// Where setting `cmd` puts its entry: where it already is, or at the end.
pub open spec fn upsert_index(keys: Seq<Seq<char>>, cmd: Seq<char>) -> int {
    match find_key(keys, cmd, 0) {
        Some(i) => i,
        None => keys.len() as int,
    }
}

proof fn lemma_upsert_index(keys: Seq<Seq<char>>, cmd: Seq<char>)
    ensures
        find_key(keys, cmd, 0) matches Some(i) ==> i == upsert_index(keys, cmd) && 0 <= i < keys.len(),
{
    if find_key(keys, cmd, 0) is Some {
        crate::kcli::model::lemma_find_key_some(keys, cmd, 0);
    }
}

/// On success, the command that `option` names now runs `action`; other commands, the inline
/// parsers and the positional handler are as they were.
pub open spec fn command_action_stored(
    old: ParserData,
    new: ParserData,
    r: Result<(), ConfigError>,
    option: Seq<char>,
    stored: spec_fn(BindingAction) -> bool,
) -> bool {
    &&& r is Err ==> new == old
    &&& r is Ok ==> match normalize_primary_handler_option_spec(option) {
        Ok(cmd) => {
            let i = upsert_index(old.commands.keys(), cmd);
            &&& 0 <= i < new.commands.entries_view().len()
            &&& stored(new.commands.entries_view()[i].binding.action)
            &&& forall|j: int|
                0 <= j < old.commands.entries_view().len() && j != i ==> #[trigger] new.commands.entries_view()[j]
                    == old.commands.entries_view()[j]
            &&& new.inline_parsers == old.inline_parsers
            &&& new.positional_handler == old.positional_handler
        },
        Err(_) => false,
    }
}

/// On success, the inline command that `option` names now runs an action `stored` accepts;
/// other commands and the root value handler are as they were. On failure nothing changed.
pub open spec fn inline_action_stored(
    old: InlineParserData,
    new: InlineParserData,
    r: Result<(), ConfigError>,
    option: Seq<char>,
    stored: spec_fn(BindingAction) -> bool,
) -> bool {
    &&& r is Err ==> new == old
    &&& r is Ok ==> match normalize_inline_handler_option_spec(option, old.root_name@) {
        Ok(cmd) => {
            let i = upsert_index(old.commands.keys(), cmd);
            &&& 0 <= i < new.commands.entries_view().len()
            &&& stored(new.commands.entries_view()[i].binding.action)
            &&& forall|j: int|
                0 <= j < old.commands.entries_view().len() && j != i ==> #[trigger] new.commands.entries_view()[j]
                    == old.commands.entries_view()[j]
            &&& new.root_value_handler == old.root_value_handler
        },
        Err(_) => false,
    }
}

pub fn set_inline_root(data: &mut InlineParserData, root: &str) -> (r: Result<(), ConfigError>)
    requires
        old(data).wf(),
    ensures
        final(data).wf(),
        match normalize_inline_root_option_spec(root@) {
            Ok(n) => r is Ok && final(data).view() == (InlineView { root: n, ..old(data).view() }),
            Err(m) => refused_with(r, m) && final(data).view() == old(data).view(),
        },
        final(data).commands == old(data).commands,
        final(data).root_value_handler == old(data).root_value_handler,
{
    match normalize_inline_root_option(root) {
        Ok(name) => {
            data.root_name = name;
            Ok(())
        },
        Err(e) => Err(e),
    }
}

/// Sets the root value handler without help text.
pub fn set_root_value_handler(data: &mut InlineParserData, handler: Box<dyn ValueHandler>) -> (r: Result<(), ConfigError>)
    requires
        old(data).wf(),
        handler.callable(),
    ensures
        final(data).wf(),
        r is Ok,
        final(data).view() == (InlineView {
            has_root_handler: true,
            placeholder: Seq::empty(),
            description: Seq::empty(),
            ..old(data).view()
        }),
        final(data).root_value_handler matches Some(h) && forall|c: &HandlerContext, v: &str, hr: HandlerResult|
            #[trigger] h.may_return(c, v, hr) == handler.may_return(c, v, hr),
        final(data).commands == old(data).commands,
{
    data.root_value_handler = Some(handler);
    data.root_value_placeholder = String::new();
    data.root_value_description = String::new();
    Ok(())
}

/// Sets the root value handler with the placeholder and description its help row shows.
///
/// The handler is stored before the texts are checked; a refused text leaves it stored.
pub fn set_root_value_handler_with_help(
    data: &mut InlineParserData,
    handler: Box<dyn ValueHandler>,
    value_placeholder: &str,
    description: &str,
) -> (r: Result<(), ConfigError>)
    requires
        old(data).wf(),
        handler.callable(),
    ensures
        final(data).wf(),
        match normalize_help_placeholder_spec(value_placeholder@) {
            Err(m) => refused_with(r, m) && final(data).view() == (InlineView {
                has_root_handler: true,
                ..old(data).view()
            }),
            Ok(ph) => match normalize_description_spec(description@) {
                Err(m) => refused_with(r, m) && final(data).view() == (InlineView {
                    has_root_handler: true,
                    placeholder: ph,
                    ..old(data).view()
                }),
                Ok(d) => r is Ok && final(data).view() == (InlineView {
                    has_root_handler: true,
                    placeholder: ph,
                    description: d,
                    ..old(data).view()
                }),
            },
        },
        final(data).root_value_handler matches Some(h) && forall|c: &HandlerContext, v: &str, hr: HandlerResult|
            #[trigger] h.may_return(c, v, hr) == handler.may_return(c, v, hr),
        final(data).commands == old(data).commands,
{
    data.root_value_handler = Some(handler);
    match normalize_help_placeholder(value_placeholder) {
        Ok(p) => {
            data.root_value_placeholder = p;
        },
        Err(e) => {
            return Err(e);
        },
    }
    match normalize_description(description) {
        Ok(d) => {
            data.root_value_description = d;
        },
        Err(e) => {
            return Err(e);
        },
    }
    Ok(())
}

pub fn set_inline_flag_handler(
    data: &mut InlineParserData,
    option: &str,
    handler: Box<dyn FlagHandler>,
    description: &str,
) -> (r: Result<(), ConfigError>)
    requires
        old(data).wf(),
        handler.callable(),
    ensures
        final(data).wf(),
        inline_binding_effect(
            old(data).view(),
            final(data).view(),
            r,
            option@,
            description@,
            false,
            ValueArity::Required,
        ),
        inline_action_stored(*old(data), *final(data), r, option@, |a: BindingAction| flag_acts_as(a, handler)),
{
    let command = match normalize_inline_handler_option(option, data.root_name.as_str()) {
        Ok(c) => c,
        Err(e) => {
            return Err(e);
        },
    };
    let binding = match make_flag_binding(handler, description) {
        Ok(b) => b,
        Err(e) => {
            return Err(e);
        },
    };
    let ghost old_data = *data;
    upsert_command(&mut data.commands, command, binding);
    proof {
        lemma_upsert_index(old_data.commands.keys(), command@);
        assert(old_data.commands.keys().len() == old_data.commands.entries_view().len());
    }
    Ok(())
}

fn set_inline_value_binding(
    data: &mut InlineParserData,
    option: &str,
    handler: Box<dyn ValueHandler>,
    description: &str,
    arity: ValueArity,
) -> (r: Result<(), ConfigError>)
    requires
        old(data).wf(),
        handler.callable(),
    ensures
        final(data).wf(),
        inline_binding_effect(old(data).view(), final(data).view(), r, option@, description@, true, arity),
        inline_action_stored(*old(data), *final(data), r, option@, |a: BindingAction| value_acts_as(a, handler, arity)),
{
    let command = match normalize_inline_handler_option(option, data.root_name.as_str()) {
        Ok(c) => c,
        Err(e) => {
            return Err(e);
        },
    };
    let binding = match make_value_binding(handler, description, arity) {
        Ok(b) => b,
        Err(e) => {
            return Err(e);
        },
    };
    let ghost old_data = *data;
    upsert_command(&mut data.commands, command, binding);
    proof {
        lemma_upsert_index(old_data.commands.keys(), command@);
        assert(old_data.commands.keys().len() == old_data.commands.entries_view().len());
    }
    Ok(())
}

pub fn set_inline_value_handler(
    data: &mut InlineParserData,
    option: &str,
    handler: Box<dyn ValueHandler>,
    description: &str,
) -> (r: Result<(), ConfigError>)
    requires
        old(data).wf(),
        handler.callable(),
    ensures
        final(data).wf(),
        inline_binding_effect(
            old(data).view(),
            final(data).view(),
            r,
            option@,
            description@,
            true,
            ValueArity::Required,
        ),
        inline_action_stored(
            *old(data),
            *final(data),
            r,
            option@,
            |b: BindingAction| value_acts_as(b, handler, ValueArity::Required),
        ),
{
    set_inline_value_binding(data, option, handler, description, ValueArity::Required)
}

pub fn set_inline_optional_value_handler(
    data: &mut InlineParserData,
    option: &str,
    handler: Box<dyn ValueHandler>,
    description: &str,
) -> (r: Result<(), ConfigError>)
    requires
        old(data).wf(),
        handler.callable(),
    ensures
        final(data).wf(),
        inline_binding_effect(
            old(data).view(),
            final(data).view(),
            r,
            option@,
            description@,
            true,
            ValueArity::Optional,
        ),
        inline_action_stored(
            *old(data),
            *final(data),
            r,
            option@,
            |b: BindingAction| value_acts_as(b, handler, ValueArity::Optional),
        ),
{
    set_inline_value_binding(data, option, handler, description, ValueArity::Optional)
}

pub open spec fn presets_view(presets: Seq<&str>) -> Seq<Seq<char>> {
    presets.map_values(|s: &str| s@)
}

/// The effect of registering an alias: refused with the first error, else stored.
pub open spec fn alias_effect(
    old: ParserView,
    new: ParserView,
    r: Result<(), ConfigError>,
    alias: Seq<char>,
    target: Seq<char>,
    presets: Seq<Seq<char>>,
) -> bool {
    match normalize_alias_spec(alias) {
        Err(m) => refused_with(r, m) && new == old,
        Ok(a) => match normalize_alias_target_option_spec(target) {
            Err(m) => refused_with(r, m) && new == old,
            Ok(tg) => r is Ok && new == (ParserView {
                aliases: upsert_values(
                    old.alias_keys,
                    old.aliases,
                    a,
                    AliasView { alias: a, target: tg, presets },
                ),
                alias_keys: upsert_keys(old.alias_keys, a),
                ..old
            }),
        },
    }
}

pub fn set_alias(data: &mut ParserData, alias: &str, target: &str, preset_tokens: &[&str]) -> (r: Result<
    (),
    ConfigError,
>)
    requires
        old(data).wf(),
    ensures
        final(data).wf(),
        alias_effect(
            old(data).view(),
            final(data).view(),
            r,
            alias@,
            target@,
            presets_view(preset_tokens@),
        ),
        final(data).commands == old(data).commands,
        final(data).inline_parsers == old(data).inline_parsers,
        final(data).positional_handler == old(data).positional_handler,
{
    let normalized_alias = match normalize_alias(alias) {
        Ok(a) => a,
        Err(e) => {
            return Err(e);
        },
    };
    let normalized_target = match normalize_alias_target_option(target) {
        Ok(t) => t,
        Err(e) => {
            return Err(e);
        },
    };
    let mut presets: Vec<String> = Vec::new();
    let mut i: usize = 0;
    while i < preset_tokens.len()
        invariant
            i <= preset_tokens@.len(),
            strings_view(presets@) == presets_view(preset_tokens@).subrange(0, i as int),
        decreases preset_tokens@.len() - i,
    {
        let s = String::from_str(preset_tokens[i]);
        proof {
            crate::kcli::model::lemma_strings_view_push(presets@, s);
        }
        presets.push(s);
        i = i + 1;
        assert(strings_view(presets@) =~= presets_view(preset_tokens@).subrange(0, i as int));
    }
    assert(presets_view(preset_tokens@).subrange(0, i as int) =~= presets_view(preset_tokens@));
    let binding = AliasBinding {
        alias: normalized_alias,
        target_token: normalized_target,
        preset_tokens: presets,
    };
    data.aliases.insert(binding);
    Ok(())
}

pub fn set_primary_flag_handler(
    data: &mut ParserData,
    option: &str,
    handler: Box<dyn FlagHandler>,
    description: &str,
) -> (r: Result<(), ConfigError>)
    requires
        old(data).wf(),
        handler.callable(),
    ensures
        final(data).wf(),
        primary_binding_effect(
            old(data).view(),
            final(data).view(),
            r,
            option@,
            description@,
            false,
            ValueArity::Required,
        ),
        command_action_stored(*old(data), *final(data), r, option@, |a: BindingAction| flag_acts_as(a, handler)),
{
    let command = match normalize_primary_handler_option(option) {
        Ok(c) => c,
        Err(e) => {
            return Err(e);
        },
    };
    let br = make_flag_binding(handler, description);
    let binding = match br {
        Ok(b) => b,
        Err(e) => {
            return Err(e);
        },
    };
    let ghost old_data = *data;
    upsert_command(&mut data.commands, command, binding);
    proof {
        lemma_upsert_index(old_data.commands.keys(), command@);
        assert(old_data.commands.keys().len() == old_data.commands.entries_view().len());
    }
    Ok(())
}

fn set_primary_value_binding(
    data: &mut ParserData,
    option: &str,
    handler: Box<dyn ValueHandler>,
    description: &str,
    arity: ValueArity,
) -> (r: Result<(), ConfigError>)
    requires
        old(data).wf(),
        handler.callable(),
    ensures
        final(data).wf(),
        primary_binding_effect(old(data).view(), final(data).view(), r, option@, description@, true, arity),
        command_action_stored(*old(data), *final(data), r, option@, |a: BindingAction| value_acts_as(a, handler, arity)),
{
    let command = match normalize_primary_handler_option(option) {
        Ok(c) => c,
        Err(e) => {
            return Err(e);
        },
    };
    let binding = match make_value_binding(handler, description, arity) {
        Ok(b) => b,
        Err(e) => {
            return Err(e);
        },
    };
    let ghost old_data = *data;
    upsert_command(&mut data.commands, command, binding);
    proof {
        lemma_upsert_index(old_data.commands.keys(), command@);
        assert(old_data.commands.keys().len() == old_data.commands.entries_view().len());
    }
    Ok(())
}

pub fn set_primary_value_handler(
    data: &mut ParserData,
    option: &str,
    handler: Box<dyn ValueHandler>,
    description: &str,
) -> (r: Result<(), ConfigError>)
    requires
        old(data).wf(),
        handler.callable(),
    ensures
        final(data).wf(),
        primary_binding_effect(
            old(data).view(),
            final(data).view(),
            r,
            option@,
            description@,
            true,
            ValueArity::Required,
        ),
        command_action_stored(
            *old(data),
            *final(data),
            r,
            option@,
            |a: BindingAction| value_acts_as(a, handler, ValueArity::Required),
        ),
{
    set_primary_value_binding(data, option, handler, description, ValueArity::Required)
}

pub fn set_primary_optional_value_handler(
    data: &mut ParserData,
    option: &str,
    handler: Box<dyn ValueHandler>,
    description: &str,
) -> (r: Result<(), ConfigError>)
    requires
        old(data).wf(),
        handler.callable(),
    ensures
        final(data).wf(),
        primary_binding_effect(
            old(data).view(),
            final(data).view(),
            r,
            option@,
            description@,
            true,
            ValueArity::Optional,
        ),
        command_action_stored(
            *old(data),
            *final(data),
            r,
            option@,
            |a: BindingAction| value_acts_as(a, handler, ValueArity::Optional),
        ),
{
    set_primary_value_binding(data, option, handler, description, ValueArity::Optional)
}

pub fn set_positional_handler(data: &mut ParserData, handler: Box<dyn FlagHandler>) -> (r: Result<(), ConfigError>)
    requires
        old(data).wf(),
        handler.callable(),
    ensures
        final(data).wf(),
        r is Ok,
        final(data).view() == (ParserView { has_positional: true, ..old(data).view() }),
        final(data).positional_handler matches Some(h) && forall|c: &HandlerContext, hr: HandlerResult|
            #[trigger] h.may_return(c, hr) == handler.may_return(c, hr),
        final(data).commands == old(data).commands,
        final(data).inline_parsers == old(data).inline_parsers,
{
    data.positional_handler = Some(handler);
    Ok(())
}

pub open spec fn duplicate_root_message(root: Seq<char>) -> Seq<char> {
    "kcli inline parser root '--"@ + root + "' is already registered"@
}

/// Adds an inline parser; a second parser with the same root is refused.
pub fn add_inline_parser(data: &mut ParserData, parser: InlineParserData) -> (r: Result<(), ConfigError>)
    requires
        old(data).wf(),
        parser.wf(),
    ensures
        final(data).wf(),
        old(data).view().inlines.map_values(|v: InlineView| v.root).contains(parser.view().root) ==> {
            &&& refused_with(r, duplicate_root_message(parser.view().root))
            &&& final(data).view() == old(data).view()
        },
        !old(data).view().inlines.map_values(|v: InlineView| v.root).contains(parser.view().root) ==> {
            &&& r is Ok
            &&& final(data).view() == (ParserView {
                inlines: old(data).view().inlines.push(parser.view()),
                ..old(data).view()
            })
            &&& final(data).inline_parsers.entries_view() == old(data).inline_parsers.entries_view().push(parser)
        },
        r is Err ==> *final(data) == *old(data),
        final(data).commands == old(data).commands,
        final(data).positional_handler == old(data).positional_handler,
{
    assert(old(data).view().inlines.map_values(|v: InlineView| v.root) =~= data.inline_parsers.keys());
    if data.inline_parsers.contains(parser.root_name.as_str()) {
        let message = crate::text::concat3(
            "kcli inline parser root '--",
            parser.root_name.as_str(),
            "' is already registered",
        );
        return Err(ConfigError::from_string(message));
    }
    proof {
        crate::kcli::model::lemma_find_key_none(data.inline_parsers.keys(), parser.root_name@, 0);
    }
    data.inline_parsers.insert(parser);
    Ok(())
}

} // verus!
