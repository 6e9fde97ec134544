//! The demo programs' option sets and the summaries they print after a successful parse.
use vstd::prelude::*;
use crate::kcli::demo::common::{group_command, group_handlers};
use crate::sink::{pointee, share, sink_callable};
use crate::kcli::demo::alpha::{alpha_handlers, alpha_prop};
use crate::kcli::demo::beta::{beta_handlers, beta_prop};
use crate::kcli::demo::gamma::{gamma_handlers, gamma_prop};
use crate::kcli::model::ContextView;
use crate::kcli::parser::{
    flag_fn_gives, flag_fn_gives_with, primary_flag_stored, primary_value_stored, targets_command, value_fn_gives,
    value_fn_gives_with,
};
use crate::kcli::process::run::{outcome_view, targets_inline, CallTarget, CallView};
use crate::kcli::process::state::HandlerRef;
use crate::kcli::backend::upsert_index;
use crate::kcli::normalize::normalize_primary_handler_option_spec;
use std::rc::Rc;
use crate::kcli::model::{
    find_key, strings_view, AliasView, BindingView, ConfigError, HandlerContext, HandlerResult, InlineView,
    ParserView, ValueArity,
};
use crate::kcli::parser::{InlineParser, Parser};
use crate::kcli::backend::presets_view;
use crate::text::{lemma_no_ws, lemma_trim_unchanged};

verus! {

/// The program name to show in usage lines: `path` unless it is missing or empty.
pub fn executable_name<'a>(path: Option<&'a str>) -> (r: &'a str)
    ensures
        r@ == (match path {
            Some(p) => if p@.len() > 0 {
                p@
            } else {
                "app"@
            },
            None => "app"@,
        }),
{
    match path {
        Some(p) => {
            if p.unicode_len() > 0 {
                p
            } else {
                "app"
            }
        },
        None => "app",
    }
}

/// The value commands `0..n` of the group at position `gi` of `p` give what `prop` says.
pub open spec fn hosts_group(
    p: Parser,
    gi: int,
    prop: spec_fn(int, ContextView, Seq<char>, Result<(), Seq<char>>) -> bool,
    n: int,
) -> bool {
    forall|call: CallView, out: Result<(), Seq<char>>|
        targets_inline(call.target, gi) && 0 <= group_command(call.target) < n && call.value is Some
            && #[trigger] p.gives(call, out) ==> prop(group_command(call.target), call.context, call.value->0, out)
}

/// The own command at position `j` of `p`, called with a value when `valued` and without one
/// otherwise, succeeds.
pub open spec fn command_succeeds(p: Parser, j: int, valued: bool) -> bool {
    forall|call: CallView, out: Result<(), Seq<char>>|
        targets_command(call.target, j) && (call.value is Some) == valued && #[trigger] p.gives(call, out)
            ==> out == Ok::<(), Seq<char>>(())
}

/// A change that leaves the calls into the group at `gi` alone keeps what it gives.
pub proof fn lemma_hosts_kept(
    old: Parser,
    new: Parser,
    gi: int,
    prop: spec_fn(int, ContextView, Seq<char>, Result<(), Seq<char>>) -> bool,
    n: int,
)
    requires
        hosts_group(old, gi, prop, n),
        forall|call: CallView, out: Result<(), Seq<char>>|
            targets_inline(call.target, gi) ==> (#[trigger] new.gives(call, out) <==> old.gives(call, out)),
    ensures
        hosts_group(new, gi, prop, n),
{
}

/// A change that leaves the own command at `j` alone keeps what it gives.
pub proof fn lemma_command_kept(old: Parser, new: Parser, j: int, valued: bool)
    requires
        command_succeeds(old, j, valued),
        forall|call: CallView, out: Result<(), Seq<char>>|
            targets_command(call.target, j) ==> (#[trigger] new.gives(call, out) <==> old.gives(call, out)),
    ensures
        command_succeeds(new, j, valued),
{
}

/// A group whose value commands meet `prop`, once hosted at `gi`, meets it there.
pub proof fn lemma_hosts_added(
    new: Parser,
    group: InlineParser,
    gi: int,
    prop: spec_fn(int, ContextView, Seq<char>, Result<(), Seq<char>>) -> bool,
    n: int,
)
    requires
        group_handlers(group, prop, n),
        forall|call: CallView, out: Result<(), Seq<char>>|
            targets_inline(call.target, gi) ==> (#[trigger] new.gives(call, out) <==> group.gives(call, out)),
    ensures
        hosts_group(new, gi, prop, n),
{
    assert forall|call: CallView, out: Result<(), Seq<char>>|
        targets_inline(call.target, gi) && 0 <= group_command(call.target) < n && call.value is Some
            && #[trigger] new.gives(call, out) implies prop(group_command(call.target), call.context, call.value->0, out) by {
        assert(group.gives(call, out));
    }
}

/// Setting own command `j` to a flag handler that always succeeds.
pub proof fn lemma_flag_succeeds<F: Fn(&HandlerContext) -> HandlerResult>(old: Parser, new: Parser, option: Seq<char>, f: F, j: int)
    requires
        primary_flag_stored(old, new, Ok(()), option, f),
        upsert_index(old.view().command_keys, normalize_primary_handler_option_spec(option)->Ok_0) == j,
        forall|ctx: &HandlerContext, hr: HandlerResult| #[trigger] call_ensures(f, (ctx,), hr) ==> hr is Ok,
    ensures
        command_succeeds(new, j, false),
{
    assert forall|call: CallView, out: Result<(), Seq<char>>|
        targets_command(call.target, j) && (call.value is Some) == false && #[trigger] new.gives(call, out)
            implies out == Ok::<(), Seq<char>>(()) by {
        assert(flag_fn_gives(f, call.context, out));
        let (c, hr) = choose|c: HandlerContext, hr: HandlerResult| #[trigger] flag_fn_gives_with(f, call.context, out, c, hr);
        assert(call_ensures(f, (&c,), hr));
    }
}

/// Setting own command `j` to a value handler that always succeeds.
pub proof fn lemma_value_succeeds<F: Fn(&HandlerContext, &str) -> HandlerResult>(old: Parser, new: Parser, option: Seq<char>, f: F, j: int)
    requires
        primary_value_stored(old, new, Ok(()), option, f),
        upsert_index(old.view().command_keys, normalize_primary_handler_option_spec(option)->Ok_0) == j,
        forall|ctx: &HandlerContext, v: &str, hr: HandlerResult| #[trigger] call_ensures(f, (ctx, v), hr) ==> hr is Ok,
    ensures
        command_succeeds(new, j, true),
{
    assert forall|call: CallView, out: Result<(), Seq<char>>|
        targets_command(call.target, j) && (call.value is Some) == true && #[trigger] new.gives(call, out)
            implies out == Ok::<(), Seq<char>>(()) by {
        assert(value_fn_gives(f, call.context, call.value->0, out));
        let (c, v, hr) = choose|c: HandlerContext, v: &str, hr: HandlerResult|
            #[trigger] value_fn_gives_with(f, call.context, call.value->0, out, c, v, hr);
        assert(call_ensures(f, (&c, v), hr));
    }
}

/// A parser hosting the single inline group `group`.
pub fn single_group_parser(group: InlineParser) -> (r: Parser)
    ensures
        r.view() == (ParserView { inlines: seq![group.view()], ..crate::kcli::parser::empty_parser_view() }),
        forall|call: CallView, out: Result<(), Seq<char>>|
            targets_inline(call.target, 0) ==> (#[trigger] r.gives(call, out) <==> group.gives(call, out)),
{
    let mut parser = Parser::new();
    let ghost g = group.view();
    assert(Seq::<InlineView>::empty().map_values(|v: InlineView| v.root) =~= Seq::<Seq<char>>::empty());
    let added = parser.add_inline_parser(group);
    assert(Seq::<InlineView>::empty().push(g) =~= seq![g]);
    parser
}

proof fn lemma_alias_ok(alias: Seq<char>, target: Seq<char>)
    requires
        alias.len() >= 2,
        alias[0] == '-',
        alias[1] != '-',
        forall|i: int| 0 <= i < alias.len() ==> !crate::text::is_ws_spec(#[trigger] alias[i]),
        target.len() >= 3,
        target[0] == '-',
        target[1] == '-',
        target[2] != '-',
        forall|i: int| 0 <= i < target.len() ==> !crate::text::is_ws_spec(#[trigger] target[i]),
    ensures
        crate::kcli::normalize::normalize_alias_spec(alias) == Ok::<Seq<char>, Seq<char>>(alias),
        crate::kcli::normalize::normalize_alias_target_option_spec(target) == Ok::<
            Seq<char>,
            Seq<char>,
        >(target),
{
    lemma_trim_unchanged(alias);
    lemma_no_ws(alias);
    lemma_trim_unchanged(target);
    lemma_no_ws(target);
}

proof fn lemma_option_ok(option: Seq<char>, name: Seq<char>)
    requires
        option.len() >= 3,
        option[0] == '-',
        option[1] == '-',
        option[2] != '-',
        forall|i: int| 0 <= i < option.len() ==> !crate::text::is_ws_spec(#[trigger] option[i]),
        name == option.subrange(2, option.len() as int),
    ensures
        crate::kcli::normalize::normalize_primary_handler_option_spec(option) == Ok::<
            Seq<char>,
            Seq<char>,
        >(name),
{
    lemma_trim_unchanged(option);
    lemma_no_ws(name);
}

/// What the core demo configures.
pub open spec fn core_view() -> ParserView {
    ParserView {
        has_positional: false,
        aliases: seq![
            AliasView { alias: "-v"@, target: "--verbose"@, presets: Seq::empty() },
            AliasView { alias: "-out"@, target: "--output"@, presets: Seq::empty() },
            AliasView { alias: "-a"@, target: "--alpha-enable"@, presets: Seq::empty() },
        ],
        alias_keys: seq!["-v"@, "-out"@, "-a"@],
        command_keys: seq!["verbose"@, "output"@],
        bindings: seq![
            BindingView {
                expects_value: false,
                arity: ValueArity::Required,
                description: "Enable verbose app logging."@,
            },
            BindingView {
                expects_value: true,
                arity: ValueArity::Required,
                description: "Set app output target."@,
            },
        ],
        inlines: seq![crate::kcli::demo::alpha::alpha_view()],
    }
}

/// What the core demo's handlers give: the alpha group's commands as `alpha_prop`, and
/// `--verbose` and `--output <value>` succeed.
pub open spec fn core_handlers<S: Fn(String)>(p: Parser, sink: S) -> bool {
    &&& hosts_group(p, 0, alpha_prop(sink), 2)
    &&& command_succeeds(p, 0, false)
    &&& command_succeeds(p, 1, true)
}

/// The core demo: the `--alpha` group, `--verbose`, `--output <value>` and three aliases.
pub fn core_parser<S: Fn(String) + 'static>(sink: Rc<S>) -> (r: Result<Parser, ConfigError>)
    requires
        sink_callable(*sink),
    ensures
        r matches Ok(p) && p.view() == core_view() && core_handlers(p, *sink),
{
    let ghost sk: S = pointee(&sink);
    let alpha = match crate::kcli::demo::alpha::get_inline_parser(sink) {
        Ok(p) => p,
        Err(e) => {
            return Err(e);
        },
    };
    let ghost ga = alpha;
    let mut parser = single_group_parser(alpha);
    proof {
        lemma_hosts_added(parser, ga, 0, alpha_prop(sk), 2);
    }
    let ghost q0 = parser;
    let none: Vec<&str> = Vec::new();
    proof {
        reveal_strlit("-v");
        reveal_strlit("--verbose");
        reveal_strlit("-out");
        reveal_strlit("--output");
        reveal_strlit("-a");
        reveal_strlit("--alpha-enable");
        reveal_strlit("verbose");
        reveal_strlit("output");
        reveal_strlit("Enable verbose app logging.");
        reveal_strlit("Set app output target.");
        lemma_alias_ok("-v"@, "--verbose"@);
        lemma_alias_ok("-out"@, "--output"@);
        lemma_alias_ok("-a"@, "--alpha-enable"@);
        assert("--verbose"@.subrange(2, 9) =~= "verbose"@);
        lemma_option_ok("--verbose"@, "verbose"@);
        assert("--output"@.subrange(2, 8) =~= "output"@);
        lemma_option_ok("--output"@, "output"@);
        lemma_trim_unchanged("Enable verbose app logging."@);
        lemma_trim_unchanged("Set app output target."@);
        assert(crate::kcli::backend::presets_view(none@) =~= Seq::empty());
    }
    match parser.add_alias("-v", "--verbose", none.as_slice()) {
        Ok(()) => {},
        Err(e) => {
            return Err(e);
        },
    }
    proof {
        lemma_hosts_kept(q0, parser, 0, alpha_prop(sk), 2);
    }
    let ghost q1 = parser;
    assert(parser.view().alias_keys =~= seq!["-v"@]);
    assert("-out"@ != "-v"@);
    assert(find_key(parser.view().alias_keys, "-out"@, 1) is None);
    match parser.add_alias("-out", "--output", none.as_slice()) {
        Ok(()) => {},
        Err(e) => {
            return Err(e);
        },
    }
    proof {
        lemma_hosts_kept(q1, parser, 0, alpha_prop(sk), 2);
    }
    let ghost q2 = parser;
    assert(parser.view().alias_keys =~= seq!["-v"@, "-out"@]);
    assert("-a"@[1] != "-v"@[1]);
    assert("-a"@ != "-out"@);
    assert(find_key(parser.view().alias_keys, "-a"@, 2) is None);
    assert(find_key(parser.view().alias_keys, "-a"@, 1) is None);
    match parser.add_alias("-a", "--alpha-enable", none.as_slice()) {
        Ok(()) => {},
        Err(e) => {
            return Err(e);
        },
    }
    proof {
        lemma_hosts_kept(q2, parser, 0, alpha_prop(sk), 2);
    }
    let ghost q3 = parser;
    let verbose = |context: &HandlerContext| -> (r: HandlerResult)
        ensures
            r is Ok,
        { Ok(()) };
    match parser.set_flag_handler("--verbose", verbose, "Enable verbose app logging.") {
        Ok(()) => {},
        Err(e) => {
            return Err(e);
        },
    }
    proof {
        lemma_hosts_kept(q3, parser, 0, alpha_prop(sk), 2);
        lemma_flag_succeeds(q3, parser, "--verbose"@, verbose, 0);
    }
    let ghost q4 = parser;
    assert(parser.view().command_keys =~= seq!["verbose"@]);
    assert("output"@ != "verbose"@);
    assert(find_key(parser.view().command_keys, "output"@, 1) is None);
    let output = |context: &HandlerContext, value: &str| -> (r: HandlerResult)
        ensures
            r is Ok,
        { Ok(()) };
    match parser.set_value_handler("--output", output, "Set app output target.") {
        Ok(()) => {},
        Err(e) => {
            return Err(e);
        },
    }
    proof {
        lemma_hosts_kept(q4, parser, 0, alpha_prop(sk), 2);
        lemma_command_kept(q4, parser, 0, false);
        lemma_value_succeeds(q4, parser, "--output"@, output, 1);
    }
    assert(parser.view().aliases =~= core_view().aliases);
    assert(parser.view().alias_keys =~= core_view().alias_keys);
    assert(parser.view().command_keys =~= core_view().command_keys);
    assert(parser.view().bindings =~= core_view().bindings);
    Ok(parser)
}


/// Owned copies of `lines`.
pub fn lines_of(lines: &[&str]) -> (r: Vec<String>)
    ensures
        strings_view(r@) == presets_view(lines@),
{
    let mut r: Vec<String> = Vec::new();
    let mut i: usize = 0;
    while i < lines.len()
        invariant
            i <= lines@.len(),
            strings_view(r@) == presets_view(lines@).subrange(0, i as int),
        decreases lines@.len() - i,
    {
        let s = String::from_str(lines[i]);
        proof {
            crate::kcli::model::lemma_strings_view_push(r@, s);
        }
        r.push(s);
        i = i + 1;
        assert(strings_view(r@) =~= presets_view(lines@).subrange(0, i as int));
    }
    assert(presets_view(lines@).subrange(0, i as int) =~= presets_view(lines@));
    r
}

/// What the core demo prints after a successful parse, for the program `exe_name`.
pub open spec fn core_report_spec(exe_name: Seq<char>) -> Seq<Seq<char>> {
    seq![
        Seq::empty(),
        "KCLI rust demo core import/integration check passed"@,
        Seq::empty(),
        "Usage:"@,
        "  "@ + exe_name + " --alpha"@,
        "  "@ + exe_name + " --output stdout"@,
        Seq::empty(),
        "Enabled inline roots:"@,
        "  --alpha"@,
        Seq::empty(),
    ]
}

pub fn core_report(exe_name: &str) -> (r: Vec<String>)
    ensures
        strings_view(r@) == core_report_spec(exe_name@),
{
    proof {
        reveal_strlit("");
    }
    let mut r: Vec<String> = Vec::new();
    let l0 = String::new();
    let l1 = String::from_str("KCLI rust demo core import/integration check passed");
    let l2 = String::new();
    let l3 = String::from_str("Usage:");
    let l4 = crate::text::concat3("  ", exe_name, " --alpha");
    let l5 = crate::text::concat3("  ", exe_name, " --output stdout");
    let l6 = String::new();
    let l7 = String::from_str("Enabled inline roots:");
    let l8 = String::from_str("  --alpha");
    let l9 = String::new();
    r.push(l0);
    r.push(l1);
    r.push(l2);
    r.push(l3);
    r.push(l4);
    r.push(l5);
    r.push(l6);
    r.push(l7);
    r.push(l8);
    r.push(l9);
    assert(strings_view(r@) =~= core_report_spec(exe_name@));
    r
}

/// What the omega demo prints after a successful parse.
pub open spec fn omega_report_spec() -> Seq<Seq<char>> {
    seq![
        Seq::empty(),
        "Usage:"@,
        "  kcli_demo_omega --<root>"@,
        Seq::empty(),
        "Enabled --<root> prefixes:"@,
        "  --alpha"@,
        "  --beta"@,
        "  --newgamma (gamma override)"@,
        Seq::empty(),
    ]
}

pub fn omega_report() -> (r: Vec<String>)
    ensures
        strings_view(r@) == omega_report_spec(),
{
    let mut r: Vec<String> = Vec::new();
    r.push(String::new());
    r.push(String::from_str("Usage:"));
    r.push(String::from_str("  kcli_demo_omega --<root>"));
    r.push(String::new());
    r.push(String::from_str("Enabled --<root> prefixes:"));
    r.push(String::from_str("  --alpha"));
    r.push(String::from_str("  --beta"));
    r.push(String::from_str("  --newgamma (gamma override)"));
    r.push(String::new());
    assert(strings_view(r@) =~= omega_report_spec());
    r
}

/// What the `--build` group of the omega demo configures.
pub open spec fn build_view() -> InlineView {
    InlineView {
        root: "build"@,
        has_root_handler: false,
        placeholder: Seq::empty(),
        description: Seq::empty(),
        command_keys: seq!["profile"@, "clean"@],
        bindings: seq![
            BindingView {
                expects_value: true,
                arity: ValueArity::Required,
                description: "Set build profile."@,
            },
            BindingView {
                expects_value: false,
                arity: ValueArity::Required,
                description: "Enable clean build."@,
            },
        ],
    }
}

/// The omega demo's `--build` group: `--build-profile <value>` and `--build-clean`.
pub fn build_group() -> (r: Result<InlineParser, ConfigError>)
    ensures
        r matches Ok(p) && p.view() == build_view(),
{
    proof {
        reveal_strlit("--build");
        reveal_strlit("build");
        reveal_strlit("-profile");
        reveal_strlit("profile");
        reveal_strlit("-clean");
        reveal_strlit("clean");
        reveal_strlit("Set build profile.");
        reveal_strlit("Enable clean build.");
        lemma_trim_unchanged("--build"@);
        assert("--build"@.subrange(2, 7) =~= "build"@);
        lemma_trim_unchanged("build"@);
        lemma_no_ws("build"@);
        lemma_trim_unchanged("-profile"@);
        assert("-profile"@.subrange(1, 8) =~= "profile"@);
        lemma_no_ws("profile"@);
        lemma_trim_unchanged("-clean"@);
        assert("-clean"@.subrange(1, 6) =~= "clean"@);
        lemma_no_ws("clean"@);
        lemma_trim_unchanged("Set build profile."@);
        lemma_trim_unchanged("Enable clean build."@);
    }
    let mut parser = match InlineParser::new("--build") {
        Ok(p) => p,
        Err(e) => {
            return Err(e);
        },
    };
    assert(find_key(parser.view().command_keys, "profile"@, 0) is None);
    match parser.set_value_handler(
        "-profile",
        |context: &HandlerContext, value: &str| -> (r: HandlerResult) { Ok(()) },
        "Set build profile.",
    ) {
        Ok(()) => {},
        Err(e) => {
            return Err(e);
        },
    }
    assert(parser.view().command_keys =~= seq!["profile"@]);
    assert("profile"@ != "clean"@);
    assert(find_key(parser.view().command_keys, "clean"@, 1) is None);
    match parser.set_flag_handler(
        "-clean",
        |context: &HandlerContext| -> (r: HandlerResult) { Ok(()) },
        "Enable clean build.",
    ) {
        Ok(()) => {},
        Err(e) => {
            return Err(e);
        },
    }
    assert(parser.view().command_keys =~= build_view().command_keys);
    assert(parser.view().bindings =~= build_view().bindings);
    Ok(parser)
}

/// The `--gamma` group moved to the root `--newgamma`.
pub open spec fn newgamma_view() -> InlineView {
    InlineView { root: "newgamma"@, ..crate::kcli::demo::gamma::gamma_view() }
}

/// What the omega demo configures.
pub open spec fn omega_view() -> ParserView {
    ParserView {
        has_positional: true,
        aliases: seq![
            AliasView { alias: "-v"@, target: "--verbose"@, presets: Seq::empty() },
            AliasView { alias: "-out"@, target: "--output"@, presets: Seq::empty() },
            AliasView { alias: "-a"@, target: "--alpha-enable"@, presets: Seq::empty() },
            AliasView { alias: "-b"@, target: "--build-profile"@, presets: Seq::empty() },
        ],
        alias_keys: seq!["-v"@, "-out"@, "-a"@, "-b"@],
        command_keys: seq!["verbose"@, "output"@],
        bindings: core_view().bindings,
        inlines: seq![
            crate::kcli::demo::alpha::alpha_view(),
            crate::kcli::demo::beta::beta_view(),
            newgamma_view(),
            build_view(),
        ],
    }
}

/// The positional handler of `p` succeeds.
pub open spec fn positional_succeeds(p: Parser) -> bool {
    forall|call: CallView, out: Result<(), Seq<char>>|
        call.target == CallTarget::Positional && #[trigger] p.gives(call, out) ==> out == Ok::<(), Seq<char>>(())
}

/// What the omega demo's handlers give: the alpha, beta and gamma groups' commands as
/// `alpha_prop`, `beta_prop` and `gamma_prop`; `--verbose`, `--output <value>` and the
/// positional handler succeed.
pub open spec fn omega_handlers<S: Fn(String)>(p: Parser, sink: S) -> bool {
    &&& hosts_group(p, 0, alpha_prop(sink), 2)
    &&& hosts_group(p, 1, beta_prop(sink), 2)
    &&& hosts_group(p, 2, gamma_prop(sink), 2)
    &&& command_succeeds(p, 0, false)
    &&& command_succeeds(p, 1, true)
    &&& positional_succeeds(p)
}

/// The omega demo: the alpha, beta, gamma (as `--newgamma`) and build groups, four aliases,
/// `--verbose`, `--output <value>` and a positional handler.
pub fn omega_parser<S: Fn(String) + 'static>(sink: Rc<S>) -> (r: Result<Parser, ConfigError>)
    requires
        sink_callable(*sink),
    ensures
        r matches Ok(p) && p.view() == omega_view() && omega_handlers(p, *sink),
{
    let ghost sk: S = pointee(&sink);
    let alpha = match crate::kcli::demo::alpha::get_inline_parser(share(&sink)) {
        Ok(p) => p,
        Err(e) => {
            return Err(e);
        },
    };
    let beta = match crate::kcli::demo::beta::get_inline_parser(share(&sink)) {
        Ok(p) => p,
        Err(e) => {
            return Err(e);
        },
    };
    let mut gamma = match crate::kcli::demo::gamma::get_inline_parser(sink) {
        Ok(p) => p,
        Err(e) => {
            return Err(e);
        },
    };
    proof {
        reveal_strlit("--newgamma");
        reveal_strlit("newgamma");
        reveal_strlit("alpha");
        reveal_strlit("beta");
        reveal_strlit("build");
        lemma_trim_unchanged("--newgamma"@);
        assert("--newgamma"@.subrange(2, 10) =~= "newgamma"@);
        lemma_trim_unchanged("newgamma"@);
        lemma_no_ws("newgamma"@);
    }
    let ghost g0 = gamma;
    match gamma.set_root("--newgamma") {
        Ok(()) => {},
        Err(e) => {
            return Err(e);
        },
    }
    assert(group_handlers(gamma, gamma_prop(sk), 2)) by {
        assert(group_handlers(g0, gamma_prop(sk), 2));
    }
    let build = match build_group() {
        Ok(p) => p,
        Err(e) => {
            return Err(e);
        },
    };
    let ghost ga = alpha;
    let ghost gb = beta;
    let ghost gg = gamma;
    let mut parser = single_group_parser(alpha);
    proof {
        lemma_hosts_added(parser, ga, 0, alpha_prop(sk), 2);
    }
    let ghost q0 = parser;
    let ghost roots1 = parser.view().inlines.map_values(|v: InlineView| v.root);
    assert(roots1 =~= seq!["alpha"@]);
    assert("alpha"@[0] != "beta"@[0]);
    let added = parser.add_inline_parser(beta);
    proof {
        lemma_hosts_kept(q0, parser, 0, alpha_prop(sk), 2);
        lemma_hosts_added(parser, gb, 1, beta_prop(sk), 2);
    }
    let ghost q1 = parser;
    let ghost roots2 = parser.view().inlines.map_values(|v: InlineView| v.root);
    assert(roots2 =~= seq!["alpha"@, "beta"@]);
    assert("alpha"@ != "newgamma"@);
    assert("beta"@ != "newgamma"@);
    match parser.add_inline_parser(gamma) {
        Ok(()) => {},
        Err(e) => {
            return Err(e);
        },
    }
    proof {
        lemma_hosts_kept(q1, parser, 0, alpha_prop(sk), 2);
        lemma_hosts_kept(q1, parser, 1, beta_prop(sk), 2);
        lemma_hosts_added(parser, gg, 2, gamma_prop(sk), 2);
    }
    let ghost q2 = parser;
    let ghost roots3 = parser.view().inlines.map_values(|v: InlineView| v.root);
    assert(roots3 =~= seq!["alpha"@, "beta"@, "newgamma"@]);
    assert("alpha"@[0] != "build"@[0]);
    assert("beta"@[1] != "build"@[1]);
    assert("newgamma"@ != "build"@);
    match parser.add_inline_parser(build) {
        Ok(()) => {},
        Err(e) => {
            return Err(e);
        },
    }
    proof {
        lemma_hosts_kept(q2, parser, 0, alpha_prop(sk), 2);
        lemma_hosts_kept(q2, parser, 1, beta_prop(sk), 2);
        lemma_hosts_kept(q2, parser, 2, gamma_prop(sk), 2);
    }
    let ghost q3 = parser;
    assert(parser.view().inlines =~= omega_view().inlines);
    let none: Vec<&str> = Vec::new();
    proof {
        reveal_strlit("-v");
        reveal_strlit("--verbose");
        reveal_strlit("-out");
        reveal_strlit("--output");
        reveal_strlit("-a");
        reveal_strlit("--alpha-enable");
        reveal_strlit("-b");
        reveal_strlit("--build-profile");
        reveal_strlit("verbose");
        reveal_strlit("output");
        reveal_strlit("Enable verbose app logging.");
        reveal_strlit("Set app output target.");
        lemma_alias_ok("-v"@, "--verbose"@);
        lemma_alias_ok("-out"@, "--output"@);
        lemma_alias_ok("-a"@, "--alpha-enable"@);
        lemma_alias_ok("-b"@, "--build-profile"@);
        assert("--verbose"@.subrange(2, 9) =~= "verbose"@);
        lemma_option_ok("--verbose"@, "verbose"@);
        assert("--output"@.subrange(2, 8) =~= "output"@);
        lemma_option_ok("--output"@, "output"@);
        lemma_trim_unchanged("Enable verbose app logging."@);
        lemma_trim_unchanged("Set app output target."@);
        assert(crate::kcli::backend::presets_view(none@) =~= Seq::empty());
    }
    match parser.add_alias("-v", "--verbose", none.as_slice()) {
        Ok(()) => {},
        Err(e) => {
            return Err(e);
        },
    }
    proof {
        lemma_hosts_kept(q3, parser, 0, alpha_prop(sk), 2);
        lemma_hosts_kept(q3, parser, 1, beta_prop(sk), 2);
        lemma_hosts_kept(q3, parser, 2, gamma_prop(sk), 2);
    }
    let ghost q4 = parser;
    assert(parser.view().alias_keys =~= seq!["-v"@]);
    assert("-out"@ != "-v"@);
    assert(find_key(parser.view().alias_keys, "-out"@, 1) is None);
    match parser.add_alias("-out", "--output", none.as_slice()) {
        Ok(()) => {},
        Err(e) => {
            return Err(e);
        },
    }
    proof {
        lemma_hosts_kept(q4, parser, 0, alpha_prop(sk), 2);
        lemma_hosts_kept(q4, parser, 1, beta_prop(sk), 2);
        lemma_hosts_kept(q4, parser, 2, gamma_prop(sk), 2);
    }
    let ghost q5 = parser;
    assert(parser.view().alias_keys =~= seq!["-v"@, "-out"@]);
    assert("-a"@[1] != "-v"@[1]);
    assert("-a"@ != "-out"@);
    assert(find_key(parser.view().alias_keys, "-a"@, 2) is None);
    assert(find_key(parser.view().alias_keys, "-a"@, 1) is None);
    match parser.add_alias("-a", "--alpha-enable", none.as_slice()) {
        Ok(()) => {},
        Err(e) => {
            return Err(e);
        },
    }
    proof {
        lemma_hosts_kept(q5, parser, 0, alpha_prop(sk), 2);
        lemma_hosts_kept(q5, parser, 1, beta_prop(sk), 2);
        lemma_hosts_kept(q5, parser, 2, gamma_prop(sk), 2);
    }
    let ghost q6 = parser;
    assert(parser.view().alias_keys =~= seq!["-v"@, "-out"@, "-a"@]);
    assert("-b"@[1] != "-v"@[1]);
    assert("-b"@ != "-out"@);
    assert("-b"@[1] != "-a"@[1]);
    assert(find_key(parser.view().alias_keys, "-b"@, 3) is None);
    assert(find_key(parser.view().alias_keys, "-b"@, 2) is None);
    assert(find_key(parser.view().alias_keys, "-b"@, 1) is None);
    match parser.add_alias("-b", "--build-profile", none.as_slice()) {
        Ok(()) => {},
        Err(e) => {
            return Err(e);
        },
    }
    proof {
        lemma_hosts_kept(q6, parser, 0, alpha_prop(sk), 2);
        lemma_hosts_kept(q6, parser, 1, beta_prop(sk), 2);
        lemma_hosts_kept(q6, parser, 2, gamma_prop(sk), 2);
    }
    let ghost q7 = parser;
    let verbose = |context: &HandlerContext| -> (r: HandlerResult)
        ensures
            r is Ok,
        { Ok(()) };
    match parser.set_flag_handler("--verbose", verbose, "Enable verbose app logging.") {
        Ok(()) => {},
        Err(e) => {
            return Err(e);
        },
    }
    proof {
        lemma_hosts_kept(q7, parser, 0, alpha_prop(sk), 2);
        lemma_hosts_kept(q7, parser, 1, beta_prop(sk), 2);
        lemma_hosts_kept(q7, parser, 2, gamma_prop(sk), 2);
    }
    proof {
        lemma_flag_succeeds(q7, parser, "--verbose"@, verbose, 0);
    }
    let ghost q8 = parser;
    assert(parser.view().command_keys =~= seq!["verbose"@]);
    assert("output"@ != "verbose"@);
    assert(find_key(parser.view().command_keys, "output"@, 1) is None);
    let output = |context: &HandlerContext, value: &str| -> (r: HandlerResult)
        ensures
            r is Ok,
        { Ok(()) };
    match parser.set_value_handler("--output", output, "Set app output target.") {
        Ok(()) => {},
        Err(e) => {
            return Err(e);
        },
    }
    proof {
        lemma_hosts_kept(q8, parser, 0, alpha_prop(sk), 2);
        lemma_hosts_kept(q8, parser, 1, beta_prop(sk), 2);
        lemma_hosts_kept(q8, parser, 2, gamma_prop(sk), 2);
    }
    proof {
        lemma_command_kept(q8, parser, 0, false);
        lemma_value_succeeds(q8, parser, "--output"@, output, 1);
    }
    let ghost q9 = parser;
    let accept = |context: &HandlerContext| -> (r: HandlerResult)
        ensures
            r is Ok,
        { Ok(()) };
    let positional = parser.set_positional_handler(accept);
    proof {
        lemma_hosts_kept(q9, parser, 0, alpha_prop(sk), 2);
        lemma_hosts_kept(q9, parser, 1, beta_prop(sk), 2);
        lemma_hosts_kept(q9, parser, 2, gamma_prop(sk), 2);
    }
    proof {
        lemma_command_kept(q9, parser, 0, false);
        lemma_command_kept(q9, parser, 1, true);
        assert forall|call: CallView, out: Result<(), Seq<char>>|
            call.target == CallTarget::Positional && #[trigger] parser.gives(call, out)
                implies out == Ok::<(), Seq<char>>(()) by {
            assert(flag_fn_gives(accept, call.context, out));
            let (c, hr) = choose|c: HandlerContext, hr: HandlerResult| #[trigger] flag_fn_gives_with(accept, call.context, out, c, hr);
            assert(call_ensures(accept, (&c,), hr));
        }
    }
    assert(parser.view().aliases =~= omega_view().aliases);
    assert(parser.view().alias_keys =~= omega_view().alias_keys);
    assert(parser.view().command_keys =~= omega_view().command_keys);
    assert(parser.view().bindings =~= omega_view().bindings);
    Ok(parser)
}

/// A demo SDK program: one group, and the line it prints once the command line is handled.
pub fn sdk_parser(group: InlineParser) -> (r: Parser)
    ensures
        r.view() == (ParserView { inlines: seq![group.view()], ..crate::kcli::parser::empty_parser_view() }),
{
    single_group_parser(group)
}

} // verus!
