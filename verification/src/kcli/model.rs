//! Parser configuration: handlers, bindings and the tables that hold them.
use vstd::prelude::*;

verus! {

/// What a handler returns: `Err(message)` makes the parse fail.
pub type HandlerResult = Result<(), String>;

/// What a handler is told about the option it runs for.
#[derive(Clone, Debug)]
pub struct HandlerContext {
    pub root: String,
    pub option: String,
    pub command: String,
    pub value_tokens: Vec<String>,
}

/// The context as plain sequences.
pub struct ContextView {
    pub root: Seq<char>,
    pub option: Seq<char>,
    pub command: Seq<char>,
    pub value_tokens: Seq<Seq<char>>,
}

impl HandlerContext {
    pub open spec fn view(&self) -> ContextView {
        ContextView {
            root: self.root@,
            option: self.option@,
            command: self.command@,
            value_tokens: strings_view(self.value_tokens@),
        }
    }
}

/// The characters of each string.
pub open spec fn strings_view(v: Seq<String>) -> Seq<Seq<char>> {
    v.map_values(|s: String| s@)
}

pub proof fn lemma_strings_view_push(v: Seq<String>, s: String)
    ensures
        strings_view(v.push(s)) == strings_view(v).push(s@),
{
    assert(strings_view(v.push(s)) =~= strings_view(v).push(s@));
}

/// A copy of a list of strings.
pub fn clone_strings(v: &Vec<String>) -> (r: Vec<String>)
    ensures
        strings_view(r@) == strings_view(v@),
{
    let mut r: Vec<String> = Vec::new();
    let mut i: usize = 0;
    while i < v.len()
        invariant
            i <= v@.len(),
            strings_view(r@) == strings_view(v@).subrange(0, i as int),
        decreases v@.len() - i,
    {
        let s = v[i].clone();
        proof {
            lemma_strings_view_push(r@, s);
        }
        r.push(s);
        i = i + 1;
        assert(strings_view(r@) =~= strings_view(v@).subrange(0, i as int));
    }
    assert(strings_view(v@).subrange(0, i as int) =~= strings_view(v@));
    r
}

/// A handler for a flag (an option without value) or for positional arguments.
pub trait FlagHandler {
    /// The handler may be called on every context.
    spec fn callable(&self) -> bool;

    /// `r` is a result the handler may give for `context`.
    spec fn may_return(&self, context: &HandlerContext, r: HandlerResult) -> bool;

    /// Calls the handler on `context`.
    fn invoke(&self, context: &HandlerContext) -> (r: HandlerResult)
        requires
            self.callable(),
        ensures
            self.may_return(context, r),
    ;
}

impl<F: Fn(&HandlerContext) -> HandlerResult> FlagHandler for F {
    open spec fn callable(&self) -> bool {
        forall|context: &HandlerContext| call_requires(*self, (context,))
    }

    open spec fn may_return(&self, context: &HandlerContext, r: HandlerResult) -> bool {
        call_ensures(*self, (context,), r)
    }

    fn invoke(&self, context: &HandlerContext) -> (r: HandlerResult) {
        self(context)
    }
}

/// A handler for an option that takes a value.
pub trait ValueHandler {
    /// The handler may be called on every context and value.
    spec fn callable(&self) -> bool;

    /// `r` is a result the handler may give for `context` and `value`.
    spec fn may_return(&self, context: &HandlerContext, value: &str, r: HandlerResult) -> bool;

    /// Calls the handler on `context` and `value`.
    fn invoke(&self, context: &HandlerContext, value: &str) -> (r: HandlerResult)
        requires
            self.callable(),
        ensures
            self.may_return(context, value, r),
    ;
}

impl<F: Fn(&HandlerContext, &str) -> HandlerResult> ValueHandler for F {
    open spec fn callable(&self) -> bool {
        forall|context: &HandlerContext, value: &str| call_requires(*self, (context, value))
    }

    open spec fn may_return(&self, context: &HandlerContext, value: &str, r: HandlerResult) -> bool {
        call_ensures(*self, (context, value), r)
    }

    fn invoke(&self, context: &HandlerContext, value: &str) -> (r: HandlerResult) {
        self(context, value)
    }
}

/// The error a failed parse reports.
#[derive(Clone, Debug)]
pub struct CliError {
    option: String,
    message: String,
    listings: Vec<String>,
}

pub open spec fn default_parse_message() -> Seq<char> {
    "kcli parse failed"@
}

impl CliError {
    pub closed spec fn option_view(&self) -> Seq<char> {
        self.option@
    }

    pub closed spec fn message_view(&self) -> Seq<char> {
        self.message@
    }

    /// The help listings shown before the failure.
    pub closed spec fn listings_view(&self) -> Seq<Seq<char>> {
        strings_view(self.listings@)
    }

    /// An empty message is replaced by a generic one.
    pub fn new(option: &str, message: &str) -> (e: Self)
        ensures
            e.option_view() == option@,
            e.message_view() == if message@.len() == 0 {
                default_parse_message()
            } else {
                message@
            },
            e.listings_view() == Seq::<Seq<char>>::empty(),
    {
        let message = if message.is_empty() {
            String::from_str("kcli parse failed")
        } else {
            String::from_str(message)
        };
        let e = CliError { option: String::from_str(option), message, listings: Vec::new() };
        assert(e.listings_view() =~= Seq::<Seq<char>>::empty());
        e
    }

    /// The same error, with `listings` as the help listings shown before the failure.
    pub fn with_listings(self, listings: Vec<String>) -> (e: Self)
        ensures
            e.option_view() == self.option_view(),
            e.message_view() == self.message_view(),
            e.listings_view() == strings_view(listings@),
    {
        CliError { option: self.option, message: self.message, listings }
    }

    /// The help listings that were shown, in order, before the handler that failed: a
    /// failure during planning shows none.
    pub fn listings(&self) -> (r: &Vec<String>)
        ensures
            strings_view(r@) == self.listings_view(),
    {
        &self.listings
    }

    /// The option the error is about (empty for positional arguments).
    pub fn option(&self) -> (r: &str)
        ensures
            r@ == self.option_view(),
    {
        self.option.as_str()
    }

    /// The text of the error.
    pub fn message(&self) -> (r: String)
        ensures
            r@ == self.message_view(),
    {
        self.message.clone()
    }
}

/// The error a refused configuration call reports.
#[derive(Clone, Debug)]
pub struct ConfigError {
    message: String,
}

impl ConfigError {
    pub closed spec fn message_view(&self) -> Seq<char> {
        self.message@
    }

    pub fn new(message: &str) -> (e: Self)
        ensures
            e.message_view() == message@,
    {
        ConfigError { message: String::from_str(message) }
    }

    pub fn from_string(message: String) -> (e: Self)
        ensures
            e.message_view() == message@,
    {
        ConfigError { message }
    }

    /// The text of the error.
    pub fn message(&self) -> (r: String)
        ensures
            r@ == self.message_view(),
    {
        self.message.clone()
    }
}

/// A configuration result as plain values: the normalized text, or the error message.
pub open spec fn config_view(r: Result<String, ConfigError>) -> Result<Seq<char>, Seq<char>> {
    match r {
        Ok(s) => Ok(s@),
        Err(e) => Err(e.message_view()),
    }
}

/// Whether an option with a value must be given one.
#[derive(Clone, Copy, Debug, PartialEq, Eq, Structural)]
pub enum ValueArity {
    Required,
    Optional,
}

/// What an option runs when it is matched.
pub enum BindingAction {
    Flag(Box<dyn FlagHandler>),
    Value(Box<dyn ValueHandler>, ValueArity),
}

pub struct CommandBinding {
    pub action: BindingAction,
    pub description: String,
}

/// A binding as plain values.
pub struct BindingView {
    pub expects_value: bool,
    pub arity: ValueArity,
    pub description: Seq<char>,
}

impl CommandBinding {
    pub open spec fn view(&self) -> BindingView {
        match self.action {
            BindingAction::Flag(_) => BindingView {
                expects_value: false,
                arity: ValueArity::Required,
                description: self.description@,
            },
            BindingAction::Value(_, arity) => BindingView {
                expects_value: true,
                arity,
                description: self.description@,
            },
        }
    }

    pub open spec fn wf(&self) -> bool {
        match self.action {
            BindingAction::Flag(h) => h.callable(),
            BindingAction::Value(h, _) => h.callable(),
        }
    }

    pub fn expects_value(&self) -> (r: bool)
        ensures
            r == self.view().expects_value,
    {
        match &self.action {
            BindingAction::Flag(_) => false,
            BindingAction::Value(_, _) => true,
        }
    }

    pub fn value_arity(&self) -> (r: ValueArity)
        ensures
            r == self.view().arity,
    {
        match &self.action {
            BindingAction::Flag(_) => ValueArity::Required,
            BindingAction::Value(_, arity) => *arity,
        }
    }
}

/// The index of the first entry at or after `i` whose key is `key`.
pub open spec fn find_key<K>(keys: Seq<K>, key: K, i: int) -> Option<int>
    decreases keys.len() - i,
{
    if i < 0 || i >= keys.len() {
        None
    } else if keys[i] == key {
        Some(i)
    } else {
        find_key(keys, key, i + 1)
    }
}

pub proof fn lemma_find_key_none<K>(keys: Seq<K>, key: K, i: int)
    requires
        0 <= i <= keys.len(),
        forall|k: int| i <= k < keys.len() ==> keys[k] != key,
    ensures
        find_key(keys, key, i) is None,
    decreases keys.len() - i,
{
    if i < keys.len() {
        lemma_find_key_none(keys, key, i + 1);
    }
}

pub proof fn lemma_find_key_some<K>(keys: Seq<K>, key: K, i: int)
    requires
        0 <= i,
        find_key(keys, key, i) is Some,
    ensures
        ({
            let j = find_key(keys, key, i)->0;
            &&& i <= j < keys.len()
            &&& keys[j] == key
            &&& forall|k: int| i <= k < j ==> keys[k] != key
        }),
    decreases keys.len() - i,
{
    if i < keys.len() && keys[i] != key {
        lemma_find_key_some(keys, key, i + 1);
    }
}

/// The bindings after setting `key` to `b`: replaced where it occurs, appended otherwise.
pub open spec fn upsert_values<K, V>(keys: Seq<K>, values: Seq<V>, key: K, b: V) -> Seq<V> {
    match find_key(keys, key, 0) {
        Some(i) => values.update(i, b),
        None => values.push(b),
    }
}

/// No key occurs twice.
pub open spec fn unique_keys<K>(keys: Seq<K>) -> bool {
    forall|i: int, j: int| 0 <= i < keys.len() && 0 <= j < keys.len() && i != j ==> keys[i] != keys[j]
}

/// The keys after setting `key`: replaced where it occurs, appended otherwise.
pub open spec fn upsert_keys<K>(keys: Seq<K>, key: K) -> Seq<K> {
    match find_key(keys, key, 0) {
        Some(_) => keys,
        None => keys.push(key),
    }
}

pub struct CommandEntry {
    pub command: String,
    pub binding: CommandBinding,
}

/// Commands in the order they were first registered.
pub struct CommandTable {
    entries: Vec<CommandEntry>,
}

impl CommandTable {
    pub closed spec fn entries_view(&self) -> Seq<CommandEntry> {
        self.entries@
    }

    pub open spec fn keys(&self) -> Seq<Seq<char>> {
        self.entries_view().map_values(|e: CommandEntry| e.command@)
    }

    pub open spec fn bindings(&self) -> Seq<BindingView> {
        self.entries_view().map_values(|e: CommandEntry| e.binding.view())
    }

    pub open spec fn wf(&self) -> bool {
        &&& unique_keys(self.keys())
        &&& forall|i: int| 0 <= i < self.entries_view().len() ==> #[trigger] self.entries_view()[i].binding.wf()
    }

    pub fn new() -> (t: Self)
        ensures
            t.wf(),
            t.entries_view().len() == 0,
    {
        CommandTable { entries: Vec::new() }
    }

    pub fn len(&self) -> (n: usize)
        ensures
            n == self.entries_view().len(),
    {
        self.entries.len()
    }

    /// The entry at position `i` in registration order.
    pub fn entry(&self, i: usize) -> (e: &CommandEntry)
        requires
            i < self.entries_view().len(),
        ensures
            *e == self.entries_view()[i as int],
    {
        &self.entries[i]
    }

    /// The position of `command`, if registered.
    pub fn find(&self, command: &[char]) -> (r: Option<usize>)
        ensures
            r is None <==> find_key(self.keys(), command@, 0) is None,
            r matches Some(i) ==> find_key(self.keys(), command@, 0) == Some(i as int),
            r matches Some(i) ==> i < self.entries_view().len(),
    {
        let mut i: usize = 0;
        while i < self.entries.len()
            invariant
                i <= self.entries@.len(),
                self.keys().len() == self.entries@.len(),
                find_key(self.keys(), command@, 0) == find_key(self.keys(), command@, i as int),
            decreases self.entries@.len() - i,
        {
            let name = crate::text::to_chars(self.entries[i].command.as_str());
            if crate::text::chars_eq(name.as_slice(), command) {
                assert(self.keys()[i as int] == command@);
                return Some(i);
            }
            assert(self.keys()[i as int] != command@);
            i = i + 1;
        }
        None
    }

    /// The binding of `command`, if registered.
    pub fn get(&self, command: &str) -> (r: Option<&CommandBinding>)
        ensures
            match find_key(self.keys(), command@, 0) {
                Some(i) => r == Some(&self.entries_view()[i].binding),
                None => r is None,
            },
    {
        let chars = crate::text::to_chars(command);
        match self.find(chars.as_slice()) {
            Some(i) => {
                assert(find_key(self.keys(), command@, 0) == Some(i as int));
                Some(&self.entries[i].binding)
            },
            None => None,
        }
    }

    /// Sets the binding of `command`: it keeps its place if registered, else comes last.
    pub fn insert_or_replace(&mut self, command: String, binding: CommandBinding)
        requires
            old(self).wf(),
            binding.wf(),
        ensures
            final(self).wf(),
            final(self).keys() == upsert_keys(old(self).keys(), command@),
            final(self).bindings() == upsert_values(old(self).keys(), old(self).bindings(), command@, binding.view()),
            match find_key(old(self).keys(), command@, 0) {
                Some(i) => final(self).entries_view() == old(self).entries_view().update(
                    i,
                    CommandEntry { command, binding },
                ),
                None => final(self).entries_view() == old(self).entries_view().push(
                    CommandEntry { command, binding },
                ),
            },
    {
        let chars = crate::text::to_chars(command.as_str());
        let ghost new_entry = CommandEntry { command, binding };
        let ghost key = command@;
        match self.find(chars.as_slice()) {
            Some(i) => {
                proof {
                    lemma_find_key_some(old(self).keys(), key, 0);
                }
                self.entries.set(i, CommandEntry { command, binding });
                assert(self.entries@ == old(self).entries@.update(i as int, new_entry));
                assert forall|k: int| 0 <= k < self.keys().len() implies self.keys()[k]
                    == old(self).keys()[k] by {
                    if k == i as int {
                        assert(self.entries@[k] == new_entry);
                    } else {
                        assert(self.entries@[k] == old(self).entries@[k]);
                    }
                }
                assert(self.keys() =~= old(self).keys());
                assert(self.bindings() =~= old(self).bindings().update(i as int, new_entry.binding.view()));
            },
            None => {
                proof {
                    lemma_none_means_absent(old(self).keys(), key);
                }
                self.entries.push(CommandEntry { command, binding });
                assert(self.bindings() =~= old(self).bindings().push(new_entry.binding.view()));
                assert(self.entries@ == old(self).entries@.push(new_entry));
                assert(self.keys() =~= old(self).keys().push(key));
                assert forall|k: int| 0 <= k < self.entries@.len() implies #[trigger] self.entries@[k].binding.wf() by {
                    if k < old(self).entries@.len() {
                        assert(self.entries@[k] == old(self).entries@[k]);
                    }
                }
            },
        }
    }

    /// The entries in registration order.
    pub fn iter(&self) -> (r: &[CommandEntry])
        ensures
            r@ == self.entries_view(),
    {
        self.entries.as_slice()
    }
}

pub proof fn lemma_none_means_absent<K>(keys: Seq<K>, key: K)
    requires
        find_key(keys, key, 0) is None,
    ensures
        forall|k: int| 0 <= k < keys.len() ==> keys[k] != key,
{
    assert forall|k: int| 0 <= k < keys.len() implies keys[k] != key by {
        lemma_find_key_none_at(keys, key, 0, k);
    }
}

proof fn lemma_find_key_none_at<K>(keys: Seq<K>, key: K, i: int, k: int)
    requires
        0 <= i <= k < keys.len(),
        find_key(keys, key, i) is None,
    ensures
        keys[k] != key,
    decreases k - i,
{
    if i < k {
        lemma_find_key_none_at(keys, key, i + 1, k);
    }
}

/// An alias such as `-v` that stands for an option such as `--verbose`,
/// optionally with value tokens placed before any that follow it.
pub struct AliasBinding {
    pub alias: String,
    pub target_token: String,
    pub preset_tokens: Vec<String>,
}

pub struct AliasView {
    pub alias: Seq<char>,
    pub target: Seq<char>,
    pub presets: Seq<Seq<char>>,
}

impl AliasBinding {
    pub open spec fn view(&self) -> AliasView {
        AliasView {
            alias: self.alias@,
            target: self.target_token@,
            presets: strings_view(self.preset_tokens@),
        }
    }
}

/// Aliases keyed by their own text, in the order first registered.
pub struct AliasTable {
    entries: Vec<AliasBinding>,
}

impl AliasTable {
    pub closed spec fn entries_view(&self) -> Seq<AliasBinding> {
        self.entries@
    }

    pub open spec fn keys(&self) -> Seq<Seq<char>> {
        self.entries_view().map_values(|a: AliasBinding| a.alias@)
    }

    pub open spec fn views(&self) -> Seq<AliasView> {
        self.entries_view().map_values(|a: AliasBinding| a.view())
    }

    pub open spec fn wf(&self) -> bool {
        unique_keys(self.keys())
    }

    pub fn new() -> (t: Self)
        ensures
            t.wf(),
            t.entries_view().len() == 0,
    {
        AliasTable { entries: Vec::new() }
    }

    pub fn len(&self) -> (n: usize)
        ensures
            n == self.entries_view().len(),
    {
        self.entries.len()
    }

    pub fn entry(&self, i: usize) -> (a: &AliasBinding)
        requires
            i < self.entries_view().len(),
        ensures
            *a == self.entries_view()[i as int],
    {
        &self.entries[i]
    }

    /// The position of `alias`, if registered.
    pub fn find(&self, alias: &[char]) -> (r: Option<usize>)
        ensures
            r is None <==> find_key(self.keys(), alias@, 0) is None,
            r matches Some(i) ==> find_key(self.keys(), alias@, 0) == Some(i as int),
            r matches Some(i) ==> i < self.entries_view().len(),
    {
        let mut i: usize = 0;
        while i < self.entries.len()
            invariant
                i <= self.entries@.len(),
                self.keys().len() == self.entries@.len(),
                find_key(self.keys(), alias@, 0) == find_key(self.keys(), alias@, i as int),
            decreases self.entries@.len() - i,
        {
            let name = crate::text::to_chars(self.entries[i].alias.as_str());
            if crate::text::chars_eq(name.as_slice(), alias) {
                assert(self.keys()[i as int] == alias@);
                return Some(i);
            }
            assert(self.keys()[i as int] != alias@);
            i = i + 1;
        }
        None
    }

    /// The binding of `alias`, if registered.
    pub fn get(&self, alias: &str) -> (r: Option<&AliasBinding>)
        ensures
            match find_key(self.keys(), alias@, 0) {
                Some(i) => r == Some(&self.entries_view()[i]),
                None => r is None,
            },
    {
        let chars = crate::text::to_chars(alias);
        match self.find(chars.as_slice()) {
            Some(i) => Some(&self.entries[i]),
            None => None,
        }
    }

    /// Sets the binding for its alias: it keeps its place if registered, else comes last.
    pub fn insert(&mut self, binding: AliasBinding)
        requires
            old(self).wf(),
        ensures
            final(self).wf(),
            final(self).keys() == upsert_keys(old(self).keys(), binding.alias@),
            final(self).views() == upsert_values(old(self).keys(), old(self).views(), binding.alias@, binding.view()),
            match find_key(old(self).keys(), binding.alias@, 0) {
                Some(i) => final(self).entries_view() == old(self).entries_view().update(i, binding),
                None => final(self).entries_view() == old(self).entries_view().push(binding),
            },
    {
        let chars = crate::text::to_chars(binding.alias.as_str());
        let ghost b = binding;
        match self.find(chars.as_slice()) {
            Some(i) => {
                proof {
                    lemma_find_key_some(old(self).keys(), b.alias@, 0);
                }
                self.entries.set(i, binding);
                assert(self.entries@ == old(self).entries@.update(i as int, b));
                assert forall|k: int| 0 <= k < self.keys().len() implies self.keys()[k]
                    == old(self).keys()[k] by {
                    if k == i as int {
                        assert(self.entries@[k] == b);
                    } else {
                        assert(self.entries@[k] == old(self).entries@[k]);
                    }
                }
                assert(self.keys() =~= old(self).keys());
                assert(self.views() =~= old(self).views().update(i as int, b.view()));
            },
            None => {
                proof {
                    lemma_none_means_absent(old(self).keys(), b.alias@);
                }
                self.entries.push(binding);
                assert(self.keys() =~= old(self).keys().push(b.alias@));
                assert(self.views() =~= old(self).views().push(b.view()));
            },
        }
    }
}

/// An inline option group: `--root`, `--root <value>` and `--root-<command>`.
pub struct InlineParserData {
    pub root_name: String,
    pub root_value_handler: Option<Box<dyn ValueHandler>>,
    pub root_value_placeholder: String,
    pub root_value_description: String,
    pub commands: CommandTable,
}

pub struct InlineView {
    pub root: Seq<char>,
    pub has_root_handler: bool,
    pub placeholder: Seq<char>,
    pub description: Seq<char>,
    pub command_keys: Seq<Seq<char>>,
    pub bindings: Seq<BindingView>,
}

impl InlineParserData {
    pub open spec fn view(&self) -> InlineView {
        InlineView {
            root: self.root_name@,
            has_root_handler: self.root_value_handler is Some,
            placeholder: self.root_value_placeholder@,
            description: self.root_value_description@,
            command_keys: self.commands.keys(),
            bindings: self.commands.bindings(),
        }
    }

    pub open spec fn wf(&self) -> bool {
        &&& self.commands.wf()
        &&& match self.root_value_handler {
            Some(h) => h.callable(),
            None => true,
        }
    }

    pub fn new() -> (d: Self)
        ensures
            d.wf(),
            d.view().root.len() == 0,
            !d.view().has_root_handler,
            d.view().placeholder.len() == 0,
            d.view().description.len() == 0,
            d.view().command_keys.len() == 0,
            d.view().bindings.len() == 0,
    {
        InlineParserData {
            root_name: String::new(),
            root_value_handler: None,
            root_value_placeholder: String::new(),
            root_value_description: String::new(),
            commands: CommandTable::new(),
        }
    }
}

/// Inline parsers keyed by root name, in the order first registered.
pub struct InlineParserTable {
    parsers: Vec<InlineParserData>,
}

impl InlineParserTable {
    pub closed spec fn entries_view(&self) -> Seq<InlineParserData> {
        self.parsers@
    }

    pub open spec fn keys(&self) -> Seq<Seq<char>> {
        self.entries_view().map_values(|p: InlineParserData| p.root_name@)
    }

    pub open spec fn views(&self) -> Seq<InlineView> {
        self.entries_view().map_values(|p: InlineParserData| p.view())
    }

    pub open spec fn wf(&self) -> bool {
        &&& unique_keys(self.keys())
        &&& forall|i: int| 0 <= i < self.entries_view().len() ==> #[trigger] self.entries_view()[i].wf()
    }

    pub fn new() -> (t: Self)
        ensures
            t.wf(),
            t.entries_view().len() == 0,
    {
        InlineParserTable { parsers: Vec::new() }
    }

    pub fn len(&self) -> (n: usize)
        ensures
            n == self.entries_view().len(),
    {
        self.parsers.len()
    }

    pub fn entry(&self, i: usize) -> (p: &InlineParserData)
        requires
            i < self.entries_view().len(),
        ensures
            *p == self.entries_view()[i as int],
    {
        &self.parsers[i]
    }

    /// The position of the parser with root `root`, if registered.
    pub fn find(&self, root: &[char]) -> (r: Option<usize>)
        ensures
            r is None <==> find_key(self.keys(), root@, 0) is None,
            r matches Some(i) ==> find_key(self.keys(), root@, 0) == Some(i as int),
            r matches Some(i) ==> i < self.entries_view().len(),
    {
        let mut i: usize = 0;
        while i < self.parsers.len()
            invariant
                i <= self.parsers@.len(),
                self.keys().len() == self.parsers@.len(),
                find_key(self.keys(), root@, 0) == find_key(self.keys(), root@, i as int),
            decreases self.parsers@.len() - i,
        {
            let name = crate::text::to_chars(self.parsers[i].root_name.as_str());
            if crate::text::chars_eq(name.as_slice(), root) {
                assert(self.keys()[i as int] == root@);
                return Some(i);
            }
            assert(self.keys()[i as int] != root@);
            i = i + 1;
        }
        None
    }

    /// Whether a parser with root `root_name` is registered.
    pub fn contains(&self, root_name: &str) -> (r: bool)
        ensures
            r <==> self.keys().contains(root_name@),
    {
        let chars = crate::text::to_chars(root_name);
        let found = self.find(chars.as_slice());
        proof {
            if found is None {
                lemma_none_means_absent(self.keys(), root_name@);
            } else {
                let i = found->0;
                assert(self.keys()[i as int] == root_name@) by {
                    lemma_find_key_some(self.keys(), root_name@, 0);
                }
            }
        }
        found.is_some()
    }

    /// Sets the parser for its root: it keeps its place if registered, else comes last.
    pub fn insert(&mut self, parser: InlineParserData)
        requires
            old(self).wf(),
            parser.wf(),
        ensures
            final(self).wf(),
            final(self).keys() == upsert_keys(old(self).keys(), parser.root_name@),
            final(self).views() == upsert_values(old(self).keys(), old(self).views(), parser.root_name@, parser.view()),
            match find_key(old(self).keys(), parser.root_name@, 0) {
                Some(i) => final(self).entries_view() == old(self).entries_view().update(i, parser),
                None => final(self).entries_view() == old(self).entries_view().push(parser),
            },
    {
        let chars = crate::text::to_chars(parser.root_name.as_str());
        let ghost p = parser;
        match self.find(chars.as_slice()) {
            Some(i) => {
                proof {
                    lemma_find_key_some(old(self).keys(), p.root_name@, 0);
                }
                self.parsers.set(i, parser);
                assert(self.parsers@ == old(self).parsers@.update(i as int, p));
                assert forall|k: int| 0 <= k < self.keys().len() implies self.keys()[k]
                    == old(self).keys()[k] by {
                    if k == i as int {
                        assert(self.parsers@[k] == p);
                    } else {
                        assert(self.parsers@[k] == old(self).parsers@[k]);
                    }
                }
                assert(self.keys() =~= old(self).keys());
                assert(self.views() =~= old(self).views().update(i as int, p.view()));
                assert forall|k: int| 0 <= k < self.parsers@.len() implies #[trigger] self.parsers@[k].wf() by {
                    if k != i as int {
                        assert(self.parsers@[k] == old(self).parsers@[k]);
                    }
                }
            },
            None => {
                proof {
                    lemma_none_means_absent(old(self).keys(), p.root_name@);
                }
                self.parsers.push(parser);
                assert(self.keys() =~= old(self).keys().push(p.root_name@));
                assert(self.views() =~= old(self).views().push(p.view()));
                assert forall|k: int| 0 <= k < self.parsers@.len() implies #[trigger] self.parsers@[k].wf() by {
                    if k < old(self).parsers@.len() {
                        assert(self.parsers@[k] == old(self).parsers@[k]);
                    }
                }
            },
        }
    }

    /// The parsers in registration order.
    pub fn iter(&self) -> (r: &[InlineParserData])
        ensures
            r@ == self.entries_view(),
    {
        self.parsers.as_slice()
    }
}

/// The whole configuration of a parser.
pub struct ParserData {
    pub positional_handler: Option<Box<dyn FlagHandler>>,
    pub aliases: AliasTable,
    pub commands: CommandTable,
    pub inline_parsers: InlineParserTable,
}

pub struct ParserView {
    pub has_positional: bool,
    pub aliases: Seq<AliasView>,
    pub alias_keys: Seq<Seq<char>>,
    pub command_keys: Seq<Seq<char>>,
    pub bindings: Seq<BindingView>,
    pub inlines: Seq<InlineView>,
}

impl ParserData {
    pub open spec fn view(&self) -> ParserView {
        ParserView {
            has_positional: self.positional_handler is Some,
            aliases: self.aliases.views(),
            alias_keys: self.aliases.keys(),
            command_keys: self.commands.keys(),
            bindings: self.commands.bindings(),
            inlines: self.inline_parsers.views(),
        }
    }

    pub open spec fn wf(&self) -> bool {
        &&& self.aliases.wf()
        &&& self.commands.wf()
        &&& self.inline_parsers.wf()
        &&& match self.positional_handler {
            Some(h) => h.callable(),
            None => true,
        }
    }

    pub fn new() -> (d: Self)
        ensures
            d.wf(),
            !d.view().has_positional,
            d.view().aliases.len() == 0,
            d.view().alias_keys.len() == 0,
            d.view().command_keys.len() == 0,
            d.view().bindings.len() == 0,
            d.view().inlines.len() == 0,
    {
        ParserData {
            positional_handler: None,
            aliases: AliasTable::new(),
            commands: CommandTable::new(),
            inline_parsers: InlineParserTable::new(),
        }
    }
}

} // verus!
