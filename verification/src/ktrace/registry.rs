//! Trace loggers (a namespace and its channels) and the logger that registers them and
//! decides which channels print.
use vstd::prelude::*;
use crate::kcli::model::{find_key, lemma_find_key_none, lemma_find_key_some, lemma_none_means_absent, unique_keys};
use crate::ktrace::format::{build_prefix, is_prefix_for, line_spec, make_line, severity_label, severity_text};
use crate::ktrace::model::{trace_err, OutputOptions, Severity, SourceLocation, TraceError, DEFAULT_COLOR};
use crate::ktrace::model::{Selector, SelectorView};
use crate::ktrace::selectors::{
    channel_path_spec, format_selector_spec, is_identifier, is_selector_identifier,
    is_valid_channel_path, matches_spec, merge_color, merge_color_spec, selector_list_spec,
    selectors_view,
};
use crate::text::{decimal_spec, to_chars, trim_spec};

verus! {

/// The position of the last `c` in `s`.
pub open spec fn last_index_of(s: Seq<char>, c: char) -> Option<int>
    decreases s.len(),
{
    if s.len() == 0 {
        None
    } else if s.last() == c {
        Some(s.len() - 1)
    } else {
        last_index_of(s.drop_last(), c)
    }
}

/// The channel a dotted channel hangs under: everything before its last `.`.
pub open spec fn parent_of(channel: Seq<char>) -> Option<Seq<char>> {
    match last_index_of(channel, '.') {
        Some(i) => Some(channel.take(i)),
        None => None,
    }
}

proof fn lemma_last_index_bounds(s: Seq<char>, c: char)
    ensures
        last_index_of(s, c) matches Some(i) ==> 0 <= i < s.len() && s[i] == c,
    decreases s.len(),
{
    if s.len() > 0 && s.last() != c {
        lemma_last_index_bounds(s.drop_last(), c);
    }
}

#[verifier::rlimit(30)]
pub fn parent_channel(channel: &Vec<char>) -> (r: Option<String>)
    ensures
        match parent_of(channel@) {
            Some(p) => r matches Some(s) && s@ == p,
            None => r is None,
        },
{
    let mut i: usize = channel.len();
    assert(channel@.take(i as int) =~= channel@);
    while i > 0 && channel[i - 1] != '.'
        invariant
            i <= channel@.len(),
            last_index_of(channel@, '.') == last_index_of(channel@.take(i as int), '.'),
        decreases i,
    {
        proof {
            assert(channel@.take(i as int).drop_last() =~= channel@.take(i as int - 1));
        }
        i = i - 1;
    }
    proof {
        assert(channel@.take(channel@.len() as int) =~= channel@);
    }
    if i == 0 {
        assert(channel@.take(0) =~= Seq::<char>::empty());
        return None;
    }
    assert(last_index_of(channel@.take(i as int), '.') == Some(i - 1));
    let p = crate::text::string_of(channel.as_slice(), 0, i - 1);
    assert(p@ =~= channel@.take(i - 1));
    Some(p)
}

/// A channel a trace logger declares, and its color.
#[derive(Clone)]
pub struct ChannelSpec {
    pub name: String,
    pub color: u16,
}

/// A namespace with its channels, to be registered with a `Logger`.
///
/// A trace logger is one value, not a handle: it cannot be cloned, and the logger it joins
/// and the keys its call sites last traced live in it alone.
pub struct TraceLogger {
    trace_namespace: String,
    channels: Vec<ChannelSpec>,
    changed_keys: Vec<(String, String)>,
    attached_to: Option<u64>,
}

pub open spec fn channel_specs_view(v: Seq<ChannelSpec>) -> Seq<(Seq<char>, u16)> {
    v.map_values(|c: ChannelSpec| (c.name@, c.color))
}

pub open spec fn pair_keys(v: Seq<(String, String)>) -> Seq<Seq<char>> {
    v.map_values(|p: (String, String)| p.0@)
}

/// The last key recorded for each call site of `trace_changed_with_location`.
pub open spec fn changed_map(v: Seq<(String, String)>) -> Map<Seq<char>, Seq<char>> {
    Map::new(
        |k: Seq<char>| pair_keys(v).contains(k),
        |k: Seq<char>| v[find_key(pair_keys(v), k, 0)->0].1@,
    )
}

impl TraceLogger {
    #[verifier::type_invariant]
    spec fn inv(&self) -> bool {
        &&& is_identifier(self.trace_namespace@)
        &&& unique_keys(channel_specs_view(self.channels@).map_values(|c: (Seq<char>, u16)| c.0))
        &&& unique_keys(pair_keys(self.changed_keys@))
    }

    /// The namespace.
    pub closed spec fn namespace_view(&self) -> Seq<char> {
        self.trace_namespace@
    }

    /// The declared channels and their colors, in the order declared.
    pub closed spec fn channels_view(&self) -> Seq<(Seq<char>, u16)> {
        channel_specs_view(self.channels@)
    }

    /// The last key seen at each call site.
    pub closed spec fn changed_view(&self) -> Map<Seq<char>, Seq<char>> {
        changed_map(self.changed_keys@)
    }

    /// The identity of the logger this trace logger joined, if it joined one.
    pub closed spec fn attached_view(&self) -> Option<u64> {
        self.attached_to
    }

    /// What this trace logger's lines see of `logger`: the logger itself when this trace
    /// logger joined it, else a logger that lists, registers and enables nothing.
    pub open spec fn sees(&self, logger: &Logger) -> LoggerView {
        if self.attached_view() == Some(logger.id_view()) {
            logger.view()
        } else {
            LoggerView {
                enabled: Set::empty(),
                namespaces: Set::empty(),
                channels: Map::empty(),
                options: logger.view().options,
            }
        }
    }

    /// Whether this trace logger joined `logger`.
    fn is_attached_to(&self, logger: &Logger) -> (r: bool)
        ensures
            r == (self.attached_view() == Some(logger.id_view())),
    {
        match self.attached_to {
            Some(id) => id == logger.id,
            None => false,
        }
    }

    /// A trace logger for `trace_namespace` (surrounding white space ignored).
    pub fn new(trace_namespace: &str) -> (r: Result<Self, TraceError>)
        ensures
            is_identifier(trim_spec(trace_namespace@)) ==> (r matches Ok(t) && t.namespace_view()
                == trim_spec(trace_namespace@) && t.channels_view().len() == 0
                && t.changed_view().dom().len() == 0 && t.attached_view() is None),
            !is_identifier(trim_spec(trace_namespace@)) ==> trace_err(
                r,
                "invalid trace namespace '"@ + trim_spec(trace_namespace@) + "'"@,
            ),
    {
        let name = crate::text::trim_str(trace_namespace);
        if !is_selector_identifier(name.as_str()) {
            return Err(
                TraceError::from_string(crate::text::concat3("invalid trace namespace '", name.as_str(), "'")),
            );
        }
        let t = TraceLogger { trace_namespace: name, channels: Vec::new(), changed_keys: Vec::new(), attached_to: None };
        assert(t.changed_view().dom() =~= Set::<Seq<char>>::empty());
        assert(channel_specs_view(t.channels@) =~= Seq::<(Seq<char>, u16)>::empty());
        Ok(t)
    }

    /// The namespace.
    pub fn namespace(&self) -> (r: &str)
        ensures
            r@ == self.namespace_view(),
            crate::ktrace::selectors::is_identifier(r@),
    {
        proof {
            use_type_invariant(self);
        }
        self.trace_namespace.as_str()
    }

    /// Declares `channel` (surrounding white space ignored) with `color`; see `add_channel_spec`.
    pub fn add_channel(&mut self, channel: &str, color: u16) -> (r: Result<(), TraceError>)
        ensures
            final(self).namespace_view() == old(self).namespace_view(),
            final(self).changed_view() == old(self).changed_view(),
            final(self).attached_view() == old(self).attached_view(),
            match add_channel_spec(old(self).namespace_view(), old(self).channels_view(), channel@, color) {
                Ok(cs) => r is Ok && final(self).channels_view() == cs,
                Err(m) => trace_err(r, m) && final(self).channels_view() == old(self).channels_view(),
            },
    {
        proof {
            use_type_invariant(&*self);
        }
        let name = crate::text::trim_str(channel);
        if !is_valid_channel_path(name.as_str()) {
            return Err(TraceError::from_string(crate::text::concat3("invalid trace channel '", name.as_str(), "'")));
        }
        if color != DEFAULT_COLOR && color > 255 {
            let digits = crate::text::decimal(color as u64);
            return Err(TraceError::from_string(crate::text::concat3("invalid trace color id '", digits.as_str(), "'")));
        }
        let ghost names = channel_names(self.channels_view());
        let name_chars = to_chars(name.as_str());
        match parent_channel(&name_chars) {
            Some(parent) => {
                if self.find_channel(parent.as_str()).is_none() {
                    proof {
                        lemma_none_means_absent(names, parent@);
                    }
                    let mut m = crate::text::concat3("cannot add unparented trace channel '", name.as_str(), "' (missing parent '");
                    m.append(parent.as_str());
                    m.append("')");
                    return Err(TraceError::from_string(m));
                }
                proof {
                    let k = find_key(names, parent@, 0)->0;
                    lemma_find_key_some(names, parent@, 0);
                    assert(names[k] == parent@);
                }
            },
            None => {},
        }
        match self.find_channel(name.as_str()) {
            Some(i) => {
                let qualified = crate::text::concat3(self.trace_namespace.as_str(), ".", name.as_str());
                let merged = match merge_color(self.channels[i].color, color, qualified.as_str()) {
                    Ok(c) => c,
                    Err(e) => {
                        return Err(e);
                    },
                };
                let ghost before = self.channels@;
                let spec = ChannelSpec { name, color: merged };
                proof {
                    lemma_find_key_some(names, name@, 0);
                }
                self.set_channel(i, spec);
                assert(channel_specs_view(self.channels@) =~= channel_specs_view(before).update(i as int, (name@, merged)));
                Ok(())
            },
            None => {
                let ghost before = self.channels@;
                proof {
                    lemma_none_means_absent(names, name@);
                }
                self.push_channel(ChannelSpec { name, color });
                assert(channel_specs_view(self.channels@) =~= channel_specs_view(before).push((name@, color)));
                Ok(())
            },
        }
    }

    /// The position of the channel named `name`.
    fn find_channel(&self, name: &str) -> (r: Option<usize>)
        ensures
            r is None <==> find_key(channel_names(self.channels_view()), name@, 0) is None,
            r matches Some(i) ==> find_key(channel_names(self.channels_view()), name@, 0) == Some(i as int)
                && i < self.channels_view().len(),
    {
        let ghost names = channel_names(self.channels_view());
        let mut i: usize = 0;
        while i < self.channels.len()
            invariant
                names == channel_names(channel_specs_view(self.channels@)),
                i <= self.channels@.len(),
                find_key(names, name@, 0) == find_key(names, name@, i as int),
            decreases self.channels@.len() - i,
        {
            assert(names[i as int] == self.channels@[i as int].name@);
            if crate::text::str_eq(self.channels[i].name.as_str(), name) {
                return Some(i);
            }
            i = i + 1;
        }
        None
    }

    fn set_channel(&mut self, i: usize, spec: ChannelSpec)
        requires
            i < old(self).channels_view().len(),
            channel_names(old(self).channels_view())[i as int] == spec.name@,
        ensures
            final(self).channels@ == old(self).channels@.update(i as int, spec),
            final(self).trace_namespace == old(self).trace_namespace,
            final(self).changed_keys == old(self).changed_keys,
            final(self).attached_to == old(self).attached_to,
    {
        proof {
            use_type_invariant(&*self);
        }
        let ghost before = self.channels@;
        let mut channels: Vec<ChannelSpec> = Vec::new();
        std::mem::swap(&mut channels, &mut self.channels);
        channels.set(i, spec);
        assert(channel_names(channel_specs_view(channels@)) =~= channel_names(channel_specs_view(before)));
        self.channels = channels;
    }

    fn push_channel(&mut self, spec: ChannelSpec)
        requires
            !channel_names(old(self).channels_view()).contains(spec.name@),
        ensures
            final(self).channels@ == old(self).channels@.push(spec),
            final(self).trace_namespace == old(self).trace_namespace,
            final(self).changed_keys == old(self).changed_keys,
            final(self).attached_to == old(self).attached_to,
    {
        proof {
            use_type_invariant(&*self);
        }
        let ghost before = self.channels@;
        let mut channels: Vec<ChannelSpec> = Vec::new();
        std::mem::swap(&mut channels, &mut self.channels);
        channels.push(spec);
        proof {
            let n = channel_names(channel_specs_view(channels@));
            let b = channel_names(channel_specs_view(before));
            assert(n =~= b.push(spec.name@));
            assert forall|x: int, y: int| 0 <= x < n.len() && 0 <= y < n.len() && x != y implies n[x] != n[y] by {
                if x == b.len() {
                    assert(n[y] == b[y]);
                } else if y == b.len() {
                    assert(n[x] == b[x]);
                }
            }
        }
        self.channels = channels;
    }
}

/// The names of declared channels.
pub open spec fn channel_names(cs: Seq<(Seq<char>, u16)>) -> Seq<Seq<char>> {
    cs.map_values(|c: (Seq<char>, u16)| c.0)
}

/// The channels after declaring `channel` with `color`, or why it is refused: a bad name, a
/// bad color, a missing parent, or a color that conflicts with the one already declared.
pub open spec fn add_channel_spec(
    trace_namespace: Seq<char>,
    cs: Seq<(Seq<char>, u16)>,
    channel: Seq<char>,
    color: u16,
) -> Result<Seq<(Seq<char>, u16)>, Seq<char>> {
    let name = trim_spec(channel);
    if channel_path_spec(name) is None {
        Err("invalid trace channel '"@ + name + "'"@)
    } else if color != DEFAULT_COLOR && color > 255 {
        Err("invalid trace color id '"@ + decimal_spec(color as nat) + "'"@)
    } else {
        let missing_parent = match parent_of(name) {
            Some(p) => !channel_names(cs).contains(p),
            None => false,
        };
        if missing_parent {
            Err("cannot add unparented trace channel '"@ + name + "' (missing parent '"@
                + parent_of(name)->0 + "')"@)
        } else {
            match find_key(channel_names(cs), name, 0) {
                Some(i) => match merge_color_spec(cs[i].1, color, trace_namespace + "."@ + name) {
                    Ok(c) => Ok(cs.update(i, (name, c))),
                    Err(m) => Err(m),
                },
                None => Ok(cs.push((name, color))),
            }
        }
    }
}

/// A registered channel of a namespace, and the color it was given (`DEFAULT_COLOR` if none).
pub struct ChannelEntry {
    pub namespace: String,
    pub channel: String,
    pub color: u16,
}

pub open spec fn entry_keys(v: Seq<ChannelEntry>) -> Seq<(Seq<char>, Seq<char>)> {
    v.map_values(|e: ChannelEntry| (e.namespace@, e.channel@))
}

/// Registered `(namespace, channel)` pairs and their colors.
pub open spec fn entries_map(v: Seq<ChannelEntry>) -> Map<(Seq<char>, Seq<char>), u16> {
    Map::new(
        |k: (Seq<char>, Seq<char>)| entry_keys(v).contains(k),
        |k: (Seq<char>, Seq<char>)| v[find_key(entry_keys(v), k, 0)->0].color,
    )
}

/// With keys that occur once, the position of a key is where the map looks.
pub proof fn lemma_unique_find<K>(keys: Seq<K>, i: int)
    requires
        unique_keys(keys),
        0 <= i < keys.len(),
    ensures
        find_key(keys, keys[i], 0) == Some(i),
{
    lemma_find_key_none_or_some(keys, keys[i]);
    if find_key(keys, keys[i], 0) is None {
        lemma_none_means_absent(keys, keys[i]);
    } else {
        lemma_find_key_some(keys, keys[i], 0);
    }
}

proof fn lemma_find_key_none_or_some<K>(keys: Seq<K>, key: K)
    ensures
        find_key(keys, key, 0) is None || find_key(keys, key, 0) is Some,
{
}

proof fn lemma_entries_map_at(v: Seq<ChannelEntry>, i: int)
    requires
        unique_keys(entry_keys(v)),
        0 <= i < v.len(),
    ensures
        entries_map(v).dom().contains((v[i].namespace@, v[i].channel@)),
        entries_map(v)[(v[i].namespace@, v[i].channel@)] == v[i].color,
{
    let keys = entry_keys(v);
    assert(keys[i] == (v[i].namespace@, v[i].channel@));
    lemma_unique_find(keys, i);
}

/// What a `Logger` holds, as plain values.
pub struct LoggerView {
    /// Enabled channels, as `namespace.channel`.
    pub enabled: Set<Seq<char>>,
    pub options: OutputOptions,
    /// Namespaces of every trace logger added.
    pub namespaces: Set<Seq<char>>,
    /// Registered channels and their colors.
    pub channels: Map<(Seq<char>, Seq<char>), u16>,
}

/// The channel is registered (and both names are well formed).
pub open spec fn registered_spec(v: LoggerView, trace_namespace: Seq<char>, channel: Seq<char>) -> bool {
    &&& is_identifier(trace_namespace)
    &&& channel_path_spec(channel) is Some
    &&& v.channels.dom().contains((trace_namespace, channel))
}

/// The channel is registered and enabled: its lines print.
pub open spec fn enabled_spec(v: LoggerView, trace_namespace: Seq<char>, channel: Seq<char>) -> bool {
    registered_spec(v, trace_namespace, channel) && v.enabled.contains(
        crate::ktrace::selectors::qualified_key_spec(trace_namespace, channel),
    )
}

/// Registering one channel of `trace_namespace` into `m`.
pub open spec fn register_step(
    m: Map<(Seq<char>, Seq<char>), u16>,
    trace_namespace: Seq<char>,
    c: (Seq<char>, u16),
) -> Result<Map<(Seq<char>, Seq<char>), u16>, Seq<char>> {
    let missing_parent = match parent_of(c.0) {
        Some(p) => !m.dom().contains((trace_namespace, p)),
        None => false,
    };
    if missing_parent {
        Err("cannot register unparented trace channel '"@ + c.0 + "' (missing parent '"@
            + parent_of(c.0)->0 + "')"@)
    } else {
        let existing = if m.dom().contains((trace_namespace, c.0)) {
            m[(trace_namespace, c.0)]
        } else {
            DEFAULT_COLOR
        };
        match merge_color_spec(existing, c.1, trace_namespace + "."@ + c.0) {
            Ok(color) => Ok(m.insert((trace_namespace, c.0), color)),
            Err(e) => Err(e),
        }
    }
}

/// Registering the channels `cs` of `trace_namespace` in order, stopping at the first refusal.
pub open spec fn register_all(
    m: Map<(Seq<char>, Seq<char>), u16>,
    trace_namespace: Seq<char>,
    cs: Seq<(Seq<char>, u16)>,
) -> Result<Map<(Seq<char>, Seq<char>), u16>, Seq<char>>
    decreases cs.len(),
{
    if cs.len() == 0 {
        Ok(m)
    } else {
        match register_all(m, trace_namespace, cs.drop_last()) {
            Ok(m2) => register_step(m2, trace_namespace, cs.last()),
            Err(e) => Err(e),
        }
    }
}

/// `m` without the channels of `trace_namespace`.
pub open spec fn without_namespace(m: Map<(Seq<char>, Seq<char>), u16>, trace_namespace: Seq<char>) -> Map<
    (Seq<char>, Seq<char>),
    u16,
> {
    m.restrict(m.dom().filter(|k: (Seq<char>, Seq<char>)| k.0 != trace_namespace))
}

/// The options as the logger keeps them: line numbers and function names only with file names.
pub open spec fn normalized_options(o: OutputOptions) -> OutputOptions {
    OutputOptions {
        filenames: o.filenames,
        line_numbers: o.filenames && o.line_numbers,
        function_names: o.filenames && o.function_names,
        timestamps: o.timestamps,
    }
}

/// Registers trace loggers and decides which of their channels print.
pub struct Logger {
    id: u64,
    enabled: Vec<String>,
    options: OutputOptions,
    namespaces: Vec<String>,
    channels: Vec<ChannelEntry>,
}

impl Logger {
    #[verifier::type_invariant]
    spec fn inv(&self) -> bool {
        &&& unique_keys(crate::kcli::model::strings_view(self.enabled@))
        &&& unique_keys(crate::kcli::model::strings_view(self.namespaces@))
        &&& unique_keys(entry_keys(self.channels@))
        &&& forall|k: int| 0 <= k < self.namespaces@.len() ==> is_identifier(#[trigger] self.namespaces@[k]@)
    }

    /// The identity that tells this logger from every other.
    pub closed spec fn id_view(&self) -> u64 {
        self.id
    }

    pub closed spec fn view(&self) -> LoggerView {
        LoggerView {
            enabled: crate::kcli::model::strings_view(self.enabled@).to_set(),
            options: self.options,
            namespaces: crate::kcli::model::strings_view(self.namespaces@).to_set(),
            channels: entries_map(self.channels@),
        }
    }

    /// A logger with nothing registered, nothing enabled and no extra output.
    ///
    /// Its identity (`id_view`), by which trace loggers that joined it are told apart from
    /// those that joined another logger, is drawn at random: nothing is promised of its value.
    pub fn new() -> (r: Self)
        ensures
            r.view().enabled == Set::<Seq<char>>::empty(),
            r.view().namespaces == Set::<Seq<char>>::empty(),
            r.view().channels == Map::<(Seq<char>, Seq<char>), u16>::empty(),
            r.view().options == (OutputOptions {
                filenames: false,
                line_numbers: false,
                function_names: false,
                timestamps: false,
            }),
    {
        let r = Logger {
            id: crate::ktrace::identity::fresh_identity(),
            enabled: Vec::new(),
            options: OutputOptions {
                filenames: false,
                line_numbers: false,
                function_names: false,
                timestamps: false,
            },
            namespaces: Vec::new(),
            channels: Vec::new(),
        };
        assert(r.view().enabled =~= Set::<Seq<char>>::empty());
        assert(r.view().namespaces =~= Set::<Seq<char>>::empty());
        assert(r.view().channels =~= Map::<(Seq<char>, Seq<char>), u16>::empty());
        r
    }

    /// The position of the entry for `(trace_namespace, channel)`.
    fn find_entry(&self, trace_namespace: &str, channel: &str) -> (r: Option<usize>)
        ensures
            r is None <==> !self.view().channels.dom().contains((trace_namespace@, channel@)),
            r matches Some(i) ==> i < self.channels@.len() && self.channels@[i as int].namespace@
                == trace_namespace@ && self.channels@[i as int].channel@ == channel@
                && self.view().channels[(trace_namespace@, channel@)] == self.channels@[i as int].color,
    {
        proof {
            use_type_invariant(self);
        }
        let ghost keys = entry_keys(self.channels@);
        let mut i: usize = 0;
        while i < self.channels.len()
            invariant
                keys == entry_keys(self.channels@),
                unique_keys(keys),
                i <= self.channels@.len(),
                forall|k: int| 0 <= k < i ==> keys[k] != (trace_namespace@, channel@),
            decreases self.channels@.len() - i,
        {
            let e = &self.channels[i];
            if crate::text::str_eq(e.namespace.as_str(), trace_namespace) && crate::text::str_eq(
                e.channel.as_str(),
                channel,
            ) {
                proof {
                    lemma_entries_map_at(self.channels@, i as int);
                }
                return Some(i);
            }
            i = i + 1;
        }
        None
    }

    /// Whether `(trace_namespace, channel)` is registered; see `registered_spec`.
    pub fn is_registered_trace_channel(&self, trace_namespace: &str, channel: &str) -> (r: bool)
        ensures
            r == registered_spec(self.view(), trace_namespace@, channel@),
    {
        if !is_selector_identifier(trace_namespace) || !is_valid_channel_path(channel) {
            return false;
        }
        self.find_entry(trace_namespace, channel).is_some()
    }

    /// Whether lines of `(trace_namespace, channel)` print; see `enabled_spec`.
    pub fn is_trace_channel_enabled(&self, trace_namespace: &str, channel: &str) -> (r: bool)
        ensures
            r == enabled_spec(self.view(), trace_namespace@, channel@),
    {
        if !self.is_registered_trace_channel(trace_namespace, channel) {
            return false;
        }
        let key = crate::ktrace::selectors::make_qualified_channel_key(trace_namespace, channel);
        self.is_key_enabled(key.as_str())
    }

    fn is_key_enabled(&self, key: &str) -> (r: bool)
        ensures
            r == self.view().enabled.contains(key@),
    {
        let ghost keys = crate::kcli::model::strings_view(self.enabled@);
        let mut i: usize = 0;
        while i < self.enabled.len()
            invariant
                keys == crate::kcli::model::strings_view(self.enabled@),
                i <= self.enabled@.len(),
                forall|k: int| 0 <= k < i ==> keys[k] != key@,
            decreases self.enabled@.len() - i,
        {
            if crate::text::str_eq(self.enabled[i].as_str(), key) {
                assert(keys[i as int] == key@);
                return true;
            }
            i = i + 1;
        }
        false
    }

    /// Sets what trace lines show; line numbers and function names need file names.
    pub fn set_output_options(&mut self, options: OutputOptions) -> (r: Result<(), TraceError>)
        ensures
            final(self).id_view() == old(self).id_view(),
            r is Ok,
            final(self).view() == (LoggerView { options: normalized_options(options), ..old(self).view() }),
    {
        proof {
            use_type_invariant(&*self);
        }
        self.options = OutputOptions {
            filenames: options.filenames,
            line_numbers: options.filenames && options.line_numbers,
            function_names: options.filenames && options.function_names,
            timestamps: options.timestamps,
        };
        Ok(())
    }

    /// What trace lines show.
    pub fn get_output_options(&self) -> (r: Result<OutputOptions, TraceError>)
        ensures
            r == Ok::<OutputOptions, TraceError>(self.view().options),
    {
        Ok(self.options)
    }
}

/// The position of the entry for `(trace_namespace, channel)` in `v`.
fn entries_find(v: &Vec<ChannelEntry>, trace_namespace: &str, channel: &str) -> (r: Option<usize>)
    requires
        unique_keys(entry_keys(v@)),
    ensures
        r is None <==> !entries_map(v@).dom().contains((trace_namespace@, channel@)),
        r matches Some(i) ==> i < v@.len() && v@[i as int].namespace@ == trace_namespace@
            && v@[i as int].channel@ == channel@ && entries_map(v@)[(trace_namespace@, channel@)]
            == v@[i as int].color,
{
    let ghost keys = entry_keys(v@);
    let mut i: usize = 0;
    while i < v.len()
        invariant
            keys == entry_keys(v@),
            unique_keys(keys),
            i <= v@.len(),
            forall|k: int| 0 <= k < i ==> keys[k] != (trace_namespace@, channel@),
        decreases v@.len() - i,
    {
        let e = &v[i];
        if crate::text::str_eq(e.namespace.as_str(), trace_namespace) && crate::text::str_eq(
            e.channel.as_str(),
            channel,
        ) {
            proof {
                lemma_entries_map_at(v@, i as int);
            }
            return Some(i);
        }
        i = i + 1;
    }
    None
}

/// Gives the entry at `i` the color `color`.
fn entries_set_color(v: &mut Vec<ChannelEntry>, i: usize, color: u16)
    requires
        unique_keys(entry_keys(old(v)@)),
        i < old(v)@.len(),
    ensures
        unique_keys(entry_keys(final(v)@)),
        entries_map(final(v)@) == entries_map(old(v)@).insert(
            (old(v)@[i as int].namespace@, old(v)@[i as int].channel@),
            color,
        ),
{
    let ghost before = v@;
    let ghost k = (before[i as int].namespace@, before[i as int].channel@);
    let e = ChannelEntry {
        namespace: v[i].namespace.clone(),
        channel: v[i].channel.clone(),
        color,
    };
    v.set(i, e);
    proof {
        lemma_entries_map_at(before, i as int);
        assert(entry_keys(v@) =~= entry_keys(before));
        let target = entries_map(before).insert(k, color);
        assert forall|key: (Seq<char>, Seq<char>)| entries_map(v@).dom().contains(key) implies target.dom().contains(key) by {}
        assert forall|key: (Seq<char>, Seq<char>)| target.dom().contains(key) implies entries_map(v@).dom().contains(key) by {
            if key == k {
                assert(entry_keys(v@)[i as int] == k);
            }
        }
        assert forall|key: (Seq<char>, Seq<char>)| entries_map(v@).dom().contains(key) implies #[trigger] entries_map(v@)[key] == target[key] by {
            let j = choose|j: int| 0 <= j < v@.len() && entry_keys(v@)[j] == key;
            lemma_entries_map_at(v@, j);
            lemma_entries_map_at(before, j);
            if j != i as int {
                assert(v@[j] == before[j]);
                assert(entry_keys(before)[j] != entry_keys(before)[i as int]);
            }
        }
        assert(entries_map(v@) =~= target);
    }
}

/// Adds an entry whose pair is not registered yet.
fn entries_push(v: &mut Vec<ChannelEntry>, e: ChannelEntry)
    requires
        unique_keys(entry_keys(old(v)@)),
        !entries_map(old(v)@).dom().contains((e.namespace@, e.channel@)),
    ensures
        unique_keys(entry_keys(final(v)@)),
        entries_map(final(v)@) == entries_map(old(v)@).insert((e.namespace@, e.channel@), e.color),
{
    let ghost before = v@;
    let ghost k = (e.namespace@, e.channel@);
    let ghost c = e.color;
    v.push(e);
    proof {
        let nk = entry_keys(v@);
        let bk = entry_keys(before);
        assert(nk =~= bk.push(k));
        assert forall|x: int, y: int| 0 <= x < nk.len() && 0 <= y < nk.len() && x != y implies nk[x] != nk[y] by {
            if x == bk.len() {
                assert(nk[y] == bk[y]);
            } else if y == bk.len() {
                assert(nk[x] == bk[x]);
            }
        }
        let target = entries_map(before).insert(k, c);
        assert forall|key: (Seq<char>, Seq<char>)| entries_map(v@).dom().contains(key) implies target.dom().contains(key) by {
            let j = choose|j: int| 0 <= j < nk.len() && nk[j] == key;
            if j < bk.len() {
                assert(bk[j] == key);
            }
        }
        assert forall|key: (Seq<char>, Seq<char>)| target.dom().contains(key) implies entries_map(v@).dom().contains(key) by {
            if key == k {
                assert(nk[bk.len() as int] == k);
            } else {
                let j = choose|j: int| 0 <= j < bk.len() && bk[j] == key;
                assert(nk[j] == key);
            }
        }
        assert forall|key: (Seq<char>, Seq<char>)| entries_map(v@).dom().contains(key) implies #[trigger] entries_map(v@)[key] == target[key] by {
            let j = choose|j: int| 0 <= j < v@.len() && nk[j] == key;
            lemma_entries_map_at(v@, j);
            if j < bk.len() {
                lemma_entries_map_at(before, j);
                assert(v@[j] == before[j]);
            }
        }
        assert(entries_map(v@) =~= entries_map(before).insert(k, c));
    }
}

/// The entries of `v` outside `trace_namespace`.
fn entries_without_namespace(v: &Vec<ChannelEntry>, trace_namespace: &str) -> (r: Vec<ChannelEntry>)
    requires
        unique_keys(entry_keys(v@)),
    ensures
        unique_keys(entry_keys(r@)),
        entries_map(r@) == without_namespace(entries_map(v@), trace_namespace@),
{
    let mut r: Vec<ChannelEntry> = Vec::new();
    let mut i: usize = 0;
    let ghost vm = entries_map(v@);
    let ghost target = without_namespace(vm, trace_namespace@);
    assert(entries_map(r@).dom() =~= Set::<(Seq<char>, Seq<char>)>::empty());
    while i < v.len()
        invariant
            unique_keys(entry_keys(v@)),
            vm == entries_map(v@),
            i <= v@.len(),
            unique_keys(entry_keys(r@)),
            forall|key: (Seq<char>, Seq<char>)| #[trigger] entries_map(r@).dom().contains(key) <==> (
                key.0 != trace_namespace@ && exists|j: int| 0 <= j < i && entry_keys(v@)[j] == key),
            forall|key: (Seq<char>, Seq<char>)| #[trigger] entries_map(r@).dom().contains(key) ==> entries_map(r@)[key]
                == vm[key],
        decreases v@.len() - i,
    {
        let ghost before = entries_map(r@);
        let ghost ki = entry_keys(v@)[i as int];
        proof {
            lemma_entries_map_at(v@, i as int);
        }
        if !crate::text::str_eq(v[i].namespace.as_str(), trace_namespace) {
            let e = ChannelEntry {
                namespace: v[i].namespace.clone(),
                channel: v[i].channel.clone(),
                color: v[i].color,
            };
            proof {
                if before.dom().contains(ki) {
                    let j = choose|j: int| 0 <= j < i && entry_keys(v@)[j] == ki;
                    assert(entry_keys(v@)[j] == entry_keys(v@)[i as int]);
                }
            }
            entries_push(&mut r, e);
            proof {
                assert forall|key: (Seq<char>, Seq<char>)| #[trigger] entries_map(r@).dom().contains(key) <==> (
                    key.0 != trace_namespace@ && exists|j: int| 0 <= j < i + 1 && entry_keys(v@)[j] == key) by {
                    if key != ki && key.0 != trace_namespace@ && exists|j: int| 0 <= j < i + 1 && entry_keys(v@)[j] == key {
                        let j = choose|j: int| 0 <= j < i + 1 && entry_keys(v@)[j] == key;
                        assert(j < i);
                    }
                }
            }
        } else {
            proof {
                assert forall|key: (Seq<char>, Seq<char>)| #[trigger] entries_map(r@).dom().contains(key) <==> (
                    key.0 != trace_namespace@ && exists|j: int| 0 <= j < i + 1 && entry_keys(v@)[j] == key) by {
                    if key.0 != trace_namespace@ && exists|j: int| 0 <= j < i + 1 && entry_keys(v@)[j] == key {
                        let j = choose|j: int| 0 <= j < i + 1 && entry_keys(v@)[j] == key;
                        assert(j < i);
                    }
                }
            }
        }
        i = i + 1;
    }
    proof {
        assert forall|key: (Seq<char>, Seq<char>)| entries_map(r@).dom().contains(key) <==> target.dom().contains(key) by {
            if target.dom().contains(key) {
                let j = choose|j: int| 0 <= j < v@.len() && entry_keys(v@)[j] == key;
                assert(j < i);
            }
        }
        assert(entries_map(r@) =~= target);
    }
    r
}

/// `attached` names a logger other than the one with identity `id`.
pub open spec fn attached_elsewhere(attached: Option<u64>, id: u64) -> bool {
    attached is Some && attached != Some(id)
}

/// Registering `trace_namespace` with its channels `cs`: the namespace is listed, the channels
/// register by `register_all`, or on a refusal the namespace's channels are dropped.
pub open spec fn register_effect(
    old: LoggerView,
    new: LoggerView,
    trace_namespace: Seq<char>,
    cs: Seq<(Seq<char>, u16)>,
    r: Result<(), TraceError>,
) -> bool {
    &&& new.enabled == old.enabled
    &&& new.options == old.options
    &&& new.namespaces == old.namespaces.insert(trace_namespace)
    &&& match register_all(old.channels, trace_namespace, cs) {
        Ok(m) => r is Ok && new.channels == m,
        Err(e) => trace_err(r, e) && new.channels == without_namespace(old.channels, trace_namespace),
    }
}

/// Whether `s` is one of the strings of `v`.
fn has_string(v: &Vec<String>, s: &str) -> (r: bool)
    ensures
        r == crate::kcli::model::strings_view(v@).contains(s@),
{
    let ghost u = crate::kcli::model::strings_view(v@);
    let mut q: usize = 0;
    while q < v.len()
        invariant
            u == crate::kcli::model::strings_view(v@),
            q <= v@.len(),
            forall|z: int| 0 <= z < q ==> u[z] != s@,
        decreases v@.len() - q,
    {
        assert(u[q as int] == v@[q as int]@);
        if crate::text::str_eq(v[q].as_str(), s) {
            return true;
        }
        q = q + 1;
    }
    false
}

/// A failed registration somewhere in `cs` stays failed.
proof fn lemma_register_all_err(m: Map<(Seq<char>, Seq<char>), u16>, ns: Seq<char>, cs: Seq<(Seq<char>, u16)>, i: int)
    requires
        0 <= i <= cs.len(),
        register_all(m, ns, cs.take(i)) is Err,
    ensures
        register_all(m, ns, cs) == register_all(m, ns, cs.take(i)),
    decreases cs.len() - i,
{
    if i < cs.len() {
        assert(cs.take(i + 1).drop_last() =~= cs.take(i));
        lemma_register_all_err(m, ns, cs, i + 1);
    } else {
        assert(cs.take(i) =~= cs);
    }
}

/// Registration changes only the channels of its namespace.
proof fn lemma_register_all_other(m: Map<(Seq<char>, Seq<char>), u16>, ns: Seq<char>, cs: Seq<(Seq<char>, u16)>)
    requires
        register_all(m, ns, cs) is Ok,
    ensures
        without_namespace(register_all(m, ns, cs)->Ok_0, ns) == without_namespace(m, ns),
    decreases cs.len(),
{
    if cs.len() > 0 {
        lemma_register_all_other(m, ns, cs.drop_last());
        let m2 = register_all(m, ns, cs.drop_last())->Ok_0;
        let m3 = register_all(m, ns, cs)->Ok_0;
        assert(without_namespace(m3, ns) =~= without_namespace(m2, ns));
    } else {
        assert(without_namespace(m, ns) =~= without_namespace(m, ns));
    }
}

impl Logger {
    /// Registers the namespace and channels of `logger` and joins it to this logger; see
    /// `register_all`.
    ///
    /// A trace logger that joined another logger is refused and nothing changes. Otherwise
    /// the namespace is listed even when a channel is refused; the channels of that namespace
    /// are then dropped, and the trace logger joins this logger only when all its channels
    /// register.
    pub fn add_trace_logger(&mut self, logger: &mut TraceLogger) -> (r: Result<(), TraceError>)
        ensures
            final(self).id_view() == old(self).id_view(),
            final(logger).namespace_view() == old(logger).namespace_view(),
            final(logger).channels_view() == old(logger).channels_view(),
            final(logger).changed_view() == old(logger).changed_view(),
            attached_elsewhere(old(logger).attached_view(), old(self).id_view()) ==> {
                &&& trace_err(r, "trace logger is already attached to another logger"@)
                &&& final(self).view() == old(self).view()
                &&& final(logger).attached_view() == old(logger).attached_view()
            },
            !attached_elsewhere(old(logger).attached_view(), old(self).id_view()) ==> {
                &&& register_effect(old(self).view(), final(self).view(), old(logger).namespace_view(), old(logger).channels_view(), r)
                &&& r is Ok ==> final(logger).attached_view() == Some(old(self).id_view())
                &&& r is Err ==> final(logger).attached_view() == old(logger).attached_view()
            },
    {
        proof {
            use_type_invariant(&*logger);
        }
        let elsewhere = match logger.attached_to {
            Some(id) => id != self.id,
            None => false,
        };
        if elsewhere {
            return Err(TraceError::new("trace logger is already attached to another logger"));
        }
        let r = self.register_trace_logger(logger);
        match r {
            Ok(()) => {
                logger.attached_to = Some(self.id);
            },
            Err(_) => {},
        }
        r
    }

    fn register_trace_logger(&mut self, logger: &TraceLogger) -> (r: Result<(), TraceError>)
        ensures
            final(self).id_view() == old(self).id_view(),
            register_effect(old(self).view(), final(self).view(), logger.namespace_view(), logger.channels_view(), r),
            final(self).view().enabled == old(self).view().enabled,
            final(self).view().options == old(self).view().options,
            final(self).view().namespaces == old(self).view().namespaces.insert(logger.namespace_view()),
            match register_all(old(self).view().channels, logger.namespace_view(), logger.channels_view()) {
                Ok(m) => r is Ok && final(self).view().channels == m,
                Err(e) => trace_err(r, e) && final(self).view().channels == without_namespace(
                    old(self).view().channels,
                    logger.namespace_view(),
                ),
            },
    {
        proof {
            use_type_invariant(&*self);
            use_type_invariant(logger);
        }
        let ns = logger.namespace();
        self.add_namespace(ns);
        proof {
            use_type_invariant(&*self);
        }
        let ghost m0 = entries_map(self.channels@);
        let ghost cs = logger.channels_view();
        let mut channels: Vec<ChannelEntry> = Vec::new();
        std::mem::swap(&mut channels, &mut self.channels);
        let mut i: usize = 0;
        assert(cs.take(0) =~= Seq::<(Seq<char>, u16)>::empty());
        while i < logger.channels.len()
            invariant
                self.id_view() == old(self).id_view(),
                cs == channel_specs_view(logger.channels@),
                ns@ == logger.namespace_view(),
                m0 == old(self).view().channels,
                self.channels@.len() == 0,
                unique_keys(crate::kcli::model::strings_view(self.enabled@)),
                unique_keys(crate::kcli::model::strings_view(self.namespaces@)),
                forall|k: int| 0 <= k < self.namespaces@.len() ==> is_identifier(#[trigger] self.namespaces@[k]@),
                self.view().enabled == old(self).view().enabled,
                self.view().options == old(self).view().options,
                self.view().namespaces == old(self).view().namespaces.insert(logger.namespace_view()),
                i <= cs.len(),
                unique_keys(entry_keys(channels@)),
                register_all(m0, ns@, cs.take(i as int)) == Ok::<Map<(Seq<char>, Seq<char>), u16>, Seq<char>>(entries_map(channels@)),
            decreases cs.len() - i,
        {
            let spec = &logger.channels[i];
            let ghost m = entries_map(channels@);
            let ghost c = (spec.name@, spec.color);
            proof {
                assert(cs[i as int] == c);
                assert(cs.take(i as int + 1).drop_last() =~= cs.take(i as int));
                assert(cs.take(i as int + 1).last() == c);
            }
            let name_chars = to_chars(spec.name.as_str());
            match parent_channel(&name_chars) {
                Some(parent) => {
                    if entries_find(&channels, ns, parent.as_str()).is_none() {
                        let mut message = crate::text::concat3(
                            "cannot register unparented trace channel '",
                            spec.name.as_str(),
                            "' (missing parent '",
                        );
                        message.append(parent.as_str());
                        message.append("')");
                        let kept = entries_without_namespace(&channels, ns);
                        proof {
                            lemma_register_all_err(m0, ns@, cs, i as int + 1);
                            lemma_register_all_other(m0, ns@, cs.take(i as int));
                            assert(without_namespace(m, ns@) =~= without_namespace(m0, ns@));
                        }
                        self.channels = kept;
                        return Err(TraceError::from_string(message));
                    }
                },
                None => {},
            }
            let found = entries_find(&channels, ns, spec.name.as_str());
            let existing = match found {
                Some(k) => channels[k].color,
                None => DEFAULT_COLOR,
            };
            let qualified = crate::text::concat3(ns, ".", spec.name.as_str());
            let merged = match merge_color(existing, spec.color, qualified.as_str()) {
                Ok(col) => col,
                Err(e) => {
                    let kept = entries_without_namespace(&channels, ns);
                    proof {
                        lemma_register_all_err(m0, ns@, cs, i as int + 1);
                        lemma_register_all_other(m0, ns@, cs.take(i as int));
                    }
                    self.channels = kept;
                    return Err(e);
                },
            };
            match found {
                Some(k) => {
                    entries_set_color(&mut channels, k, merged);
                },
                None => {
                    entries_push(
                        &mut channels,
                        ChannelEntry { namespace: String::from_str(ns), channel: spec.name.clone(), color: merged },
                    );
                },
            }
            i = i + 1;
        }
        assert(cs.take(i as int) =~= cs);
        self.channels = channels;
        Ok(())
    }

    /// Lists `trace_namespace`.
    fn add_namespace(&mut self, trace_namespace: &str)
        requires
            is_identifier(trace_namespace@),
        ensures
            final(self).id_view() == old(self).id_view(),
            final(self).view() == (LoggerView {
                namespaces: old(self).view().namespaces.insert(trace_namespace@),
                ..old(self).view()
            }),
            final(self).channels@ == old(self).channels@,
    {
        proof {
            use_type_invariant(&*self);
        }
        let ghost before = crate::kcli::model::strings_view(self.namespaces@);
        let mut i: usize = 0;
        while i < self.namespaces.len()
            invariant
                before == crate::kcli::model::strings_view(self.namespaces@),
                i <= self.namespaces@.len(),
                forall|k: int| 0 <= k < i ==> before[k] != trace_namespace@,
            decreases self.namespaces@.len() - i,
        {
            if crate::text::str_eq(self.namespaces[i].as_str(), trace_namespace) {
                assert(before[i as int] == trace_namespace@);
                assert(before.to_set().insert(trace_namespace@) =~= before.to_set());
                return;
            }
            i = i + 1;
        }
        let s = String::from_str(trace_namespace);
        let mut names: Vec<String> = Vec::new();
        std::mem::swap(&mut names, &mut self.namespaces);
        proof {
            crate::kcli::model::lemma_strings_view_push(names@, s);
        }
        names.push(s);
        proof {
            let n = crate::kcli::model::strings_view(names@);
            assert(n =~= before.push(trace_namespace@));
            assert forall|k: int| 0 <= k < names@.len() implies is_identifier(#[trigger] names@[k]@) by {
                if k < before.len() {
                    assert(names@[k]@ == n[k]);
                }
            }
            before.lemma_push_to_set_commute(trace_namespace@);
            assert forall|x: int, y: int| 0 <= x < n.len() && 0 <= y < n.len() && x != y implies n[x] != n[y] by {
                if x == before.len() {
                    assert(n[y] == before[y]);
                } else if y == before.len() {
                    assert(n[x] == before[x]);
                }
            }
        }
        self.namespaces = names;
    }
}

/// The source location of warnings: none.
pub open spec fn no_location() -> SourceLocation {
    SourceLocation { file: "", line: 0, function: "" }
}

/// Warnings are labelled with the local namespace, or `ktrace` when it is not a name.
pub open spec fn warning_namespace(local_namespace: Seq<char>) -> Seq<char> {
    if is_identifier(local_namespace) {
        local_namespace
    } else {
        "ktrace"@
    }
}

/// `line` prints the warning `message` under `local_namespace` with `options`.
pub open spec fn is_warning_line(line: Seq<char>, options: OutputOptions, local_namespace: Seq<char>, message: Seq<char>) -> bool {
    exists|prefix: Seq<char>|
        is_prefix_for(prefix, warning_namespace(local_namespace), "warning"@, options, no_location())
            && line == line_spec(prefix, message)
}

/// `lines` print the warnings `messages`, in order.
pub open spec fn warnings_ok(lines: Seq<Seq<char>>, options: OutputOptions, local_namespace: Seq<char>, messages: Seq<Seq<char>>) -> bool {
    &&& lines.len() == messages.len()
    &&& forall|i: int| 0 <= i < lines.len() ==> is_warning_line(#[trigger] lines[i], options, local_namespace, messages[i])
}

pub open spec fn action_word(enabled: bool) -> Seq<char> {
    if enabled {
        "enable"@
    } else {
        "disable"@
    }
}

/// The enabled set once `key` is turned on or off.
pub open spec fn switched(enabled: Set<Seq<char>>, key: Seq<char>, on: bool) -> Set<Seq<char>> {
    if on {
        enabled.insert(key)
    } else {
        enabled.remove(key)
    }
}

/// Enabling or disabling one channel named exactly: refused when the name is malformed,
/// a warning when the channel is not registered, else switched.
pub open spec fn exact_state_effect(
    old: LoggerView,
    new: LoggerView,
    r: Result<Vec<String>, TraceError>,
    qualified_channel: Seq<char>,
    local_namespace: Seq<char>,
    on: bool,
) -> bool {
    match crate::ktrace::selectors::exact_selector_spec(qualified_channel, local_namespace) {
        Err(m) => trace_err(r, m) && new == old,
        Ok((ns, ch)) => {
            let key = crate::ktrace::selectors::qualified_key_spec(ns, ch);
            if registered_spec(old, ns, ch) {
                &&& r matches Ok(lines) && lines@.len() == 0
                &&& new == (LoggerView { enabled: switched(old.enabled, key, on), ..old })
            } else {
                &&& r matches Ok(lines) && warnings_ok(
                    crate::kcli::model::strings_view(lines@),
                    old.options,
                    local_namespace,
                    seq![action_word(on) + " ignored channel '"@ + key + "' because it is not registered"@],
                )
                &&& new == old
            }
        },
    }
}

impl Logger {
    /// The warning line for `message` under `local_namespace`.
    fn warning_line(&self, local_namespace: &str, message: &str) -> (r: String)
        ensures
            is_warning_line(r@, self.view().options, local_namespace@, message@),
    {
        let label = if is_selector_identifier(local_namespace) {
            local_namespace
        } else {
            "ktrace"
        };
        let prefix = build_prefix(label, "warning", SourceLocation::new("", 0, ""), self.options);
        let line = make_line(prefix.as_str(), message);
        assert(is_prefix_for(prefix@, warning_namespace(local_namespace@), "warning"@, self.view().options, no_location()));
        line
    }

    fn switch_key(&mut self, key: String, on: bool)
        ensures
            final(self).id_view() == old(self).id_view(),
            final(self).view() == (LoggerView { enabled: switched(old(self).view().enabled, key@, on), ..old(self).view() }),
    {
        proof {
            use_type_invariant(&*self);
        }
        let ghost before = crate::kcli::model::strings_view(self.enabled@);
        let mut enabled: Vec<String> = Vec::new();
        std::mem::swap(&mut enabled, &mut self.enabled);
        let mut kept: Vec<String> = Vec::new();
        let mut found = false;
        let mut i: usize = 0;
        while i < enabled.len()
            invariant
                before == crate::kcli::model::strings_view(enabled@),
                unique_keys(before),
                i <= enabled@.len(),
                unique_keys(crate::kcli::model::strings_view(kept@)),
                found <==> exists|j: int| 0 <= j < i && before[j] == key@,
                crate::kcli::model::strings_view(kept@).to_set() == before.take(i as int).to_set().remove(key@),
                forall|x: int| 0 <= x < kept@.len() ==> (exists|j: int| 0 <= j < i && #[trigger] kept@[x]@ == before[j]),
            decreases enabled@.len() - i,
        {
            let ghost kv = crate::kcli::model::strings_view(kept@);
            proof {
                assert(before.take(i as int + 1) =~= before.take(i as int).push(before[i as int]));
                before.take(i as int).lemma_push_to_set_commute(before[i as int]);
            }
            if crate::text::str_eq(enabled[i].as_str(), key.as_str()) {
                found = true;
                assert(kv.to_set() =~= before.take(i as int + 1).to_set().remove(key@));
            } else {
                let s = enabled[i].clone();
                proof {
                    crate::kcli::model::lemma_strings_view_push(kept@, s);
                    assert forall|x: int| 0 <= x < kv.len() implies kv[x] != s@ by {
                        let j = choose|j: int| 0 <= j < i && kept@[x]@ == before[j];
                        assert(before[j] != before[i as int]);
                    }
                }
                kept.push(s);
                proof {
                    let nk = crate::kcli::model::strings_view(kept@);
                    assert(nk =~= kv.push(s@));
                    kv.lemma_push_to_set_commute(s@);
                    assert(nk.to_set() =~= before.take(i as int + 1).to_set().remove(key@));
                    assert forall|x: int, y: int| 0 <= x < nk.len() && 0 <= y < nk.len() && x != y implies nk[x] != nk[y] by {
                        if x == kv.len() {
                            assert(nk[y] == kv[y]);
                        } else if y == kv.len() {
                            assert(nk[x] == kv[x]);
                        }
                    }
                    assert forall|x: int| 0 <= x < kept@.len() implies (exists|j: int| 0 <= j < i + 1 && #[trigger] kept@[x]@ == before[j]) by {
                        if x == kv.len() {
                            assert(kept@[x]@ == before[i as int]);
                        }
                    }
                }
            }
            i = i + 1;
        }
        assert(before.take(i as int) =~= before);
        if on {
            let ghost kv = crate::kcli::model::strings_view(kept@);
            proof {
                crate::kcli::model::lemma_strings_view_push(kept@, key);
            }
            kept.push(key);
            proof {
                let nk = crate::kcli::model::strings_view(kept@);
                assert(nk =~= kv.push(key@));
                kv.lemma_push_to_set_commute(key@);
                assert(nk.to_set() =~= before.to_set().insert(key@));
                assert forall|x: int, y: int| 0 <= x < nk.len() && 0 <= y < nk.len() && x != y implies nk[x] != nk[y] by {
                    if x == kv.len() {
                        assert(nk[y] == kv[y]);
                        assert(kv.to_set().contains(kv[y]));
                    } else if y == kv.len() {
                        assert(nk[x] == kv[x]);
                        assert(kv.to_set().contains(kv[x]));
                    }
                }
            }
        } else {
            assert(crate::kcli::model::strings_view(kept@).to_set() =~= before.to_set().remove(key@));
        }
        self.enabled = kept;
    }

    fn set_exact_channel_state(&mut self, qualified_channel: &str, local_namespace: &str, on: bool) -> (r: Result<Vec<String>, TraceError>)
        ensures
            final(self).id_view() == old(self).id_view(),
            exact_state_effect(old(self).view(), final(self).view(), r, qualified_channel@, local_namespace@, on),
    {
        let (ns, ch) = match crate::ktrace::selectors::parse_exact_selector(qualified_channel, local_namespace) {
            Ok(p) => p,
            Err(e) => {
                return Err(e);
            },
        };
        let key = crate::ktrace::selectors::make_qualified_channel_key(ns.as_str(), ch.as_str());
        if !self.is_registered_trace_channel(ns.as_str(), ch.as_str()) {
            let action = if on {
                "enable"
            } else {
                "disable"
            };
            let mut message = crate::text::concat3(action, " ignored channel '", key.as_str());
            message.append("' because it is not registered");
            let line = self.warning_line(local_namespace, message.as_str());
            let mut lines: Vec<String> = Vec::new();
            proof {
                crate::kcli::model::lemma_strings_view_push(lines@, line);
            }
            lines.push(line);
            proof {
                let expected = seq![action_word(on) + " ignored channel '"@ + key@ + "' because it is not registered"@];
                assert(message@ == expected[0]);
                assert(crate::kcli::model::strings_view(lines@) =~= seq![line@]);
            }
            return Ok(lines);
        }
        self.switch_key(key, on);
        Ok(Vec::new())
    }

    /// Enables the channel `qualified_channel` (`namespace.channel`, or `.channel` in
    /// `local_namespace`); returns the warning lines to print.
    pub fn enable_channel(&mut self, qualified_channel: &str, local_namespace: &str) -> (r: Result<Vec<String>, TraceError>)
        ensures
            final(self).id_view() == old(self).id_view(),
            exact_state_effect(old(self).view(), final(self).view(), r, qualified_channel@, local_namespace@, true),
    {
        self.set_exact_channel_state(qualified_channel, local_namespace, true)
    }

    /// Disables the channel `qualified_channel`; returns the warning lines to print.
    pub fn disable_channel(&mut self, qualified_channel: &str, local_namespace: &str) -> (r: Result<Vec<String>, TraceError>)
        ensures
            final(self).id_view() == old(self).id_view(),
            exact_state_effect(old(self).view(), final(self).view(), r, qualified_channel@, local_namespace@, false),
    {
        self.set_exact_channel_state(qualified_channel, local_namespace, false)
    }

    /// Whether lines of the channel `qualified_channel` print.
    pub fn should_trace_channel(&self, qualified_channel: &str, local_namespace: &str) -> (r: bool)
        ensures
            r == match crate::ktrace::selectors::exact_selector_spec(qualified_channel@, local_namespace@) {
                Ok((ns, ch)) => enabled_spec(self.view(), ns, ch),
                Err(_) => false,
            },
    {
        match crate::ktrace::selectors::parse_exact_selector(qualified_channel, local_namespace) {
            Ok((ns, ch)) => self.is_trace_channel_enabled(ns.as_str(), ch.as_str()),
            Err(_) => false,
        }
    }
}

/// Keys of the registered channels that some selector takes.
pub open spec fn matched_keys(m: Map<(Seq<char>, Seq<char>), u16>, sels: Seq<SelectorView>) -> Set<Seq<char>> {
    Set::new(
        |key: Seq<char>|
            exists|p: (Seq<char>, Seq<char>)|
                #![trigger m.dom().contains(p)]
                m.dom().contains(p) && (exists|j: int| 0 <= j < sels.len() && matches_spec(sels[j], p.0, p.1))
                    && key == crate::ktrace::selectors::qualified_key_spec(p.0, p.1),
    )
}

/// The selector takes no registered channel.
pub open spec fn selector_unmatched(m: Map<(Seq<char>, Seq<char>), u16>, sel: SelectorView) -> bool {
    !exists|p: (Seq<char>, Seq<char>)| m.dom().contains(p) && matches_spec(sel, p.0, p.1)
}

/// The first `n` selectors that take nothing, written back, each text once.
pub open spec fn unmatched_texts(m: Map<(Seq<char>, Seq<char>), u16>, sels: Seq<SelectorView>, n: int) -> Seq<Seq<char>>
    decreases n,
{
    if n <= 0 {
        Seq::empty()
    } else {
        let u = unmatched_texts(m, sels, n - 1);
        let t = format_selector_spec(sels[n - 1]);
        if selector_unmatched(m, sels[n - 1]) && !u.contains(t) {
            u.push(t)
        } else {
            u
        }
    }
}

pub open spec fn unmatched_message(on: bool, text: Seq<char>) -> Seq<char> {
    action_word(on) + " ignored channel selector '"@ + text
        + "' because it matched no registered channels"@
}

pub open spec fn no_selector_message(on: bool) -> Seq<char> {
    if on {
        "EnableChannels requires one or more selectors"@
    } else {
        "DisableChannels requires one or more selectors"@
    }
}

/// Enabling or disabling by a selector list: refused when the list is empty or malformed;
/// else every registered channel a selector takes is switched, and each selector that takes
/// nothing gets a warning.
pub open spec fn list_state_effect(
    old: LoggerView,
    new: LoggerView,
    r: Result<Vec<String>, TraceError>,
    selectors_csv: Seq<char>,
    local_namespace: Seq<char>,
    on: bool,
) -> bool {
    let text = trim_spec(selectors_csv);
    if text.len() == 0 {
        trace_err(r, no_selector_message(on)) && new == old
    } else {
        match selector_list_spec(text, local_namespace) {
            Err(m) => trace_err(r, m) && new == old,
            Ok(sels) => {
                let keys = matched_keys(old.channels, sels);
                &&& r matches Ok(lines) && warnings_ok(
                    crate::kcli::model::strings_view(lines@),
                    old.options,
                    local_namespace,
                    unmatched_texts(old.channels, sels, sels.len() as int).map_values(
                        |t: Seq<char>| unmatched_message(on, t),
                    ),
                )
                &&& new == (LoggerView {
                    enabled: if on {
                        old.enabled.union(keys)
                    } else {
                        old.enabled.difference(keys)
                    },
                    ..old
                })
            },
        }
    }
}

impl Logger {
    /// The keys of the registered channels the selectors take, and the selectors that take
    /// none (written back, each once, in order).
    fn resolve_selectors_to_channel_keys(&self, selectors: &Vec<Selector>) -> (r: (Vec<String>, Vec<String>))
        ensures
            crate::kcli::model::strings_view(r.0@).to_set() == matched_keys(self.view().channels, selectors_view(selectors@)),
            unique_keys(crate::kcli::model::strings_view(r.0@)),
            crate::kcli::model::strings_view(r.1@) == unmatched_texts(
                self.view().channels,
                selectors_view(selectors@),
                selectors@.len() as int,
            ),
    {
        proof {
            use_type_invariant(self);
        }
        let ghost sels = selectors_view(selectors@);
        let ghost m = self.view().channels;
        let ghost keys = entry_keys(self.channels@);
        let mut matched: Vec<bool> = Vec::new();
        let mut j: usize = 0;
        while j < selectors.len()
            invariant
                j <= selectors@.len(),
                matched@ == Seq::new(j as nat, |x: int| false),
            decreases selectors@.len() - j,
        {
            matched.push(false);
            j = j + 1;
            assert(matched@ =~= Seq::new(j as nat, |x: int| false));
        }
        let mut found: Vec<String> = Vec::new();
        let mut i: usize = 0;
        while i < self.channels.len()
            invariant
                sels == selectors_view(selectors@),
                m == entries_map(self.channels@),
                keys == entry_keys(self.channels@),
                unique_keys(keys),
                i <= self.channels@.len(),
                matched@.len() == selectors@.len(),
                unique_keys(crate::kcli::model::strings_view(found@)),
                forall|x: int| 0 <= x < matched@.len() ==> (#[trigger] matched@[x] <==> exists|k: int|
                    0 <= k < i && matches_spec(sels[x], keys[k].0, keys[k].1)),
                forall|key: Seq<char>| #[trigger] crate::kcli::model::strings_view(found@).to_set().contains(key) <==> exists|k: int|
                    0 <= k < i && (exists|x: int| 0 <= x < sels.len() && matches_spec(sels[x], keys[k].0, keys[k].1))
                        && key == crate::ktrace::selectors::qualified_key_spec(keys[k].0, keys[k].1),
            decreases self.channels@.len() - i,
        {
            let e = &self.channels[i];
            assert(keys[i as int] == (e.namespace@, e.channel@));
            let mut any = false;
            let mut x: usize = 0;
            while x < selectors.len()
                invariant
                    sels == selectors_view(selectors@),
                    keys == entry_keys(self.channels@),
                    i < self.channels@.len(),
                    keys[i as int] == (e.namespace@, e.channel@),
                    x <= selectors@.len(),
                    matched@.len() == selectors@.len(),
                    any <==> exists|y: int| 0 <= y < x && matches_spec(sels[y], keys[i as int].0, keys[i as int].1),
                    forall|y: int| 0 <= y < matched@.len() ==> (#[trigger] matched@[y] <==> (exists|k: int|
                        0 <= k < i && matches_spec(sels[y], keys[k].0, keys[k].1)) || (y < x && matches_spec(sels[y], keys[i as int].0, keys[i as int].1))),
                decreases selectors@.len() - x,
            {
                assert(sels[x as int] == selectors@[x as int].view());
                if crate::ktrace::selectors::matches_selector(&selectors[x], e.namespace.as_str(), e.channel.as_str()) {
                    matched.set(x, true);
                    any = true;
                }
                x = x + 1;
            }
            if any {
                let key = crate::ktrace::selectors::make_qualified_channel_key(e.namespace.as_str(), e.channel.as_str());
                let ghost before = crate::kcli::model::strings_view(found@);
                if !has_string(&found, key.as_str()) {
                    proof {
                        crate::kcli::model::lemma_strings_view_push(found@, key);
                    }
                    found.push(key);
                    proof {
                        before.lemma_push_to_set_commute(key@);
                        let now = crate::kcli::model::strings_view(found@);
                        assert forall|a: int, b: int| 0 <= a < now.len() && 0 <= b < now.len() && a != b implies now[a] != now[b] by {
                            if a == before.len() as int {
                                assert(now[b] == before[b]);
                            } else if b == before.len() as int {
                                assert(now[a] == before[a]);
                            }
                        }
                    }
                } else {
                    proof {
                        assert(before.to_set().insert(key@) =~= before.to_set());
                    }
                }
            }
            proof {
                assert forall|y: int| 0 <= y < matched@.len() implies (#[trigger] matched@[y] <==> exists|k: int|
                    0 <= k < i + 1 && matches_spec(sels[y], keys[k].0, keys[k].1)) by {
                    if matched@[y] && !(exists|k: int| 0 <= k < i && matches_spec(sels[y], keys[k].0, keys[k].1)) {
                        assert(matches_spec(sels[y], keys[i as int].0, keys[i as int].1));
                    }
                    if exists|k: int| 0 <= k < i + 1 && matches_spec(sels[y], keys[k].0, keys[k].1) {
                        let k = choose|k: int| 0 <= k < i + 1 && matches_spec(sels[y], keys[k].0, keys[k].1);
                        if k == i as int {
                        }
                    }
                }
            }
            i = i + 1;
        }
        proof {
            let fset = crate::kcli::model::strings_view(found@).to_set();
            assert forall|key: Seq<char>| fset.contains(key) <==> matched_keys(m, sels).contains(key) by {
                if fset.contains(key) {
                    let k = choose|k: int| 0 <= k < i && (exists|x: int| 0 <= x < sels.len() && matches_spec(sels[x], keys[k].0, keys[k].1))
                        && key == crate::ktrace::selectors::qualified_key_spec(keys[k].0, keys[k].1);
                    lemma_entries_map_at(self.channels@, k);
                    assert(m.dom().contains(keys[k]));
                }
                if matched_keys(m, sels).contains(key) {
                    let p = choose|p: (Seq<char>, Seq<char>)| m.dom().contains(p) && (exists|j: int| 0 <= j < sels.len() && matches_spec(sels[j], p.0, p.1))
                        && key == crate::ktrace::selectors::qualified_key_spec(p.0, p.1);
                    let k = choose|k: int| 0 <= k < keys.len() && keys[k] == p;
                    assert(keys[k].0 == p.0 && keys[k].1 == p.1);
                }
            }
            assert(fset =~= matched_keys(m, sels));
        }
        let mut unmatched: Vec<String> = Vec::new();
        let mut y: usize = 0;
        while y < selectors.len()
            invariant
                sels == selectors_view(selectors@),
                m == entries_map(self.channels@),
                keys == entry_keys(self.channels@),
                unique_keys(keys),
                y <= selectors@.len(),
                matched@.len() == selectors@.len(),
                forall|x: int| 0 <= x < matched@.len() ==> (#[trigger] matched@[x] <==> exists|k: int|
                    0 <= k < keys.len() && matches_spec(sels[x], keys[k].0, keys[k].1)),
                crate::kcli::model::strings_view(unmatched@) == unmatched_texts(m, sels, y as int),
            decreases selectors@.len() - y,
        {
            assert(sels[y as int] == selectors@[y as int].view());
            proof {
                if selector_unmatched(m, sels[y as int]) {
                    assert forall|k: int| 0 <= k < keys.len() implies !matches_spec(sels[y as int], keys[k].0, keys[k].1) by {
                        lemma_entries_map_at(self.channels@, k);
                        assert(m.dom().contains(keys[k]));
                    }
                } else {
                    let p = choose|p: (Seq<char>, Seq<char>)| m.dom().contains(p) && matches_spec(sels[y as int], p.0, p.1);
                    let k = choose|k: int| 0 <= k < keys.len() && keys[k] == p;
                    assert(matches_spec(sels[y as int], keys[k].0, keys[k].1));
                }
            }
            if !matched[y] {
                let text = crate::ktrace::selectors::format_selector(&selectors[y]);
                let ghost u = crate::kcli::model::strings_view(unmatched@);
                let mut seen = false;
                let mut q: usize = 0;
                while q < unmatched.len()
                    invariant
                        u == crate::kcli::model::strings_view(unmatched@),
                        q <= unmatched@.len(),
                        seen <==> exists|z: int| 0 <= z < q && u[z] == text@,
                    decreases unmatched@.len() - q,
                {
                    assert(u[q as int] == unmatched@[q as int]@);
                    if crate::text::str_eq(unmatched[q].as_str(), text.as_str()) {
                        seen = true;
                    }
                    q = q + 1;
                }
                if !seen {
                    proof {
                        crate::kcli::model::lemma_strings_view_push(unmatched@, text);
                    }
                    unmatched.push(text);
                }
            }
            y = y + 1;
        }
        (found, unmatched)
    }

    fn set_selector_list_state(&mut self, selectors_csv: &str, local_namespace: &str, on: bool) -> (r: Result<Vec<String>, TraceError>)
        ensures
            final(self).id_view() == old(self).id_view(),
            list_state_effect(old(self).view(), final(self).view(), r, selectors_csv@, local_namespace@, on),
    {
        let text = crate::text::trim_str(selectors_csv);
        if text.unicode_len() == 0 {
            return Err(
                TraceError::new(
                    if on {
                        "EnableChannels requires one or more selectors"
                    } else {
                        "DisableChannels requires one or more selectors"
                    },
                ),
            );
        }
        let selectors = match crate::ktrace::selectors::parse_selector_list(text.as_str(), local_namespace) {
            Ok(s) => s,
            Err(e) => {
                return Err(e);
            },
        };
        let ghost sels = selectors_view(selectors@);
        let ghost old_view = self.view();
        let (keys, unmatched) = self.resolve_selectors_to_channel_keys(&selectors);
        let ghost kv = crate::kcli::model::strings_view(keys@);
        let mut i: usize = 0;
        proof {
            assert(kv.take(0).to_set() =~= Set::<Seq<char>>::empty());
            assert(old_view.enabled.union(Set::<Seq<char>>::empty()) =~= old_view.enabled);
            assert(old_view.enabled.difference(Set::<Seq<char>>::empty()) =~= old_view.enabled);
        }
        while i < keys.len()
            invariant
                self.id_view() == old(self).id_view(),
                kv == crate::kcli::model::strings_view(keys@),
                i <= keys@.len(),
                self.view() == (LoggerView {
                    enabled: if on {
                        old_view.enabled.union(kv.take(i as int).to_set())
                    } else {
                        old_view.enabled.difference(kv.take(i as int).to_set())
                    },
                    ..old_view
                }),
            decreases keys@.len() - i,
        {
            proof {
                assert(kv.take(i as int + 1) =~= kv.take(i as int).push(kv[i as int]));
                kv.take(i as int).lemma_push_to_set_commute(kv[i as int]);
            }
            let k = keys[i].clone();
            self.switch_key(k, on);
            proof {
                if on {
                    assert(old_view.enabled.union(kv.take(i as int).to_set()).insert(kv[i as int]) =~= old_view.enabled.union(kv.take(i as int + 1).to_set()));
                } else {
                    assert(old_view.enabled.difference(kv.take(i as int).to_set()).remove(kv[i as int]) =~= old_view.enabled.difference(kv.take(i as int + 1).to_set()));
                }
            }
            i = i + 1;
        }
        proof {
            assert(kv.take(i as int) =~= kv);
        }
        let ghost uv = crate::kcli::model::strings_view(unmatched@);
        let ghost messages = uv.map_values(|t: Seq<char>| unmatched_message(on, t));
        let mut lines: Vec<String> = Vec::new();
        let mut j: usize = 0;
        while j < unmatched.len()
            invariant
                self.id_view() == old(self).id_view(),
                uv == crate::kcli::model::strings_view(unmatched@),
                messages == uv.map_values(|t: Seq<char>| unmatched_message(on, t)),
                j <= unmatched@.len(),
                self.view().options == old_view.options,
                warnings_ok(crate::kcli::model::strings_view(lines@), old_view.options, local_namespace@, messages.take(j as int)),
            decreases unmatched@.len() - j,
        {
            let action = if on {
                "enable"
            } else {
                "disable"
            };
            let mut message = crate::text::concat3(action, " ignored channel selector '", unmatched[j].as_str());
            message.append("' because it matched no registered channels");
            assert(message@ == messages[j as int]);
            let line = self.warning_line(local_namespace, message.as_str());
            let ghost before = crate::kcli::model::strings_view(lines@);
            proof {
                crate::kcli::model::lemma_strings_view_push(lines@, line);
            }
            lines.push(line);
            proof {
                let nl = crate::kcli::model::strings_view(lines@);
                let mt = messages.take(j as int + 1);
                assert(mt =~= messages.take(j as int).push(messages[j as int]));
                assert forall|x: int| 0 <= x < nl.len() implies is_warning_line(#[trigger] nl[x], old_view.options, local_namespace@, mt[x]) by {
                    if x < j {
                        assert(nl[x] == before[x]);
                        assert(mt[x] == messages.take(j as int)[x]);
                    }
                }
            }
            j = j + 1;
        }
        assert(messages.take(j as int) =~= messages);
        Ok(lines)
    }

    /// Enables every registered channel the comma-separated selectors take; returns the
    /// warning lines to print.
    pub fn enable_channels(&mut self, selectors_csv: &str, local_namespace: &str) -> (r: Result<Vec<String>, TraceError>)
        ensures
            final(self).id_view() == old(self).id_view(),
            list_state_effect(old(self).view(), final(self).view(), r, selectors_csv@, local_namespace@, true),
    {
        self.set_selector_list_state(selectors_csv, local_namespace, true)
    }

    /// Disables every registered channel the comma-separated selectors take; returns the
    /// warning lines to print.
    pub fn disable_channels(&mut self, selectors_csv: &str, local_namespace: &str) -> (r: Result<Vec<String>, TraceError>)
        ensures
            final(self).id_view() == old(self).id_view(),
            list_state_effect(old(self).view(), final(self).view(), r, selectors_csv@, local_namespace@, false),
    {
        self.set_selector_list_state(selectors_csv, local_namespace, false)
    }
}

/// Owned copies of the texts `v`.
fn owned_strings(v: &Vec<&str>) -> (r: Vec<String>)
    ensures
        crate::kcli::model::strings_view(r@) == crate::text::str_views(v@),
{
    let mut r: Vec<String> = Vec::new();
    let mut i: usize = 0;
    while i < v.len()
        invariant
            i <= v@.len(),
            crate::kcli::model::strings_view(r@) == crate::text::str_views(v@).take(i as int),
        decreases v@.len() - i,
    {
        let s = String::from_str(v[i]);
        proof {
            crate::kcli::model::lemma_strings_view_push(r@, s);
        }
        r.push(s);
        i = i + 1;
        assert(crate::kcli::model::strings_view(r@) =~= crate::text::str_views(v@).take(i as int));
    }
    assert(crate::text::str_views(v@).take(i as int) =~= crate::text::str_views(v@));
    r
}

/// The channels registered for `trace_namespace`.
pub open spec fn channels_of(m: Map<(Seq<char>, Seq<char>), u16>, trace_namespace: Seq<char>) -> Set<Seq<char>> {
    Set::new(|c: Seq<char>| m.dom().contains((trace_namespace, c)))
}

impl Logger {
    /// What trace lines show.
    pub fn output_options(&self) -> (r: OutputOptions)
        ensures
            r == self.view().options,
    {
        self.options
    }

    /// The namespaces of every trace logger added, sorted, each once.
    pub fn get_namespaces(&self) -> (r: Result<Vec<String>, TraceError>)
        ensures
            r matches Ok(v) && crate::text::sorted_strict(crate::kcli::model::strings_view(v@))
                && crate::kcli::model::strings_view(v@).to_set() == self.view().namespaces,
    {
        let mut refs: Vec<&str> = Vec::new();
        let mut i: usize = 0;
        while i < self.namespaces.len()
            invariant
                i <= self.namespaces@.len(),
                crate::text::str_views(refs@) == crate::kcli::model::strings_view(self.namespaces@).take(i as int),
            decreases self.namespaces@.len() - i,
        {
            let ghost before = refs@;
            let name = self.namespaces[i].as_str();
            refs.push(name);
            assert(refs@ == before.push(name));
            assert(name@ == self.namespaces@[i as int]@);
            assert(crate::text::str_views(refs@) =~= crate::text::str_views(before).push(name@));
            assert(crate::kcli::model::strings_view(self.namespaces@).take(i as int + 1) =~= crate::kcli::model::strings_view(self.namespaces@).take(i as int).push(name@));
            i = i + 1;
            assert(crate::text::str_views(refs@) =~= crate::kcli::model::strings_view(self.namespaces@).take(i as int));
        }
        assert(crate::kcli::model::strings_view(self.namespaces@).take(i as int) =~= crate::kcli::model::strings_view(self.namespaces@));
        let sorted = crate::text::sort_unique(&refs);
        Ok(owned_strings(&sorted))
    }

    /// The channels registered for `trace_namespace` (surrounding white space ignored),
    /// sorted, each once.
    pub fn get_channels(&self, trace_namespace: &str) -> (r: Result<Vec<String>, TraceError>)
        ensures
            is_identifier(trim_spec(trace_namespace@)) ==> (r matches Ok(v) && crate::text::sorted_strict(
                crate::kcli::model::strings_view(v@),
            ) && crate::kcli::model::strings_view(v@).to_set() == channels_of(
                self.view().channels,
                trim_spec(trace_namespace@),
            )),
            !is_identifier(trim_spec(trace_namespace@)) ==> trace_err(
                r,
                "invalid trace namespace '"@ + trim_spec(trace_namespace@) + "'"@,
            ),
    {
        proof {
            use_type_invariant(self);
        }
        let ns = crate::text::trim_str(trace_namespace);
        if !is_selector_identifier(ns.as_str()) {
            return Err(TraceError::from_string(crate::text::concat3("invalid trace namespace '", ns.as_str(), "'")));
        }
        let ghost keys = entry_keys(self.channels@);
        let mut refs: Vec<&str> = Vec::new();
        let mut i: usize = 0;
        assert(crate::text::str_views(refs@).to_set() =~= Set::new(|c: Seq<char>| exists|k: int| 0 <= k < 0 && keys[k] == (ns@, c)));
        while i < self.channels.len()
            invariant
                keys == entry_keys(self.channels@),
                i <= self.channels@.len(),
                crate::text::str_views(refs@).to_set() == Set::new(|c: Seq<char>| exists|k: int| 0 <= k < i && keys[k] == (ns@, c)),
            decreases self.channels@.len() - i,
        {
            let ghost before = crate::text::str_views(refs@);
            let ghost ki = keys[i as int];
            assert(ki == (self.channels@[i as int].namespace@, self.channels@[i as int].channel@));
            let ghost next = Set::new(|c: Seq<char>| exists|k: int| 0 <= k < i + 1 && keys[k] == (ns@, c));
            if crate::text::str_eq(self.channels[i].namespace.as_str(), ns.as_str()) {
                let ghost rb = refs@;
                let c = self.channels[i].channel.as_str();
                refs.push(c);
                proof {
                    assert(refs@ == rb.push(c));
                    assert(crate::text::str_views(refs@) =~= before.push(c@));
                    before.lemma_push_to_set_commute(c@);
                    assert forall|x: Seq<char>| next.contains(x) <==> before.to_set().insert(c@).contains(x) by {
                        if next.contains(x) {
                            let k = choose|k: int| 0 <= k < i + 1 && keys[k] == (ns@, x);
                            if k < i {
                                assert(before.to_set().contains(x));
                            }
                        }
                        if before.to_set().contains(x) && x != c@ {
                            let k = choose|k: int| 0 <= k < i && keys[k] == (ns@, x);
                            assert(next.contains(x));
                        }
                        if x == c@ {
                            assert(keys[i as int] == (ns@, x));
                        }
                    }
                    assert(crate::text::str_views(refs@).to_set() =~= next);
                }
            } else {
                proof {
                    assert forall|x: Seq<char>| next.contains(x) <==> before.to_set().contains(x) by {
                        if next.contains(x) {
                            let k = choose|k: int| 0 <= k < i + 1 && keys[k] == (ns@, x);
                            if k == i as int {
                                assert(false);
                            }
                        }
                        if before.to_set().contains(x) {
                            let k = choose|k: int| 0 <= k < i && keys[k] == (ns@, x);
                            assert(next.contains(x));
                        }
                    }
                    assert(crate::text::str_views(refs@).to_set() =~= next);
                }
            }
            i = i + 1;
        }
        let sorted = crate::text::sort_unique(&refs);
        let r = owned_strings(&sorted);
        proof {
            assert forall|c: Seq<char>| #[trigger] channels_of(self.view().channels, ns@).contains(c) <==> exists|k: int| 0 <= k < keys.len() && keys[k] == (ns@, c) by {}
            assert(crate::kcli::model::strings_view(r@).to_set() =~= channels_of(self.view().channels, ns@));
        }
        Ok(r)
    }
}

/// What tracing `message` on `channel` gives: refused for a malformed channel, nothing when
/// the channel does not print, else the line.
pub open spec fn trace_line_effect(
    logger: LoggerView,
    trace_namespace: Seq<char>,
    channel: Seq<char>,
    location: SourceLocation,
    message: Seq<char>,
    r: Result<Option<String>, TraceError>,
) -> bool {
    let name = trim_spec(channel);
    if channel_path_spec(name) is None {
        trace_err(r, "invalid trace channel '"@ + name + "'"@)
    } else if !enabled_spec(logger, trace_namespace, name) {
        r matches Ok(None)
    } else {
        r matches Ok(Some(line)) && exists|prefix: Seq<char>|
            is_prefix_for(prefix, trace_namespace, name, logger.options, location) && line@ == line_spec(
                prefix,
                message,
            )
    }
}

/// What tracing a changed value gives: refused for a malformed channel; silent when the
/// call site last traced the same key; else the key is recorded and the line is traced.
pub open spec fn changed_effect(
    old_changed: Map<Seq<char>, Seq<char>>,
    new_changed: Map<Seq<char>, Seq<char>>,
    logger: LoggerView,
    trace_namespace: Seq<char>,
    channel: Seq<char>,
    key: Seq<char>,
    location: SourceLocation,
    message: Seq<char>,
    r: Result<Option<String>, TraceError>,
) -> bool {
    let name = trim_spec(channel);
    let site = site_key_spec(location, name);
    if channel_path_spec(name) is None {
        &&& trace_err(r, "invalid trace channel '"@ + name + "'"@)
        &&& new_changed == old_changed
    } else if old_changed.dom().contains(site) && old_changed[site] == key {
        &&& r matches Ok(None)
        &&& new_changed == old_changed
    } else {
        &&& new_changed == old_changed.insert(site, key)
        &&& trace_line_effect(logger, trace_namespace, channel, location, message, r)
    }
}

/// The call site of a `trace_changed_with_location`: `file:line:function:channel`.
pub open spec fn site_key_spec(location: SourceLocation, channel: Seq<char>) -> Seq<char> {
    location.file@ + ":"@ + decimal_spec(location.line as nat) + ":"@ + location.function@ + ":"@ + channel
}

/// What logging `message` at `severity` gives: nothing when the logger does not list the
/// namespace, else the line.
pub open spec fn log_line_effect(
    logger: LoggerView,
    trace_namespace: Seq<char>,
    severity: Severity,
    location: SourceLocation,
    message: Seq<char>,
    r: Result<Option<String>, TraceError>,
) -> bool {
    if !logger.namespaces.contains(trace_namespace) {
        r matches Ok(None)
    } else {
        r matches Ok(Some(line)) && exists|prefix: Seq<char>|
            is_prefix_for(prefix, trace_namespace, severity_label(severity), logger.options, location)
                && line@ == line_spec(prefix, message)
    }
}

/// Whether `logger.should_trace_channel(qualified_channel, "")` holds: the channel that
/// `qualified_channel` names in full is registered and enabled.
pub open spec fn logger_prints(logger: &Logger, qualified_channel: Seq<char>) -> bool {
    match crate::ktrace::selectors::exact_selector_spec(qualified_channel, Seq::empty()) {
        Ok((ns, ch)) => enabled_spec(logger.view(), ns, ch),
        Err(_) => false,
    }
}

impl TraceLogger {
    /// Whether lines of `channel` print through `logger`.
    pub fn should_trace_channel(&self, logger: &Logger, channel: &str) -> (r: bool)
        ensures
            r == (channel_path_spec(trim_spec(channel@)) is Some && enabled_spec(
                self.sees(logger),
                self.namespace_view(),
                trim_spec(channel@),
            )),
            r == (channel_path_spec(trim_spec(channel@)) is Some && self.attached_view() == Some(logger.id_view())
                && logger_prints(logger, self.namespace_view() + seq!['.'] + trim_spec(channel@))),
    {
        proof {
            use_type_invariant(self);
            crate::ktrace::laws::lemma_trace_logger_asks_its_logger(*self, *logger, channel@, Seq::empty());
        }
        let name = crate::text::trim_str(channel);
        if !is_valid_channel_path(name.as_str()) {
            return false;
        }
        if !self.is_attached_to(logger) {
            return false;
        }
        logger.is_trace_channel_enabled(self.trace_namespace.as_str(), name.as_str())
    }

    /// The line for `message` on `channel`, if the channel prints through `logger`.
    pub fn trace_with_location(&self, logger: &Logger, channel: &str, location: SourceLocation, message: String) -> (r: Result<
        Option<String>,
        TraceError,
    >)
        ensures
            trace_line_effect(self.sees(logger), self.namespace_view(), channel@, location, message@, r),
    {
        let name = crate::text::trim_str(channel);
        if !is_valid_channel_path(name.as_str()) {
            return Err(TraceError::from_string(crate::text::concat3("invalid trace channel '", name.as_str(), "'")));
        }
        if !self.is_attached_to(logger) {
            return Ok(None);
        }
        if !logger.is_trace_channel_enabled(self.trace_namespace.as_str(), name.as_str()) {
            return Ok(None);
        }
        let prefix = build_prefix(self.trace_namespace.as_str(), name.as_str(), location, logger.output_options());
        Ok(Some(make_line(prefix.as_str(), message.as_str())))
    }

    /// The line for `message` at `severity`, if `logger` lists this namespace.
    pub fn log_with_location(&self, logger: &Logger, severity: Severity, location: SourceLocation, message: String) -> (r: Result<
        Option<String>,
        TraceError,
    >)
        ensures
            log_line_effect(self.sees(logger), self.namespace_view(), severity, location, message@, r),
    {
        if !self.is_attached_to(logger) {
            return Ok(None);
        }
        if !logger.lists_namespace(self.trace_namespace.as_str()) {
            return Ok(None);
        }
        let prefix = build_prefix(self.trace_namespace.as_str(), severity_text(severity), location, logger.output_options());
        Ok(Some(make_line(prefix.as_str(), message.as_str())))
    }

    /// Like `trace_with_location`, but silent when this call site last traced with the same
    /// `key`; the key is recorded otherwise.
    pub fn trace_changed_with_location(
        &mut self,
        logger: &Logger,
        channel: &str,
        key: String,
        location: SourceLocation,
        message: String,
    ) -> (r: Result<Option<String>, TraceError>)
        ensures
            final(self).namespace_view() == old(self).namespace_view(),
            final(self).channels_view() == old(self).channels_view(),
            final(self).attached_view() == old(self).attached_view(),
            changed_effect(
                old(self).changed_view(),
                final(self).changed_view(),
                old(self).sees(logger),
                old(self).namespace_view(),
                channel@,
                key@,
                location,
                message@,
                r,
            ),
    {
        let name = crate::text::trim_str(channel);
        if !is_valid_channel_path(name.as_str()) {
            return Err(TraceError::from_string(crate::text::concat3("invalid trace channel '", name.as_str(), "'")));
        }
        let mut site = String::from_str(location.file);
        site.append(":");
        site.append(crate::text::decimal(location.line as u64).as_str());
        site.append(":");
        site.append(location.function);
        site.append(":");
        site.append(name.as_str());
        assert(site@ == site_key_spec(location, name@));
        match self.find_changed(site.as_str()) {
            Some(i) => {
                if crate::text::str_eq(self.changed_keys[i].1.as_str(), key.as_str()) {
                    return Ok(None);
                }
                self.set_changed(i, key);
            },
            None => {
                self.push_changed(site, key);
            },
        }
        self.trace_with_location(logger, channel, location, message)
    }

    fn find_changed(&self, site: &str) -> (r: Option<usize>)
        ensures
            r is None <==> !self.changed_view().dom().contains(site@),
            r matches Some(i) ==> i < self.changed_keys@.len() && self.changed_keys@[i as int].0@ == site@
                && self.changed_view()[site@] == self.changed_keys@[i as int].1@,
    {
        proof {
            use_type_invariant(self);
        }
        let ghost keys = pair_keys(self.changed_keys@);
        let mut i: usize = 0;
        while i < self.changed_keys.len()
            invariant
                keys == pair_keys(self.changed_keys@),
                unique_keys(keys),
                i <= self.changed_keys@.len(),
                forall|k: int| 0 <= k < i ==> keys[k] != site@,
            decreases self.changed_keys@.len() - i,
        {
            if crate::text::str_eq(self.changed_keys[i].0.as_str(), site) {
                proof {
                    assert(keys[i as int] == site@);
                    lemma_unique_find(keys, i as int);
                }
                return Some(i);
            }
            i = i + 1;
        }
        None
    }

    fn set_changed(&mut self, i: usize, key: String)
        requires
            i < old(self).changed_keys@.len(),
        ensures
            final(self).namespace_view() == old(self).namespace_view(),
            final(self).channels_view() == old(self).channels_view(),
            final(self).attached_view() == old(self).attached_view(),
            final(self).changed_view() == old(self).changed_view().insert(old(self).changed_keys@[i as int].0@, key@),
    {
        proof {
            use_type_invariant(&*self);
        }
        let ghost before = self.changed_keys@;
        let ghost site = before[i as int].0@;
        let mut pairs: Vec<(String, String)> = Vec::new();
        std::mem::swap(&mut pairs, &mut self.changed_keys);
        let s = pairs[i].0.clone();
        pairs.set(i, (s, key));
        proof {
            let keys = pair_keys(pairs@);
            assert(keys =~= pair_keys(before));
            let target = changed_map(before).insert(site, key@);
            assert forall|k: Seq<char>| #[trigger] changed_map(pairs@).dom().contains(k) == target.dom().contains(k) by {
                if k == site {
                    assert(keys[i as int] == site);
                }
            }
            assert forall|k: Seq<char>| changed_map(pairs@).dom().contains(k) implies #[trigger] changed_map(pairs@)[k] == target[k] by {
                let j = choose|j: int| 0 <= j < keys.len() && keys[j] == k;
                lemma_unique_find(keys, j);
                lemma_unique_find(pair_keys(before), j);
                if j != i as int {
                    assert(keys[j] != keys[i as int]);
                }
            }
            assert(changed_map(pairs@) =~= target);
        }
        self.changed_keys = pairs;
    }

    fn push_changed(&mut self, site: String, key: String)
        requires
            !old(self).changed_view().dom().contains(site@),
        ensures
            final(self).namespace_view() == old(self).namespace_view(),
            final(self).channels_view() == old(self).channels_view(),
            final(self).attached_view() == old(self).attached_view(),
            final(self).changed_view() == old(self).changed_view().insert(site@, key@),
    {
        proof {
            use_type_invariant(&*self);
        }
        let ghost before = self.changed_keys@;
        let ghost sv = site@;
        let ghost kv = key@;
        let mut pairs: Vec<(String, String)> = Vec::new();
        std::mem::swap(&mut pairs, &mut self.changed_keys);
        pairs.push((site, key));
        proof {
            let keys = pair_keys(pairs@);
            let bk = pair_keys(before);
            assert(keys =~= bk.push(sv));
            assert forall|x: int, y: int| 0 <= x < keys.len() && 0 <= y < keys.len() && x != y implies keys[x] != keys[y] by {
                if x == bk.len() {
                    assert(keys[y] == bk[y]);
                } else if y == bk.len() {
                    assert(keys[x] == bk[x]);
                }
            }
            let target = changed_map(before).insert(sv, kv);
            assert forall|k: Seq<char>| #[trigger] changed_map(pairs@).dom().contains(k) == target.dom().contains(k) by {
                if k == sv {
                    assert(keys[bk.len() as int] == sv);
                } else if bk.contains(k) {
                    let j = choose|j: int| 0 <= j < bk.len() && bk[j] == k;
                    assert(keys[j] == k);
                } else if keys.contains(k) {
                    let j = choose|j: int| 0 <= j < keys.len() && keys[j] == k;
                    assert(j < bk.len());
                }
            }
            assert forall|k: Seq<char>| changed_map(pairs@).dom().contains(k) implies #[trigger] changed_map(pairs@)[k] == target[k] by {
                let j = choose|j: int| 0 <= j < keys.len() && keys[j] == k;
                lemma_unique_find(keys, j);
                if j < bk.len() {
                    lemma_unique_find(bk, j);
                    assert(pairs@[j] == before[j]);
                }
            }
            assert(changed_map(pairs@) =~= target);
        }
        self.changed_keys = pairs;
    }
}

impl Logger {
    /// Whether a trace logger for `trace_namespace` was added.
    pub fn lists_namespace(&self, trace_namespace: &str) -> (r: bool)
        ensures
            r == self.view().namespaces.contains(trace_namespace@),
    {
        let ghost names = crate::kcli::model::strings_view(self.namespaces@);
        let mut i: usize = 0;
        while i < self.namespaces.len()
            invariant
                names == crate::kcli::model::strings_view(self.namespaces@),
                i <= self.namespaces@.len(),
                forall|k: int| 0 <= k < i ==> names[k] != trace_namespace@,
            decreases self.namespaces@.len() - i,
        {
            if crate::text::str_eq(self.namespaces[i].as_str(), trace_namespace) {
                assert(names[i as int] == trace_namespace@);
                return true;
            }
            i = i + 1;
        }
        false
    }
}

impl Logger {
    /// Every namespace (sorted) with its registered channels (sorted).
    pub fn channel_listing(&self) -> (r: Result<Vec<(String, Vec<String>)>, TraceError>)
        ensures
            r matches Ok(listing) && {
                let names = listing@.map_values(|e: (String, Vec<String>)| e.0@);
                &&& crate::text::sorted_strict(names)
                &&& names.to_set() == self.view().namespaces
                &&& forall|k: int| 0 <= k < listing@.len() ==> {
                    let chans = crate::kcli::model::strings_view(#[trigger] listing@[k].1@);
                    &&& crate::text::sorted_strict(chans)
                    &&& chans.to_set() == channels_of(self.view().channels, listing@[k].0@)
                }
            },
    {
        let names = match self.get_namespaces() {
            Ok(n) => n,
            Err(e) => {
                return Err(e);
            },
        };
        let ghost nv = crate::kcli::model::strings_view(names@);
        proof {
            use_type_invariant(self);
            assert forall|k: int| 0 <= k < nv.len() implies is_identifier(#[trigger] nv[k]) by {
                assert(nv.to_set().contains(nv[k]));
                let sv = crate::kcli::model::strings_view(self.namespaces@);
                assert(sv.to_set().contains(nv[k]));
                let j = choose|j: int| 0 <= j < sv.len() && sv[j] == nv[k];
                assert(self.namespaces@[j]@ == sv[j]);
            }
        }
        let mut listing: Vec<(String, Vec<String>)> = Vec::new();
        let mut i: usize = 0;
        while i < names.len()
            invariant
                nv == crate::kcli::model::strings_view(names@),
                forall|k: int| 0 <= k < nv.len() ==> is_identifier(#[trigger] nv[k]),
                i <= names@.len(),
                listing@.len() == i,
                forall|k: int| 0 <= k < i ==> #[trigger] listing@[k].0@ == nv[k],
                forall|k: int| 0 <= k < i ==> {
                    let chans = crate::kcli::model::strings_view(#[trigger] listing@[k].1@);
                    &&& crate::text::sorted_strict(chans)
                    &&& chans.to_set() == channels_of(self.view().channels, listing@[k].0@)
                },
            decreases names@.len() - i,
        {
            let ns = names[i].clone();
            assert(is_identifier(nv[i as int]));
            proof {
                crate::text::lemma_trim_unchanged_name(ns@);
            }
            let chans = match self.get_channels(ns.as_str()) {
                Ok(c) => c,
                Err(e) => {
                    return Err(e);
                },
            };
            listing.push((ns, chans));
            i = i + 1;
        }
        assert(listing@.map_values(|e: (String, Vec<String>)| e.0@) =~= nv);
        Ok(listing)
    }

    /// Turns on what `flag` shows in trace lines.
    pub fn apply_output_flag(&mut self, flag: crate::ktrace::cli::OutputFlag) -> (r: Result<(), TraceError>)
        ensures
            final(self).id_view() == old(self).id_view(),
            r is Ok,
            final(self).view() == (LoggerView {
                options: normalized_options(crate::ktrace::cli::with_output_flag_spec(old(self).view().options, flag)),
                ..old(self).view()
            }),
    {
        let options = self.output_options();
        self.set_output_options(crate::ktrace::cli::with_output_flag(options, flag))
    }
}

} // verus!
