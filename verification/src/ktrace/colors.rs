//! Named trace colors.
use vstd::prelude::*;
use crate::ktrace::model::{trace_err, TraceError, DEFAULT_COLOR};
use crate::text::{sorted_strict, str_views, trim_spec};

verus! {

/// The color names and their numbers, in lookup order.
pub open spec fn color_table() -> Seq<(Seq<char>, u16)> {
    seq![
        ("Default"@, DEFAULT_COLOR),
        ("default"@, DEFAULT_COLOR),
        ("Black"@, 0u16),
        ("Red"@, 1u16),
        ("Green"@, 2u16),
        ("Yellow"@, 3u16),
        ("Blue"@, 4u16),
        ("Magenta"@, 5u16),
        ("Cyan"@, 6u16),
        ("White"@, 7u16),
        ("BrightBlue"@, 12u16),
        ("BrightCyan"@, 14u16),
        ("BrightGreen"@, 10u16),
        ("BrightMagenta"@, 13u16),
        ("BrightWhite"@, 15u16),
        ("BrightYellow"@, 11u16),
        ("DeepSkyBlue1"@, 39u16),
        ("Gold3"@, 142u16),
        ("Orange3"@, 172u16),
        ("MediumSpringGreen"@, 49u16),
        ("LightSkyBlue1"@, 153u16),
        ("MediumOrchid1"@, 171u16),
        ("LightSalmon1"@, 216u16),
    ]
}

fn color_entries() -> (r: Vec<(&'static str, u16)>)
    ensures
        r@.map_values(|e: (&'static str, u16)| (e.0@, e.1)) == color_table(),
{
    let mut r: Vec<(&'static str, u16)> = Vec::new();
    r.push(("Default", DEFAULT_COLOR));
    r.push(("default", DEFAULT_COLOR));
    r.push(("Black", 0));
    r.push(("Red", 1));
    r.push(("Green", 2));
    r.push(("Yellow", 3));
    r.push(("Blue", 4));
    r.push(("Magenta", 5));
    r.push(("Cyan", 6));
    r.push(("White", 7));
    r.push(("BrightBlue", 12));
    r.push(("BrightCyan", 14));
    r.push(("BrightGreen", 10));
    r.push(("BrightMagenta", 13));
    r.push(("BrightWhite", 15));
    r.push(("BrightYellow", 11));
    r.push(("DeepSkyBlue1", 39));
    r.push(("Gold3", 142));
    r.push(("Orange3", 172));
    r.push(("MediumSpringGreen", 49));
    r.push(("LightSkyBlue1", 153));
    r.push(("MediumOrchid1", 171));
    r.push(("LightSalmon1", 216));
    assert(r@.map_values(|e: (&'static str, u16)| (e.0@, e.1)) =~= color_table());
    r
}

/// The number of the first table entry named `name`, from position `i` on.
pub open spec fn color_lookup(name: Seq<char>, i: int) -> Option<u16>
    decreases color_table().len() - i,
{
    if i < 0 || i >= color_table().len() {
        None
    } else if color_table()[i].0 == name {
        Some(color_table()[i].1)
    } else {
        color_lookup(name, i + 1)
    }
}

/// The color named `color_name` (surrounding white space ignored).
pub open spec fn color_spec(color_name: Seq<char>) -> Result<u16, Seq<char>> {
    let token = trim_spec(color_name);
    if token.len() == 0 {
        Err("trace color name must not be empty"@)
    } else {
        match color_lookup(token, 0) {
            Some(c) => Ok(c),
            None => Err("unknown trace color '"@ + token + "'"@),
        }
    }
}

/// The number of the color named `color_name`.
pub fn color(color_name: &str) -> (r: Result<u16, TraceError>)
    ensures
        match color_spec(color_name@) {
            Ok(c) => r == Ok::<u16, TraceError>(c),
            Err(m) => trace_err(r, m),
        },
{
    let token = crate::text::trim_str(color_name);
    if token.unicode_len() == 0 {
        return Err(TraceError::new("trace color name must not be empty"));
    }
    let entries = color_entries();
    let ghost t = color_table();
    let mut i: usize = 0;
    while i < entries.len()
        invariant
            entries@.map_values(|e: (&'static str, u16)| (e.0@, e.1)) == t,
            t == color_table(),
            i <= entries@.len(),
            token@ == trim_spec(color_name@),
            token@.len() > 0,
            color_lookup(token@, 0) == color_lookup(token@, i as int),
        decreases entries@.len() - i,
    {
        assert(t[i as int] == (entries@[i as int].0@, entries@[i as int].1));
        if crate::text::str_eq(entries[i].0, token.as_str()) {
            return Ok(entries[i].1);
        }
        i = i + 1;
    }
    Err(TraceError::from_string(crate::text::concat3("unknown trace color '", token.as_str(), "'")))
}

/// Whether a table entry is listed: all but the lower-case spelling of the default.
pub open spec fn listed_entry(e: (Seq<char>, u16)) -> bool {
    !(e.1 == DEFAULT_COLOR && e.0 == "default"@)
}

/// The names a color can be given by, except the lower-case `default`.
pub open spec fn listed_color_names() -> Set<Seq<char>> {
    color_table().filter(|e: (Seq<char>, u16)| listed_entry(e)).map_values(|e: (Seq<char>, u16)| e.0).to_set()
}

/// The color names, sorted, each once (`Default` stands for both spellings).
pub fn available_color_names() -> (r: Vec<&'static str>)
    ensures
        sorted_strict(str_views(r@)),
        str_views(r@).to_set() == listed_color_names(),
{
    let entries = color_entries();
    let ghost t = color_table();
    let ghost f = |e: (Seq<char>, u16)| listed_entry(e);
    let mut names: Vec<&'static str> = Vec::new();
    let mut i: usize = 0;
    proof {
        reveal_strlit("default");
        reveal(Seq::filter);
        assert(t.take(0).filter(f) =~= Seq::<(Seq<char>, u16)>::empty());
        assert(str_views(names@) =~= t.take(0).filter(f).map_values(|e: (Seq<char>, u16)| e.0));
    }
    while i < entries.len()
        invariant
            entries@.map_values(|e: (&'static str, u16)| (e.0@, e.1)) == t,
            t == color_table(),
            f == (|e: (Seq<char>, u16)| listed_entry(e)),
            i <= entries@.len(),
            str_views(names@) == t.take(i as int).filter(f).map_values(|e: (Seq<char>, u16)| e.0),
        decreases entries@.len() - i,
    {
        let (name, id) = entries[i];
        assert(t[i as int] == (name@, id));
        proof {
            reveal(Seq::filter);
            assert(t.take(i as int + 1).drop_last() =~= t.take(i as int));
            assert(t.take(i as int + 1).last() == (name@, id));
        }
        if id == DEFAULT_COLOR && crate::text::str_eq(name, "default") {
            assert(!f((name@, id)));
        } else {
            assert(f((name@, id)));
            let ghost before = names@;
            names.push(name);
            proof {
                assert(str_views(names@) =~= str_views(before).push(name@));
                assert(str_views(names@) =~= t.take(i as int + 1).filter(f).map_values(
                    |e: (Seq<char>, u16)| e.0,
                ));
            }
        }
        i = i + 1;
    }
    proof {
        assert(t.take(i as int) =~= t);
    }
    crate::text::sort_unique(&names)
}

proof fn lemma_lookup_in_range(name: Seq<char>, i: int)
    requires
        0 <= i,
    ensures
        color_lookup(name, i) matches Some(c) ==> c == DEFAULT_COLOR || c <= 255,
    decreases color_table().len() - i,
{
    if i < color_table().len() && color_table()[i].0 != name {
        lemma_lookup_in_range(name, i + 1);
    }
}

/// A named color is a terminal color number or the default.
pub proof fn lemma_color_in_range(name: Seq<char>)
    ensures
        color_spec(name) matches Ok(c) ==> c == DEFAULT_COLOR || c <= 255,
{
    lemma_lookup_in_range(trim_spec(name), 0);
}


proof fn lemma_lookup_finds(name: Seq<char>, i: int)
    requires
        0 <= i,
    ensures
        color_lookup(name, i) is Some <==> exists|j: int| i <= j < color_table().len() && color_table()[j].0 == name,
    decreases color_table().len() - i,
{
    if i < color_table().len() {
        lemma_lookup_finds(name, i + 1);
        if exists|j: int| i <= j < color_table().len() && color_table()[j].0 == name {
            let j = choose|j: int| i <= j < color_table().len() && color_table()[j].0 == name;
            if j > i {
                assert(exists|j2: int| i + 1 <= j2 < color_table().len() && color_table()[j2].0 == name);
            }
        }
    }
}

/// `available_color_names` lists exactly the names, other than the lower-case `default`,
/// that `color` accepts as they stand.
pub proof fn lemma_listed_names_are_accepted(name: Seq<char>)
    requires
        name.len() > 0,
        trim_spec(name) == name,
        name != "default"@,
    ensures
        listed_color_names().contains(name) <==> color_spec(name) is Ok,
{
    let t = color_table();
    let f = |e: (Seq<char>, u16)| listed_entry(e);
    let fl = t.filter(f);
    let names = fl.map_values(|e: (Seq<char>, u16)| e.0);
    lemma_lookup_finds(name, 0);
    if color_spec(name) is Ok {
        let j = choose|j: int| 0 <= j < t.len() && t[j].0 == name;
        assert(f(t[j]));
        t.lemma_filter_contains(f, j);
        let k = choose|k: int| 0 <= k < fl.len() && fl[k] == t[j];
        assert(names[k] == name);
        assert(names.contains(name));
    }
    if listed_color_names().contains(name) {
        assert(names.contains(name));
        let k = choose|k: int| 0 <= k < names.len() && names[k] == name;
        assert(fl.contains(fl[k]));
        t.lemma_filter_contains_rev(f, fl[k]);
        let j = choose|j: int| 0 <= j < t.len() && t[j] == fl[k];
        assert(t[j].0 == name);
    }
}

} // verus!
