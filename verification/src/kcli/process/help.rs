//! The help listing of an inline parser.
use vstd::prelude::*;
use crate::kcli::model::{BindingView, InlineParserData, InlineView, ValueArity};
use crate::kcli::process::state::rows_view;
use crate::text::push_char;

verus! {

pub open spec fn double_dash() -> Seq<char> {
    seq!['-', '-']
}

/// What follows an option's name in its help row.
pub open spec fn value_suffix(b: BindingView) -> Seq<char> {
    if !b.expects_value {
        Seq::empty()
    } else if b.arity == ValueArity::Optional {
        " [value]"@
    } else {
        " <value>"@
    }
}

/// The help row of the root value, if it has a handler and a description.
pub open spec fn root_rows(p: InlineView) -> Seq<(Seq<char>, Seq<char>)> {
    if p.has_root_handler && p.description.len() > 0 {
        let lhs = double_dash() + p.root;
        let lhs = if p.placeholder.len() > 0 {
            lhs.push(' ') + p.placeholder
        } else {
            lhs
        };
        seq![(lhs, p.description)]
    } else {
        Seq::empty()
    }
}

/// The help row of the command at position `i`.
pub open spec fn command_row(p: InlineView, i: int) -> (Seq<char>, Seq<char>) {
    (
        double_dash() + p.root + seq!['-'] + p.command_keys[i] + value_suffix(p.bindings[i]),
        p.bindings[i].description,
    )
}

/// One row per help entry: the root value first, then the commands in order.
pub open spec fn help_rows_spec(p: InlineView) -> Seq<(Seq<char>, Seq<char>)> {
    root_rows(p) + Seq::new(p.command_keys.len(), |i: int| command_row(p, i))
}

fn push_str(s: &mut String, t: &str)
    ensures
        final(s)@ == old(s)@ + t@,
{
    s.append(t);
}

fn dashed(root: &str) -> (r: String)
    ensures
        r@ == double_dash() + root@,
{
    let mut r = String::new();
    push_char(&mut r, '-');
    push_char(&mut r, '-');
    push_str(&mut r, root);
    assert(r@ =~= double_dash() + root@);
    r
}

/// The rows `build_help_rows` lists for `parser`.
pub fn build_help_rows(parser: &InlineParserData) -> (rows: Vec<(String, String)>)
    ensures
        rows_view(rows@) == help_rows_spec(parser.view()),
{
    let ghost p = parser.view();
    let mut rows: Vec<(String, String)> = Vec::new();
    if parser.root_value_handler.is_some() && !parser.root_value_description.as_str().is_empty() {
        let mut lhs = dashed(parser.root_name.as_str());
        if !parser.root_value_placeholder.as_str().is_empty() {
            push_char(&mut lhs, ' ');
            push_str(&mut lhs, parser.root_value_placeholder.as_str());
        }
        rows.push((lhs, parser.root_value_description.clone()));
    }
    assert(rows_view(rows@) =~= root_rows(p));
    let ghost base = rows@.len();
    let n = parser.commands.len();
    let mut i: usize = 0;
    while i < n
        invariant
            n == p.command_keys.len(),
            p == parser.view(),
            i <= n,
            base == root_rows(p).len(),
            rows_view(rows@) =~= root_rows(p) + Seq::new(i as nat, |k: int| command_row(p, k)),
        decreases n - i,
    {
        let entry = parser.commands.entry(i);
        let mut lhs = dashed(parser.root_name.as_str());
        push_char(&mut lhs, '-');
        push_str(&mut lhs, entry.command.as_str());
        if entry.binding.expects_value() {
            match entry.binding.value_arity() {
                ValueArity::Optional => push_str(&mut lhs, " [value]"),
                ValueArity::Required => push_str(&mut lhs, " <value>"),
            }
        }
        proof {
            assert(p.command_keys[i as int] == entry.command@);
            assert(p.bindings[i as int] == entry.binding.view());
            assert(lhs@ =~= command_row(p, i as int).0);
        }
        let ghost old_rows = rows@;
        rows.push((lhs, entry.binding.description.clone()));
        proof {
            assert(rows_view(rows@) =~= rows_view(old_rows).push(command_row(p, i as int)));
            assert(Seq::new((i + 1) as nat, |k: int| command_row(p, k)) =~= Seq::new(
                i as nat,
                |k: int| command_row(p, k),
            ).push(command_row(p, i as int)));
            assert(rows_view(rows@)[rows@.len() - 1] == command_row(p, i as int));
            assert(rows_view(rows@) =~= root_rows(p) + Seq::new(
                (i + 1) as nat,
                |k: int| command_row(p, k),
            ));
        }
        i = i + 1;
    }
    rows
}

/// Number of bytes of the UTF-8 encoding.
pub open spec fn utf8_len(s: Seq<char>) -> nat {
    (vstd::utf8::encode_utf8(s).len() as usize) as nat
}

/// The widest left-hand side among the first `n` rows, in bytes.
pub open spec fn max_lhs(rows: Seq<(Seq<char>, Seq<char>)>, n: int) -> nat
    decreases n,
{
    if n <= 0 {
        0
    } else {
        let m = max_lhs(rows, n - 1);
        let l = utf8_len(rows[n - 1].0);
        if l > m {
            l
        } else {
            m
        }
    }
}

pub open spec fn spaces(n: nat) -> Seq<char> {
    Seq::new(n, |i: int| ' ')
}

/// One line of the listing: name, padding to the widest name plus two, description.
pub open spec fn help_line(row: (Seq<char>, Seq<char>), width: nat) -> Seq<char> {
    "  "@ + row.0 + spaces((width - utf8_len(row.0)) as nat) + spaces(2) + row.1 + seq!['\n']
}

pub open spec fn help_lines(rows: Seq<(Seq<char>, Seq<char>)>, width: nat, n: int) -> Seq<char>
    decreases n,
{
    if n <= 0 {
        Seq::empty()
    } else {
        help_lines(rows, width, n - 1) + help_line(rows[n - 1], width)
    }
}

/// The listing the help option prints.
pub open spec fn help_text_spec(root: Seq<char>, rows: Seq<(Seq<char>, Seq<char>)>) -> Seq<char> {
    let body = if rows.len() == 0 {
        "  (no options registered)\n"@
    } else {
        help_lines(rows, max_lhs(rows, rows.len() as int), rows.len() as int)
    };
    seq!['\n'] + "Available --"@ + root + "-* options:\n"@ + body + seq!['\n']
}

fn push_spaces(s: &mut String, n: usize)
    ensures
        final(s)@ == old(s)@ + spaces(n as nat),
{
    let mut i: usize = 0;
    while i < n
        invariant
            i <= n,
            s@ == old(s)@ + spaces(i as nat),
        decreases n - i,
    {
        push_char(s, ' ');
        i = i + 1;
        assert(s@ =~= old(s)@ + spaces(i as nat));
    }
}

/// The text printed for `--<root>` given without a value.
pub fn render_help(root: &str, help_rows: &[(String, String)]) -> (text: String)
    ensures
        text@ == help_text_spec(root@, rows_view(help_rows@)),
{
    let ghost rows = rows_view(help_rows@);
    let mut width: usize = 0;
    let mut i: usize = 0;
    while i < help_rows.len()
        invariant
            i <= help_rows@.len(),
            rows == rows_view(help_rows@),
            width == max_lhs(rows, i as int),
        decreases help_rows@.len() - i,
    {
        let l = help_rows[i].0.as_str().len();
        assert(rows[i as int].0 == help_rows@[i as int].0@);
        if l > width {
            width = l;
        }
        i = i + 1;
    }
    let mut text = String::new();
    push_char(&mut text, '\n');
    push_str(&mut text, "Available --");
    push_str(&mut text, root);
    push_str(&mut text, "-* options:\n");
    let ghost head = text@;
    if help_rows.len() == 0 {
        push_str(&mut text, "  (no options registered)\n");
    } else {
        let mut k: usize = 0;
        while k < help_rows.len()
            invariant
                k <= help_rows@.len(),
                rows == rows_view(help_rows@),
                width == max_lhs(rows, rows.len() as int),
                text@ == head + help_lines(rows, width as nat, k as int),
            decreases help_rows@.len() - k,
        {
            let lhs = help_rows[k].0.as_str();
            let l = lhs.len();
            proof {
                lemma_max_lhs_bound(rows, rows.len() as int, k as int);
                assert(rows[k as int].0 == help_rows@[k as int].0@);
            }
            push_str(&mut text, "  ");
            push_str(&mut text, lhs);
            push_spaces(&mut text, width - l);
            push_spaces(&mut text, 2);
            push_str(&mut text, help_rows[k].1.as_str());
            push_char(&mut text, '\n');
            proof {
                assert(rows[k as int].1 == help_rows@[k as int].1@);
                assert(text@ =~= head + help_lines(rows, width as nat, k + 1));
            }
            k = k + 1;
        }
    }
    push_char(&mut text, '\n');
    proof {
        assert(text@ =~= help_text_spec(root@, rows));
    }
    text
}

proof fn lemma_max_lhs_bound(rows: Seq<(Seq<char>, Seq<char>)>, n: int, k: int)
    requires
        0 <= k < n <= rows.len(),
    ensures
        utf8_len(rows[k].0) <= max_lhs(rows, n),
    decreases n,
{
    if k < n - 1 {
        lemma_max_lhs_bound(rows, n - 1, k);
    }
}

} // verus!
