use vstd::prelude::*;

use crate::lexer::push_char;
use crate::syntax::syntax_kind_label;
use crate::text::TextRange;
use crate::tree::{SyntaxElement, SyntaxNode};

verus! {

pub open spec fn digit_char(d: nat) -> char {
    if d == 0 {
        '0'
    } else if d == 1 {
        '1'
    } else if d == 2 {
        '2'
    } else if d == 3 {
        '3'
    } else if d == 4 {
        '4'
    } else if d == 5 {
        '5'
    } else if d == 6 {
        '6'
    } else if d == 7 {
        '7'
    } else if d == 8 {
        '8'
    } else {
        '9'
    }
}

/// The decimal digits of `n`, without leading zeros.
pub open spec fn decimal(n: nat) -> Seq<char>
    decreases n,
{
    if n < 10 {
        seq![digit_char(n)]
    } else {
        decimal(n / 10).push(digit_char(n % 10))
    }
}

fn digit(d: u32) -> (r: char)
    requires
        d < 10,
    ensures
        r == digit_char(d as nat),
{
    if d == 0 {
        '0'
    } else if d == 1 {
        '1'
    } else if d == 2 {
        '2'
    } else if d == 3 {
        '3'
    } else if d == 4 {
        '4'
    } else if d == 5 {
        '5'
    } else if d == 6 {
        '6'
    } else if d == 7 {
        '7'
    } else if d == 8 {
        '8'
    } else {
        '9'
    }
}

/// Appends the decimal digits of `n`.
pub fn push_decimal(out: &mut String, n: u64)
    ensures
        final(out)@ == old(out)@ + decimal(n as nat),
    decreases n,
{
    if n >= 10 {
        push_decimal(out, n / 10);
    }
    push_char(out, digit((n % 10) as u32));
    proof {
        assert(old(out)@ + decimal(n as nat) =~= final(out)@) by {
            if n >= 10 {
                assert(decimal(n as nat) == decimal((n / 10) as nat).push(digit_char((n % 10) as nat)));
            }
        }
    }
}

/// Appends `s`.
pub fn push_str(out: &mut String, s: &str)
    ensures
        final(out)@ == old(out)@ + s@,
{
    out.append(s);
}

/// How a character is written inside a quoted string in the debug output.
pub open spec fn escape_char(c: char) -> Seq<char> {
    if c == '\n' {
        seq!['\\', 'n']
    } else if c == '\r' {
        seq!['\\', 'r']
    } else if c == '\t' {
        seq!['\\', 't']
    } else if c == '\\' {
        seq!['\\', '\\']
    } else if c == '"' {
        seq!['\\', '"']
    } else if c == '\0' {
        seq!['\\', '0']
    } else {
        seq![c]
    }
}

pub open spec fn escape(s: Seq<char>) -> Seq<char>
    decreases s.len(),
{
    if s.len() == 0 {
        seq![]
    } else {
        escape(s.drop_last()) + escape_char(s.last())
    }
}

fn push_escaped_char(out: &mut String, c: char)
    ensures
        final(out)@ == old(out)@ + escape_char(c),
{
    if c == '\n' {
        push_char(out, '\\');
        push_char(out, 'n');
    } else if c == '\r' {
        push_char(out, '\\');
        push_char(out, 'r');
    } else if c == '\t' {
        push_char(out, '\\');
        push_char(out, 't');
    } else if c == '\\' {
        push_char(out, '\\');
        push_char(out, '\\');
    } else if c == '"' {
        push_char(out, '\\');
        push_char(out, '"');
    } else if c == '\0' {
        push_char(out, '\\');
        push_char(out, '0');
    } else {
        push_char(out, c);
    }
    assert(final(out)@ =~= old(out)@ + escape_char(c));
}

/// Appends `s` with its special characters escaped.
pub fn push_escaped(out: &mut String, s: &str)
    ensures
        final(out)@ == old(out)@ + escape(s@),
{
    let ghost start = out@;
    for c in it: s.chars()
        invariant
            it.seq() == s@,
            out@ == start + escape(s@.take(it.index() as int)),
    {
        let ghost i = it.index() as int;
        push_escaped_char(out, c);
        proof {
            assert(s@.take(i + 1).drop_last() =~= s@.take(i));
            assert(s@.take(i + 1).last() == c);
        }
        assert(out@ =~= start + escape(s@.take(i + 1)));
    }
    assert(s@.take(s@.len() as int) =~= s@);
}

/// `start..end`
pub open spec fn range_text(r: TextRange) -> Seq<char> {
    decimal(r.start as nat) + seq!['.', '.'] + decimal(r.end as nat)
}

pub fn push_range(out: &mut String, r: TextRange)
    ensures
        final(out)@ == old(out)@ + range_text(r),
{
    push_decimal(out, r.start as u64);
    push_str(out, "..");
    push_decimal(out, r.end as u64);
    proof {
        reveal_strlit("..");
    }
    assert(final(out)@ =~= old(out)@ + range_text(r));
}

/// One line per element under `e`, in leaf order, joined by newlines: a node as its kind
/// and range, a token also with its escaped text in quotes. Each line starts with
/// `prefix`, and two more spaces per level of nesting.
pub open spec fn elem_debug(e: SyntaxElement, prefix: Seq<char>) -> Seq<char>
    decreases e,
{
    match e {
        SyntaxElement::Token(t) => prefix + syntax_kind_label(t.kind) + seq!['@'] + range_text(
            t.range,
        ) + seq![' ', '"'] + escape(t.text@) + seq!['"'],
        SyntaxElement::Node(n) => node_debug(n, prefix),
    }
}

pub open spec fn node_debug(n: SyntaxNode, prefix: Seq<char>) -> Seq<char>
    decreases n,
{
    prefix + syntax_kind_label(n.kind) + seq!['@'] + range_text(n.range) + children_debug(
        n.children@,
        prefix + seq![' ', ' '],
    )
}

/// Each of `cs`, on a line of its own after a newline.
pub open spec fn children_debug(cs: Seq<SyntaxElement>, prefix: Seq<char>) -> Seq<char>
    decreases cs,
{
    if cs.len() == 0 {
        seq![]
    } else {
        children_debug(cs.subrange(0, cs.len() - 1), prefix) + seq!['\n'] + elem_debug(
            cs[cs.len() - 1],
            prefix,
        )
    }
}

/// Appends the debug lines of `e`.
pub fn push_elem_debug(out: &mut String, e: &SyntaxElement, prefix: &String)
    ensures
        final(out)@ == old(out)@ + elem_debug(*e, prefix@),
    decreases e,
{
    match e {
        SyntaxElement::Token(t) => {
            let ghost start = out@;
            push_str(out, prefix.as_str());
            push_str(out, t.kind.label());
            push_char(out, '@');
            push_range(out, t.range);
            push_char(out, ' ');
            push_char(out, '"');
            push_escaped(out, t.text.as_str());
            push_char(out, '"');
            assert(out@ =~= start + elem_debug(*e, prefix@));
        },
        SyntaxElement::Node(n) => {
            push_node_debug(out, n, prefix);
        },
    }
}

/// Appends the debug lines of `n`.
pub fn push_node_debug(out: &mut String, n: &SyntaxNode, prefix: &String)
    ensures
        final(out)@ == old(out)@ + node_debug(*n, prefix@),
    decreases n,
{
    let ghost start = out@;
    push_str(out, prefix.as_str());
    push_str(out, n.kind.label());
    push_char(out, '@');
    push_range(out, n.range);
    let mut inner = prefix.clone();
    push_char(&mut inner, ' ');
    push_char(&mut inner, ' ');
    assert(inner@ =~= prefix@ + seq![' ', ' ']);
    let ghost mid = out@;
    let mut i: usize = 0;
    while i < n.children.len()
        invariant
            i <= n.children@.len(),
            inner@ == prefix@ + seq![' ', ' '],
            out@ == mid + children_debug(n.children@.take(i as int), inner@),
        decreases n.children@.len() - i,
    {
        push_char(out, '\n');
        proof {
            assert(decreases_to!(*n => n.children));
            assert(decreases_to!(n.children => n.children@));
            assert(decreases_to!(n.children@ => n.children@[i as int]));
        }
        push_elem_debug(out, &n.children[i], &inner);
        proof {
            assert(n.children@.take(i + 1).subrange(0, i as int) =~= n.children@.take(i as int));
        }
        i = i + 1;
        assert(out@ =~= mid + children_debug(n.children@.take(i as int), inner@));
    }
    assert(n.children@.take(i as int) =~= n.children@);
    assert(out@ =~= start + node_debug(*n, prefix@));
}

} // verus!
