use vstd::prelude::*;

use crate::render::{push_range, push_str, range_text};
use crate::syntax::{syntax_kind_name, SyntaxKind};
use crate::text::TextRange;

verus! {

/// A syntax error: what the parser looked for, what it found instead (none at the end of
/// the input), and where.
#[derive(Debug, Clone, PartialEq, Eq)]
pub struct ParseError {
    pub expected: Vec<SyntaxKind>,
    pub found: Option<SyntaxKind>,
    pub range: TextRange,
}

/// The `i`-th item of the list of expected kinds, with the separator before it.
pub open spec fn expected_piece(ks: Seq<SyntaxKind>, i: int) -> Seq<char> {
    if i == 0 {
        syntax_kind_name(ks[i])
    } else if i == ks.len() - 1 {
        " or "@ + syntax_kind_name(ks[i])
    } else {
        ", "@ + syntax_kind_name(ks[i])
    }
}

/// The first `k` items of the list of expected kinds.
pub open spec fn expected_pieces(ks: Seq<SyntaxKind>, k: int) -> Seq<char>
    decreases k,
{
    if k <= 0 {
        seq![]
    } else {
        expected_pieces(ks, k - 1) + expected_piece(ks, k - 1)
    }
}

/// The names of `ks` in order, separated by commas but for an `or` before the last.
pub open spec fn expected_text(ks: Seq<SyntaxKind>) -> Seq<char> {
    expected_pieces(ks, ks.len() as int)
}

pub open spec fn found_text(found: Option<SyntaxKind>) -> Seq<char> {
    match found {
        Some(k) => syntax_kind_name(k),
        None => "end of input"@,
    }
}

/// `error at <start>..<end>: expected <kinds>, but found <kind>`
pub open spec fn error_message(e: ParseError) -> Seq<char> {
    "error at "@ + range_text(e.range) + ": expected "@ + expected_text(e.expected@)
        + ", but found "@ + found_text(e.found)
}

impl ParseError {
    /// The diagnostic as one line of text.
    pub fn message(&self) -> (r: String)
        ensures
            r@ == error_message(*self),
    {
        let mut out = String::new();
        self.push_message(&mut out);
        assert(out@ =~= error_message(*self));
        out
    }

    pub fn push_message(&self, out: &mut String)
        ensures
            final(out)@ == old(out)@ + error_message(*self),
    {
        let ghost start = out@;
        push_str(out, "error at ");
        push_range(out, self.range);
        push_str(out, ": expected ");
        let ghost mid = out@;
        let n = self.expected.len();
        let mut i: usize = 0;
        while i < n
            invariant
                n == self.expected@.len(),
                i <= n,
                out@ == mid + expected_pieces(self.expected@, i as int),
            decreases n - i,
        {
            if i == 0 {
                push_str(out, self.expected[i].name());
            } else if i == n - 1 {
                push_str(out, " or ");
                push_str(out, self.expected[i].name());
            } else {
                push_str(out, ", ");
                push_str(out, self.expected[i].name());
            }
            i = i + 1;
            assert(out@ =~= mid + expected_pieces(self.expected@, i as int));
        }
        push_str(out, ", but found ");
        match self.found {
            Some(k) => push_str(out, k.name()),
            None => push_str(out, "end of input"),
        }
        assert(out@ =~= start + error_message(*self));
    }
}

} // verus!
