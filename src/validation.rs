use vstd::prelude::*;

use crate::ast::{literal_token, literal_value, Literal};
use crate::render::{decimal, push_decimal, push_str};
use crate::syntax::SyntaxKind;
use crate::text::TextRange;
use crate::tree::{SyntaxElement, SyntaxNode};

verus! {

/// A semantic diagnostic: its message and the bytes it is about.
#[derive(Debug, Clone, PartialEq, Eq)]
pub struct ValidationError {
    pub message: String,
    pub range: TextRange,
}

/// The message for a number literal too large for an unsigned 64-bit integer.
pub open spec fn overflow_message() -> Seq<char> {
    "number literal is larger than an integer's maximum value, "@ + decimal(u64::MAX as nat)
}

/// Where a diagnostic about the literal `n` points: its token, or the node when it has none.
pub open spec fn literal_range(n: SyntaxNode) -> TextRange {
    match literal_token(n) {
        Some(t) => t.range,
        None => n.range,
    }
}

/// The ranges that validation reports under `e`, in preorder.
pub open spec fn elem_findings(e: SyntaxElement) -> Seq<TextRange>
    decreases e,
{
    match e {
        SyntaxElement::Token(_) => seq![],
        SyntaxElement::Node(n) => node_findings(n),
    }
}

/// The ranges that validation reports for `n` and its descendants, in preorder: one for
/// each literal whose value does not fit in 64 bits.
pub open spec fn node_findings(n: SyntaxNode) -> Seq<TextRange>
    decreases n,
{
    (if n.kind == SyntaxKind::Literal && literal_value(n) is None {
        seq![literal_range(n)]
    } else {
        seq![]
    }) + children_findings(n.children@)
}

pub open spec fn children_findings(cs: Seq<SyntaxElement>) -> Seq<TextRange>
    decreases cs,
{
    if cs.len() == 0 {
        seq![]
    } else {
        children_findings(cs.subrange(0, cs.len() - 1)) + elem_findings(cs[cs.len() - 1])
    }
}

/// `errs` carry the overflow message at each of `ranges`, in order.
pub open spec fn reports(errs: Seq<ValidationError>, ranges: Seq<TextRange>) -> bool {
    &&& errs.len() == ranges.len()
    &&& forall|i: int|
        0 <= i < errs.len() ==> (#[trigger] errs[i]).range == ranges[i] && errs[i].message@
            == overflow_message()
}

proof fn lemma_reports_push(errs: Seq<ValidationError>, ranges: Seq<TextRange>, e: ValidationError)
    requires
        reports(errs, ranges),
        e.message@ == overflow_message(),
    ensures
        reports(errs.push(e), ranges.push(e.range)),
{
    assert forall|i: int| 0 <= i < errs.len() + 1 implies (#[trigger] errs.push(e)[i]).range
        == ranges.push(e.range)[i] && errs.push(e)[i].message@ == overflow_message() by {
        if i < errs.len() {
            assert(errs.push(e)[i] == errs[i]);
        }
    }
}

fn overflow_error(range: TextRange) -> (r: ValidationError)
    ensures
        r.range == range,
        r.message@ == overflow_message(),
{
    let mut message = String::new();
    push_str(&mut message, "number literal is larger than an integer's maximum value, ");
    push_decimal(&mut message, u64::MAX);
    assert(message@ =~= overflow_message());
    ValidationError { message, range }
}

fn validate_literal(n: &SyntaxNode, errors: &mut Vec<ValidationError>)
    requires
        n.kind == SyntaxKind::Literal,
    ensures
        literal_value(*n) is None ==> final(errors)@ == old(errors)@.push(
            final(errors)@.last(),
        ) && final(errors)@.last().range == literal_range(*n) && final(errors)@.last().message@
            == overflow_message(),
        literal_value(*n) is Some ==> final(errors)@ == old(errors)@,
{
    let literal = Literal(n);
    if literal.parse().is_none() {
        let range = match literal.token() {
            Some(t) => t.range,
            None => n.range,
        };
        errors.push(overflow_error(range));
    }
}

fn validate_elem(e: &SyntaxElement, errors: &mut Vec<ValidationError>, Ghost(ranges): Ghost<
    Seq<TextRange>,
>)
    requires
        reports(old(errors)@, ranges),
    ensures
        reports(final(errors)@, ranges + elem_findings(*e)),
    decreases e,
{
    match e {
        SyntaxElement::Token(_) => {
            assert(ranges + elem_findings(*e) =~= ranges);
        },
        SyntaxElement::Node(n) => {
            validate_node(n, errors, Ghost(ranges));
        },
    }
}

fn validate_node(n: &SyntaxNode, errors: &mut Vec<ValidationError>, Ghost(ranges): Ghost<
    Seq<TextRange>,
>)
    requires
        reports(old(errors)@, ranges),
    ensures
        reports(final(errors)@, ranges + node_findings(*n)),
    decreases n,
{
    let ghost own: Seq<TextRange> = if n.kind == SyntaxKind::Literal && literal_value(*n) is None {
        seq![literal_range(*n)]
    } else {
        seq![]
    };
    if n.kind == SyntaxKind::Literal {
        let ghost before = errors@;
        validate_literal(n, errors);
        proof {
            if literal_value(*n) is None {
                lemma_reports_push(before, ranges, errors@.last());
                assert(ranges.push(literal_range(*n)) =~= ranges + own);
            } else {
                assert(ranges + own =~= ranges);
            }
        }
    } else {
        assert(ranges + own =~= ranges);
    }
    let ghost base = ranges + own;
    let mut i: usize = 0;
    while i < n.children.len()
        invariant
            i <= n.children@.len(),
            reports(errors@, base + children_findings(n.children@.take(i as int))),
        decreases n.children@.len() - i,
    {
        proof {
            assert(decreases_to!(*n => n.children));
            assert(decreases_to!(n.children => n.children@));
            assert(decreases_to!(n.children@ => n.children@[i as int]));
            assert(n.children@.take(i + 1).subrange(0, i as int) =~= n.children@.take(i as int));
            assert(base + children_findings(n.children@.take(i + 1)) =~= base + children_findings(
                n.children@.take(i as int),
            ) + elem_findings(n.children@[i as int]));
        }
        validate_elem(&n.children[i], errors, Ghost(base + children_findings(n.children@.take(i as int))));
        i = i + 1;
    }
    assert(n.children@.take(i as int) =~= n.children@);
    assert(ranges + node_findings(*n) =~= base + children_findings(n.children@));
}

/// The diagnostics for the tree under `node`, in preorder: one for each literal whose value
/// does not fit in an unsigned 64-bit integer. The result depends on the tree alone.
pub fn validate(node: &SyntaxNode) -> (r: Vec<ValidationError>)
    ensures
        reports(r@, node_findings(*node)),
{
    let mut errors: Vec<ValidationError> = Vec::new();
    validate_node(node, &mut errors, Ghost(Seq::empty()));
    assert(Seq::<TextRange>::empty() + node_findings(*node) =~= node_findings(*node));
    errors
}

/// Validation is a function of the tree alone: on equal trees, any two results that meet
/// the contract of `validate` report the same ranges with the same messages.
pub proof fn lemma_validation_pure(
    a: SyntaxNode,
    b: SyntaxNode,
    ra: Seq<ValidationError>,
    rb: Seq<ValidationError>,
)
    requires
        a == b,
        reports(ra, node_findings(a)),
        reports(rb, node_findings(b)),
    ensures
        ra.len() == rb.len(),
        forall|i: int|
            0 <= i < ra.len() ==> (#[trigger] ra[i]).range == rb[i].range && ra[i].message@
                == rb[i].message@,
{
}

} // verus!
