use vstd::prelude::*;

use crate::syntax::SyntaxKind;
use crate::render::push_str;
use crate::text::{byte_len, lemma_byte_len_concat, TextRange};

verus! {

/// A leaf of the tree: a token with its exact text.
#[derive(Debug, Clone, PartialEq, Eq)]
pub struct SyntaxToken {
    pub kind: SyntaxKind,
    pub text: String,
    pub range: TextRange,
}

/// An inner node of the tree: its kind, the bytes it covers, and its children in order.
#[derive(Debug, PartialEq, Eq)]
pub struct SyntaxNode {
    pub kind: SyntaxKind,
    pub range: TextRange,
    pub children: Vec<SyntaxElement>,
}

/// A child of a node: another node or a token.
#[derive(Debug, PartialEq, Eq)]
pub enum SyntaxElement {
    Node(SyntaxNode),
    Token(SyntaxToken),
}

pub open spec fn elem_range(e: SyntaxElement) -> TextRange {
    match e {
        SyntaxElement::Node(n) => n.range,
        SyntaxElement::Token(t) => t.range,
    }
}

/// The texts of the leaves under `e`, concatenated in leaf order.
pub open spec fn elem_text(e: SyntaxElement) -> Seq<char>
    decreases e,
{
    match e {
        SyntaxElement::Token(t) => t.text@,
        SyntaxElement::Node(n) => children_text(n.children@),
    }
}

/// The texts of the leaves under `cs`, concatenated in leaf order.
pub open spec fn children_text(cs: Seq<SyntaxElement>) -> Seq<char>
    decreases cs,
{
    if cs.len() == 0 {
        seq![]
    } else {
        children_text(cs.subrange(0, cs.len() - 1)) + elem_text(cs[cs.len() - 1])
    }
}

pub open spec fn node_text(n: SyntaxNode) -> Seq<char> {
    children_text(n.children@)
}

/// Every range under `e` is consistent: a token covers exactly the bytes of its text, and
/// the children of a node cover its range contiguously, in order.
pub open spec fn elem_wf(e: SyntaxElement) -> bool
    decreases e,
{
    match e {
        SyntaxElement::Token(t) => t.range.start <= t.range.end && t.range.end - t.range.start
            == byte_len(t.text@),
        SyntaxElement::Node(n) => n.range.start <= n.range.end && children_wf(
            n.children@,
            n.range.start,
            n.range.end,
        ),
    }
}

/// `cs` are well formed and cover `[start, end)` one after the other.
pub open spec fn children_wf(cs: Seq<SyntaxElement>, start: u32, end: u32) -> bool
    decreases cs,
{
    if cs.len() == 0 {
        start == end
    } else {
        let last = cs[cs.len() - 1];
        &&& children_wf(cs.subrange(0, cs.len() - 1), start, elem_range(last).start)
        &&& elem_range(last).end == end
        &&& elem_wf(last)
    }
}

pub open spec fn node_wf(n: SyntaxNode) -> bool {
    elem_wf(SyntaxElement::Node(n))
}

pub proof fn lemma_children_text_push(cs: Seq<SyntaxElement>, e: SyntaxElement)
    ensures
        children_text(cs.push(e)) == children_text(cs) + elem_text(e),
{
    assert(cs.push(e).subrange(0, cs.len() as int) =~= cs);
}

pub proof fn lemma_children_wf_push(cs: Seq<SyntaxElement>, e: SyntaxElement, start: u32)
    requires
        children_wf(cs, start, elem_range(e).start),
        elem_wf(e),
    ensures
        children_wf(cs.push(e), start, elem_range(e).end),
{
    assert(cs.push(e).subrange(0, cs.len() as int) =~= cs);
}

/// A well-formed element covers as many bytes as its text takes.
pub proof fn lemma_elem_len(e: SyntaxElement)
    requires
        elem_wf(e),
    ensures
        elem_range(e).start <= elem_range(e).end,
        elem_range(e).end - elem_range(e).start == byte_len(elem_text(e)),
    decreases e,
{
    match e {
        SyntaxElement::Token(t) => {},
        SyntaxElement::Node(n) => {
            lemma_children_len(n.children@, n.range.start, n.range.end);
        },
    }
}

/// Well-formed children cover as many bytes as their texts take.
pub proof fn lemma_children_len(cs: Seq<SyntaxElement>, start: u32, end: u32)
    requires
        children_wf(cs, start, end),
    ensures
        start <= end,
        end - start == byte_len(children_text(cs)),
    decreases cs,
{
    if cs.len() > 0 {
        let last = cs[cs.len() - 1];
        let init = cs.subrange(0, cs.len() - 1);
        lemma_children_len(init, start, elem_range(last).start);
        lemma_elem_len(last);
        lemma_byte_len_concat(children_text(init), elem_text(last));
    }
}

/// What the definitions above say of an empty child list, a token, and a node.
pub proof fn lemma_tree_basics(cs: Seq<SyntaxElement>, start: u32, t: SyntaxToken, n: SyntaxNode)
    ensures
        cs.len() == 0 ==> children_text(cs) == Seq::<char>::empty(),
        cs.len() == 0 ==> children_wf(cs, start, start),
        elem_text(SyntaxElement::Token(t)) == t.text@,
        elem_text(SyntaxElement::Node(n)) == children_text(n.children@),
        elem_wf(SyntaxElement::Token(t)) <==> (t.range.start <= t.range.end && t.range.end
            - t.range.start == byte_len(t.text@)),
        elem_wf(SyntaxElement::Node(n)) <==> (n.range.start <= n.range.end && children_wf(
            n.children@,
            n.range.start,
            n.range.end,
        )),
{
}

/// Range coverage: a well-formed node covers exactly as many bytes as its leaves spell,
/// starting where it starts; each child starts where the one before it ends, the first
/// where the node starts and the last ends where the node ends.
pub proof fn lemma_node_covers_text(n: SyntaxNode)
    requires
        node_wf(n),
    ensures
        n.range.start <= n.range.end,
        n.range.end - n.range.start == byte_len(node_text(n)),
        children_wf(n.children@, n.range.start, n.range.end),
{
    lemma_elem_len(SyntaxElement::Node(n));
}

impl SyntaxToken {
    pub fn text(&self) -> (r: &str)
        ensures
            r@ == self.text@,
    {
        self.text.as_str()
    }
}

impl SyntaxNode {
    /// The texts of the leaves, concatenated in leaf order.
    pub fn text(&self) -> (r: String)
        ensures
            r@ == node_text(*self),
    {
        let mut out = String::new();
        push_node_text(&mut out, self);
        assert(out@ =~= node_text(*self));
        out
    }
}

fn push_elem_text(out: &mut String, e: &SyntaxElement)
    ensures
        final(out)@ == old(out)@ + elem_text(*e),
    decreases e,
{
    match e {
        SyntaxElement::Token(t) => push_str(out, t.text.as_str()),
        SyntaxElement::Node(n) => push_node_text(out, n),
    }
}

fn push_node_text(out: &mut String, n: &SyntaxNode)
    ensures
        final(out)@ == old(out)@ + node_text(*n),
    decreases n,
{
    let ghost start = out@;
    let mut i: usize = 0;
    while i < n.children.len()
        invariant
            i <= n.children@.len(),
            out@ == start + children_text(n.children@.take(i as int)),
        decreases n.children@.len() - i,
    {
        proof {
            assert(decreases_to!(*n => n.children));
            assert(decreases_to!(n.children => n.children@));
            assert(decreases_to!(n.children@ => n.children@[i as int]));
            assert(n.children@.take(i + 1).subrange(0, i as int) =~= n.children@.take(i as int));
        }
        push_elem_text(out, &n.children[i]);
        i = i + 1;
        assert(out@ =~= start + children_text(n.children@.take(i as int)));
    }
    assert(n.children@.take(i as int) =~= n.children@);
}

/// The leaves under `e`, in order.
pub open spec fn elem_leaves(e: SyntaxElement) -> Seq<SyntaxToken>
    decreases e,
{
    match e {
        SyntaxElement::Token(t) => seq![t],
        SyntaxElement::Node(n) => children_leaves(n.children@),
    }
}

/// The leaves under `cs`, in order.
pub open spec fn children_leaves(cs: Seq<SyntaxElement>) -> Seq<SyntaxToken>
    decreases cs,
{
    if cs.len() == 0 {
        seq![]
    } else {
        children_leaves(cs.subrange(0, cs.len() - 1)) + elem_leaves(cs[cs.len() - 1])
    }
}

/// A well-formed element without leaves covers no bytes.
proof fn lemma_elem_no_leaves(e: SyntaxElement)
    requires
        elem_wf(e),
        elem_leaves(e).len() == 0,
    ensures
        elem_range(e).start == elem_range(e).end,
    decreases e,
{
    match e {
        SyntaxElement::Token(t) => {},
        SyntaxElement::Node(n) => {
            lemma_children_no_leaves(n.children@, n.range.start, n.range.end);
        },
    }
}

proof fn lemma_children_no_leaves(cs: Seq<SyntaxElement>, start: u32, end: u32)
    requires
        children_wf(cs, start, end),
        children_leaves(cs).len() == 0,
    ensures
        start == end,
    decreases cs,
{
    if cs.len() > 0 {
        let last = cs[cs.len() - 1];
        let init = cs.subrange(0, cs.len() - 1);
        lemma_children_no_leaves(init, start, elem_range(last).start);
        lemma_elem_no_leaves(last);
    }
}

/// The first leaf of a well-formed element starts where the element starts, and its last
/// leaf ends where the element ends.
pub proof fn lemma_elem_leaf_bounds(e: SyntaxElement)
    requires
        elem_wf(e),
        elem_leaves(e).len() > 0,
    ensures
        elem_leaves(e)[0].range.start == elem_range(e).start,
        elem_leaves(e).last().range.end == elem_range(e).end,
    decreases e,
{
    match e {
        SyntaxElement::Token(t) => {},
        SyntaxElement::Node(n) => {
            lemma_children_leaf_bounds(n.children@, n.range.start, n.range.end);
        },
    }
}

pub proof fn lemma_children_leaf_bounds(cs: Seq<SyntaxElement>, start: u32, end: u32)
    requires
        children_wf(cs, start, end),
        children_leaves(cs).len() > 0,
    ensures
        children_leaves(cs)[0].range.start == start,
        children_leaves(cs).last().range.end == end,
    decreases cs,
{
    let last = cs[cs.len() - 1];
    let init = cs.subrange(0, cs.len() - 1);
    let a = children_leaves(init);
    let b = elem_leaves(last);
    assert(children_leaves(cs) == a + b);
    if a.len() > 0 {
        lemma_children_leaf_bounds(init, start, elem_range(last).start);
    } else {
        lemma_children_no_leaves(init, start, elem_range(last).start);
    }
    if b.len() > 0 {
        lemma_elem_leaf_bounds(last);
    } else {
        lemma_elem_no_leaves(last);
    }
}

/// Range coverage in terms of leaves: a well-formed node with leaves spans from the start
/// of its first leaf to the end of its last one.
pub proof fn lemma_node_range_is_leaf_span(n: SyntaxNode)
    requires
        node_wf(n),
        children_leaves(n.children@).len() > 0,
    ensures
        n.range.start == children_leaves(n.children@)[0].range.start,
        n.range.end == children_leaves(n.children@).last().range.end,
{
    lemma_children_leaf_bounds(n.children@, n.range.start, n.range.end);
}

/// The value of a tree, with sequences in place of vectors: what two trees that are the
/// same tree have in common.
pub enum Cst {
    Node(SyntaxKind, TextRange, Seq<Cst>),
    Leaf(SyntaxKind, Seq<char>, TextRange),
}

pub open spec fn elem_view(e: SyntaxElement) -> Cst
    decreases e,
{
    match e {
        SyntaxElement::Token(t) => Cst::Leaf(t.kind, t.text@, t.range),
        SyntaxElement::Node(n) => Cst::Node(n.kind, n.range, children_view(n.children@)),
    }
}

pub open spec fn children_view(cs: Seq<SyntaxElement>) -> Seq<Cst>
    decreases cs,
{
    if cs.len() == 0 {
        seq![]
    } else {
        children_view(cs.subrange(0, cs.len() - 1)).push(elem_view(cs[cs.len() - 1]))
    }
}

pub open spec fn node_view(n: SyntaxNode) -> Cst {
    Cst::Node(n.kind, n.range, children_view(n.children@))
}

pub proof fn lemma_children_view_push(cs: Seq<SyntaxElement>, e: SyntaxElement)
    ensures
        children_view(cs.push(e)) == children_view(cs).push(elem_view(e)),
{
    assert(cs.push(e).subrange(0, cs.len() as int) =~= cs);
}

/// Well-formed children, one by one: each is well formed, the first starts at `start`, each
/// ends where the next starts, and the last ends at `end`.
pub proof fn lemma_children_wf_each(cs: Seq<SyntaxElement>, start: u32, end: u32)
    requires
        children_wf(cs, start, end),
    ensures
        forall|i: int| 0 <= i < cs.len() ==> elem_wf(#[trigger] cs[i]),
        forall|i: int|
            0 <= i < cs.len() - 1 ==> elem_range(#[trigger] cs[i]).end == elem_range(cs[i + 1]).start,
        cs.len() > 0 ==> elem_range(cs[0]).start == start,
        cs.len() > 0 ==> elem_range(cs[cs.len() - 1]).end == end,
        forall|i: int|
            0 <= i < cs.len() ==> start <= elem_range(#[trigger] cs[i]).start <= elem_range(
                cs[i],
            ).end <= end,
    decreases cs,
{
    if cs.len() > 0 {
        let last = cs[cs.len() - 1];
        let init = cs.subrange(0, cs.len() - 1);
        lemma_children_wf_each(init, start, elem_range(last).start);
        lemma_elem_len(last);
        assert forall|i: int| 0 <= i < init.len() implies init[i] == cs[i] by {}
        if init.len() > 0 {
            assert(init[init.len() - 1] == cs[cs.len() - 2]);
        } else {
            assert(children_wf(init, start, elem_range(last).start));
        }
    }
}

/// Range coverage at every level: each child node of a well-formed node is well formed
/// and lies inside it; by induction, so does every descendant.
pub proof fn lemma_child_nodes_wf(n: SyntaxNode)
    requires
        node_wf(n),
    ensures
        forall|i: int|
            0 <= i < n.children@.len() && n.children@[i] is Node ==> {
                let c = (#[trigger] n.children@[i])->Node_0;
                &&& node_wf(c)
                &&& n.range.start <= c.range.start <= c.range.end <= n.range.end
            },
{
    lemma_children_wf_each(n.children@, n.range.start, n.range.end);
}

} // verus!
