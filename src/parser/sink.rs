use vstd::prelude::*;

use crate::lexer::{offsets_ok, texts, token_views, Token, TokenView};
use crate::parser::event::{error_list, Event};
use crate::parser::model::{shape, shapes, Shape};
use crate::parser::parse_error::ParseError;
use crate::syntax::{syntax_kind_of, SyntaxKind};
use crate::text::{byte_len, lemma_byte_len_concat, TextRange};
use crate::tree::{
    children_text, children_view, children_wf, elem_text, elem_view, elem_wf, lemma_children_len,
    lemma_children_text_push, lemma_children_view_push, lemma_children_wf_push, lemma_tree_basics,
    node_text, node_view, node_wf, Cst, SyntaxElement, SyntaxNode, SyntaxToken,
};

verus! {

/// A node under construction: its kind, where it starts, and its children so far.
pub struct Frame {
    pub kind: SyntaxKind,
    pub start: u32,
    pub children: Vec<SyntaxElement>,
}

/// The texts of the children of the open nodes, outermost first.
pub open spec fn frames_text(st: Seq<Frame>) -> Seq<char>
    decreases st.len(),
{
    if st.len() == 0 {
        seq![]
    } else {
        frames_text(st.drop_last()) + children_text(st.last().children@)
    }
}

/// The children of the open node `k` reach the start of the next one.
pub open spec fn link_ok(st: Seq<Frame>, k: int) -> bool {
    children_wf(st[k].children@, st[k].start, st[k + 1].start)
}

/// The children of each open node cover the bytes from its start to the start of the next
/// open node, and those of the innermost one reach `offset`.
pub open spec fn frames_wf(st: Seq<Frame>, offset: u32) -> bool {
    &&& forall|k: int| 0 <= k < st.len() - 1 ==> #[trigger] link_ok(st, k)
    &&& st.len() > 0 ==> children_wf(st.last().children@, st.last().start, offset)
    &&& st.len() > 0 ==> st[0].start == 0
}

proof fn lemma_frames_text_push(st: Seq<Frame>, f: Frame)
    ensures
        frames_text(st.push(f)) == frames_text(st) + children_text(f.children@),
{
    assert(st.push(f).drop_last() =~= st);
}

/// What the builder holds, as values: the token cursor, the byte offset, and the open nodes.
pub struct SinkView {
    pub cursor: nat,
    pub offset: u32,
    pub stack: Seq<FrameView>,
}

pub struct FrameView {
    pub kind: SyntaxKind,
    pub start: u32,
    pub children: Seq<Cst>,
}

pub open spec fn frame_view(f: Frame) -> FrameView {
    FrameView { kind: f.kind, start: f.start, children: children_view(f.children@) }
}

pub open spec fn frames_view(st: Seq<Frame>) -> Seq<FrameView> {
    st.map_values(|f: Frame| frame_view(f))
}

pub open spec fn v_open(st: SinkView, kind: SyntaxKind) -> SinkView {
    SinkView {
        stack: st.stack.push(FrameView { kind, start: st.offset, children: seq![] }),
        ..st
    }
}

pub open spec fn leaf_of(t: TokenView) -> Cst {
    Cst::Leaf(syntax_kind_of(t.kind), t.text, t.range)
}

/// The next token joins the innermost open node.
pub open spec fn v_add(tv: Seq<TokenView>, st: SinkView) -> SinkView {
    let t = tv[st.cursor as int];
    let top = st.stack.last();
    SinkView {
        cursor: st.cursor + 1,
        offset: t.range.end,
        stack: st.stack.drop_last().push(FrameView { children: top.children.push(leaf_of(t)), ..top }),
    }
}

/// The innermost open node closes into its parent.
pub open spec fn v_close(st: SinkView) -> SinkView {
    let n = st.stack.len() as int;
    let top = st.stack[n - 1];
    let parent = st.stack[n - 2];
    SinkView {
        stack: st.stack.take(n - 2).push(
            FrameView {
                children: parent.children.push(
                    Cst::Node(top.kind, TextRange { start: top.start, end: st.offset }, top.children),
                ),
                ..parent
            },
        ),
        ..st
    }
}

/// Trivia at the cursor joins the innermost open node.
pub open spec fn v_eat(tv: Seq<TokenView>, st: SinkView) -> SinkView
    decreases tv.len() - st.cursor,
{
    if st.stack.len() > 0 && st.cursor < tv.len() && tv[st.cursor as int].kind.spec_is_trivia() {
        v_eat(tv, v_add(tv, st))
    } else {
        st
    }
}

/// Follows the forward parents from the event at `j`, consuming them; returns the events
/// left and the kinds of the nodes to open, innermost first.
pub open spec fn v_chain(evs: Seq<Shape>, j: int, fp: Option<usize>, kinds: Seq<SyntaxKind>) -> (
    Seq<Shape>,
    Seq<SyntaxKind>,
)
    decreases evs.len() - j,
{
    match fp {
        None => (evs, kinds),
        Some(d) => if d == 0 || j < 0 || j + d >= evs.len() {
            (evs, kinds)
        } else {
            match evs[j + d] {
                Shape::Start(k, fp2) => v_chain(
                    evs.update(j + d, Shape::Slot),
                    j + d,
                    fp2,
                    kinds.push(k),
                ),
                _ => (evs, kinds),
            }
        },
    }
}

/// Opens `kinds[..k]`, last first.
pub open spec fn v_open_all(st: SinkView, kinds: Seq<SyntaxKind>, k: int) -> SinkView
    decreases k,
{
    if k <= 0 {
        st
    } else {
        v_open_all(v_open(st, kinds[k - 1]), kinds, k - 1)
    }
}

/// The builder's response to the event at `idx`, trivia after it included.
pub open spec fn v_step(tv: Seq<TokenView>, st: SinkView, evs: Seq<Shape>, idx: int) -> (
    SinkView,
    Seq<Shape>,
) {
    let evs1 = evs.update(idx, Shape::Slot);
    let (st1, evs2) = match evs[idx] {
        Shape::Start(k, fp) => {
            let (evs2, ks) = v_chain(evs1, idx, fp, seq![k]);
            (v_open_all(st, ks, ks.len() as int), evs2)
        },
        Shape::Add => (
            if st.cursor < tv.len() {
                v_add(
                    tv,
                    if st.stack.len() == 0 {
                        v_open(st, SyntaxKind::Root)
                    } else {
                        st
                    },
                )
            } else {
                st
            },
            evs1,
        ),
        Shape::Finish => (
            if st.stack.len() >= 2 {
                v_close(st)
            } else {
                st
            },
            evs1,
        ),
        _ => (st, evs1),
    };
    (v_eat(tv, st1), evs2)
}

/// The builder's state after the events from `idx` on.
pub open spec fn v_run(tv: Seq<TokenView>, st: SinkView, evs: Seq<Shape>, idx: int) -> SinkView
    decreases evs.len() - idx,
{
    if 0 <= idx < evs.len() {
        let (st1, evs1) = v_step(tv, st, evs, idx);
        if evs1.len() == evs.len() {
            v_run(tv, st1, evs1, idx + 1)
        } else {
            st1
        }
    } else {
        st
    }
}

/// Every token left joins the innermost open node.
pub open spec fn v_drain(tv: Seq<TokenView>, st: SinkView) -> SinkView
    decreases tv.len() - st.cursor,
{
    if st.cursor < tv.len() {
        v_drain(
            tv,
            v_add(
                tv,
                if st.stack.len() == 0 {
                    v_open(st, SyntaxKind::Root)
                } else {
                    st
                },
            ),
        )
    } else {
        st
    }
}

/// Every open node but the outermost closes.
pub open spec fn v_close_all(st: SinkView) -> SinkView
    decreases st.stack.len(),
{
    if st.stack.len() > 1 {
        v_close_all(v_close(st))
    } else {
        st
    }
}

/// The tree once every token is in and every node closed.
pub open spec fn v_finish(tv: Seq<TokenView>, st: SinkView) -> Cst {
    let st1 = v_close_all(v_drain(tv, st));
    let st2 = if st1.stack.len() == 0 {
        v_open(st1, SyntaxKind::Root)
    } else {
        st1
    };
    let f = st2.stack[0];
    Cst::Node(f.kind, TextRange { start: f.start, end: st2.offset }, f.children)
}

/// The tree that the events `evs` describe over the tokens `tv`.
pub open spec fn build_model(tv: Seq<TokenView>, evs: Seq<Shape>) -> Cst {
    v_finish(tv, v_run(tv, SinkView { cursor: 0, offset: 0, stack: seq![] }, evs, 0))
}

/// Folds the events back into a tree, threading the trivia that the parser stepped over
/// into the node that is open when it is met.
pub struct Sink<'t> {
    pub tokens: &'t [Token],
    pub cursor: usize,
    pub offset: u32,
    pub stack: Vec<Frame>,
    pub errors: Vec<ParseError>,
}

impl<'t> Sink<'t> {
    pub open spec fn inv(&self) -> bool {
        &&& offsets_ok(self.tokens@)
        &&& byte_len(texts(self.tokens@)) <= u32::MAX
        &&& self.cursor <= self.tokens@.len()
        &&& self.offset == byte_len(texts(self.tokens@.take(self.cursor as int)))
        &&& frames_text(self.stack@) == texts(self.tokens@.take(self.cursor as int))
        &&& frames_wf(self.stack@, self.offset)
        &&& self.stack@.len() == 0 ==> self.cursor == 0
    }

    pub open spec fn view(&self) -> SinkView {
        SinkView { cursor: self.cursor as nat, offset: self.offset, stack: frames_view(self.stack@) }
    }

    pub open spec fn tv(&self) -> Seq<TokenView> {
        token_views(self.tokens@)
    }

    pub open spec fn keeps_bottom(&self, next: &Sink<'t>) -> bool {
        &&& next.tokens@ == self.tokens@
        &&& next.errors@ == self.errors@
        &&& next.cursor >= self.cursor
        &&& self.stack@.len() > 0 ==> next.stack@.len() > 0 && next.stack@[0].kind
            == self.stack@[0].kind
    }

    fn open(&mut self, kind: SyntaxKind)
        requires
            old(self).inv(),
        ensures
            final(self).inv(),
            old(self).keeps_bottom(final(self)),
            final(self).cursor == old(self).cursor,
            final(self).stack@.len() == old(self).stack@.len() + 1,
            old(self).stack@.len() == 0 ==> final(self).stack@[0].kind == kind,
            final(self).view() == v_open(old(self).view(), kind),
    {
        let f = Frame { kind, start: self.offset, children: Vec::new() };
        proof {
            assert(children_view(f.children@) =~= seq![]);
            assert(frames_view(self.stack@.push(f)) =~= frames_view(self.stack@).push(frame_view(f)));
            lemma_frames_text_push(self.stack@, f);
            lemma_tree_basics(f.children@, f.start, arbitrary(), arbitrary());
            assert(children_text(f.children@) =~= seq![]);
            if self.stack@.len() == 0 {
                assert(self.tokens@.take(0) =~= seq![]);
            }
        }
        let ghost old_stack = self.stack@;
        self.stack.push(f);
        proof {
            assert(self.stack@.drop_last() =~= old_stack);
            assert forall|k: int| 0 <= k < self.stack@.len() - 1 implies #[trigger] link_ok(self.stack@, k) by {
                assert(self.stack@[k] == old_stack[k]);
                if k < old_stack.len() - 1 {
                    assert(link_ok(old_stack, k));
                    assert(self.stack@[k + 1] == old_stack[k + 1]);
                } else {
                    assert(old_stack.last() == old_stack[k]);
                }
            }
        }
    }

    /// Moves the next token into the innermost open node.
    fn add_token(&mut self)
        requires
            old(self).inv(),
            old(self).stack@.len() > 0,
            old(self).cursor < old(self).tokens@.len(),
        ensures
            final(self).inv(),
            old(self).keeps_bottom(final(self)),
            final(self).cursor == old(self).cursor + 1,
            final(self).stack@.len() == old(self).stack@.len(),
            final(self).view() == v_add(old(self).tv(), old(self).view()),
    {
        let ghost ts = self.tokens@;
        let ghost c = self.cursor as int;
        let t = &self.tokens[self.cursor];
        let elem = SyntaxElement::Token(
            SyntaxToken { kind: SyntaxKind::from(t.kind), text: t.text.clone(), range: t.range },
        );
        let ghost old_stack = self.stack@;
        let mut top = self.stack.pop().unwrap();
        proof {
            assert(old_stack =~= self.stack@.push(top));
            assert(ts.take(c + 1) =~= ts.take(c).push(ts[c]));
            crate::lexer::lemma_texts_push(ts.take(c), ts[c]);
            lemma_byte_len_concat(texts(ts.take(c)), ts[c].text@);
            assert(elem_wf(elem));
            lemma_children_wf_push(top.children@, elem, top.start);
            lemma_children_text_push(top.children@, elem);
            assert(old_stack.drop_last() =~= self.stack@);
            lemma_frames_text_push(self.stack@, top);
        }
        top.children.push(elem);
        proof {
            lemma_frames_text_push(self.stack@, top);
        }
        let ghost rest = self.stack@;
        self.stack.push(top);
        self.cursor = self.cursor + 1;
        self.offset = t.range.end;
        proof {
            lemma_children_view_push(old_stack.last().children@, elem);
            assert(frames_view(old_stack).drop_last() =~= frames_view(rest));
            assert(frames_view(self.stack@) =~= frames_view(rest).push(frame_view(top)));
            assert(self.tv()[c] == crate::lexer::token_view(ts[c]));
            assert forall|k: int| 0 <= k < self.stack@.len() - 1 implies #[trigger] link_ok(self.stack@, k) by {
                assert(link_ok(old_stack, k));
                assert(self.stack@[k] == old_stack[k]);
                assert(self.stack@[k + 1].start == old_stack[k + 1].start);
            }
            assert(self.offset == byte_len(texts(self.tokens@.take(self.cursor as int))));
            assert(frames_text(self.stack@) == texts(self.tokens@.take(self.cursor as int)));
        }
    }

    /// Closes the innermost open node into its parent.
    fn close(&mut self)
        requires
            old(self).inv(),
            old(self).stack@.len() >= 2,
        ensures
            final(self).inv(),
            old(self).keeps_bottom(final(self)),
            final(self).cursor == old(self).cursor,
            final(self).stack@.len() == old(self).stack@.len() - 1,
            final(self).view() == v_close(old(self).view()),
    {
        let ghost old_stack = self.stack@;
        let ghost n = old_stack.len() as int;
        let top = self.stack.pop().unwrap();
        let mut parent = self.stack.pop().unwrap();
        proof {
            assert(old_stack =~= self.stack@.push(parent).push(top));
            lemma_frames_text_push(self.stack@.push(parent), top);
            lemma_children_len(top.children@, top.start, self.offset);
            assert(old_stack[n - 2] == parent);
            assert(link_ok(old_stack, n - 2));
            assert(old_stack[n - 1] == top);
        }
        let node = SyntaxNode {
            kind: top.kind,
            range: TextRange { start: top.start, end: self.offset },
            children: top.children,
        };
        let elem = SyntaxElement::Node(node);
        proof {
            assert(elem_wf(elem));
            assert(elem_text(elem) == children_text(top.children@));
            lemma_children_wf_push(parent.children@, elem, parent.start);
            lemma_children_text_push(parent.children@, elem);
            assert(old_stack.drop_last() =~= self.stack@.push(parent));
            lemma_frames_text_push(self.stack@, parent);
        }
        let ghost parent_children = parent.children@;
        parent.children.push(elem);
        proof {
            lemma_frames_text_push(self.stack@, parent);
            lemma_children_view_push(parent_children, elem);
            assert(frames_view(old_stack).take(n - 2) =~= frames_view(self.stack@));
        }
        let ghost rest = self.stack@;
        self.stack.push(parent);
        proof {
            assert(frames_view(self.stack@) =~= frames_view(rest).push(frame_view(parent)));
        }
        proof {
            assert forall|k: int| 0 <= k < self.stack@.len() - 1 implies #[trigger] link_ok(self.stack@, k) by {
                assert(link_ok(old_stack, k));
                assert(self.stack@[k] == old_stack[k]);
                assert(self.stack@[k + 1].start == old_stack[k + 1].start);
            }
            assert(frames_text(self.stack@) == texts(self.tokens@.take(self.cursor as int)));
        }
    }

    /// Moves the trivia at the cursor into the innermost open node.
    fn eat_trivia(&mut self)
        requires
            old(self).inv(),
        ensures
            final(self).inv(),
            old(self).keeps_bottom(final(self)),
            final(self).stack@.len() == old(self).stack@.len(),
            final(self).view() == v_eat(old(self).tv(), old(self).view()),
    {
        while self.stack.len() > 0 && self.cursor < self.tokens.len()
            && self.tokens[self.cursor].kind.is_trivia()
            invariant
                v_eat(old(self).tv(), self.view()) == v_eat(old(self).tv(), old(self).view()),
                self.tv() == old(self).tv(),
                self.inv(),
                old(self).keeps_bottom(self),
                self.stack@.len() == old(self).stack@.len(),
            decreases self.tokens@.len() - self.cursor,
        {
            self.add_token();
        }
    }

    /// Opens the nodes that one `StartNode` event stands for: the event's own node and
    /// the chain of nodes that its forward parents ask to enclose it, outermost first.
    /// The forward parents are consumed.
    fn start_nodes(&mut self, events: &mut Vec<Event>, idx: usize, kind: SyntaxKind, forward_parent: Option<usize>)
        requires
            old(self).inv(),
            idx < old(events)@.len(),
        ensures
            final(self).inv(),
            old(self).keeps_bottom(final(self)),
            final(events)@.len() == old(events)@.len(),
            forall|i: int| 0 <= i <= idx ==> final(events)@[i] == old(events)@[i],
            forall|i: int|
                0 <= i < old(events)@.len() ==> final(events)@[i] == old(events)@[i] || (
                old(events)@[i] is StartNode && final(events)@[i] is Placeholder),
            forward_parent is None && old(self).stack@.len() == 0 ==> final(self).stack@.len() > 0
                && final(self).stack@[0].kind == kind,
            ({
                let (evs, ks) = v_chain(shapes(old(events)@), idx as int, forward_parent, seq![kind]);
                &&& shapes(final(events)@) == evs
                &&& final(self).view() == v_open_all(old(self).view(), ks, ks.len() as int)
            }),
    {
        let ghost target = v_chain(shapes(events@), idx as int, forward_parent, seq![kind]);
        let n = events.len();
        let mut kinds: Vec<SyntaxKind> = Vec::new();
        kinds.push(kind);
        let mut fp = forward_parent;
        let mut j = idx;
        assert(kinds@ =~= seq![kind]);
        while fp.is_some()
            invariant_except_break
                v_chain(shapes(events@), j as int, fp, kinds@) == target,
            invariant
                n == events@.len() == old(events)@.len(),
                idx <= j < n,
                forall|i: int| 0 <= i <= idx ==> events@[i] == old(events)@[i],
                forall|i: int|
                    0 <= i < n ==> events@[i] == old(events)@[i] || (old(events)@[i] is StartNode
                        && events@[i] is Placeholder),
                kinds@.len() >= 1,
                kinds@[0] == kind,
                forward_parent is None ==> kinds@.len() == 1 && fp is None,
            ensures
                shapes(events@) == target.0,
                kinds@ == target.1,
            decreases n - j,
        {
            let d = fp.unwrap();
            if d == 0 || d >= n - j {
                break ;
            }
            let ghost before = events@;
            j = j + d;
            let mut next = Event::Placeholder;
            std::mem::swap(&mut next, &mut events[j]);
            proof {
                assert(shapes(events@) =~= shapes(before).update(j as int, Shape::Slot));
                assert(shape(next) == shapes(before)[j as int]);
            }
            match next {
                Event::StartNode { kind, forward_parent } => {
                    kinds.push(kind);
                    fp = forward_parent;
                },
                other => {
                    events.set(j, other);
                    assert(events@ =~= before);
                    break ;
                },
            }
        }
        let ghost v0 = self.view();
        let mut k = kinds.len();
        while k > 0
            invariant
                v_open_all(self.view(), kinds@, k as int) == v_open_all(v0, kinds@, kinds@.len() as int),
                self.inv(),
                old(self).keeps_bottom(self),
                k <= kinds@.len(),
                kinds@.len() >= 1,
                kinds@[0] == kind,
                old(self).stack@.len() == 0 && k == kinds@.len() ==> self.stack@.len() == 0,
                old(self).stack@.len() == 0 && k < kinds@.len() ==> self.stack@.len() > 0
                    && self.stack@[0].kind == kinds@[kinds@.len() - 1],
            decreases k,
        {
            k = k - 1;
            self.open(kinds[k]);
        }
    }

    /// Closes every open node and returns the outermost one, which holds every token.
    fn finish(&mut self) -> (r: SyntaxNode)
        requires
            old(self).inv(),
        ensures
            node_wf(r),
            node_text(r) == texts(old(self).tokens@),
            r.range.start == 0,
            r.range.end == byte_len(texts(old(self).tokens@)),
            old(self).stack@.len() > 0 ==> r.kind == old(self).stack@[0].kind,
            node_view(r) == v_finish(old(self).tv(), old(self).view()),
    {
        let ghost tv = self.tv();
        while self.cursor < self.tokens.len()
            invariant
                v_drain(tv, self.view()) == v_drain(tv, old(self).view()),
                self.tv() == tv,
                self.inv(),
                old(self).keeps_bottom(self),
            decreases self.tokens@.len() - self.cursor,
        {
            if self.stack.len() == 0 {
                self.open(SyntaxKind::Root);
            }
            self.add_token();
        }
        let ghost drained = self.view();
        while self.stack.len() > 1
            invariant
                v_close_all(self.view()) == v_close_all(drained),
                self.tv() == tv,
                self.inv(),
                old(self).keeps_bottom(self),
                self.cursor == self.tokens@.len(),
            decreases self.stack@.len(),
        {
            self.close();
        }
        if self.stack.len() == 0 {
            self.open(SyntaxKind::Root);
        }
        let ghost st = self.stack@;
        let f = self.stack.pop().unwrap();
        proof {
            assert(st.drop_last() =~= seq![]);
            assert(st.last() == f);
            assert(frames_text(st.drop_last()) == Seq::<char>::empty());
            assert(frames_text(st) == children_text(f.children@));
            assert(self.tokens@.take(self.tokens@.len() as int) =~= self.tokens@);
            lemma_children_len(f.children@, f.start, self.offset);
            assert(frames_view(st)[0] == frame_view(f));
        }
        SyntaxNode {
            kind: f.kind,
            range: TextRange { start: f.start, end: self.offset },
            children: f.children,
        }
    }
}

/// Builds the tree that `events` describe over `tokens`, and collects the errors among
/// the events in order. Every token lands in the tree exactly once, in order, whatever the
/// events say.
pub fn build_tree(tokens: &[Token], events: Vec<Event>) -> (r: (SyntaxNode, Vec<ParseError>))
    requires
        offsets_ok(tokens@),
        byte_len(texts(tokens@)) <= u32::MAX,
    ensures
        node_wf(r.0),
        node_text(r.0) == texts(tokens@),
        r.0.range.start == 0,
        r.0.range.end == byte_len(texts(tokens@)),
        events@.len() > 0 && events@[0] == (Event::StartNode {
            kind: SyntaxKind::Root,
            forward_parent: None,
        }) ==> r.0.kind == SyntaxKind::Root,
        node_view(r.0) == build_model(token_views(tokens@), shapes(events@)),
        r.1@ == error_list(events@),
{
    let ghost first = events@;
    let ghost tv = token_views(tokens@);
    let mut events = events;
    let mut sink = Sink { tokens, cursor: 0, offset: 0, stack: Vec::new(), errors: Vec::new() };
    proof {
        assert(tokens@.take(0) =~= seq![]);
        crate::lexer::lemma_texts_push(tokens@.take(0), arbitrary());
        assert(frames_view(sink.stack@) =~= seq![]);
        assert(sink.view() == (SinkView { cursor: 0, offset: 0, stack: seq![] }));
    }
    let ghost target = v_run(tv, sink.view(), shapes(first), 0);
    let n = events.len();
    let mut idx: usize = 0;
    while idx < n
        invariant
            v_run(tv, sink.view(), shapes(events@), idx as int) == target,
            sink.errors@ == error_list(first.take(idx as int)),
            forall|i: int|
                idx <= i < n ==> (events@[i] is Error || first[i] is Error) ==> events@[i]
                    == first[i],
            sink.tv() == tv,
            sink.inv(),
            sink.tokens@ == tokens@,
            n == events@.len() == first.len(),
            idx <= n,
            idx == 0 ==> events@ == first,
            idx > 0 && first[0] == (Event::StartNode {
                kind: SyntaxKind::Root,
                forward_parent: None,
            }) ==> sink.stack@.len() > 0 && sink.stack@[0].kind == SyntaxKind::Root,
            idx == 0 ==> sink.stack@.len() == 0,
        decreases n - idx,
    {
        let ghost before = events@;
        let mut event = Event::Placeholder;
        std::mem::swap(&mut event, &mut events[idx]);
        proof {
            assert(shapes(events@) =~= shapes(before).update(idx as int, Shape::Slot));
            assert(shape(event) == shapes(before)[idx as int]);
            assert(first.take(idx + 1).drop_last() =~= first.take(idx as int));
            assert(first.take(idx + 1).last() == first[idx as int]);
            assert(event == before[idx as int]);
            assert((before[idx as int] is Error || first[idx as int] is Error) ==> before[idx as int]
                == first[idx as int]);
        }
        match event {
            Event::StartNode { kind, forward_parent } => {
                sink.start_nodes(&mut events, idx, kind, forward_parent);
            },
            Event::AddToken => {
                if sink.cursor < sink.tokens.len() {
                    if sink.stack.len() == 0 {
                        sink.open(SyntaxKind::Root);
                    }
                    sink.add_token();
                }
            },
            Event::FinishNode => {
                if sink.stack.len() >= 2 {
                    sink.close();
                }
            },
            Event::Error(e) => {
                sink.errors.push(e);
            },
            Event::Placeholder => {},
        }
        proof {
            assert(sink.errors@ =~= error_list(first.take(idx + 1)));
        }
        sink.eat_trivia();
        idx = idx + 1;
    }
    let mut errors: Vec<ParseError> = Vec::new();
    std::mem::swap(&mut errors, &mut sink.errors);
    assert(first.take(n as int) =~= first);
    let root = sink.finish();
    (root, errors)
}

} // verus!
