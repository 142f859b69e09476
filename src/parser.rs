use vstd::prelude::*;

pub mod event;
pub mod grammar;
pub mod model;
pub mod parse_error;
pub mod sink;
pub mod source;

use crate::lexer::{
    kinds, lemma_lexed_views, lex_views, token_views, tokenize, Token,
};
use crate::parser::event::{balanced, depth};
use crate::parser::model::{
    diags, error_view, lemma_error_list_diags, peek, s_bump, s_complete, s_error, s_expect, s_fail, s_precede, s_root, s_start, shape, shapes,
    view_kinds, PState, Shape,
};
use crate::parser::grammar::root;
use crate::parser::parse_error::error_message;
use crate::parser::sink::{build_model, build_tree};
use crate::render::{node_debug, push_node_debug};
use crate::text::{byte_len, fits_offsets};
use crate::tree::{node_text, node_view, node_wf, Cst, SyntaxNode};
use crate::parser::event::{
    add_tokens, events_ok, lemma_placeholders_nonneg, lemma_push_keeps_open,
    lemma_update_keeps_open, lemma_push, lemma_update, placeholders,
    Event,
};
use crate::parser::parse_error::ParseError;
use crate::parser::source::{
    lemma_next_significant, lemma_significant_step, significant, Source,
};
use crate::syntax::{SyntaxKind, TokenKind};
use crate::text::TextRange;

verus! {

/// `a` is a prefix of `b`.
pub open spec fn prefix_of(a: Seq<Event>, b: Seq<Event>) -> bool {
    &&& a.len() <= b.len()
    &&& forall|i: int| 0 <= i < a.len() ==> #[trigger] b[i] == a[i]
}

pub proof fn lemma_view_kinds(ts: Seq<Token>)
    ensures
        view_kinds(token_views(ts)) == kinds(ts),
{
    assert(view_kinds(token_views(ts)) =~= kinds(ts));
}

proof fn lemma_shapes_push(evs: Seq<Event>, e: Event)
    ensures
        shapes(evs.push(e)) == shapes(evs).push(shape(e)),
{
    assert(shapes(evs.push(e)) =~= shapes(evs).push(shape(e)));
}

proof fn lemma_shapes_update(evs: Seq<Event>, i: int, e: Event)
    requires
        0 <= i < evs.len(),
    ensures
        shapes(evs.update(i, e)) == shapes(evs).update(i, shape(e)),
{
    assert(shapes(evs.update(i, e)) =~= shapes(evs).update(i, shape(e)));
}

/// A node that has been started and not yet completed: the index of its slot in the events.
pub struct Marker {
    pub pos: usize,
}

/// A node that has been completed: the index of its `StartNode` event.
pub struct CompletedMarker {
    pub pos: usize,
}

/// The state of a parse: the token cursor, the events emitted so far, and the kinds that
/// were looked for since the last consumed token.
pub struct Parser<'t> {
    pub source: Source<'t>,
    pub events: Vec<Event>,
    pub expected_kinds: Vec<SyntaxKind>,
}

impl<'t> Parser<'t> {
    /// What the grammar sees of the parser: the next token and the shapes of the events.
    pub open spec fn model(&self) -> PState {
        PState { pos: self.source.lookahead(), ev: shapes(self.events@), exp: self.expected_kinds@ }
    }

    pub open spec fn wf(&self) -> bool {
        &&& self.source.wf()
        &&& self.source.lookahead() <= self.source.tokens@.len()
        &&& events_ok(self.events@)
        &&& add_tokens(self.events@) == significant(self.source.tokens@, self.source.cursor as int)
    }

    pub open spec fn spec_peek(&self) -> Option<TokenKind> {
        self.source.spec_peek()
    }

    pub open spec fn remaining(&self) -> nat {
        self.source.remaining()
    }

    /// What every step of the parser keeps: the tokens, the emitted events, and the
    /// started nodes, with the cursor only moving forward.
    pub open spec fn steps_to(&self, next: &Parser<'t>) -> bool {
        &&& next.wf()
        &&& next.source.tokens@ == self.source.tokens@
        &&& next.source.cursor >= self.source.cursor
        &&& next.source.lookahead() >= self.source.lookahead()
        &&& prefix_of(self.events@, next.events@)
        &&& placeholders(next.events@) == placeholders(self.events@)
    }

    pub fn new(tokens: &'t [Token]) -> (r: Self)
        ensures
            r.wf(),
            r.source.tokens@ == tokens@,
            r.source.cursor == 0,
            r.events@.len() == 0,
            r.model() == (PState {
                pos: crate::parser::source::next_significant(tokens@, 0),
                ev: seq![],
                exp: seq![],
            }),
    {
        proof {
            lemma_next_significant(tokens@, 0);
            lemma_view_kinds(tokens@);
        }
        let r = Parser { source: Source::new(tokens), events: Vec::new(), expected_kinds: Vec::new() };
        assert(r.events@.take(0) =~= r.events@);
        assert(shapes(r.events@) =~= seq![]);
        assert(r.expected_kinds@ =~= seq![]);
        r
    }

    /// Opens a node whose kind is given when it is completed.
    pub fn start(&mut self) -> (m: Marker)
        requires
            old(self).wf(),
        ensures
            final(self).wf(),
            final(self).source == old(self).source,
            final(self).events@ == old(self).events@.push(Event::Placeholder),
            placeholders(final(self).events@) == placeholders(old(self).events@) + 1,
            m.pos == old(self).events@.len(),
            final(self).model() == s_start(old(self).model()),
    {
        let pos = self.events.len();
        proof {
            lemma_shapes_push(self.events@, Event::Placeholder);
        }
        proof {
            lemma_push(self.events@, Event::Placeholder);
            lemma_placeholders_nonneg(self.events@);
            assert(self.events@.take(self.events@.len() as int) == self.events@);
        }
        self.events.push(Event::Placeholder);
        Marker { pos }
    }

    /// Gives the started node `m` its kind and closes it.
    pub fn complete(&mut self, m: Marker, kind: SyntaxKind) -> (cm: CompletedMarker)
        requires
            old(self).wf(),
            m.pos < old(self).events@.len(),
            old(self).events@[m.pos as int] is Placeholder,
        ensures
            final(self).wf(),
            final(self).source == old(self).source,
            final(self).events@ == old(self).events@.update(
                m.pos as int,
                Event::StartNode { kind, forward_parent: None },
            ).push(Event::FinishNode),
            placeholders(final(self).events@) == placeholders(old(self).events@) - 1,
            cm.pos == m.pos,
            final(self).model() == s_complete(old(self).model(), m.pos as int, kind),
    {
        let ghost evs = self.events@;
        let started = Event::StartNode { kind, forward_parent: None };
        proof {
            lemma_update(evs, m.pos as int, started);
            lemma_update_keeps_open(evs, m.pos as int, started);
            lemma_shapes_update(evs, m.pos as int, started);
            lemma_shapes_push(evs.update(m.pos as int, started), Event::FinishNode);
            lemma_placeholders_nonneg(evs);
            let u = evs.update(m.pos as int, started);
            lemma_push(u, Event::FinishNode);
            assert(u.take(u.len() as int) == u);
            assert(evs.take(evs.len() as int) == evs);
            lemma_push_keeps_open(u, Event::FinishNode);
        }
        self.events.set(m.pos, started);
        self.events.push(Event::FinishNode);
        CompletedMarker { pos: m.pos }
    }

    /// Starts a node that will enclose the completed node `cm`.
    pub fn precede(&mut self, cm: CompletedMarker) -> (m: Marker)
        requires
            old(self).wf(),
            cm.pos < old(self).events@.len(),
            old(self).events@[cm.pos as int] is StartNode,
        ensures
            final(self).wf(),
            final(self).source == old(self).source,
            m.pos == old(self).events@.len(),
            final(self).events@ == old(self).events@.update(
                cm.pos as int,
                Event::StartNode {
                    kind: old(self).events@[cm.pos as int]->StartNode_kind,
                    forward_parent: Some((m.pos - cm.pos) as usize),
                },
            ).push(Event::Placeholder),
            placeholders(final(self).events@) == placeholders(old(self).events@) + 1,
            final(self).model() == s_precede(old(self).model(), cm.pos as int),
    {
        let kind = match &self.events[cm.pos] {
            Event::StartNode { kind, .. } => *kind,
            _ => SyntaxKind::Error,
        };
        let pos = self.events.len();
        let ghost evs = self.events@;
        let linked = Event::StartNode { kind, forward_parent: Some(pos - cm.pos) };
        proof {
            lemma_update(evs, cm.pos as int, linked);
            lemma_update_keeps_open(evs, cm.pos as int, linked);
            lemma_shapes_update(evs, cm.pos as int, linked);
            let u = evs.update(cm.pos as int, linked);
            lemma_shapes_push(u, Event::Placeholder);
            lemma_push(u, Event::Placeholder);
            lemma_placeholders_nonneg(u);
            assert(u.take(u.len() as int) == u);
            assert(evs.take(evs.len() as int) == evs);
            lemma_push_keeps_open(u, Event::Placeholder);
        }
        self.events.set(cm.pos, linked);
        self.events.push(Event::Placeholder);
        Marker { pos }
    }

    fn peek(&mut self) -> (r: Option<TokenKind>)
        requires
            old(self).wf(),
        ensures
            old(self).steps_to(final(self)),
            final(self).events@ == old(self).events@,
            final(self).source.lookahead() == old(self).source.lookahead(),
            final(self).source.cursor == old(self).source.lookahead(),
            r == old(self).spec_peek(),
            final(self).model() == old(self).model(),
            peek(token_views(final(self).source.tokens@), old(self).model()) == old(self).spec_peek(),
    {
        proof {
            lemma_next_significant(self.source.tokens@, self.source.cursor as nat);
            lemma_significant_step(self.source.tokens@, self.source.cursor as nat);
        }
        self.source.peek_kind()
    }

    /// Whether the next token has the given kind; when it has not, the kind joins those
    /// reported by the next error.
    pub fn at(&mut self, kind: TokenKind) -> (r: bool)
        requires
            old(self).wf(),
        ensures
            old(self).steps_to(final(self)),
            final(self).events@ == old(self).events@,
            final(self).source.lookahead() == old(self).source.lookahead(),
            final(self).source.cursor == old(self).source.lookahead(),
            r == (old(self).spec_peek() == Some(kind)),
            final(self).model() == if r {
                old(self).model()
            } else {
                s_fail(old(self).model(), kind)
            },
            peek(token_views(final(self).source.tokens@), old(self).model()) == old(self).spec_peek(),
    {
        let found = self.peek();
        let r = match found {
            Some(k) => k == kind,
            None => false,
        };
        if !r {
            self.expected_kinds.push(SyntaxKind::from(kind));
        }
        assert(self.events@ == old(self).events@);
        r
    }

    /// Whether every token has been consumed, trivia aside.
    pub fn at_end(&mut self) -> (r: bool)
        requires
            old(self).wf(),
        ensures
            old(self).steps_to(final(self)),
            final(self).events@ == old(self).events@,
            final(self).source.lookahead() == old(self).source.lookahead(),
            final(self).source.cursor == old(self).source.lookahead(),
            r == (old(self).spec_peek() is None),
            final(self).model() == old(self).model(),
            peek(token_views(final(self).source.tokens@), old(self).model()) == old(self).spec_peek(),
    {
        self.peek().is_none()
    }

    /// Consumes the next token into the open node.
    pub fn bump(&mut self)
        requires
            old(self).wf(),
            old(self).spec_peek() is Some,
        ensures
            old(self).steps_to(final(self)),
            final(self).source.cursor == old(self).source.lookahead() + 1,
            final(self).source.cursor > old(self).source.cursor,
            final(self).remaining() < old(self).remaining(),
            final(self).source.lookahead() > old(self).source.lookahead(),
            final(self).events@ == old(self).events@.push(Event::AddToken),
            final(self).model() == s_bump(token_views(old(self).source.tokens@), old(self).model()),
    {
        proof {
            lemma_next_significant(self.source.tokens@, self.source.cursor as nat);
            lemma_significant_step(self.source.tokens@, self.source.cursor as nat);
        }
        self.expected_kinds = Vec::new();
        self.source.next_lexeme();
        proof {
            lemma_next_significant(self.source.tokens@, self.source.cursor as nat);
            lemma_view_kinds(self.source.tokens@);
            lemma_shapes_push(self.events@, Event::AddToken);
            lemma_push(self.events@, Event::AddToken);
            assert(self.events@.take(self.events@.len() as int) == self.events@);
        }
        self.events.push(Event::AddToken);
    }

    /// Consumes the next token if it has the given kind, and reports an error otherwise.
    pub fn expect(&mut self, kind: TokenKind)
        requires
            old(self).wf(),
        ensures
            old(self).steps_to(final(self)),
            final(self).model() == s_expect(token_views(old(self).source.tokens@), old(self).model(), kind),
    {
        if self.at(kind) {
            self.bump();
        } else {
            self.error();
        }
    }

    /// Reports, at the next token, the kinds looked for since the last consumed token. The
    /// token itself stays where it is.
    pub fn error(&mut self)
        requires
            old(self).wf(),
        ensures
            old(self).steps_to(final(self)),
            final(self).source.lookahead() == old(self).source.lookahead(),
            final(self).model() == s_error(token_views(old(self).source.tokens@), old(self).model()),
    {
        proof {
            lemma_next_significant(self.source.tokens@, self.source.cursor as nat);
            lemma_significant_step(self.source.tokens@, self.source.cursor as nat);
        }
        let (found, range) = match self.source.peek_token() {
            Some(token) => (Some(SyntaxKind::from(token.kind)), token.range),
            None => {
                let end = self.end_offset();
                (None, TextRange { start: end, end })
            },
        };
        let mut expected: Vec<SyntaxKind> = Vec::new();
        std::mem::swap(&mut expected, &mut self.expected_kinds);
        let e = Event::Error(ParseError { expected, found, range });
        proof {
            lemma_view_kinds(self.source.tokens@);
            lemma_shapes_push(self.events@, e);
            lemma_push(self.events@, e);
            assert(self.events@.take(self.events@.len() as int) == self.events@);
        }
        self.events.push(e);
    }

    /// The byte offset of the end of the input.
    fn end_offset(&self) -> (r: u32)
        ensures
            r == crate::parser::model::end_of(token_views(self.source.tokens@)),
    {
        let n = self.source.tokens.len();
        if n == 0 {
            0
        } else {
            self.source.tokens[n - 1].range.end
        }
    }
}

/// The events that describe the tree of `tokens`. They are balanced: the parser opens no
/// node that it does not close, and completes every node that it starts. The `Root` node
/// opens first and closes last, with every other node inside it. They move every
/// non-trivia token into the tree exactly once.
pub fn parse_events(tokens: &[Token]) -> (r: Vec<Event>)
    ensures
        balanced(r@),
        add_tokens(r@) == significant(tokens@, tokens@.len() as int),
        shapes(r@) == s_root(token_views(tokens@)),
        r@.len() > 0,
        r@[0] == (Event::StartNode { kind: SyntaxKind::Root, forward_parent: None }),
        r@.last() == Event::FinishNode,
        forall|k: int| 1 <= k < r@.len() ==> #[trigger] depth(r@.take(k)) >= 1,
{
    let mut p = Parser::new(tokens);
    proof {
        lemma_view_kinds(tokens@);
    }
    let cm = root(&mut p);
    proof {
        lemma_placeholders_nonneg(p.events@);
        assert(p.events@.take(p.events@.len() as int) == p.events@);
    }
    p.events
}

/// The result of a parse: the tree, which always exists, and the syntax errors met on the
/// way, in order.
pub struct Parse {
    pub tree: SyntaxNode,
    pub errors: Vec<ParseError>,
}

/// Each error on a line of its own after a newline.
pub open spec fn errors_debug(es: Seq<ParseError>) -> Seq<char>
    decreases es.len(),
{
    if es.len() == 0 {
        seq![]
    } else {
        errors_debug(es.drop_last()) + seq!['\n'] + error_message(es.last())
    }
}

/// The tree in its debug form, followed by the errors.
pub open spec fn parse_debug(p: Parse) -> Seq<char> {
    node_debug(p.tree, seq![]) + errors_debug(p.errors@)
}

impl Parse {
    /// The tree, one element per line, then the errors, one per line.
    pub fn debug_tree(&self) -> (r: String)
        ensures
            r@ == parse_debug(*self),
    {
        let mut out = String::new();
        let prefix = String::new();
        push_node_debug(&mut out, &self.tree, &prefix);
        let ghost mid = out@;
        let mut i: usize = 0;
        while i < self.errors.len()
            invariant
                i <= self.errors@.len(),
                out@ == mid + errors_debug(self.errors@.take(i as int)),
            decreases self.errors@.len() - i,
        {
            crate::lexer::push_char(&mut out, '\n');
            self.errors[i].push_message(&mut out);
            proof {
                assert(self.errors@.take(i + 1).drop_last() =~= self.errors@.take(i as int));
            }
            i = i + 1;
            assert(out@ =~= mid + errors_debug(self.errors@.take(i as int)));
        }
        assert(self.errors@.take(i as int) =~= self.errors@);
        assert(out@ =~= parse_debug(*self));
        out
    }
}

/// The tree that the grammar gives `s`.
pub open spec fn parse_model(s: Seq<char>) -> Cst {
    build_model(lex_views(s), s_root(lex_views(s)))
}

/// The diagnostics that the grammar gives `s`, in order.
pub open spec fn parse_errors_model(s: Seq<char>) -> Seq<crate::parser::model::Shape> {
    diags(s_root(lex_views(s)))
}

/// `p` is a parse of `s`: its tree and its diagnostics are the ones the grammar gives `s`;
/// the tree spells `s` exactly, and its ranges are consistent with the texts of its leaves.
pub open spec fn parse_of(p: Parse, s: Seq<char>) -> bool {
    &&& node_view(p.tree) == parse_model(s)
    &&& p.errors@.map_values(|e: ParseError| error_view(e)) == parse_errors_model(s)
    &&& node_text(p.tree) == s
    &&& node_wf(p.tree)
    &&& p.tree.kind == SyntaxKind::Root
    &&& p.tree.range.start == 0
    &&& p.tree.range.end == byte_len(s)
}

/// Parses `input` into its tree and its syntax errors. The tree is lossless: its leaves,
/// in order, spell `input` exactly, and its ranges are consistent with their texts.
pub fn parse(input: &str) -> (r: Parse)
    requires
        byte_len(input@) <= u32::MAX,
    ensures
        parse_of(r, input@),
{
    let tokens = tokenize(input);
    let events = parse_events(tokens.as_slice());
    let ghost evs = events@;
    let (tree, errors) = build_tree(tokens.as_slice(), events);
    proof {
        lemma_lexed_views(tokens@, input@);
        lemma_error_list_diags(evs);
    }
    Parse { tree, errors }
}

/// Serializing a parse and parsing the text again gives the same tree and the same
/// diagnostics: the tree spells its input, and what a text parses to depends on the text
/// alone.
pub proof fn lemma_reparse_same_tree(first: Parse, second: Parse, s: Seq<char>)
    requires
        parse_of(first, s),
        parse_of(second, node_text(first.tree)),
    ensures
        node_view(second.tree) == node_view(first.tree),
        second.errors@.map_values(|e: ParseError| error_view(e)) == first.errors@.map_values(
            |e: ParseError| error_view(e),
        ),
{
}

/// Parses `input` when its byte offsets fit in 32 bits, as `parse` requires; `None` otherwise.
pub fn try_parse(input: &str) -> (r: Option<Parse>)
    ensures
        r is Some <==> byte_len(input@) <= u32::MAX,
        r matches Some(p) ==> parse_of(p, input@),
{
    if fits_offsets(input) {
        Some(parse(input))
    } else {
        None
    }
}

} // verus!
