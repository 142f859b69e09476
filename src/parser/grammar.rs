use vstd::prelude::*;

use crate::parser::event::{
    depth, lemma_placeholder_in_prefix, lemma_push, lemma_update, placeholders, Event,
};
use crate::parser::model::{
    peek, rem, s_expr_bp, s_fail, s_expr_loop, s_infix, s_leaf, s_lhs, s_paren, s_prefix, s_root_from,
    s_stmt, s_stmts, s_variable_def,
};
use crate::lexer::token_views;
use crate::parser::{prefix_of, CompletedMarker, Parser};
use crate::syntax::{SyntaxKind, TokenKind};

verus! {

/// The binding power of a prefix `-`, above that of every infix operator.
pub const PREFIX_BINDING_POWER: u8 = 5;

/// The left and right binding powers of an infix operator; left-associative operators bind
/// one step harder to the right.
pub open spec fn spec_infix_binding_power(kind: TokenKind) -> Option<(u8, u8)> {
    match kind {
        TokenKind::Plus => Some((1u8, 2u8)),
        TokenKind::Minus => Some((1u8, 2u8)),
        TokenKind::Asterisk => Some((3u8, 4u8)),
        TokenKind::Slash => Some((3u8, 4u8)),
        _ => None,
    }
}

pub fn infix_binding_power(kind: TokenKind) -> (r: Option<(u8, u8)>)
    ensures
        r == spec_infix_binding_power(kind),
{
    match kind {
        TokenKind::Plus | TokenKind::Minus => Some((1, 2)),
        TokenKind::Asterisk | TokenKind::Slash => Some((3, 4)),
        _ => None,
    }
}

pub open spec fn marker_pos(r: Option<CompletedMarker>) -> Option<nat> {
    match r {
        Some(cm) => Some(cm.pos as nat),
        None => None,
    }
}

/// A completed node that the parser produced after `start`: its `StartNode` event is in place.
pub open spec fn fresh_node(start: &Parser, p: &Parser, cm: CompletedMarker) -> bool {
    &&& start.events@.len() <= cm.pos < p.events@.len()
    &&& p.events@[cm.pos as int] is StartNode
}

/// `root = stmt*`, until the end of the input. When a statement consumes nothing (its
/// diagnostic is already recorded), the token that stopped it goes into an `Error` node, so
/// that parsing goes on past it.
pub fn root(p: &mut Parser) -> (cm: CompletedMarker)
    requires
        old(p).wf(),
    ensures
        old(p).steps_to(final(p)),
        final(p).spec_peek() is None,
        final(p).source.cursor == final(p).source.tokens@.len(),
        fresh_node(old(p), final(p), cm),
        cm.pos == old(p).events@.len(),
        final(p).events@[cm.pos as int] == (Event::StartNode {
            kind: SyntaxKind::Root,
            forward_parent: None,
        }),
        final(p).model() == s_root_from(token_views(old(p).source.tokens@), old(p).model()),
        old(p).events@.len() == 0 ==> final(p).events@.last() == Event::FinishNode,
        old(p).events@.len() == 0 ==> forall|k: int|
            1 <= k < final(p).events@.len() ==> #[trigger] depth(final(p).events@.take(k)) >= 1,
{
    let ghost start = p.events@;
    let ghost ts = token_views(p.source.tokens@);
    let m = p.start();
    let ghost target = s_stmts(ts, p.model());
    while !p.at_end()
        invariant
            s_stmts(ts, p.model()) == target,
            ts == token_views(p.source.tokens@),
            p.wf(),
            p.source.tokens@ == old(p).source.tokens@,
            p.source.cursor >= old(p).source.cursor,
            prefix_of(start.push(Event::Placeholder), p.events@),
            placeholders(p.events@) == placeholders(start) + 1,
            m.pos == start.len(),
        decreases p.remaining(),
    {
        let ghost st = p.model();
        let before = p.source.cursor;
        proof {
            crate::parser::source::lemma_next_significant(p.source.tokens@, before as nat);
            assert(crate::lexer::kinds(p.source.tokens@)[before as int] == p.source.tokens@[before as int].kind);
        }
        assert(st.pos == before);
        stmt(p);
        if p.source.cursor == before {
            assert(p.model().pos == st.pos);
            leaf_node(p, SyntaxKind::Error);
        } else {
            proof {
                crate::parser::source::lemma_next_significant(p.source.tokens@, p.source.cursor as nat);
            }
            assert(p.model().pos != st.pos);
        }
        assert(0 <= rem(ts, p.model()) < rem(ts, st));
    }
    let ghost before = p.events@;
    let cm = p.complete(m, SyntaxKind::Root);
    assert(prefix_of(start, p.events@));
    proof {
        if start.len() == 0 {
            let root_start = Event::StartNode { kind: SyntaxKind::Root, forward_parent: None };
            let u = before.update(0, root_start);
            lemma_update(before, 0, root_start);
            lemma_push(u, Event::FinishNode);
            assert forall|k: int| 1 <= k < p.events@.len() implies #[trigger] depth(
                p.events@.take(k),
            ) >= 1 by {
                assert(p.events@.take(k) == u.take(k));
                assert(depth(before.take(k)) >= placeholders(before.take(k)));
                lemma_placeholder_in_prefix(before, 0, k);
            }
        }
    }
    cm
}

/// A `set` definition, or else an expression.
pub fn stmt(p: &mut Parser) -> (r: Option<CompletedMarker>)
    requires
        old(p).wf(),
    ensures
        old(p).steps_to(final(p)),
        r matches Some(cm) ==> fresh_node(old(p), final(p), cm),
        final(p).model() == s_stmt(token_views(old(p).source.tokens@), old(p).model()),
        old(p).spec_peek() == Some(TokenKind::SetKw) ==> (r matches Some(cm) && cm.pos
            == old(p).events@.len()),
        old(p).spec_peek() != Some(TokenKind::SetKw) ==> marker_pos(r) == s_expr_bp(
            token_views(old(p).source.tokens@),
            s_fail(old(p).model(), TokenKind::SetKw),
            0,
        ).1,
{
    if p.at(TokenKind::SetKw) {
        Some(variable_def(p))
    } else {
        expr(p)
    }
}

/// `variable_def = 'set' Identifier '=' expr ';'?`
pub fn variable_def(p: &mut Parser) -> (cm: CompletedMarker)
    requires
        old(p).wf(),
        old(p).spec_peek() == Some(TokenKind::SetKw),
    ensures
        old(p).steps_to(final(p)),
        final(p).source.cursor > old(p).source.cursor,
        final(p).source.lookahead() > old(p).source.lookahead(),
        fresh_node(old(p), final(p), cm),
        cm.pos == old(p).events@.len(),
        final(p).model() == s_variable_def(token_views(old(p).source.tokens@), old(p).model()),
{
    let ghost start = p.events@;
    let m = p.start();
    p.bump();
    p.expect(TokenKind::Identifier);
    p.expect(TokenKind::Equals);
    expr(p);
    if p.at(TokenKind::SemiColon) {
        p.bump();
    }
    let cm = p.complete(m, SyntaxKind::VariableDef);
    assert(prefix_of(start, p.events@));
    cm
}

pub fn expr(p: &mut Parser) -> (r: Option<CompletedMarker>)
    requires
        old(p).wf(),
    ensures
        old(p).steps_to(final(p)),
        r matches Some(cm) ==> fresh_node(old(p), final(p), cm),
        final(p).model() == s_expr_bp(token_views(old(p).source.tokens@), old(p).model(), 0).0,
        marker_pos(r) == s_expr_bp(token_views(old(p).source.tokens@), old(p).model(), 0).1,
{
    expr_binding_power(p, 0)
}

/// Pratt parsing: an operand, then every infix operator that binds at least as hard as
/// `minimum_binding_power`, each with its right operand.
pub fn expr_binding_power(p: &mut Parser, minimum_binding_power: u8) -> (r: Option<CompletedMarker>)
    requires
        old(p).wf(),
    ensures
        old(p).steps_to(final(p)),
        r matches Some(cm) ==> fresh_node(old(p), final(p), cm),
        final(p).model() == s_expr_bp(token_views(old(p).source.tokens@), old(p).model(), minimum_binding_power).0,
        marker_pos(r) == s_expr_bp(token_views(old(p).source.tokens@), old(p).model(), minimum_binding_power).1,
    decreases old(p).remaining(), 3nat,
{
    let ghost start = p.events@;
    let ghost ts = token_views(p.source.tokens@);
    let ghost st0 = p.model();
    let mut lhs = match lhs(p) {
        Some(cm) => cm,
        None => {
            return None;
        },
    };
    let ghost target = s_expr_loop(ts, p.model(), lhs.pos as nat, minimum_binding_power);
    assert(0 <= rem(ts, p.model()) <= rem(ts, st0));
    loop
        invariant_except_break
            s_expr_loop(ts, p.model(), lhs.pos as nat, minimum_binding_power) == target,
        invariant
            ts == token_views(p.source.tokens@),
            old(p).steps_to(p),
            start == old(p).events@,
            fresh_node(old(p), p, lhs),
        ensures
            p.model() == target.0,
            lhs.pos == target.1,
        decreases p.remaining(),
    {
        let ghost st = p.model();
        let op = p.peek_infix();
        let (left_binding_power, right_binding_power) = match op {
            Some(powers) => powers,
            None => {
                break ;
            },
        };
        if left_binding_power < minimum_binding_power {
            break ;
        }
        p.bump();
        let m = p.precede(lhs);
        assert(0 <= rem(ts, p.model()) < rem(ts, st));
        let parsed_rhs = expr_binding_power(p, right_binding_power).is_some();
        lhs = p.complete(m, SyntaxKind::InfixExpr);
        assert(prefix_of(start, p.events@));
        assert(0 <= rem(ts, p.model()) < rem(ts, st));
        if !parsed_rhs {
            break ;
        }
    }
    Some(lhs)
}

/// A number, a name, a negation or a parenthesized expression.
pub fn lhs(p: &mut Parser) -> (r: Option<CompletedMarker>)
    requires
        old(p).wf(),
    ensures
        old(p).steps_to(final(p)),
        r matches Some(cm) ==> fresh_node(old(p), final(p), cm),
        final(p).model() == s_lhs(token_views(old(p).source.tokens@), old(p).model()).0,
        marker_pos(r) == s_lhs(token_views(old(p).source.tokens@), old(p).model()).1,
    decreases old(p).remaining(), 2nat,
{
    if p.at(TokenKind::Number) {
        Some(leaf_node(p, SyntaxKind::Literal))
    } else if p.at(TokenKind::Identifier) {
        Some(leaf_node(p, SyntaxKind::VariableRef))
    } else if p.at(TokenKind::Minus) {
        Some(prefix_expr(p))
    } else if p.at(TokenKind::LParen) {
        Some(paren_expr(p))
    } else {
        p.error();
        None
    }
}

/// A node of the given kind around the next token alone.
fn leaf_node(p: &mut Parser, kind: SyntaxKind) -> (cm: CompletedMarker)
    requires
        old(p).wf(),
        old(p).spec_peek() is Some,
    ensures
        old(p).steps_to(final(p)),
        final(p).source.cursor > old(p).source.cursor,
        final(p).source.lookahead() > old(p).source.lookahead(),
        fresh_node(old(p), final(p), cm),
        cm.pos == old(p).events@.len(),
        final(p).model() == s_leaf(token_views(old(p).source.tokens@), old(p).model(), kind),
{
    let ghost start = p.events@;
    let m = p.start();
    p.bump();
    let cm = p.complete(m, kind);
    assert(prefix_of(start, p.events@));
    cm
}

/// `'-' expr`, where the operand binds harder than any infix operator.
fn prefix_expr(p: &mut Parser) -> (cm: CompletedMarker)
    requires
        old(p).wf(),
        old(p).spec_peek() == Some(TokenKind::Minus),
    ensures
        old(p).steps_to(final(p)),
        final(p).source.cursor > old(p).source.cursor,
        final(p).source.lookahead() > old(p).source.lookahead(),
        fresh_node(old(p), final(p), cm),
        cm.pos == old(p).events@.len(),
        final(p).model() == s_prefix(token_views(old(p).source.tokens@), old(p).model()),
    decreases old(p).remaining(), 1nat,
{
    let ghost start = p.events@;
    let ghost ts = token_views(p.source.tokens@);
    let ghost st = p.model();
    let m = p.start();
    p.bump();
    assert(0 <= rem(ts, p.model()) < rem(ts, st));
    expr_binding_power(p, PREFIX_BINDING_POWER);
    let cm = p.complete(m, SyntaxKind::PrefixExpr);
    assert(prefix_of(start, p.events@));
    cm
}

/// `'(' expr ')'`
fn paren_expr(p: &mut Parser) -> (cm: CompletedMarker)
    requires
        old(p).wf(),
        old(p).spec_peek() == Some(TokenKind::LParen),
    ensures
        old(p).steps_to(final(p)),
        final(p).source.cursor > old(p).source.cursor,
        final(p).source.lookahead() > old(p).source.lookahead(),
        fresh_node(old(p), final(p), cm),
        cm.pos == old(p).events@.len(),
        final(p).model() == s_paren(token_views(old(p).source.tokens@), old(p).model()),
    decreases old(p).remaining(), 1nat,
{
    let ghost start = p.events@;
    let ghost ts = token_views(p.source.tokens@);
    let ghost st = p.model();
    let m = p.start();
    p.bump();
    assert(0 <= rem(ts, p.model()) < rem(ts, st));
    expr_binding_power(p, 0);
    p.expect(TokenKind::RParen);
    let cm = p.complete(m, SyntaxKind::ParenExpr);
    assert(prefix_of(start, p.events@));
    cm
}

impl<'t> Parser<'t> {
    /// The binding powers of the next token, when it is an infix operator. Each operator
    /// looked for and not found joins the kinds reported by the next error.
    fn peek_infix(&mut self) -> (r: Option<(u8, u8)>)
        requires
            old(self).wf(),
        ensures
            old(self).steps_to(final(self)),
            final(self).events@ == old(self).events@,
            final(self).source.lookahead() == old(self).source.lookahead(),
            r is Some ==> old(self).spec_peek() is Some,
            (final(self).model(), r) == s_infix(token_views(old(self).source.tokens@), old(self).model()),
    {
        if self.at(TokenKind::Plus) {
            infix_binding_power(TokenKind::Plus)
        } else if self.at(TokenKind::Minus) {
            infix_binding_power(TokenKind::Minus)
        } else if self.at(TokenKind::Asterisk) {
            infix_binding_power(TokenKind::Asterisk)
        } else if self.at(TokenKind::Slash) {
            infix_binding_power(TokenKind::Slash)
        } else {
            None
        }
    }
}

} // verus!
