use vstd::prelude::*;

use crate::parser::event::{error_list, Event};
use crate::parser::parse_error::ParseError;
use crate::parser::grammar::{spec_infix_binding_power, PREFIX_BINDING_POWER};
use crate::lexer::TokenView;
use crate::parser::source::skip_trivia;
use crate::syntax::{syntax_kind_of, SyntaxKind, TokenKind};
use crate::text::TextRange;

verus! {

/// An event as a value: a diagnostic holds the kinds looked for, the kind found and the range.
pub enum Shape {
    Start(SyntaxKind, Option<usize>),
    Add,
    Finish,
    Diag(Seq<SyntaxKind>, Option<SyntaxKind>, TextRange),
    Slot,
}

pub open spec fn shape(e: Event) -> Shape {
    match e {
        Event::StartNode { kind, forward_parent } => Shape::Start(kind, forward_parent),
        Event::AddToken => Shape::Add,
        Event::FinishNode => Shape::Finish,
        Event::Error(e) => Shape::Diag(e.expected@, e.found, e.range),
        Event::Placeholder => Shape::Slot,
    }
}

pub open spec fn shapes(evs: Seq<Event>) -> Seq<Shape> {
    evs.map_values(|e: Event| shape(e))
}

/// A diagnostic as a value.
pub open spec fn error_view(e: ParseError) -> Shape {
    Shape::Diag(e.expected@, e.found, e.range)
}

/// The diagnostics among `evs`, in order.
pub open spec fn diags(evs: Seq<Shape>) -> Seq<Shape>
    decreases evs.len(),
{
    if evs.len() == 0 {
        seq![]
    } else {
        diags(evs.drop_last()) + if evs.last() is Diag {
            seq![evs.last()]
        } else {
            seq![]
        }
    }
}

pub proof fn lemma_error_list_diags(evs: Seq<Event>)
    ensures
        error_list(evs).map_values(|e: ParseError| error_view(e)) == diags(shapes(evs)),
    decreases evs.len(),
{
    if evs.len() > 0 {
        lemma_error_list_diags(evs.drop_last());
        assert(shapes(evs).drop_last() =~= shapes(evs.drop_last()));
        assert(error_list(evs).map_values(|e: ParseError| error_view(e)) =~= diags(shapes(evs)));
    } else {
        assert(error_list(evs).map_values(|e: ParseError| error_view(e)) =~= diags(shapes(evs)));
    }
}

/// The grammar's view of a parse in progress: the position of the next non-trivia token,
/// the events emitted so far, and the kinds looked for since the last consumed token.
pub struct PState {
    pub pos: nat,
    pub ev: Seq<Shape>,
    pub exp: Seq<SyntaxKind>,
}

pub open spec fn view_kinds(tv: Seq<TokenView>) -> Seq<TokenKind> {
    tv.map_values(|t: TokenView| t.kind)
}

/// Where the input ends, in bytes.
pub open spec fn end_of(tv: Seq<TokenView>) -> u32 {
    if tv.len() == 0 {
        0
    } else {
        tv.last().range.end
    }
}

/// The next token was not of the given kind: the kind joins those that the next
/// diagnostic reports.
pub open spec fn s_fail(st: PState, kind: TokenKind) -> PState {
    PState { exp: st.exp.push(syntax_kind_of(kind)), ..st }
}

pub open spec fn rem(tv: Seq<TokenView>, st: PState) -> int {
    tv.len() - st.pos
}

pub open spec fn peek(tv: Seq<TokenView>, st: PState) -> Option<TokenKind> {
    if st.pos < tv.len() {
        Some(tv[st.pos as int].kind)
    } else {
        None
    }
}

pub open spec fn s_bump(tv: Seq<TokenView>, st: PState) -> PState {
    PState { pos: skip_trivia(view_kinds(tv), st.pos + 1), ev: st.ev.push(Shape::Add), exp: seq![] }
}

pub open spec fn s_start(st: PState) -> PState {
    PState { ev: st.ev.push(Shape::Slot), ..st }
}

pub open spec fn s_complete(st: PState, m: int, kind: SyntaxKind) -> PState {
    PState { ev: st.ev.update(m, Shape::Start(kind, None)).push(Shape::Finish), ..st }
}

pub open spec fn start_kind(s: Shape) -> SyntaxKind {
    match s {
        Shape::Start(k, _) => k,
        _ => SyntaxKind::Error,
    }
}

pub open spec fn s_precede(st: PState, cm: int) -> PState {
    PState {
        ev: st.ev.update(
            cm,
            Shape::Start(start_kind(st.ev[cm]), Some((st.ev.len() - cm) as usize)),
        ).push(Shape::Slot),
        ..st
    }
}

/// A diagnostic at the next token (or at the end of the input) with the kinds looked for;
/// the token itself is not consumed.
pub open spec fn s_error(tv: Seq<TokenView>, st: PState) -> PState {
    let found = match peek(tv, st) {
        Some(k) => Some(syntax_kind_of(k)),
        None => None,
    };
    let range = if st.pos < tv.len() {
        tv[st.pos as int].range
    } else {
        TextRange { start: end_of(tv), end: end_of(tv) }
    };
    PState { pos: st.pos, ev: st.ev.push(Shape::Diag(st.exp, found, range)), exp: seq![] }
}

pub open spec fn s_expect(tv: Seq<TokenView>, st: PState, kind: TokenKind) -> PState {
    if peek(tv, st) == Some(kind) {
        s_bump(tv, st)
    } else {
        s_error(tv, s_fail(st, kind))
    }
}

/// A node of the given kind around the next token alone.
pub open spec fn s_leaf(tv: Seq<TokenView>, st: PState, kind: SyntaxKind) -> PState {
    s_complete(s_bump(tv, s_start(st)), st.ev.len() as int, kind)
}

/// An operand: a number, a name, a negation or a parenthesized expression. Also the index
/// of the node completed, if any.
pub open spec fn s_lhs(tv: Seq<TokenView>, st: PState) -> (PState, Option<nat>)
    decreases rem(tv, st), 2nat,
{
    let m = st.ev.len();
    let st1 = s_fail(st, TokenKind::Number);
    let st2 = s_fail(st1, TokenKind::Identifier);
    let st3 = s_fail(st2, TokenKind::Minus);
    if peek(tv, st) == Some(TokenKind::Number) {
        (s_leaf(tv, st, SyntaxKind::Literal), Some(m))
    } else if peek(tv, st) == Some(TokenKind::Identifier) {
        (s_leaf(tv, st1, SyntaxKind::VariableRef), Some(m))
    } else if peek(tv, st) == Some(TokenKind::Minus) {
        (s_prefix(tv, st2), Some(m))
    } else if peek(tv, st) == Some(TokenKind::LParen) {
        (s_paren(tv, st3), Some(m))
    } else {
        (s_error(tv, s_fail(st3, TokenKind::LParen)), None)
    }
}

pub open spec fn s_prefix(tv: Seq<TokenView>, st: PState) -> PState
    decreases rem(tv, st), 1nat,
{
    let m = st.ev.len() as int;
    let st1 = s_bump(tv, s_start(st));
    if 0 <= rem(tv, st1) < rem(tv, st) {
        s_complete(s_expr_bp(tv, st1, PREFIX_BINDING_POWER).0, m, SyntaxKind::PrefixExpr)
    } else {
        st1
    }
}

pub open spec fn s_paren(tv: Seq<TokenView>, st: PState) -> PState
    decreases rem(tv, st), 1nat,
{
    let m = st.ev.len() as int;
    let st1 = s_bump(tv, s_start(st));
    if 0 <= rem(tv, st1) < rem(tv, st) {
        let st2 = s_expr_bp(tv, st1, 0).0;
        s_complete(s_expect(tv, st2, TokenKind::RParen), m, SyntaxKind::ParenExpr)
    } else {
        st1
    }
}

/// Pratt parsing: an operand, then the operators that bind at least as hard as `min`.
pub open spec fn s_expr_bp(tv: Seq<TokenView>, st: PState, min: u8) -> (PState, Option<nat>)
    decreases rem(tv, st), 4nat,
{
    let (st1, l) = s_lhs(tv, st);
    match l {
        None => (st1, None),
        Some(lhs) => if 0 <= rem(tv, st1) <= rem(tv, st) {
            let (st2, m) = s_expr_loop(tv, st1, lhs, min);
            (st2, Some(m))
        } else {
            (st1, Some(lhs))
        },
    }
}

/// Looks for an infix operator at the next token; each operator looked for and not found
/// joins the kinds that the next diagnostic reports.
pub open spec fn s_infix(tv: Seq<TokenView>, st: PState) -> (PState, Option<(u8, u8)>) {
    let st1 = s_fail(st, TokenKind::Plus);
    let st2 = s_fail(st1, TokenKind::Minus);
    let st3 = s_fail(st2, TokenKind::Asterisk);
    if peek(tv, st) == Some(TokenKind::Plus) {
        (st, spec_infix_binding_power(TokenKind::Plus))
    } else if peek(tv, st) == Some(TokenKind::Minus) {
        (st1, spec_infix_binding_power(TokenKind::Minus))
    } else if peek(tv, st) == Some(TokenKind::Asterisk) {
        (st2, spec_infix_binding_power(TokenKind::Asterisk))
    } else if peek(tv, st) == Some(TokenKind::Slash) {
        (st3, spec_infix_binding_power(TokenKind::Slash))
    } else {
        (s_fail(st3, TokenKind::Slash), None)
    }
}

/// The operator loop of Pratt parsing, with `lhs` the node parsed so far.
pub open spec fn s_expr_loop(tv: Seq<TokenView>, st: PState, lhs: nat, min: u8) -> (PState, nat)
    decreases rem(tv, st), 3nat,
{
    let (st0, op) = s_infix(tv, st);
    match op {
        None => (st0, lhs),
        Some((l, r)) => if l < min {
            (st0, lhs)
        } else {
            let st1 = s_bump(tv, st0);
            let m = st1.ev.len();
            let st2 = s_precede(st1, lhs as int);
            if 0 <= rem(tv, st2) < rem(tv, st) {
                let (st3, rhs) = s_expr_bp(tv, st2, r);
                let st4 = s_complete(st3, m as int, SyntaxKind::InfixExpr);
                if rhs is None {
                    (st4, m)
                } else if 0 <= rem(tv, st4) < rem(tv, st) {
                    s_expr_loop(tv, st4, m, min)
                } else {
                    (st4, m)
                }
            } else {
                (st2, lhs)
            }
        },
    }
}

/// `'set' Identifier '=' expr ';'?`
pub open spec fn s_variable_def(tv: Seq<TokenView>, st: PState) -> PState {
    let m = st.ev.len() as int;
    let st1 = s_bump(tv, s_start(st));
    let st2 = s_expect(tv, st1, TokenKind::Identifier);
    let st3 = s_expect(tv, st2, TokenKind::Equals);
    let st4 = s_expr_bp(tv, st3, 0).0;
    let st5 = if peek(tv, st4) == Some(TokenKind::SemiColon) {
        s_bump(tv, st4)
    } else {
        s_fail(st4, TokenKind::SemiColon)
    };
    s_complete(st5, m, SyntaxKind::VariableDef)
}

pub open spec fn s_stmt(tv: Seq<TokenView>, st: PState) -> PState {
    if peek(tv, st) == Some(TokenKind::SetKw) {
        s_variable_def(tv, st)
    } else {
        s_expr_bp(tv, s_fail(st, TokenKind::SetKw), 0).0
    }
}

/// Statements until the end of the input. A token that no statement can start with goes
/// into an `Error` node of its own, so that parsing goes on past it.
pub open spec fn s_stmts(tv: Seq<TokenView>, st: PState) -> PState
    decreases rem(tv, st),
{
    if peek(tv, st) is None {
        st
    } else {
        let st1 = s_stmt(tv, st);
        let st2 = if st1.pos == st.pos {
            s_leaf(tv, st1, SyntaxKind::Error)
        } else {
            st1
        };
        if 0 <= rem(tv, st2) < rem(tv, st) {
            s_stmts(tv, st2)
        } else {
            st2
        }
    }
}

/// `root = stmt*`: a `Root` node around the statements up to the end of the input.
pub open spec fn s_root_from(tv: Seq<TokenView>, st: PState) -> PState {
    s_complete(s_stmts(tv, s_start(st)), st.ev.len() as int, SyntaxKind::Root)
}

/// The events, as values, that parsing the tokens `tv` emits.
pub open spec fn s_root(tv: Seq<TokenView>) -> Seq<Shape> {
    s_root_from(tv, PState { pos: skip_trivia(view_kinds(tv), 0), ev: seq![], exp: seq![] }).ev
}

} // verus!
