use vstd::prelude::*;

use crate::number::{all_digits, digits_value, parse_u64};
use crate::syntax::SyntaxKind;
use crate::tree::{SyntaxElement, SyntaxNode, SyntaxToken};

verus! {

/// The kinds of node that an expression view accepts.
pub open spec fn is_expr_kind(k: SyntaxKind) -> bool {
    k == SyntaxKind::InfixExpr || k == SyntaxKind::Literal || k == SyntaxKind::ParenExpr || k
        == SyntaxKind::PrefixExpr || k == SyntaxKind::VariableRef
}

/// The kinds of node that a statement view accepts.
pub open spec fn is_stmt_kind(k: SyntaxKind) -> bool {
    k == SyntaxKind::VariableDef || is_expr_kind(k)
}

pub open spec fn is_operator_kind(k: SyntaxKind) -> bool {
    k == SyntaxKind::Plus || k == SyntaxKind::Minus || k == SyntaxKind::Asterisk || k
        == SyntaxKind::Slash
}

/// Which children an accessor looks for.
#[derive(Debug, Clone, Copy, PartialEq, Eq, Structural)]
pub enum ChildFilter {
    /// A node that an expression view accepts.
    ExprNode,
    /// A token of the given kind.
    TokenOf(SyntaxKind),
    /// An operator token.
    Operator,
}

pub open spec fn filter_matches(f: ChildFilter, e: SyntaxElement) -> bool {
    match f {
        ChildFilter::ExprNode => e is Node && is_expr_kind(e->Node_0.kind),
        ChildFilter::TokenOf(k) => e is Token && e->Token_0.kind == k,
        ChildFilter::Operator => e is Token && is_operator_kind(e->Token_0.kind),
    }
}

/// The index of the first of `cs[from..]` that `f` accepts, or the length when none does.
pub open spec fn first_from(cs: Seq<SyntaxElement>, f: ChildFilter, from: int) -> int
    decreases cs.len() - from,
{
    if from < 0 || from >= cs.len() {
        cs.len() as int
    } else if filter_matches(f, cs[from]) {
        from
    } else {
        first_from(cs, f, from + 1)
    }
}

fn matches_filter(f: ChildFilter, e: &SyntaxElement) -> (r: bool)
    ensures
        r == filter_matches(f, *e),
{
    match (f, e) {
        (ChildFilter::ExprNode, SyntaxElement::Node(n)) => is_expr(n.kind),
        (ChildFilter::TokenOf(k), SyntaxElement::Token(t)) => t.kind == k,
        (ChildFilter::Operator, SyntaxElement::Token(t)) => match t.kind {
            SyntaxKind::Plus | SyntaxKind::Minus | SyntaxKind::Asterisk | SyntaxKind::Slash => true,
            _ => false,
        },
        _ => false,
    }
}

fn is_expr(k: SyntaxKind) -> (r: bool)
    ensures
        r == is_expr_kind(k),
{
    match k {
        SyntaxKind::InfixExpr | SyntaxKind::Literal | SyntaxKind::ParenExpr
        | SyntaxKind::PrefixExpr | SyntaxKind::VariableRef => true,
        _ => false,
    }
}

/// The index of the first child at or after `from` that `f` accepts.
pub fn find_child(cs: &Vec<SyntaxElement>, from: usize, f: ChildFilter) -> (r: usize)
    requires
        from <= cs@.len(),
    ensures
        r == first_from(cs@, f, from as int),
        from <= r <= cs@.len(),
        r < cs@.len() ==> filter_matches(f, cs@[r as int]),
{
    let mut i = from;
    while i < cs.len() && !matches_filter(f, &cs[i])
        invariant
            from <= i <= cs@.len(),
            first_from(cs@, f, from as int) == first_from(cs@, f, i as int),
        decreases cs@.len() - i,
    {
        i = i + 1;
    }
    i
}

/// The child node at `i`, viewed as an expression, when `i` is in range.
fn expr_at<'a>(cs: &'a Vec<SyntaxElement>, i: usize) -> (r: Option<Expr<'a>>)
    ensures
        i < cs@.len() && cs@[i as int] is Node && is_expr_kind(cs@[i as int]->Node_0.kind) ==> r
            is Some && r->0.spec_node() == cs@[i as int]->Node_0,
        !(i < cs@.len() && cs@[i as int] is Node && is_expr_kind(cs@[i as int]->Node_0.kind))
            ==> r is None,
{
    if i < cs.len() {
        match &cs[i] {
            SyntaxElement::Node(n) => Expr::cast(n),
            SyntaxElement::Token(_) => None,
        }
    } else {
        None
    }
}

/// The child token at `i`, when `i` is in range and holds a token.
fn token_at<'a>(cs: &'a Vec<SyntaxElement>, i: usize) -> (r: Option<&'a SyntaxToken>)
    ensures
        i < cs@.len() && cs@[i as int] is Token ==> r == Some(&cs@[i as int]->Token_0),
        !(i < cs@.len() && cs@[i as int] is Token) ==> r is None,
{
    if i < cs.len() {
        match &cs[i] {
            SyntaxElement::Token(t) => Some(t),
            SyntaxElement::Node(_) => None,
        }
    } else {
        None
    }
}

/// The whole file.
pub struct Root<'a>(pub &'a SyntaxNode);

/// The nodes among `cs` that a statement view accepts, in order.
pub open spec fn stmt_nodes(cs: Seq<SyntaxElement>) -> Seq<SyntaxNode>
    decreases cs.len(),
{
    if cs.len() == 0 {
        seq![]
    } else {
        let last = cs[cs.len() - 1];
        stmt_nodes(cs.drop_last()) + if last is Node && is_stmt_kind(last->Node_0.kind) {
            seq![last->Node_0]
        } else {
            seq![]
        }
    }
}

impl<'a> Root<'a> {
    pub fn cast(node: &'a SyntaxNode) -> (r: Option<Root<'a>>)
        ensures
            r is Some <==> node.kind == SyntaxKind::Root,
            r matches Some(x) ==> *x.0 == *node,
    {
        if node.kind == SyntaxKind::Root {
            Some(Root(node))
        } else {
            None
        }
    }

    /// The statements, in order.
    pub fn stmts(&self) -> (r: Vec<Stmt<'a>>)
        ensures
            r@.len() == stmt_nodes(self.0.children@).len(),
            forall|i: int| 0 <= i < r@.len() ==> (#[trigger] r@[i]).spec_node() == stmt_nodes(
                self.0.children@,
            )[i],
    {
        let cs = &self.0.children;
        let mut r: Vec<Stmt<'a>> = Vec::new();
        let mut i: usize = 0;
        while i < cs.len()
            invariant
                i <= cs@.len(),
                cs@ == self.0.children@,
                r@.len() == stmt_nodes(cs@.take(i as int)).len(),
                forall|j: int| 0 <= j < r@.len() ==> (#[trigger] r@[j]).spec_node() == stmt_nodes(
                    cs@.take(i as int),
                )[j],
            decreases cs@.len() - i,
        {
            let ghost before = r@;
            proof {
                assert(cs@.take(i + 1).drop_last() =~= cs@.take(i as int));
            }
            match &cs[i] {
                SyntaxElement::Node(n) => {
                    match Stmt::cast(n) {
                        Some(s) => {
                            r.push(s);
                        },
                        None => {},
                    }
                },
                SyntaxElement::Token(_) => {},
            }
            i = i + 1;
            proof {
                assert forall|j: int| 0 <= j < r@.len() implies (#[trigger] r@[j]).spec_node()
                    == stmt_nodes(cs@.take(i as int))[j] by {
                    if j < before.len() {
                        assert(r@[j] == before[j]);
                    }
                }
            }
        }
        assert(cs@.take(i as int) =~= cs@);
        r
    }
}

/// A statement: a definition, or an expression on its own.
pub enum Stmt<'a> {
    VariableDef(VariableDef<'a>),
    Expr(Expr<'a>),
}

impl<'a> Stmt<'a> {
    pub open spec fn spec_node(self) -> SyntaxNode {
        match self {
            Stmt::VariableDef(d) => *d.0,
            Stmt::Expr(e) => e.spec_node(),
        }
    }

    pub fn cast(node: &'a SyntaxNode) -> (r: Option<Stmt<'a>>)
        ensures
            r is Some <==> is_stmt_kind(node.kind),
            r matches Some(s) ==> s.spec_node() == *node,
            r matches Some(s) ==> (s is VariableDef <==> node.kind == SyntaxKind::VariableDef),
    {
        if node.kind == SyntaxKind::VariableDef {
            Some(Stmt::VariableDef(VariableDef(node)))
        } else {
            match Expr::cast(node) {
                Some(e) => Some(Stmt::Expr(e)),
                None => None,
            }
        }
    }
}

/// `set name = value`
pub struct VariableDef<'a>(pub &'a SyntaxNode);

impl<'a> VariableDef<'a> {
    pub fn cast(node: &'a SyntaxNode) -> (r: Option<VariableDef<'a>>)
        ensures
            r is Some <==> node.kind == SyntaxKind::VariableDef,
            r matches Some(x) ==> *x.0 == *node,
    {
        if node.kind == SyntaxKind::VariableDef {
            Some(VariableDef(node))
        } else {
            None
        }
    }

    /// The first identifier token among the children.
    pub fn name(&self) -> (r: Option<&'a SyntaxToken>)
        ensures
            ({
                let cs = self.0.children@;
                let i = first_from(cs, ChildFilter::TokenOf(SyntaxKind::Identifier), 0);
                &&& r is Some <==> i < cs.len()
                &&& r matches Some(t) ==> *t == cs[i]->Token_0
            }),
    {
        let i = find_child(&self.0.children, 0, ChildFilter::TokenOf(SyntaxKind::Identifier));
        token_at(&self.0.children, i)
    }

    /// The first expression among the children; absent when the definition lacks one.
    pub fn value(&self) -> (r: Option<Expr<'a>>)
        ensures
            ({
                let cs = self.0.children@;
                let i = first_from(cs, ChildFilter::ExprNode, 0);
                &&& r is Some <==> i < cs.len()
                &&& r matches Some(e) ==> e.spec_node() == cs[i]->Node_0
            }),
    {
        let i = find_child(&self.0.children, 0, ChildFilter::ExprNode);
        expr_at(&self.0.children, i)
    }
}

/// An expression.
pub enum Expr<'a> {
    BinaryExpr(BinaryExpr<'a>),
    Literal(Literal<'a>),
    ParenExpr(ParenExpr<'a>),
    UnaryExpr(UnaryExpr<'a>),
    VariableRef(VariableRef<'a>),
}

impl<'a> Expr<'a> {
    pub open spec fn spec_node(self) -> SyntaxNode {
        match self {
            Expr::BinaryExpr(x) => *x.0,
            Expr::Literal(x) => *x.0,
            Expr::ParenExpr(x) => *x.0,
            Expr::UnaryExpr(x) => *x.0,
            Expr::VariableRef(x) => *x.0,
        }
    }

    /// The view that matches the node's kind, if any does.
    pub fn cast(node: &'a SyntaxNode) -> (r: Option<Expr<'a>>)
        ensures
            r is Some <==> is_expr_kind(node.kind),
            r matches Some(e) ==> e.spec_node() == *node,
            r matches Some(e) ==> (e is BinaryExpr <==> node.kind == SyntaxKind::InfixExpr),
            r matches Some(e) ==> (e is Literal <==> node.kind == SyntaxKind::Literal),
            r matches Some(e) ==> (e is ParenExpr <==> node.kind == SyntaxKind::ParenExpr),
            r matches Some(e) ==> (e is UnaryExpr <==> node.kind == SyntaxKind::PrefixExpr),
            r matches Some(e) ==> (e is VariableRef <==> node.kind == SyntaxKind::VariableRef),
    {
        match node.kind {
            SyntaxKind::InfixExpr => Some(Expr::BinaryExpr(BinaryExpr(node))),
            SyntaxKind::Literal => Some(Expr::Literal(Literal(node))),
            SyntaxKind::ParenExpr => Some(Expr::ParenExpr(ParenExpr(node))),
            SyntaxKind::PrefixExpr => Some(Expr::UnaryExpr(UnaryExpr(node))),
            SyntaxKind::VariableRef => Some(Expr::VariableRef(VariableRef(node))),
            _ => None,
        }
    }

    pub fn syntax(&self) -> (r: &'a SyntaxNode)
        ensures
            *r == self.spec_node(),
    {
        match self {
            Expr::BinaryExpr(x) => x.0,
            Expr::Literal(x) => x.0,
            Expr::ParenExpr(x) => x.0,
            Expr::UnaryExpr(x) => x.0,
            Expr::VariableRef(x) => x.0,
        }
    }
}

/// The kind of the first operator token among `cs`.
pub open spec fn first_operator(cs: Seq<SyntaxElement>) -> Option<SyntaxKind> {
    let i = first_from(cs, ChildFilter::Operator, 0);
    if i < cs.len() {
        Some(cs[i]->Token_0.kind)
    } else {
        None
    }
}

fn operator_of(cs: &Vec<SyntaxElement>) -> (r: Option<SyntaxKind>)
    ensures
        r == first_operator(cs@),
{
    let i = find_child(cs, 0, ChildFilter::Operator);
    match token_at(cs, i) {
        Some(t) => Some(t.kind),
        None => None,
    }
}

/// `lhs op rhs`
pub struct BinaryExpr<'a>(pub &'a SyntaxNode);

impl<'a> BinaryExpr<'a> {
    /// The first expression among the children.
    pub fn lhs(&self) -> (r: Option<Expr<'a>>)
        ensures
            ({
                let cs = self.0.children@;
                let i = first_from(cs, ChildFilter::ExprNode, 0);
                &&& r is Some <==> i < cs.len()
                &&& r matches Some(e) ==> e.spec_node() == cs[i]->Node_0
            }),
    {
        let i = find_child(&self.0.children, 0, ChildFilter::ExprNode);
        expr_at(&self.0.children, i)
    }

    /// The second expression among the children.
    pub fn rhs(&self) -> (r: Option<Expr<'a>>)
        ensures
            ({
                let cs = self.0.children@;
                let i = first_from(cs, ChildFilter::ExprNode, 0);
                let j = first_from(cs, ChildFilter::ExprNode, i + 1);
                &&& r is Some <==> i < cs.len() && j < cs.len()
                &&& r matches Some(e) ==> e.spec_node() == cs[j]->Node_0
            }),
    {
        let i = find_child(&self.0.children, 0, ChildFilter::ExprNode);
        if i < self.0.children.len() {
            let j = find_child(&self.0.children, i + 1, ChildFilter::ExprNode);
            expr_at(&self.0.children, j)
        } else {
            None
        }
    }

    /// The kind of the operator token.
    pub fn op(&self) -> (r: Option<SyntaxKind>)
        ensures
            r == first_operator(self.0.children@),
    {
        operator_of(&self.0.children)
    }
}

/// `op expr`
pub struct UnaryExpr<'a>(pub &'a SyntaxNode);

impl<'a> UnaryExpr<'a> {
    /// The operand.
    pub fn expr(&self) -> (r: Option<Expr<'a>>)
        ensures
            ({
                let cs = self.0.children@;
                let i = first_from(cs, ChildFilter::ExprNode, 0);
                &&& r is Some <==> i < cs.len()
                &&& r matches Some(e) ==> e.spec_node() == cs[i]->Node_0
            }),
    {
        let i = find_child(&self.0.children, 0, ChildFilter::ExprNode);
        expr_at(&self.0.children, i)
    }

    /// The kind of the operator token.
    pub fn op(&self) -> (r: Option<SyntaxKind>)
        ensures
            r == first_operator(self.0.children@),
    {
        operator_of(&self.0.children)
    }
}

/// `( expr )`
pub struct ParenExpr<'a>(pub &'a SyntaxNode);

impl<'a> ParenExpr<'a> {
    /// The enclosed expression.
    pub fn expr(&self) -> (r: Option<Expr<'a>>)
        ensures
            ({
                let cs = self.0.children@;
                let i = first_from(cs, ChildFilter::ExprNode, 0);
                &&& r is Some <==> i < cs.len()
                &&& r matches Some(e) ==> e.spec_node() == cs[i]->Node_0
            }),
    {
        let i = find_child(&self.0.children, 0, ChildFilter::ExprNode);
        expr_at(&self.0.children, i)
    }
}

/// A use of a variable.
pub struct VariableRef<'a>(pub &'a SyntaxNode);

impl<'a> VariableRef<'a> {
    /// The identifier token.
    pub fn name(&self) -> (r: Option<&'a SyntaxToken>)
        ensures
            ({
                let cs = self.0.children@;
                let i = first_from(cs, ChildFilter::TokenOf(SyntaxKind::Identifier), 0);
                &&& r is Some <==> i < cs.len()
                &&& r matches Some(t) ==> *t == cs[i]->Token_0
            }),
    {
        let i = find_child(&self.0.children, 0, ChildFilter::TokenOf(SyntaxKind::Identifier));
        token_at(&self.0.children, i)
    }
}

/// A number.
pub struct Literal<'a>(pub &'a SyntaxNode);

/// The token that a literal wraps: its first child, when that is a token.
pub open spec fn literal_token(n: SyntaxNode) -> Option<SyntaxToken> {
    if n.children@.len() > 0 && n.children@[0] is Token {
        Some(n.children@[0]->Token_0)
    } else {
        None
    }
}

/// The value of a literal, when its token is a numeral whose value fits in 64 bits.
pub open spec fn literal_value(n: SyntaxNode) -> Option<u64> {
    match literal_token(n) {
        Some(t) => if t.text@.len() > 0 && all_digits(t.text@) && digits_value(t.text@)
            <= u64::MAX {
            Some(digits_value(t.text@) as u64)
        } else {
            None
        },
        None => None,
    }
}

fn is_numeral(s: &str) -> (r: bool)
    ensures
        r == (s@.len() > 0 && all_digits(s@)),
{
    let n = s.unicode_len();
    let mut i: usize = 0;
    while i < n
        invariant
            n == s@.len(),
            i <= n,
            forall|j: int| 0 <= j < i ==> crate::lexer::is_digit(#[trigger] s@[j]),
        decreases n - i,
    {
        let c = s.get_char(i);
        if !('0' <= c && c <= '9') {
            return false;
        }
        i = i + 1;
    }
    n > 0
}

impl<'a> Literal<'a> {
    pub fn cast(node: &'a SyntaxNode) -> (r: Option<Literal<'a>>)
        ensures
            r is Some <==> node.kind == SyntaxKind::Literal,
            r matches Some(x) ==> *x.0 == *node,
    {
        if node.kind == SyntaxKind::Literal {
            Some(Literal(node))
        } else {
            None
        }
    }

    /// The token that the literal wraps.
    pub fn token(&self) -> (r: Option<&'a SyntaxToken>)
        ensures
            literal_token(*self.0) is Some ==> r == Some(&literal_token(*self.0)->0),
            literal_token(*self.0) is None ==> r is None,
    {
        token_at(&self.0.children, 0)
    }

    /// The value of the literal as an unsigned 64-bit integer; absent on overflow.
    pub fn parse(&self) -> (r: Option<u64>)
        ensures
            r == literal_value(*self.0),
    {
        match self.token() {
            Some(t) => {
                if is_numeral(t.text.as_str()) {
                    parse_u64(t.text.as_str())
                } else {
                    None
                }
            },
            None => None,
        }
    }
}

} // verus!
