use vstd::prelude::*;

use crate::lexer::{kinds, Token};
use crate::syntax::TokenKind;

verus! {

/// The position of the first non-trivia kind at or after `i` (the length when none is left).
pub open spec fn skip_trivia(ks: Seq<TokenKind>, i: nat) -> nat
    decreases ks.len() - i,
{
    if i < ks.len() && ks[i as int].spec_is_trivia() {
        skip_trivia(ks, i + 1)
    } else {
        i
    }
}

/// The position of the first non-trivia token at or after `i` (the length when none is left).
pub open spec fn next_significant(ts: Seq<Token>, i: nat) -> nat {
    skip_trivia(kinds(ts), i)
}

proof fn lemma_skip_trivia(ks: Seq<TokenKind>, i: nat)
    requires
        i <= ks.len(),
    ensures
        i <= skip_trivia(ks, i) <= ks.len(),
        skip_trivia(ks, i) < ks.len() ==> !ks[skip_trivia(ks, i) as int].spec_is_trivia(),
        forall|j: int| i <= j < skip_trivia(ks, i) ==> (#[trigger] ks[j]).spec_is_trivia(),
    decreases ks.len() - i,
{
    if i < ks.len() && ks[i as int].spec_is_trivia() {
        lemma_skip_trivia(ks, i + 1);
    }
}

pub proof fn lemma_next_significant(ts: Seq<Token>, i: nat)
    requires
        i <= ts.len(),
    ensures
        i <= next_significant(ts, i) <= ts.len(),
        next_significant(ts, i) < ts.len() ==> !ts[next_significant(ts, i) as int].kind.spec_is_trivia(),
        forall|j: int| i <= j < next_significant(ts, i) ==> (#[trigger] ts[j]).kind.spec_is_trivia(),
{
    let ks = kinds(ts);
    lemma_skip_trivia(ks, i);
    assert forall|j: int| i <= j < next_significant(ts, i) implies (#[trigger] ts[j]).kind.spec_is_trivia() by {
        assert(ks[j] == ts[j].kind);
    }
}

/// The number of non-trivia tokens among the first `k`.
pub open spec fn significant(ts: Seq<Token>, k: int) -> int
    decreases k,
{
    if k <= 0 {
        0
    } else {
        significant(ts, k - 1) + if ts[k - 1].kind.spec_is_trivia() {
            0int
        } else {
            1int
        }
    }
}

/// Stepping over trivia passes no significant token; consuming the token after it passes one.
pub proof fn lemma_significant_step(ts: Seq<Token>, i: nat)
    requires
        i <= ts.len(),
    ensures
        significant(ts, next_significant(ts, i) as int) == significant(ts, i as int),
        next_significant(ts, i) < ts.len() ==> significant(ts, next_significant(ts, i) as int + 1)
            == significant(ts, i as int) + 1,
    decreases ts.len() - i,
{
    lemma_next_significant(ts, i);
    if i < ts.len() && ts[i as int].kind.spec_is_trivia() {
        assert(kinds(ts)[i as int] == ts[i as int].kind);
        lemma_significant_step(ts, i + 1);
    }
}

/// A cursor over the token buffer that steps over trivia before each read.
pub struct Source<'t> {
    pub tokens: &'t [Token],
    pub cursor: usize,
}

impl<'t> Source<'t> {
    pub open spec fn wf(&self) -> bool {
        self.cursor <= self.tokens@.len()
    }

    /// The position of the next non-trivia token.
    pub open spec fn lookahead(&self) -> nat {
        next_significant(self.tokens@, self.cursor as nat)
    }

    /// The kind of the next non-trivia token, if any is left.
    pub open spec fn spec_peek(&self) -> Option<TokenKind> {
        if self.lookahead() < self.tokens@.len() {
            Some(self.tokens@[self.lookahead() as int].kind)
        } else {
            None
        }
    }

    /// The number of tokens not yet consumed.
    pub open spec fn remaining(&self) -> nat {
        (self.tokens@.len() - self.cursor) as nat
    }

    pub fn new(tokens: &'t [Token]) -> (r: Self)
        ensures
            r.tokens@ == tokens@,
            r.cursor == 0,
    {
        Source { tokens, cursor: 0 }
    }

    /// Steps over trivia, then consumes and returns the next token.
    pub fn next_lexeme(&mut self) -> (r: Option<&'t Token>)
        requires
            old(self).wf(),
        ensures
            final(self).wf(),
            final(self).tokens@ == old(self).tokens@,
            old(self).lookahead() < old(self).tokens@.len() ==> {
                &&& r == Some(&old(self).tokens@[old(self).lookahead() as int])
                &&& final(self).cursor == old(self).lookahead() + 1
            },
            old(self).lookahead() >= old(self).tokens@.len() ==> r is None && final(self).cursor
                == old(self).tokens@.len(),
    {
        self.eat_trivia();
        if self.cursor < self.tokens.len() {
            let token = &self.tokens[self.cursor];
            self.cursor = self.cursor + 1;
            Some(token)
        } else {
            None
        }
    }

    /// Steps over trivia, then returns the kind of the next token without consuming it.
    pub fn peek_kind(&mut self) -> (r: Option<TokenKind>)
        requires
            old(self).wf(),
        ensures
            final(self).wf(),
            final(self).tokens@ == old(self).tokens@,
            final(self).cursor == old(self).lookahead(),
            final(self).lookahead() == old(self).lookahead(),
            r == old(self).spec_peek(),
    {
        self.eat_trivia();
        self.peek_kind_raw()
    }

    /// Steps over trivia, then returns the next token without consuming it.
    pub fn peek_token(&mut self) -> (r: Option<&'t Token>)
        requires
            old(self).wf(),
        ensures
            final(self).wf(),
            final(self).tokens@ == old(self).tokens@,
            final(self).cursor == old(self).lookahead(),
            final(self).lookahead() == old(self).lookahead(),
            old(self).lookahead() < old(self).tokens@.len() ==> r == Some(
                &old(self).tokens@[old(self).lookahead() as int],
            ),
            old(self).lookahead() >= old(self).tokens@.len() ==> r is None,
    {
        self.eat_trivia();
        if self.cursor < self.tokens.len() {
            Some(&self.tokens[self.cursor])
        } else {
            None
        }
    }

    fn eat_trivia(&mut self)
        requires
            old(self).wf(),
        ensures
            final(self).wf(),
            final(self).tokens@ == old(self).tokens@,
            final(self).cursor == old(self).lookahead(),
            final(self).lookahead() == old(self).lookahead(),
    {
        proof {
            lemma_next_significant(self.tokens@, self.cursor as nat);
        }
        let n = self.tokens.len();
        while self.at_trivia()
            invariant
                n == self.tokens@.len(),
                self.wf(),
                self.tokens@ == old(self).tokens@,
                self.lookahead() == old(self).lookahead(),
            decreases self.tokens@.len() - self.cursor,
        {
            self.cursor = self.cursor + 1;
        }
        proof {
            lemma_next_significant(self.tokens@, self.cursor as nat);
        }
    }

    fn at_trivia(&self) -> (r: bool)
        requires
            self.wf(),
        ensures
            r == (self.cursor < self.tokens@.len() && self.tokens@[self.cursor as int].kind.spec_is_trivia()),
    {
        match self.peek_kind_raw() {
            Some(kind) => kind.is_trivia(),
            None => false,
        }
    }

    fn peek_kind_raw(&self) -> (r: Option<TokenKind>)
        requires
            self.wf(),
        ensures
            self.cursor < self.tokens@.len() ==> r == Some(self.tokens@[self.cursor as int].kind),
            self.cursor >= self.tokens@.len() ==> r is None,
    {
        if self.cursor < self.tokens.len() {
            Some(self.tokens[self.cursor].kind)
        } else {
            None
        }
    }
}

} // verus!
