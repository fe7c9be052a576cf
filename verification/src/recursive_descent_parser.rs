//! A forward-only cursor over an ordered sequence of tokens.
//!
//! The cursor borrows the token sequence, offers lookahead of one, and its
//! position only ever advances. `tokens_left` is always the sequence length
//! minus the position.

use vstd::prelude::*;

verus! {

pub struct RecursiveDescentParser<'a, TokenType> {
    tokens: &'a Vec<TokenType>,
    pos: usize,
}

impl<'a, TokenType> RecursiveDescentParser<'a, TokenType> {
    /// The token sequence the cursor walks.
    pub closed spec fn tokens(self) -> Seq<TokenType> {
        self.tokens@
    }

    /// The current position: how many tokens were consumed so far.
    pub closed spec fn pos(self) -> nat {
        self.pos as nat
    }

    /// The position never runs past the end of the sequence.
    pub open spec fn wf(self) -> bool {
        self.pos() <= self.tokens().len()
    }

    pub fn new(tokens: &'a Vec<TokenType>) -> (r: RecursiveDescentParser<'a, TokenType>)
        ensures
            r.tokens() == tokens@,
            r.pos() == 0,
            r.wf(),
    {
        RecursiveDescentParser { tokens, pos: 0 }
    }

    /// Returns the next token and advances the cursor; `None` on exhaustion.
    pub fn next(&mut self) -> (r: Option<&'a TokenType>)
        requires
            old(self).wf(),
        ensures
            final(self).wf(),
            final(self).tokens() == old(self).tokens(),
            old(self).pos() < old(self).tokens().len() ==> {
                &&& r matches Some(t) && *t == old(self).tokens()[old(self).pos() as int]
                &&& final(self).pos() == old(self).pos() + 1
            },
            old(self).pos() >= old(self).tokens().len() ==> {
                &&& r is None
                &&& final(self).pos() == old(self).pos()
            },
    {
        if self.pos < self.tokens.len() {
            let tokens = self.tokens;
            let t = &tokens[self.pos];
            self.pos = self.pos + 1;
            Some(t)
        } else {
            None
        }
    }

    /// Returns the next token and advances the cursor; `Err(err)` on exhaustion.
    pub fn next_or<E>(&mut self, err: E) -> (r: Result<&'a TokenType, E>)
        requires
            old(self).wf(),
        ensures
            final(self).wf(),
            final(self).tokens() == old(self).tokens(),
            old(self).pos() < old(self).tokens().len() ==> {
                &&& r matches Ok(t) && *t == old(self).tokens()[old(self).pos() as int]
                &&& final(self).pos() == old(self).pos() + 1
            },
            old(self).pos() >= old(self).tokens().len() ==> {
                &&& r matches Err(e) && e == err
                &&& final(self).pos() == old(self).pos()
            },
    {
        match self.next() {
            Some(t) => Ok(t),
            None => Err(err),
        }
    }

    /// Returns the next token without advancing; `None` on exhaustion.
    pub fn peek(&mut self) -> (r: Option<&'a TokenType>)
        requires
            old(self).wf(),
        ensures
            *final(self) == *old(self),
            old(self).pos() < old(self).tokens().len() ==> (r matches Some(t) && *t == old(
                self,
            ).tokens()[old(self).pos() as int]),
            old(self).pos() >= old(self).tokens().len() ==> r is None,
    {
        if self.pos < self.tokens.len() {
            let tokens = self.tokens;
            Some(&tokens[self.pos])
        } else {
            None
        }
    }

    /// Returns the next token without advancing; `Err(err)` on exhaustion.
    pub fn peek_or<E>(&mut self, err: E) -> (r: Result<&'a TokenType, E>)
        requires
            old(self).wf(),
        ensures
            *final(self) == *old(self),
            old(self).pos() < old(self).tokens().len() ==> (r matches Ok(t) && *t == old(
                self,
            ).tokens()[old(self).pos() as int]),
            old(self).pos() >= old(self).tokens().len() ==> (r matches Err(e) && e == err),
    {
        match self.peek() {
            Some(t) => Ok(t),
            None => Err(err),
        }
    }

    /// How many tokens are left to be processed.
    pub fn tokens_left(&self) -> (r: usize)
        requires
            self.wf(),
        ensures
            r == self.tokens().len() - self.pos(),
    {
        self.tokens.len() - self.pos
    }
}

} // verus!
