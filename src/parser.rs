//! The consumer side of the scanner: a current token and one token of
//! lookahead, pulled from a [`Lexer`] one at a time.
use vstd::prelude::*;
use crate::lexer::Lexer;
use crate::model::{first, tail, tokens};
use crate::token::{opt_view, SpecToken, Token};

verus! {

/// Holds the token under consideration and the one after it; `None` in
/// either place stands for end of input.
pub struct Parser<'a> {
    lexer: Lexer<'a>,
    curr_token: Option<Token>,
    peek_token: Option<Token>,
}

impl<'a> Parser<'a> {
    /// The scanner that the tokens come from.
    pub closed spec fn lexer(&self) -> Lexer<'a> {
        self.lexer
    }

    /// The current token.
    pub closed spec fn current(&self) -> Option<SpecToken> {
        opt_view(self.curr_token)
    }

    /// The token after the current one.
    pub closed spec fn lookahead(&self) -> Option<SpecToken> {
        opt_view(self.peek_token)
    }

    /// The scanner underneath is well formed.
    pub open spec fn wf(&self) -> bool {
        self.lexer().wf()
    }

    /// Makes the lookahead current and pulls a new lookahead from the
    /// scanner.
    pub fn advance(&mut self)
        requires
            old(self).wf(),
        ensures
            final(self).wf(),
            final(self).lexer().input() == old(self).lexer().input(),
            final(self).current() == old(self).lookahead(),
            final(self).lookahead() == first(tokens(old(self).lexer().rest())),
            tokens(final(self).lexer().rest()) == tail(tokens(old(self).lexer().rest())),
    {
        let mut next = self.lexer.next();
        std::mem::swap(&mut self.peek_token, &mut next);
        self.curr_token = next;
    }

    /// Takes over a scanner and fills the current token and the lookahead
    /// with its first two tokens.
    pub fn new(lexer: Lexer<'a>) -> (p: Self)
        requires
            lexer.wf(),
        ensures
            p.wf(),
            p.lexer().input() == lexer.input(),
            p.current() == first(tokens(lexer.rest())),
            p.lookahead() == first(tail(tokens(lexer.rest()))),
            tokens(p.lexer().rest()) == tail(tail(tokens(lexer.rest()))),
    {
        let mut parser = Parser { lexer, curr_token: None, peek_token: None };
        parser.advance();
        parser.advance();
        parser
    }

    /// The token under consideration; `None` at end of input.
    pub fn current_token(&self) -> (r: &Option<Token>)
        ensures
            opt_view(*r) == self.current(),
    {
        &self.curr_token
    }

    /// The token after the current one; `None` at end of input.
    pub fn peek_token(&self) -> (r: &Option<Token>)
        ensures
            opt_view(*r) == self.lookahead(),
    {
        &self.peek_token
    }
}

} // verus!
