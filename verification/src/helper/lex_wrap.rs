//! The token stream that the parser reads, with one position of lookahead
//! and the ability to step back.
use vstd::prelude::*;

use crate::lex::Token;

verus! {

/// A token together with the text it was lexed from and its byte span.
#[derive(Clone, Copy, Debug)]
pub struct TokenWrapper<'a> {
    pub token: Token,
    pub slice: &'a str,
    pub start: usize,
    pub end: usize,
}

/// Why a parse did not produce a node.
#[derive(Clone, Copy, Debug)]
pub enum ParseResultError<'a> {
    /// The stream ran out of tokens.
    EndOfFile,
    /// A token that the grammar does not allow at this place.
    UnexpectedToken(TokenWrapper<'a>),
    /// The input is well formed but means nothing: a message and a span.
    SemanticIssue(&'a str, usize, usize),
}

/// The token at position `p` of `ts`, if there is one.
pub open spec fn tok_at<'a>(ts: Seq<TokenWrapper<'a>>, p: int) -> Option<TokenWrapper<'a>> {
    if 0 <= p < ts.len() {
        Some(ts[p])
    } else {
        None
    }
}

/// Whether the token at position `p` of `ts` exists and is of kind `t`.
pub open spec fn token_is<'a>(ts: Seq<TokenWrapper<'a>>, p: int, t: Token) -> bool {
    0 <= p < ts.len() && ts[p].token == t
}

/// What a lookahead at position `p` gives: the token, or the end of the input.
pub open spec fn lookahead<'a>(ts: Seq<TokenWrapper<'a>>, p: int) -> Result<
    TokenWrapper<'a>,
    ParseResultError<'a>,
> {
    match tok_at(ts, p) {
        Some(tw) => Ok(tw),
        None => Err(ParseResultError::EndOfFile),
    }
}

/// A sequence of tokens and a read position into it.
pub struct LookaheadStream<'a> {
    pub tokens: Vec<TokenWrapper<'a>>,
    pub index: usize,
}

impl<'a> LookaheadStream<'a> {
    /// The read position lies within the tokens, or just after the last one.
    pub open spec fn wf(&self) -> bool {
        self.index <= self.tokens@.len()
    }

    /// A stream positioned at its first token.
    pub fn new(tokens: Vec<TokenWrapper<'a>>) -> (r: Self)
        ensures
            r.tokens@ == tokens@,
            r.index == 0,
            r.wf(),
    {
        LookaheadStream { tokens, index: 0 }
    }

    /// The token `offset` places from the read position (0 is the next one to
    /// be read, -1 the one read last), or `EndOfFile` where there is none.
    pub fn la(&self, offset: isize) -> (r: Result<TokenWrapper<'a>, ParseResultError<'a>>)
        ensures
            r == lookahead(self.tokens@, self.index + offset),
    {
        let target: i128 = (self.index as i128) + (offset as i128);
        if 0 <= target && target < (self.tokens.len() as i128) {
            let i: usize = target as usize;
            Ok(self.tokens[i])
        } else {
            Err(ParseResultError::EndOfFile)
        }
    }

    /// Reads the next token and moves past it; at the end of the input the
    /// position stays and `EndOfFile` comes back.
    pub fn next(&mut self) -> (r: Result<TokenWrapper<'a>, ParseResultError<'a>>)
        requires
            old(self).wf(),
        ensures
            final(self).wf(),
            final(self).tokens@ == old(self).tokens@,
            r == lookahead(old(self).tokens@, old(self).index as int),
            final(self).index == (if old(self).index < old(self).tokens@.len() {
                old(self).index + 1
            } else {
                old(self).index as int
            }),
    {
        if self.index < self.tokens.len() {
            let tw = self.tokens[self.index];
            self.index = self.index + 1;
            Ok(tw)
        } else {
            Err(ParseResultError::EndOfFile)
        }
    }

    /// Moves past the next token, if there is one.
    pub fn advance(&mut self)
        requires
            old(self).wf(),
        ensures
            final(self).wf(),
            final(self).tokens@ == old(self).tokens@,
            final(self).index == (if old(self).index < old(self).tokens@.len() {
                old(self).index + 1
            } else {
                old(self).index as int
            }),
    {
        if self.index < self.tokens.len() {
            self.index = self.index + 1;
        }
    }

    /// Steps back over the token read last, if any was read.
    pub fn backtrack(&mut self)
        requires
            old(self).wf(),
        ensures
            final(self).wf(),
            final(self).tokens@ == old(self).tokens@,
            final(self).index == (if old(self).index > 0 {
                old(self).index - 1
            } else {
                0int
            }),
    {
        if self.index > 0 {
            self.index = self.index - 1;
        }
    }
}

} // verus!
