//! Parsing: the grammar as spec functions, the helpers that read single
//! tokens, and the expression parser.
use vstd::prelude::*;

pub mod grammar;
pub mod laws;
pub mod parse_expr;

use crate::helper::lex_wrap::{LookaheadStream, ParseResultError, TokenWrapper, token_is};
use crate::lex::Token;
use crate::parse::grammar::{expect_error, spec_eat_to, spec_infix_binding_power};

verus! {

/// Reads a token of kind `t`; anything else is left in place and reported.
pub fn expect<'a>(la: &mut LookaheadStream<'a>, t: Token) -> (r: Result<
    TokenWrapper<'a>,
    ParseResultError<'a>,
>)
    requires
        old(la).wf(),
    ensures
        final(la).wf(),
        final(la).tokens@ == old(la).tokens@,
        token_is(old(la).tokens@, old(la).index as int, t) ==> r == Ok::<
            TokenWrapper<'a>,
            ParseResultError<'a>,
        >(old(la).tokens@[old(la).index as int]) && final(la).index == old(la).index + 1,
        !token_is(old(la).tokens@, old(la).index as int, t) ==> r == Err::<
            TokenWrapper<'a>,
            ParseResultError<'a>,
        >(expect_error(old(la).tokens@, old(la).index as int)) && final(la).index == old(la).index,
{
    match la.la(0) {
        Ok(tw) => {
            if tw.token == t {
                la.advance();
                Ok(tw)
            } else {
                Err(ParseResultError::UnexpectedToken(tw))
            }
        },
        Err(e) => Err(e),
    }
}

/// Whether `t` is one of `ts`.
pub fn contains_token(ts: &[Token], t: Token) -> (r: bool)
    ensures
        r == ts@.contains(t),
{
    let mut i: usize = 0;
    while i < ts.len()
        invariant
            0 <= i <= ts@.len(),
            forall|j: int| 0 <= j < i ==> ts@[j] != t,
        decreases ts@.len() - i,
    {
        if ts[i] == t {
            return true;
        }
        i = i + 1;
    }
    false
}

/// Reads the next token if it is of kind `t`.
pub fn eat_match<'a>(la: &mut LookaheadStream<'a>, t: Token) -> (r: Option<TokenWrapper<'a>>)
    requires
        old(la).wf(),
    ensures
        final(la).wf(),
        final(la).tokens@ == old(la).tokens@,
        token_is(old(la).tokens@, old(la).index as int, t) ==> r == Some(
            old(la).tokens@[old(la).index as int],
        ) && final(la).index == old(la).index + 1,
        !token_is(old(la).tokens@, old(la).index as int, t) ==> r is None && final(la).index
            == old(la).index,
{
    match la.la(0) {
        Ok(tw) => {
            if tw.token == t {
                la.advance();
                Some(tw)
            } else {
                None
            }
        },
        Err(_) => None,
    }
}

/// Reads the next token if its kind is one of `ts`.
pub fn eat_match_in<'a>(la: &mut LookaheadStream<'a>, ts: &[Token]) -> (r: Option<TokenWrapper<'a>>)
    requires
        old(la).wf(),
    ensures
        final(la).wf(),
        final(la).tokens@ == old(la).tokens@,
        ({
            let p = old(la).index as int;
            let toks = old(la).tokens@;
            if p < toks.len() && ts@.contains(toks[p].token) {
                r == Some(toks[p]) && final(la).index == p + 1
            } else {
                r is None && final(la).index == p
            }
        }),
{
    match la.la(0) {
        Ok(tw) => {
            if contains_token(ts, tw.token) {
                la.advance();
                Some(tw)
            } else {
                None
            }
        },
        Err(_) => None,
    }
}

/// Skips tokens until the next one is of a kind in `stops`, or the input
/// ends; that token is not read.
pub fn eat_to<'a>(la: &mut LookaheadStream<'a>, stops: &[Token])
    requires
        old(la).wf(),
    ensures
        final(la).wf(),
        final(la).tokens@ == old(la).tokens@,
        final(la).index == spec_eat_to(old(la).tokens@, old(la).index as int, stops@),
    decreases old(la).tokens@.len() - old(la).index,
{
    if la.index < la.tokens.len() {
        let t = la.tokens[la.index].token;
        if !contains_token(stops, t) {
            la.advance();
            eat_to(la, stops);
        }
    }
}

/// Reads the next token if it is an infix operator, with its binding powers.
pub fn eat_if_infix<'a>(la: &mut LookaheadStream<'a>) -> (r: Option<((u32, u32), TokenWrapper<'a>)>)
    requires
        old(la).wf(),
    ensures
        final(la).wf(),
        final(la).tokens@ == old(la).tokens@,
        ({
            let p = old(la).index as int;
            let toks = old(la).tokens@;
            if p < toks.len() && spec_infix_binding_power(toks[p].token) is Some {
                r == Some((spec_infix_binding_power(toks[p].token).unwrap(), toks[p]))
                    && final(la).index == p + 1
            } else {
                r is None && final(la).index == p
            }
        }),
{
    match la.la(0) {
        Ok(tw) => match crate::parse::parse_expr::infix_binding_power(tw.token) {
            Some(bp) => {
                la.advance();
                Some((bp, tw))
            },
            None => None,
        },
        Err(_) => None,
    }
}

} // verus!
