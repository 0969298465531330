//! Properties of the grammar that hold on every input.
use vstd::prelude::*;

use crate::ast::{NodeInfo, SpecExpr, SpecScopedName};
use crate::helper::lex_wrap::{TokenWrapper, tok_at, token_is};
use crate::lex::Token;
use crate::parse::grammar::{
    Step, is_access_start, scoped_name_ids, spec_atomic_expression, spec_block_items,
    spec_build_binary, spec_eat_to, spec_leading_expression, spec_expr_loop, spec_infix_binding_power,
    spec_parse_access, spec_parse_expr, spec_parse_expr_inner, spec_parse_if_then_else,
    spec_parse_pattern, spec_pattern_items, spec_prefix_binding_power, spec_scoped_name,
    spec_syntactic_block, spec_variable_declaration, start_or_zero, end_or_zero,
};

verus! {

/// Reading names either reads nothing and changes nothing, or moves forward
/// within the input, clears the silent flag and records a span.
pub proof fn lemma_scoped_name_ids<'a>(
    ts: Seq<TokenWrapper<'a>>,
    p: int,
    scope: Seq<&'a str>,
    silent: bool,
    start: Option<usize>,
    end: Option<usize>,
)
    ensures
        ({
            let r = scoped_name_ids(ts, p, scope, silent, start, end);
            &&& r.4 == p ==> r.1 == silent && r.2 == start && r.3 == end
            &&& r.4 != p ==> p < r.4 <= ts.len() && !r.1 && r.2 is Some && r.3 is Some
            &&& token_is(ts, p, Token::Identifier) ==> r.4 != p
        }),
    decreases ts.len() - p,
{
    if token_is(ts, p, Token::Identifier) {
        let id = ts[p];
        let scope2 = scope.push(id.slice);
        let start2 = Some(
            match start {
                Some(s) => s,
                None => id.start,
            },
        );
        if token_is(ts, p + 1, Token::DoubleColon) {
            lemma_scoped_name_ids(ts, p + 2, scope2, false, start2, Some(ts[p + 1].end));
        }
    }
}

/// A scoped name is silent exactly when it reads no token, and exactly when
/// it has no span; a leading `::` or identifier is always read; it never
/// moves back or past the end of the input.
pub proof fn lemma_scoped_name_silent<'a>(ts: Seq<TokenWrapper<'a>>, p: int)
    ensures
        ({
            let (name, p1) = spec_scoped_name(ts, p);
            name.silent <==> p1 == p
        }),
        ({
            let (name, p1) = spec_scoped_name(ts, p);
            name.silent <==> name.node_info is Builtin
        }),
        ({
            let (name, p1) = spec_scoped_name(ts, p);
            token_is(ts, p, Token::DoubleColon) || token_is(ts, p, Token::Identifier)
                ==> !name.silent
        }),
        ({
            let (name, p1) = spec_scoped_name(ts, p);
            p1 == p || p < p1 <= ts.len()
        }),
{
    let global = token_is(ts, p, Token::DoubleColon);
    let first: &'a str = if global {
        "global"
    } else {
        "here"
    };
    if global {
        lemma_scoped_name_ids(ts, p + 1, seq![first], false, Some(ts[p].start), Some(ts[p].end));
        let ids = scoped_name_ids(ts, p + 1, seq![first], false, Some(ts[p].start), Some(ts[p].end));
        assert(!ids.1);
        assert(ids.2 is Some);
        assert(p < ids.4);
    } else {
        lemma_scoped_name_ids(ts, p, seq![first], true, None, None);
    }
}

/// An access always has a span, so the parser never meets its "neither a
/// scoped name nor a pattern" case: it stops the program only where the
/// pattern parse does. A successful access has a scoped name that is not
/// silent, or a pattern, or both.
pub proof fn lemma_access_never_empty<'a>(
    ts: Seq<TokenWrapper<'a>>,
    p: int,
    on: Option<Box<SpecExpr<'a>>>,
)
    ensures
        spec_parse_access(ts, p, on) is None <==> spec_parse_pattern(
            ts,
            spec_scoped_name(ts, p).1,
        ) is None,
        spec_parse_access(ts, p, on) matches Some((Ok(e), _)) ==> {
            &&& e.node_info() is Parsed
            &&& e matches SpecExpr::Access { scope, pattern, .. } && (!scope.silent
                || pattern is Some)
        },
{
    lemma_scoped_name_silent(ts, p);
    let p1 = spec_scoped_name(ts, p).1;
    match spec_parse_pattern(ts, p1) {
        Some((Ok(pt), p2)) => {
            assert(pt.node_info is Parsed);
        },
        _ => {},
    }
}

/// The leading expressions that `parse_expr_inner` reads (block, if,
/// atomic expression) have spans.
proof fn lemma_leading_spans<'a>(ts: Seq<TokenWrapper<'a>>, p: int)
    ensures
        spec_syntactic_block(ts, p) matches Some((Ok(e), _)) ==> e.node_info() is Parsed,
        spec_parse_if_then_else(ts, p) matches Some((Ok(e), _)) ==> e.node_info() is Parsed,
        spec_atomic_expression(ts, p) matches Some((Ok(e), _)) ==> e.node_info() is Parsed,
{
    lemma_access_never_empty(ts, p, None);
}

/// Every expression that `parse_expr_inner` (and so `parse_expr`) returns
/// comes from the source: its node info is `Parsed`, with a start and an
/// end. So the parser's checks that a parsed operand has a start or an end
/// never stop it.
pub proof fn lemma_parse_expr_inner_has_span<'a>(ts: Seq<TokenWrapper<'a>>, p: int, min_bp: u32)
    ensures
        spec_parse_expr_inner(ts, p, min_bp) matches Some((Ok(e), _)) ==> e.node_info() is Parsed,
    decreases ts.len() - p, 4int,
{
    match tok_at(ts, p) {
        None => {},
        Some(t1) => {
            lemma_leading_spans(ts, p);
            let lhs = spec_leading_expression(ts, p);
            match lhs {
                Some((Ok(e), p1)) => if p <= p1 <= ts.len() {
                    lemma_expr_loop_has_span(ts, e, p1, min_bp);
                },
                _ => {},
            }
        },
    }
}

/// The loop of `parse_expr_inner` keeps a span on the expression it builds.
pub proof fn lemma_expr_loop_has_span<'a>(
    ts: Seq<TokenWrapper<'a>>,
    lhs: SpecExpr<'a>,
    p: int,
    min_bp: u32,
)
    requires
        lhs.node_info() is Parsed,
    ensures
        spec_expr_loop(ts, lhs, p, min_bp) matches Some((Ok(e), _)) ==> e.node_info() is Parsed,
    decreases ts.len() - p, 2int,
{
    match tok_at(ts, p) {
        None => {},
        Some(tw) => match spec_infix_binding_power(tw.token) {
            Some((l_bp, r_bp)) => if l_bp >= min_bp {
                lemma_parse_expr_inner_has_span(ts, p + 1, r_bp);
                match spec_parse_expr_inner(ts, p + 1, r_bp) {
                    Some((Ok(rhs), p1)) => match (
                        lhs.node_info().spec_start(),
                        rhs.node_info().spec_end(),
                    ) {
                        (Some(s), Some(e)) => match spec_build_binary(
                            NodeInfo::from_indices(true, s, e),
                            tw.token,
                            lhs,
                            rhs,
                        ) {
                            Some(Ok(next)) => if p < p1 <= ts.len() {
                                lemma_expr_loop_has_span(ts, next, p1, min_bp);
                            },
                            _ => {},
                        },
                        _ => {},
                    },
                    _ => {},
                }
            },
            None => if is_access_start(tw.token) {
                lemma_access_never_empty(ts, p, Some(Box::new(lhs)));
                match spec_parse_access(ts, p, Some(Box::new(lhs))) {
                    Some((Ok(next), p1)) => if p < p1 <= ts.len() {
                        lemma_expr_loop_has_span(ts, next, p1, min_bp);
                    },
                    _ => {},
                }
            },
        },
    }
}

/// A parsing step from `p` that answers ends at a position from `p` to the
/// end of the input.
pub open spec fn step_bounded<'a, T>(ts: Seq<TokenWrapper<'a>>, p: int, s: Step<'a, T>) -> bool {
    match s {
        Some((_, p1)) => p <= p1 <= ts.len(),
        None => true,
    }
}

/// A parsing step from `p` that answers ends at a position from `p` to the
/// end of the input, and after `p` when it succeeds or when `must_read`.
pub open spec fn step_within<'a, T>(
    ts: Seq<TokenWrapper<'a>>,
    p: int,
    s: Step<'a, T>,
    must_read: bool,
) -> bool {
    &&& step_bounded(ts, p, s)
    &&& s matches Some((r, p1)) ==> ((r is Ok || must_read) ==> p < p1)
}

/// Skipping to a stop token moves forward within the input.
pub proof fn lemma_eat_to_bounds<'a>(ts: Seq<TokenWrapper<'a>>, p: int, stops: Seq<Token>)
    requires
        0 <= p <= ts.len(),
    ensures
        p <= spec_eat_to(ts, p, stops) <= ts.len(),
    decreases ts.len() - p,
{
    if 0 <= p < ts.len() && !stops.contains(ts[p].token) {
        lemma_eat_to_bounds(ts, p + 1, stops);
    }
}

/// `parse_expr` never moves back or past the end of the input, and reads at
/// least one token whenever there is one.
pub proof fn lemma_parse_expr_progress<'a>(ts: Seq<TokenWrapper<'a>>, p: int)
    requires
        0 <= p <= ts.len(),
    ensures
        step_within(ts, p, spec_parse_expr(ts, p), p < ts.len()),
    decreases ts.len() - p, 5int,
{
    lemma_parse_expr_inner_progress(ts, p, 0);
}

/// `parse_expr_inner` never moves back or past the end of the input, and
/// reads at least one token whenever there is one.
pub proof fn lemma_parse_expr_inner_progress<'a>(ts: Seq<TokenWrapper<'a>>, p: int, min_bp: u32)
    requires
        0 <= p <= ts.len(),
    ensures
        step_within(ts, p, spec_parse_expr_inner(ts, p, min_bp), p < ts.len()),
    decreases ts.len() - p, 4int,
{
    match tok_at(ts, p) {
        None => {},
        Some(t1) => {
            if t1.token == Token::LBracket {
            } else if t1.token == Token::LBrace {
                lemma_syntactic_block_progress(ts, p);
            } else if t1.token == Token::If {
                lemma_parse_if_then_else_progress(ts, p);
            } else if spec_prefix_binding_power(t1.token) is Some {
                lemma_parse_expr_inner_progress(
                    ts,
                    p + 1,
                    spec_prefix_binding_power(t1.token).unwrap(),
                );
            } else {
                lemma_atomic_expression_progress(ts, p);
            }
            let lhs = spec_leading_expression(ts, p);
            assert(step_within(ts, p, lhs, true));
            match lhs {
                Some((Ok(e), p1)) => if p <= p1 <= ts.len() {
                    lemma_expr_loop_progress(ts, e, p1, min_bp);
                },
                _ => {},
            }
        },
    }
}

/// The loop of `parse_expr_inner` never moves back or past the end of the
/// input.
pub proof fn lemma_expr_loop_progress<'a>(
    ts: Seq<TokenWrapper<'a>>,
    lhs: SpecExpr<'a>,
    p: int,
    min_bp: u32,
)
    requires
        0 <= p <= ts.len(),
    ensures
        step_bounded(ts, p, spec_expr_loop(ts, lhs, p, min_bp)),
    decreases ts.len() - p, 2int,
{
    match tok_at(ts, p) {
        None => {},
        Some(tw) => match spec_infix_binding_power(tw.token) {
            Some((l_bp, r_bp)) => if l_bp >= min_bp {
                lemma_parse_expr_inner_progress(ts, p + 1, r_bp);
                match spec_parse_expr_inner(ts, p + 1, r_bp) {
                    Some((Ok(rhs), p1)) => match (
                        lhs.node_info().spec_start(),
                        rhs.node_info().spec_end(),
                    ) {
                        (Some(s), Some(e)) => match spec_build_binary(
                            NodeInfo::from_indices(true, s, e),
                            tw.token,
                            lhs,
                            rhs,
                        ) {
                            Some(Ok(next)) => if p < p1 <= ts.len() {
                                lemma_expr_loop_progress(ts, next, p1, min_bp);
                            },
                            _ => {},
                        },
                        _ => {},
                    },
                    _ => {},
                }
            },
            None => if is_access_start(tw.token) {
                lemma_parse_access_progress(ts, p, Some(Box::new(lhs)));
                match spec_parse_access(ts, p, Some(Box::new(lhs))) {
                    Some((Ok(next), p1)) => if p < p1 <= ts.len() {
                        lemma_expr_loop_progress(ts, next, p1, min_bp);
                    },
                    _ => {},
                }
            },
        },
    }
}

/// `atomic_expression` never moves back or past the end of the input, and
/// reads at least one token whenever there is one.
pub proof fn lemma_atomic_expression_progress<'a>(ts: Seq<TokenWrapper<'a>>, p: int)
    requires
        0 <= p <= ts.len(),
    ensures
        step_within(ts, p, spec_atomic_expression(ts, p), p < ts.len()),
    decreases ts.len() - p, 2int,
{
    lemma_parse_access_progress(ts, p, None);
}

/// `parse_access` never moves back or past the end of the input, and reads
/// at least one token when it succeeds or starts at `(`, `::` or a name.
pub proof fn lemma_parse_access_progress<'a>(
    ts: Seq<TokenWrapper<'a>>,
    p: int,
    on: Option<Box<SpecExpr<'a>>>,
)
    requires
        0 <= p <= ts.len(),
    ensures
        step_within(
            ts,
            p,
            spec_parse_access(ts, p, on),
            token_is(ts, p, Token::LParen) || token_is(ts, p, Token::DoubleColon) || token_is(
                ts,
                p,
                Token::Identifier,
            ),
        ),
    decreases ts.len() - p, 1int,
{
    lemma_scoped_name_silent(ts, p);
    lemma_parse_pattern_progress(ts, spec_scoped_name(ts, p).1);
}

/// `parse_pattern` never moves back or past the end of the input, and reads
/// at least one token when it succeeds or starts at `(`.
pub proof fn lemma_parse_pattern_progress<'a>(ts: Seq<TokenWrapper<'a>>, p: int)
    requires
        0 <= p <= ts.len(),
    ensures
        step_within(ts, p, spec_parse_pattern(ts, p), token_is(ts, p, Token::LParen)),
    decreases ts.len() - p, 0int,
{
    if token_is(ts, p, Token::LParen) {
        lemma_pattern_items_progress(ts, p + 1, Seq::empty());
    }
}

/// The items of a pattern end at a position from `p` to the end of the
/// input.
pub proof fn lemma_pattern_items_progress<'a>(
    ts: Seq<TokenWrapper<'a>>,
    p: int,
    acc: Seq<SpecExpr<'a>>,
)
    requires
        0 <= p <= ts.len(),
    ensures
        spec_pattern_items(ts, p, acc) matches Some((_, p1)) ==> p <= p1 <= ts.len(),
    decreases ts.len() - p, 6int,
{
    lemma_parse_expr_progress(ts, p);
    match spec_parse_expr(ts, p) {
        Some((Ok(e), p1)) => if token_is(ts, p1, Token::Comma) {
            if p <= p1 {
                lemma_pattern_items_progress(ts, p1 + 1, acc.push(e));
            }
        },
        _ => {},
    }
}

/// `parse_if_then_else` never moves back or past the end of the input, and
/// reads at least one token when it succeeds or starts at `if`.
pub proof fn lemma_parse_if_then_else_progress<'a>(ts: Seq<TokenWrapper<'a>>, p: int)
    requires
        0 <= p <= ts.len(),
    ensures
        step_within(ts, p, spec_parse_if_then_else(ts, p), token_is(ts, p, Token::If)),
    decreases ts.len() - p, 2int,
{
    if token_is(ts, p, Token::If) {
        lemma_parse_expr_progress(ts, p + 1);
        match spec_parse_expr(ts, p + 1) {
            Some((Ok(if_exp), p1)) => if p < p1 <= ts.len() {
                lemma_parse_expr_progress(ts, p1);
                match spec_parse_expr(ts, p1) {
                    Some((Ok(then_exp), p2)) => if token_is(ts, p2, Token::Else) {
                        if p <= p2 {
                            lemma_parse_expr_progress(ts, p2 + 1);
                        }
                    },
                    _ => {},
                }
            },
            _ => {},
        }
    }
}

/// `variable_declaration` never moves back or past the end of the input,
/// and reads at least one token when it starts at `let`.
pub proof fn lemma_variable_declaration_progress<'a>(ts: Seq<TokenWrapper<'a>>, p: int)
    requires
        0 <= p <= ts.len(),
    ensures
        step_within(ts, p, spec_variable_declaration(ts, p), token_is(ts, p, Token::Let)),
    decreases ts.len() - p, 6int,
{
    if token_is(ts, p, Token::Let) && token_is(ts, p + 1, Token::Identifier) && token_is(
        ts,
        p + 2,
        Token::Equals,
    ) {
        lemma_parse_expr_progress(ts, p + 3);
    }
}

/// `syntactic_block` never moves back or past the end of the input, and
/// reads at least one token when it succeeds or starts at `{`.
pub proof fn lemma_syntactic_block_progress<'a>(ts: Seq<TokenWrapper<'a>>, p: int)
    requires
        0 <= p <= ts.len(),
    ensures
        step_within(ts, p, spec_syntactic_block(ts, p), token_is(ts, p, Token::LBrace)),
    decreases ts.len() - p, 2int,
{
    if token_is(ts, p, Token::LBrace) {
        lemma_block_items_progress(ts, p + 1, Seq::empty(), false);
    }
}

/// The entries of a block end at a position from `p` to the end of the
/// input.
pub proof fn lemma_block_items_progress<'a>(
    ts: Seq<TokenWrapper<'a>>,
    p: int,
    decls: Seq<Result<SpecExpr<'a>, crate::helper::lex_wrap::ParseResultError<'a>>>,
    failed: bool,
)
    requires
        0 <= p <= ts.len(),
    ensures
        step_bounded(ts, p, spec_block_items(ts, p, decls, failed)),
    decreases ts.len() - p, 7int,
{
    match tok_at(ts, p) {
        None => {},
        Some(tw) => if tw.token == Token::RBrace {
        } else if tw.token == Token::Semicolon {
            lemma_block_items_progress(ts, p + 1, decls, failed);
        } else if tw.token == Token::Let {
            lemma_variable_declaration_progress(ts, p);
            match spec_variable_declaration(ts, p) {
                Some((r, p1)) => if p < p1 <= ts.len() {
                    lemma_block_items_progress(ts, p1, decls.push(r), failed || r is Err);
                },
                None => {},
            }
        } else {
            lemma_parse_expr_progress(ts, p);
            match spec_parse_expr(ts, p) {
                Some((Ok(e), p1)) => {
                    let entry = if token_is(ts, p1, Token::Semicolon) {
                        SpecExpr::Statement {
                            node_info: NodeInfo::from_indices(true, start_or_zero(e), ts[p1].end),
                            subexpr: Box::new(e),
                        }
                    } else {
                        e
                    };
                    let p2 = if token_is(ts, p1, Token::Semicolon) {
                        p1 + 1
                    } else {
                        p1
                    };
                    if p < p2 <= ts.len() {
                        lemma_block_items_progress(ts, p2, decls.push(Ok(entry)), failed);
                    }
                },
                Some((Err(err), p1)) => {
                    lemma_eat_to_bounds(ts, p1, seq![Token::Semicolon, Token::RBrace]);
                    let p2 = spec_eat_to(ts, p1, seq![Token::Semicolon, Token::RBrace]);
                    if p < p2 <= ts.len() {
                        lemma_block_items_progress(ts, p2, decls.push(Err(err)), true);
                    }
                },
                None => {},
            }
        },
    }
}

/// An atomic expression that starts at `(`, `::` or a name is the access
/// read from there, with no object.
pub proof fn lemma_atomic_is_access<'a>(ts: Seq<TokenWrapper<'a>>, p: int)
    requires
        token_is(ts, p, Token::LParen) || token_is(ts, p, Token::DoubleColon) || token_is(
            ts,
            p,
            Token::Identifier,
        ),
    ensures
        spec_atomic_expression(ts, p) == spec_parse_access(ts, p, None),
{
}

/// Raising the minimum binding power can only stop the loop of
/// `parse_expr_inner` earlier: when both succeed, the one with the higher
/// minimum ends no later.
pub proof fn lemma_expr_loop_min_bp_monotone<'a>(
    ts: Seq<TokenWrapper<'a>>,
    lhs: SpecExpr<'a>,
    p: int,
    m1: u32,
    m2: u32,
)
    requires
        0 <= p <= ts.len(),
        m1 <= m2,
    ensures
        spec_expr_loop(ts, lhs, p, m1) matches Some((Ok(_), q1)) ==> (spec_expr_loop(
            ts,
            lhs,
            p,
            m2,
        ) matches Some((Ok(_), q2)) ==> q2 <= q1),
    decreases ts.len() - p,
{
    lemma_expr_loop_progress(ts, lhs, p, m1);
    match tok_at(ts, p) {
        None => {},
        Some(tw) => match spec_infix_binding_power(tw.token) {
            Some((l_bp, r_bp)) => if l_bp >= m2 {
                match spec_parse_expr_inner(ts, p + 1, r_bp) {
                    Some((Ok(rhs), p1)) => match (
                        lhs.node_info().spec_start(),
                        rhs.node_info().spec_end(),
                    ) {
                        (Some(s), Some(e)) => match spec_build_binary(
                            NodeInfo::from_indices(true, s, e),
                            tw.token,
                            lhs,
                            rhs,
                        ) {
                            Some(Ok(next)) => if p < p1 <= ts.len() {
                                lemma_expr_loop_min_bp_monotone(ts, next, p1, m1, m2);
                            },
                            _ => {},
                        },
                        _ => {},
                    },
                    _ => {},
                }
            },
            None => if is_access_start(tw.token) {
                match spec_parse_access(ts, p, Some(Box::new(lhs))) {
                    Some((Ok(next), p1)) => if p < p1 <= ts.len() {
                        lemma_expr_loop_min_bp_monotone(ts, next, p1, m1, m2);
                    },
                    _ => {},
                }
            },
        },
    }
}

/// Raising the minimum binding power can only stop `parse_expr_inner`
/// earlier: when both succeed, the parse with the higher minimum ends no
/// later.
pub proof fn lemma_parse_expr_inner_min_bp_monotone<'a>(
    ts: Seq<TokenWrapper<'a>>,
    p: int,
    m1: u32,
    m2: u32,
)
    requires
        0 <= p <= ts.len(),
        m1 <= m2,
    ensures
        spec_parse_expr_inner(ts, p, m1) matches Some((Ok(_), q1)) ==> (spec_parse_expr_inner(
            ts,
            p,
            m2,
        ) matches Some((Ok(_), q2)) ==> q2 <= q1),
{
    match spec_leading_expression(ts, p) {
        Some((Ok(e), p1)) => if p <= p1 <= ts.len() {
            lemma_expr_loop_min_bp_monotone(ts, e, p1, m1, m2);
        },
        _ => {},
    }
}

/// The access of a name `tw` on the object `on`, with no pattern.
pub open spec fn named_access<'a>(tw: TokenWrapper<'a>, on: Option<Box<SpecExpr<'a>>>) -> SpecExpr<'a> {
    SpecExpr::Access {
        node_info: NodeInfo::from_indices(true, tw.start, tw.end),
        on,
        scope: SpecScopedName {
            scope: seq!["here", tw.slice],
            silent: false,
            node_info: NodeInfo::from_indices(true, tw.start, tw.end),
        },
        pattern: None,
    }
}

/// The access of a plain name `tw`, with no object and no pattern.
pub open spec fn plain_access<'a>(tw: TokenWrapper<'a>) -> SpecExpr<'a> {
    named_access(tw, None)
}

/// The arithmetic operators: those with a binary-operation node.
pub open spec fn is_arithmetic(t: Token) -> bool {
    t == Token::Plus || t == Token::Dash || t == Token::Asterisk || t == Token::FSlash
}

/// The binary operation `op` on `lhs` and `rhs`, spanning from the start of
/// `lhs` to the end of `rhs`.
pub open spec fn binary<'a>(op: Token, lhs: SpecExpr<'a>, rhs: SpecExpr<'a>) -> SpecExpr<'a> {
    SpecExpr::BinaryOperation {
        node_info: NodeInfo::from_indices(true, start_or_zero(lhs), end_or_zero(rhs)),
        operation: op,
        lhs: Box::new(lhs),
        rhs: Box::new(rhs),
    }
}

/// A name at `q` that is not followed by `::` or `(` parses as its plain
/// access, reading only the name.
proof fn lemma_name_access<'a>(ts: Seq<TokenWrapper<'a>>, q: int, on: Option<Box<SpecExpr<'a>>>)
    requires
        token_is(ts, q, Token::Identifier),
        !token_is(ts, q + 1, Token::DoubleColon),
        !token_is(ts, q + 1, Token::LParen),
    ensures
        spec_parse_access(ts, q, on) == Some(
            (Ok::<_, crate::helper::lex_wrap::ParseResultError<'a>>(named_access(ts[q], on)), q + 1),
        ),
{
    let first: &'a str = "here";
    let ids = scoped_name_ids(ts, q, seq![first], true, None, None);
    assert(ids == (seq![first].push(ts[q].slice), false, Some(ts[q].start), Some(ts[q].end), q + 1));
    assert(seq![first].push(ts[q].slice) =~= seq!["here", ts[q].slice]);
    let (base, p1) = spec_scoped_name(ts, q);
    assert(p1 == q + 1);
    assert(base.scope == seq!["here", ts[q].slice]);
    assert(spec_parse_pattern(ts, q + 1) is Some);
    assert(spec_parse_pattern(ts, q + 1).unwrap().0 is Err);
}

/// A name at `q` followed by the end of the input, or by an operator that
/// binds less strongly than `m`, parses as its plain access.
proof fn lemma_name_expr<'a>(ts: Seq<TokenWrapper<'a>>, q: int, m: u32)
    requires
        token_is(ts, q, Token::Identifier),
        q + 1 == ts.len() || (ts[q + 1].token != Token::DoubleColon && ts[q + 1].token
            != Token::LParen && spec_infix_binding_power(ts[q + 1].token) is Some
            && spec_infix_binding_power(ts[q + 1].token).unwrap().0 < m),
    ensures
        spec_parse_expr_inner(ts, q, m) == Some(
            (Ok::<_, crate::helper::lex_wrap::ParseResultError<'a>>(plain_access(ts[q])), q + 1),
        ),
{
    lemma_name_access(ts, q, None);
    assert(spec_atomic_expression(ts, q) == spec_parse_access(ts, q, None));
    assert(spec_leading_expression(ts, q) == spec_atomic_expression(ts, q));
    let x = plain_access(ts[q]);
    assert(spec_expr_loop(ts, x, q + 1, m) == Some(
        (Ok::<_, crate::helper::lex_wrap::ParseResultError<'a>>(x), q + 1),
    ));
}

/// Operators group by their binding powers: in `x op1 y op2 z` with
/// arithmetic operators, when the left power of `op2` is below the right
/// power of `op1` the left operation is built first (`(x op1 y) op2 z`),
/// else the right one (`x op1 (y op2 z)`). So `*` and `/` bind tighter than
/// `+` and `-`, and operators of one level group to the left. The parse
/// reads all five tokens.
pub proof fn lemma_operator_grouping<'a>(ts: Seq<TokenWrapper<'a>>, p: int)
    requires
        0 <= p,
        ts.len() == p + 5,
        ts[p].token == Token::Identifier,
        ts[p + 2].token == Token::Identifier,
        ts[p + 4].token == Token::Identifier,
        is_arithmetic(ts[p + 1].token),
        is_arithmetic(ts[p + 3].token),
    ensures
        ({
            let x = plain_access(ts[p]);
            let y = plain_access(ts[p + 2]);
            let z = plain_access(ts[p + 4]);
            let op1 = ts[p + 1].token;
            let op2 = ts[p + 3].token;
            let r1 = spec_infix_binding_power(op1).unwrap().1;
            let l2 = spec_infix_binding_power(op2).unwrap().0;
            spec_parse_expr_inner(ts, p, 0) == Some(
                (
                    Ok::<_, crate::helper::lex_wrap::ParseResultError<'a>>(
                        if l2 < r1 {
                            binary(op2, binary(op1, x, y), z)
                        } else {
                            binary(op1, x, binary(op2, y, z))
                        },
                    ),
                    p + 5,
                ),
            )
        }),
{
    let x = plain_access(ts[p]);
    let y = plain_access(ts[p + 2]);
    let z = plain_access(ts[p + 4]);
    let op1 = ts[p + 1].token;
    let op2 = ts[p + 3].token;
    let (l1, r1) = spec_infix_binding_power(op1).unwrap();
    let (l2, r2) = spec_infix_binding_power(op2).unwrap();
    lemma_name_access(ts, p, None);
    assert(spec_leading_expression(ts, p) == spec_atomic_expression(ts, p));
    assert(spec_leading_expression(ts, p) == Some(
        (Ok::<_, crate::helper::lex_wrap::ParseResultError<'a>>(x), p + 1),
    ));
    lemma_name_expr(ts, p + 4, r2);
    assert(spec_expr_loop(ts, z, p + 5, r2) == Some(
        (Ok::<_, crate::helper::lex_wrap::ParseResultError<'a>>(z), p + 5),
    ));
    if l2 < r1 {
        lemma_name_expr(ts, p + 2, r1);
        let b1 = binary(op1, x, y);
        let b2 = binary(op2, b1, z);
        assert(spec_expr_loop(ts, b2, p + 5, 0) == Some(
            (Ok::<_, crate::helper::lex_wrap::ParseResultError<'a>>(b2), p + 5),
        ));
        assert(spec_expr_loop(ts, b1, p + 3, 0) == Some(
            (Ok::<_, crate::helper::lex_wrap::ParseResultError<'a>>(b2), p + 5),
        ));
        assert(spec_expr_loop(ts, x, p + 1, 0) == Some(
            (Ok::<_, crate::helper::lex_wrap::ParseResultError<'a>>(b2), p + 5),
        ));
    } else {
        lemma_name_access(ts, p + 2, None);
        assert(spec_leading_expression(ts, p + 2) == spec_atomic_expression(ts, p + 2));
        let b = binary(op2, y, z);
        assert(spec_expr_loop(ts, b, p + 5, r1) == Some(
            (Ok::<_, crate::helper::lex_wrap::ParseResultError<'a>>(b), p + 5),
        ));
        assert(spec_expr_loop(ts, y, p + 3, r1) == Some(
            (Ok::<_, crate::helper::lex_wrap::ParseResultError<'a>>(b), p + 5),
        ));
        assert(spec_parse_expr_inner(ts, p + 2, r1) == Some(
            (Ok::<_, crate::helper::lex_wrap::ParseResultError<'a>>(b), p + 5),
        ));
        let b2 = binary(op1, x, b);
        assert(spec_expr_loop(ts, b2, p + 5, 0) == Some(
            (Ok::<_, crate::helper::lex_wrap::ParseResultError<'a>>(b2), p + 5),
        ));
        assert(spec_expr_loop(ts, x, p + 1, 0) == Some(
            (Ok::<_, crate::helper::lex_wrap::ParseResultError<'a>>(b2), p + 5),
        ));
    }
}

/// The names of a path of `k` names from `q`: the tokens at `q`, `q + 2`, ...
pub open spec fn path_names<'a>(ts: Seq<TokenWrapper<'a>>, q: int, k: nat) -> Seq<&'a str> {
    Seq::new(k, |i: int| ts[q + 2 * i].slice)
}

/// The tokens from `q` are a path of `k >= 1` names separated by `::`, and
/// no `::` follows the last name.
pub open spec fn is_path<'a>(ts: Seq<TokenWrapper<'a>>, q: int, k: nat) -> bool {
    &&& k >= 1
    &&& 0 <= q
    &&& q + 2 * k - 1 <= ts.len()
    &&& forall|i: int| 0 <= i < k ==> #[trigger] ts[q + 2 * i].token == Token::Identifier
    &&& forall|i: int| 0 <= i < k - 1 ==> #[trigger] ts[q + 2 * i + 1].token == Token::DoubleColon
    &&& !token_is(ts, q + 2 * k - 1, Token::DoubleColon)
}

/// Reading a path appends all its names.
proof fn lemma_ids_path<'a>(
    ts: Seq<TokenWrapper<'a>>,
    q: int,
    k: nat,
    scope: Seq<&'a str>,
    silent: bool,
    start: Option<usize>,
    end: Option<usize>,
)
    requires
        is_path(ts, q, k),
    ensures
        scoped_name_ids(ts, q, scope, silent, start, end) == (
            scope + path_names(ts, q, k),
            false,
            Some(
                match start {
                    Some(s) => s,
                    None => ts[q].start,
                },
            ),
            Some(ts[q + 2 * k - 2].end),
            q + 2 * k - 1,
        ),
    decreases k,
{
    assert(ts[q + 2 * 0].token == Token::Identifier);
    let start2 = Some(
        match start {
            Some(s) => s,
            None => ts[q].start,
        },
    );
    if k == 1 {
        assert(scope.push(ts[q].slice) =~= scope + path_names(ts, q, k));
    } else {
        assert(ts[q + 2 * 0 + 1].token == Token::DoubleColon);
        assert forall|i: int| 0 <= i < k - 1 implies #[trigger] ts[(q + 2) + 2 * i].token
            == Token::Identifier by {
            assert(ts[q + 2 * (i + 1)].token == Token::Identifier);
        }
        assert forall|i: int| 0 <= i < k - 2 implies #[trigger] ts[(q + 2) + 2 * i + 1].token
            == Token::DoubleColon by {
            assert(ts[q + 2 * (i + 1) + 1].token == Token::DoubleColon);
        }
        assert(is_path(ts, q + 2, (k - 1) as nat));
        lemma_ids_path(
            ts,
            q + 2,
            (k - 1) as nat,
            scope.push(ts[q].slice),
            false,
            start2,
            Some(ts[q + 1].end),
        );
        assert(scope.push(ts[q].slice) + path_names(ts, q + 2, (k - 1) as nat) =~= scope
            + path_names(ts, q, k));
    }
}

/// A path `n1::n2::...::nk` reads all its names: its scope is "here" then
/// the names, it spans from the first name to the last, and it ends after
/// the last name.
pub proof fn lemma_scoped_name_reads_path<'a>(ts: Seq<TokenWrapper<'a>>, p: int, k: nat)
    requires
        is_path(ts, p, k),
    ensures
        spec_scoped_name(ts, p) == (
            SpecScopedName {
                scope: seq!["here"] + path_names(ts, p, k),
                silent: false,
                node_info: NodeInfo::from_indices(true, ts[p].start, ts[p + 2 * k - 2].end),
            },
            p + 2 * k - 1,
        ),
{
    assert(ts[p + 2 * 0].token == Token::Identifier);
    let first: &'a str = "here";
    lemma_ids_path(ts, p, k, seq![first], true, None, None);
}

/// A path `::n1::...::nk` reads all its names: its scope is "global" then
/// the names, it spans from the leading `::` to the last name, and it ends
/// after the last name.
pub proof fn lemma_scoped_name_reads_global_path<'a>(ts: Seq<TokenWrapper<'a>>, p: int, k: nat)
    requires
        token_is(ts, p, Token::DoubleColon),
        is_path(ts, p + 1, k),
    ensures
        spec_scoped_name(ts, p) == (
            SpecScopedName {
                scope: seq!["global"] + path_names(ts, p + 1, k),
                silent: false,
                node_info: NodeInfo::from_indices(true, ts[p].start, ts[p + 2 * k - 1].end),
            },
            p + 2 * k,
        ),
{
    let first: &'a str = "global";
    lemma_ids_path(ts, p + 1, k, seq![first], false, Some(ts[p].start), Some(ts[p].end));
}

/// An access keeps the object it is parsed on.
pub proof fn lemma_access_keeps_object<'a>(
    ts: Seq<TokenWrapper<'a>>,
    p: int,
    on: Option<Box<SpecExpr<'a>>>,
)
    ensures
        spec_parse_access(ts, p, on) matches Some((Ok(SpecExpr::Access { on: o, .. }), _)) ==> o
            == on,
{
}

/// A parenthesised argument after an expression that is no name is a call
/// on that expression: `lit (y)` is the access with a silent scope, the
/// pattern `(y)` and the literal as its object.
pub proof fn lemma_call_on_expression<'a>(ts: Seq<TokenWrapper<'a>>, p: int)
    requires
        0 <= p,
        ts.len() == p + 4,
        ts[p].token == Token::UnknownIntegerLiteral,
        ts[p + 1].token == Token::LParen,
        ts[p + 2].token == Token::Identifier,
        ts[p + 3].token == Token::RParen,
    ensures
        spec_parse_expr(ts, p) == Some(
            (
                Ok::<_, crate::helper::lex_wrap::ParseResultError<'a>>(
                    SpecExpr::Access {
                        node_info: NodeInfo::from_indices(true, ts[p + 1].start, ts[p + 3].end),
                        on: Some(
                            Box::new(
                                SpecExpr::Literal {
                                    node_info: NodeInfo::from_indices(true, ts[p].start, ts[p].end),
                                    contents: ts[p],
                                },
                            ),
                        ),
                        scope: SpecScopedName {
                            scope: seq!["here"],
                            silent: true,
                            node_info: NodeInfo::Builtin,
                        },
                        pattern: Some(
                            crate::ast::SpecPattern {
                                node_info: NodeInfo::from_indices(
                                    true,
                                    ts[p + 1].start,
                                    ts[p + 3].end,
                                ),
                                expressions: seq![plain_access(ts[p + 2])],
                            },
                        ),
                    },
                ),
                p + 4,
            ),
        ),
{
    let lit = SpecExpr::Literal {
        node_info: NodeInfo::from_indices(true, ts[p].start, ts[p].end),
        contents: ts[p],
    };
    assert(spec_leading_expression(ts, p) == Some(
        (Ok::<_, crate::helper::lex_wrap::ParseResultError<'a>>(lit), p + 1),
    ));
    lemma_name_access(ts, p + 2, None);
    assert(spec_leading_expression(ts, p + 2) == spec_atomic_expression(ts, p + 2));
    let y = plain_access(ts[p + 2]);
    assert(spec_expr_loop(ts, y, p + 3, 0) == Some(
        (Ok::<_, crate::helper::lex_wrap::ParseResultError<'a>>(y), p + 3),
    ));
    assert(spec_parse_expr(ts, p + 2) == Some(
        (Ok::<_, crate::helper::lex_wrap::ParseResultError<'a>>(y), p + 3),
    ));
    assert(spec_pattern_items(ts, p + 2, Seq::empty()) == Some((seq![y], p + 3))) by {
        assert(Seq::<SpecExpr<'a>>::empty().push(y) =~= seq![y]);
    }
    let first: &'a str = "here";
    assert(scoped_name_ids(ts, p + 1, seq![first], true, None, None) == (
        seq![first],
        true,
        None::<usize>,
        None::<usize>,
        p + 1,
    ));
    let call = SpecExpr::Access {
        node_info: NodeInfo::from_indices(true, ts[p + 1].start, ts[p + 3].end),
        on: Some(Box::new(lit)),
        scope: SpecScopedName { scope: seq!["here"], silent: true, node_info: NodeInfo::Builtin },
        pattern: Some(
            crate::ast::SpecPattern {
                node_info: NodeInfo::from_indices(true, ts[p + 1].start, ts[p + 3].end),
                expressions: seq![y],
            },
        ),
    };
    assert(spec_parse_access(ts, p + 1, Some(Box::new(lit))) == Some(
        (Ok::<_, crate::helper::lex_wrap::ParseResultError<'a>>(call), p + 4),
    ));
    assert(spec_expr_loop(ts, call, p + 4, 0) == Some(
        (Ok::<_, crate::helper::lex_wrap::ParseResultError<'a>>(call), p + 4),
    ));
    assert(spec_expr_loop(ts, lit, p + 1, 0) == Some(
        (Ok::<_, crate::helper::lex_wrap::ParseResultError<'a>>(call), p + 4),
    ));
}

/// The multiplicative operators `*` and `/`.
pub open spec fn is_multiplicative(t: Token) -> bool {
    t == Token::Asterisk || t == Token::FSlash
}

/// `*` and `/` bind tighter than `+` and `-`, and operators of one level
/// group to the left: in `x op1 y op2 z` the right operation is built first
/// exactly when `op2` is multiplicative and `op1` is not.
pub proof fn lemma_multiplicative_binds_tighter<'a>(ts: Seq<TokenWrapper<'a>>, p: int)
    requires
        0 <= p,
        ts.len() == p + 5,
        ts[p].token == Token::Identifier,
        ts[p + 2].token == Token::Identifier,
        ts[p + 4].token == Token::Identifier,
        is_arithmetic(ts[p + 1].token),
        is_arithmetic(ts[p + 3].token),
    ensures
        ({
            let x = plain_access(ts[p]);
            let y = plain_access(ts[p + 2]);
            let z = plain_access(ts[p + 4]);
            let op1 = ts[p + 1].token;
            let op2 = ts[p + 3].token;
            spec_parse_expr(ts, p) == Some(
                (
                    Ok::<_, crate::helper::lex_wrap::ParseResultError<'a>>(
                        if is_multiplicative(op2) && !is_multiplicative(op1) {
                            binary(op1, x, binary(op2, y, z))
                        } else {
                            binary(op2, binary(op1, x, y), z)
                        },
                    ),
                    p + 5,
                ),
            )
        }),
{
    lemma_operator_grouping(ts, p);
}

/// The unary operation `op` on `e`, spanning from `start` to the end of `e`.
pub open spec fn unary<'a>(op: Token, start: usize, e: SpecExpr<'a>) -> SpecExpr<'a> {
    SpecExpr::UnaryOperation {
        node_info: NodeInfo::from_indices(true, start, end_or_zero(e)),
        operation: op,
        subexpr: Box::new(e),
    }
}

/// A prefix operator binds tighter than every arithmetic infix operator:
/// `pre a op b` is `(pre a) op b` for the prefix operators `-`, `!`, `*`,
/// `&`.
pub proof fn lemma_prefix_binds_tighter<'a>(ts: Seq<TokenWrapper<'a>>, p: int)
    requires
        0 <= p,
        ts.len() == p + 4,
        ts[p].token == Token::Dash || ts[p].token == Token::Bang || ts[p].token == Token::Asterisk
            || ts[p].token == Token::And,
        ts[p + 1].token == Token::Identifier,
        is_arithmetic(ts[p + 2].token),
        ts[p + 3].token == Token::Identifier,
    ensures
        spec_parse_expr(ts, p) == Some(
            (
                Ok::<_, crate::helper::lex_wrap::ParseResultError<'a>>(
                    binary(
                        ts[p + 2].token,
                        unary(ts[p].token, ts[p].start, plain_access(ts[p + 1])),
                        plain_access(ts[p + 3]),
                    ),
                ),
                p + 4,
            ),
        ),
{
    let a = plain_access(ts[p + 1]);
    let b = plain_access(ts[p + 3]);
    let op = ts[p + 2].token;
    let (l, r) = spec_infix_binding_power(op).unwrap();
    lemma_name_expr(ts, p + 1, 100);
    let u = unary(ts[p].token, ts[p].start, a);
    assert(spec_leading_expression(ts, p) == Some(
        (Ok::<_, crate::helper::lex_wrap::ParseResultError<'a>>(u), p + 2),
    ));
    lemma_name_expr(ts, p + 3, r);
    let bin = binary(op, u, b);
    assert(spec_expr_loop(ts, bin, p + 4, 0) == Some(
        (Ok::<_, crate::helper::lex_wrap::ParseResultError<'a>>(bin), p + 4),
    ));
    assert(spec_expr_loop(ts, u, p + 2, 0) == Some(
        (Ok::<_, crate::helper::lex_wrap::ParseResultError<'a>>(bin), p + 4),
    ));
}

/// A block entry that is an expression is the whole expression read from
/// its first token (with minimum binding power 0): when no `;` follows it,
/// the entries go on after it with it appended.
pub proof fn lemma_block_entry_is_expression<'a>(
    ts: Seq<TokenWrapper<'a>>,
    q: int,
    decls: Seq<Result<SpecExpr<'a>, crate::helper::lex_wrap::ParseResultError<'a>>>,
    failed: bool,
)
    requires
        0 <= q < ts.len(),
        ts[q].token != Token::RBrace,
        ts[q].token != Token::Semicolon,
        ts[q].token != Token::Let,
    ensures
        spec_parse_expr(ts, q) matches Some((Ok(e), q1)) ==> (!token_is(ts, q1, Token::Semicolon)
            ==> spec_block_items(ts, q, decls, failed) == spec_block_items(
            ts,
            q1,
            decls.push(Ok(e)),
            failed,
        )),
{
    lemma_parse_expr_progress(ts, q);
}

/// `{ x = v; }` is a block of one entry, the statement of the assignment of
/// the literal `v` to `x`; the block spans from `x` to the start of `;`.
pub proof fn lemma_block_of_assignment<'a>(ts: Seq<TokenWrapper<'a>>, p: int)
    requires
        0 <= p,
        ts.len() >= p + 6,
        ts[p].token == Token::LBrace,
        ts[p + 1].token == Token::Identifier,
        ts[p + 2].token == Token::Equals,
        ts[p + 3].token == Token::UnknownIntegerLiteral,
        ts[p + 4].token == Token::Semicolon,
        ts[p + 5].token == Token::RBrace,
    ensures
        ({
            let x = plain_access(ts[p + 1]);
            let v = SpecExpr::Literal {
                node_info: NodeInfo::from_indices(true, ts[p + 3].start, ts[p + 3].end),
                contents: ts[p + 3],
            };
            let assign = SpecExpr::Assignment {
                node_info: NodeInfo::from_indices(true, ts[p + 1].start, ts[p + 3].end),
                lhs: Box::new(x),
                rhs: Box::new(v),
            };
            let stmt = SpecExpr::Statement {
                node_info: NodeInfo::from_indices(true, ts[p + 1].start, ts[p + 4].end),
                subexpr: Box::new(assign),
            };
            spec_syntactic_block(ts, p) == Some(
                (
                    Ok::<_, crate::helper::lex_wrap::ParseResultError<'a>>(
                        SpecExpr::Block {
                            node_info: NodeInfo::from_indices(
                                false,
                                ts[p + 1].start,
                                ts[p + 4].start,
                            ),
                            declarations: seq![Ok(stmt)],
                        },
                    ),
                    p + 6,
                ),
            )
        }),
{
    let x = plain_access(ts[p + 1]);
    let v = SpecExpr::Literal {
        node_info: NodeInfo::from_indices(true, ts[p + 3].start, ts[p + 3].end),
        contents: ts[p + 3],
    };
    let assign = SpecExpr::Assignment {
        node_info: NodeInfo::from_indices(true, ts[p + 1].start, ts[p + 3].end),
        lhs: Box::new(x),
        rhs: Box::new(v),
    };
    let stmt = SpecExpr::Statement {
        node_info: NodeInfo::from_indices(true, ts[p + 1].start, ts[p + 4].end),
        subexpr: Box::new(assign),
    };
    lemma_name_access(ts, p + 1, None);
    assert(spec_leading_expression(ts, p + 1) == spec_atomic_expression(ts, p + 1));
    assert(spec_leading_expression(ts, p + 3) == Some(
        (Ok::<_, crate::helper::lex_wrap::ParseResultError<'a>>(v), p + 4),
    ));
    assert(spec_expr_loop(ts, v, p + 4, 2) == Some(
        (Ok::<_, crate::helper::lex_wrap::ParseResultError<'a>>(v), p + 4),
    ));
    assert(spec_parse_expr_inner(ts, p + 3, 2) == Some(
        (Ok::<_, crate::helper::lex_wrap::ParseResultError<'a>>(v), p + 4),
    ));
    assert(spec_expr_loop(ts, assign, p + 4, 0) == Some(
        (Ok::<_, crate::helper::lex_wrap::ParseResultError<'a>>(assign), p + 4),
    ));
    assert(spec_expr_loop(ts, x, p + 2, 0) == Some(
        (Ok::<_, crate::helper::lex_wrap::ParseResultError<'a>>(assign), p + 4),
    ));
    assert(spec_parse_expr(ts, p + 1) == Some(
        (Ok::<_, crate::helper::lex_wrap::ParseResultError<'a>>(assign), p + 4),
    ));
    let empty = Seq::<Result<SpecExpr<'a>, crate::helper::lex_wrap::ParseResultError<'a>>>::empty();
    let one = empty.push(Ok(stmt));
    assert(spec_block_items(ts, p + 5, one, false) == Some(
        (
            Ok::<_, crate::helper::lex_wrap::ParseResultError<'a>>((one, false)),
            p + 5,
        ),
    ));
    assert(spec_block_items(ts, p + 1, empty, false) == Some(
        (
            Ok::<_, crate::helper::lex_wrap::ParseResultError<'a>>((one, false)),
            p + 5,
        ),
    ));
    assert(one =~= seq![Ok(stmt)]);
}

/// Some entry of `ds` from index `from` on failed.
pub open spec fn some_entry_failed<'a>(
    ds: Seq<Result<SpecExpr<'a>, crate::helper::lex_wrap::ParseResultError<'a>>>,
    from: int,
) -> bool {
    exists|i: int| from <= i < ds.len() && (#[trigger] ds[i]) is Err
}

/// The entries of a block extend the ones given, and the failed flag ends
/// up set exactly when it was set or one of the new entries failed.
pub proof fn lemma_block_items_failed<'a>(
    ts: Seq<TokenWrapper<'a>>,
    p: int,
    decls: Seq<Result<SpecExpr<'a>, crate::helper::lex_wrap::ParseResultError<'a>>>,
    failed: bool,
)
    requires
        0 <= p <= ts.len(),
    ensures
        spec_block_items(ts, p, decls, failed) matches Some((Ok((ds, f)), _)) ==> {
            &&& decls.len() <= ds.len()
            &&& ds.subrange(0, decls.len() as int) == decls
            &&& (f <==> (failed || some_entry_failed(ds, decls.len() as int)))
        },
    decreases ts.len() - p,
{
    match tok_at(ts, p) {
        None => {},
        Some(tw) => if tw.token == Token::RBrace {
            assert(decls.subrange(0, decls.len() as int) =~= decls);
        } else if tw.token == Token::Semicolon {
            lemma_block_items_failed(ts, p + 1, decls, failed);
        } else if tw.token == Token::Let {
            lemma_variable_declaration_progress(ts, p);
            match spec_variable_declaration(ts, p) {
                Some((r, p1)) => if p < p1 <= ts.len() {
                    lemma_block_items_failed(ts, p1, decls.push(r), failed || r is Err);
                    lemma_pushed_entry(decls, r, failed, failed || r is Err, spec_block_items(
                        ts,
                        p1,
                        decls.push(r),
                        failed || r is Err,
                    ));
                },
                None => {},
            }
        } else {
            lemma_parse_expr_progress(ts, p);
            match spec_parse_expr(ts, p) {
                Some((Ok(e), p1)) => {
                    let entry = if token_is(ts, p1, Token::Semicolon) {
                        SpecExpr::Statement {
                            node_info: NodeInfo::from_indices(true, start_or_zero(e), ts[p1].end),
                            subexpr: Box::new(e),
                        }
                    } else {
                        e
                    };
                    let p2 = if token_is(ts, p1, Token::Semicolon) {
                        p1 + 1
                    } else {
                        p1
                    };
                    if p < p2 <= ts.len() {
                        lemma_block_items_failed(ts, p2, decls.push(Ok(entry)), failed);
                        lemma_pushed_entry(decls, Ok(entry), failed, failed, spec_block_items(
                            ts,
                            p2,
                            decls.push(Ok(entry)),
                            failed,
                        ));
                    }
                },
                Some((Err(err), p1)) => {
                    lemma_eat_to_bounds(ts, p1, seq![Token::Semicolon, Token::RBrace]);
                    let p2 = spec_eat_to(ts, p1, seq![Token::Semicolon, Token::RBrace]);
                    if p < p2 <= ts.len() {
                        lemma_block_items_failed(ts, p2, decls.push(Err(err)), true);
                        lemma_pushed_entry(decls, Err(err), failed, true, spec_block_items(
                            ts,
                            p2,
                            decls.push(Err(err)),
                            true,
                        ));
                    }
                },
                None => {},
            }
        },
    }
}

/// One step of `lemma_block_items_failed`: what holds of the entries after
/// `decls.push(r)` holds of those after `decls` when the flag passed on is
/// `failed` or whether `r` failed.
proof fn lemma_pushed_entry<'a>(
    decls: Seq<Result<SpecExpr<'a>, crate::helper::lex_wrap::ParseResultError<'a>>>,
    r: Result<SpecExpr<'a>, crate::helper::lex_wrap::ParseResultError<'a>>,
    failed: bool,
    failed2: bool,
    rest: Step<'a, (Seq<Result<SpecExpr<'a>, crate::helper::lex_wrap::ParseResultError<'a>>>, bool)>,
)
    requires
        failed2 == (failed || r is Err),
        rest matches Some((Ok((ds, f)), _)) ==> {
            &&& decls.push(r).len() <= ds.len()
            &&& ds.subrange(0, decls.push(r).len() as int) == decls.push(r)
            &&& (f <==> (failed2 || some_entry_failed(ds, decls.push(r).len() as int)))
        },
    ensures
        rest matches Some((Ok((ds, f)), _)) ==> {
            &&& decls.len() <= ds.len()
            &&& ds.subrange(0, decls.len() as int) == decls
            &&& (f <==> (failed || some_entry_failed(ds, decls.len() as int)))
        },
{
    match rest {
        Some((Ok((ds, f)), _)) => {
            let n = decls.len() as int;
            assert(ds.subrange(0, n + 1)[n] == r);
            assert(ds[n] == r);
            assert(ds.subrange(0, n) =~= ds.subrange(0, n + 1).subrange(0, n));
            assert(ds.subrange(0, n) =~= decls);
            if some_entry_failed(ds, n) {
                let i = choose|i: int| n <= i < ds.len() && (#[trigger] ds[i]) is Err;
                if i > n {
                    assert(some_entry_failed(ds, n + 1));
                }
            }
            if some_entry_failed(ds, n + 1) {
                let i = choose|i: int| n + 1 <= i < ds.len() && (#[trigger] ds[i]) is Err;
                assert(some_entry_failed(ds, n));
            }
            if r is Err {
                assert(some_entry_failed(ds, n));
            }
        },
        _ => {},
    }
}

/// A block is flagged exactly when one of its entries failed.
pub proof fn lemma_block_flag_means_failed_entry<'a>(ts: Seq<TokenWrapper<'a>>, p: int)
    requires
        0 <= p <= ts.len(),
    ensures
        spec_syntactic_block(ts, p) matches Some((Ok(SpecExpr::Block { node_info, declarations }), _))
            ==> (node_info matches NodeInfo::Parsed(pni) && (pni.correct <==> some_entry_failed(
            declarations,
            0,
        ))),
{
    if token_is(ts, p, Token::LBrace) {
        lemma_block_items_failed(ts, p + 1, Seq::empty(), false);
    }
}

/// `x.y.z` is the access of `z` on the object `x`: the right side `y.z` is
/// parsed first (a dot binds as strongly on its right as on its left), and
/// the outer dot then replaces the object `y` of that access with `x`.
pub proof fn lemma_dot_chain<'a>(ts: Seq<TokenWrapper<'a>>, p: int)
    requires
        0 <= p,
        ts.len() == p + 5,
        ts[p].token == Token::Identifier,
        ts[p + 1].token == Token::Dot,
        ts[p + 2].token == Token::Identifier,
        ts[p + 3].token == Token::Dot,
        ts[p + 4].token == Token::Identifier,
    ensures
        spec_parse_expr(ts, p) == Some(
            (
                Ok::<_, crate::helper::lex_wrap::ParseResultError<'a>>(
                    named_access(ts[p + 4], Some(Box::new(plain_access(ts[p])))),
                ),
                p + 5,
            ),
        ),
{
    let x = plain_access(ts[p]);
    let y = plain_access(ts[p + 2]);
    let z = plain_access(ts[p + 4]);
    lemma_name_access(ts, p, None);
    assert(spec_leading_expression(ts, p) == spec_atomic_expression(ts, p));
    lemma_name_expr(ts, p + 4, 250);
    lemma_name_access(ts, p + 2, None);
    assert(spec_leading_expression(ts, p + 2) == spec_atomic_expression(ts, p + 2));
    let yz = named_access(ts[p + 4], Some(Box::new(y)));
    assert(spec_expr_loop(ts, yz, p + 5, 250) == Some(
        (Ok::<_, crate::helper::lex_wrap::ParseResultError<'a>>(yz), p + 5),
    ));
    assert(spec_expr_loop(ts, y, p + 3, 250) == Some(
        (Ok::<_, crate::helper::lex_wrap::ParseResultError<'a>>(yz), p + 5),
    ));
    assert(spec_parse_expr_inner(ts, p + 2, 250) == Some(
        (Ok::<_, crate::helper::lex_wrap::ParseResultError<'a>>(yz), p + 5),
    ));
    let xz = named_access(ts[p + 4], Some(Box::new(x)));
    assert(spec_expr_loop(ts, xz, p + 5, 0) == Some(
        (Ok::<_, crate::helper::lex_wrap::ParseResultError<'a>>(xz), p + 5),
    ));
    assert(spec_expr_loop(ts, x, p + 1, 0) == Some(
        (Ok::<_, crate::helper::lex_wrap::ParseResultError<'a>>(xz), p + 5),
    ));
}

/// The assignment of `rhs` to `lhs`, spanning from the start of `lhs` to the
/// end of `rhs`.
pub open spec fn assignment<'a>(lhs: SpecExpr<'a>, rhs: SpecExpr<'a>) -> SpecExpr<'a> {
    SpecExpr::Assignment {
        node_info: NodeInfo::from_indices(true, start_or_zero(lhs), end_or_zero(rhs)),
        lhs: Box::new(lhs),
        rhs: Box::new(rhs),
    }
}

/// Assignment groups to the right: `x = y = z` is `x = (y = z)`.
pub proof fn lemma_assignment_groups_right<'a>(ts: Seq<TokenWrapper<'a>>, p: int)
    requires
        0 <= p,
        ts.len() == p + 5,
        ts[p].token == Token::Identifier,
        ts[p + 1].token == Token::Equals,
        ts[p + 2].token == Token::Identifier,
        ts[p + 3].token == Token::Equals,
        ts[p + 4].token == Token::Identifier,
    ensures
        spec_parse_expr(ts, p) == Some(
            (
                Ok::<_, crate::helper::lex_wrap::ParseResultError<'a>>(
                    assignment(
                        plain_access(ts[p]),
                        assignment(plain_access(ts[p + 2]), plain_access(ts[p + 4])),
                    ),
                ),
                p + 5,
            ),
        ),
{
    let x = plain_access(ts[p]);
    let y = plain_access(ts[p + 2]);
    let z = plain_access(ts[p + 4]);
    lemma_name_access(ts, p, None);
    assert(spec_leading_expression(ts, p) == spec_atomic_expression(ts, p));
    lemma_name_expr(ts, p + 4, 2);
    lemma_name_access(ts, p + 2, None);
    assert(spec_leading_expression(ts, p + 2) == spec_atomic_expression(ts, p + 2));
    let yz = assignment(y, z);
    assert(spec_expr_loop(ts, yz, p + 5, 2) == Some(
        (Ok::<_, crate::helper::lex_wrap::ParseResultError<'a>>(yz), p + 5),
    ));
    assert(spec_expr_loop(ts, y, p + 3, 2) == Some(
        (Ok::<_, crate::helper::lex_wrap::ParseResultError<'a>>(yz), p + 5),
    ));
    assert(spec_parse_expr_inner(ts, p + 2, 2) == Some(
        (Ok::<_, crate::helper::lex_wrap::ParseResultError<'a>>(yz), p + 5),
    ));
    let xyz = assignment(x, yz);
    assert(spec_expr_loop(ts, xyz, p + 5, 0) == Some(
        (Ok::<_, crate::helper::lex_wrap::ParseResultError<'a>>(xyz), p + 5),
    ));
    assert(spec_expr_loop(ts, x, p + 1, 0) == Some(
        (Ok::<_, crate::helper::lex_wrap::ParseResultError<'a>>(xyz), p + 5),
    ));
}

/// A name after an expression is an access on it: `x y` is the access of `y`
/// on the object `x`.
pub proof fn lemma_name_after_expression<'a>(ts: Seq<TokenWrapper<'a>>, p: int)
    requires
        0 <= p,
        ts.len() == p + 2,
        ts[p].token == Token::Identifier,
        ts[p + 1].token == Token::Identifier,
    ensures
        spec_parse_expr(ts, p) == Some(
            (
                Ok::<_, crate::helper::lex_wrap::ParseResultError<'a>>(
                    named_access(ts[p + 1], Some(Box::new(plain_access(ts[p])))),
                ),
                p + 2,
            ),
        ),
{
    let x = plain_access(ts[p]);
    lemma_name_access(ts, p, None);
    assert(spec_leading_expression(ts, p) == spec_atomic_expression(ts, p));
    lemma_name_access(ts, p + 1, Some(Box::new(x)));
    let xy = named_access(ts[p + 1], Some(Box::new(x)));
    assert(spec_expr_loop(ts, xy, p + 2, 0) == Some(
        (Ok::<_, crate::helper::lex_wrap::ParseResultError<'a>>(xy), p + 2),
    ));
    assert(spec_expr_loop(ts, x, p + 1, 0) == Some(
        (Ok::<_, crate::helper::lex_wrap::ParseResultError<'a>>(xy), p + 2),
    ));
}

/// The cast of `e` to `t`, spanning from the start of `e` to the end of `t`.
pub open spec fn cast<'a>(e: SpecExpr<'a>, t: SpecExpr<'a>) -> SpecExpr<'a> {
    SpecExpr::Cast {
        node_info: NodeInfo::from_indices(true, start_or_zero(e), end_or_zero(t)),
        subexpr: Box::new(e),
        typeexpr: Box::new(t),
    }
}

/// `as` takes the shortest type on its right and the longest operand on its
/// left: `x as y op z` is `(x as y) op z`, and `x op y as z` is
/// `(x op y) as z`, for every arithmetic operator `op`.
pub proof fn lemma_cast_grouping<'a>(ts: Seq<TokenWrapper<'a>>, p: int)
    requires
        0 <= p,
        ts.len() == p + 5,
        ts[p].token == Token::Identifier,
        ts[p + 2].token == Token::Identifier,
        ts[p + 4].token == Token::Identifier,
        (ts[p + 1].token == Token::As && is_arithmetic(ts[p + 3].token)) || (is_arithmetic(
            ts[p + 1].token,
        ) && ts[p + 3].token == Token::As),
    ensures
        ({
            let x = plain_access(ts[p]);
            let y = plain_access(ts[p + 2]);
            let z = plain_access(ts[p + 4]);
            spec_parse_expr(ts, p) == Some(
                (
                    Ok::<_, crate::helper::lex_wrap::ParseResultError<'a>>(
                        if ts[p + 1].token == Token::As {
                            binary(ts[p + 3].token, cast(x, y), z)
                        } else {
                            cast(binary(ts[p + 1].token, x, y), z)
                        },
                    ),
                    p + 5,
                ),
            )
        }),
{
    let x = plain_access(ts[p]);
    let y = plain_access(ts[p + 2]);
    let z = plain_access(ts[p + 4]);
    let op1 = ts[p + 1].token;
    let op2 = ts[p + 3].token;
    let (l1, r1) = spec_infix_binding_power(op1).unwrap();
    let (l2, r2) = spec_infix_binding_power(op2).unwrap();
    lemma_name_access(ts, p, None);
    assert(spec_leading_expression(ts, p) == spec_atomic_expression(ts, p));
    lemma_name_expr(ts, p + 2, r1);
    lemma_name_expr(ts, p + 4, r2);
    let first = if op1 == Token::As {
        cast(x, y)
    } else {
        binary(op1, x, y)
    };
    let whole = if op1 == Token::As {
        binary(op2, first, z)
    } else {
        cast(first, z)
    };
    assert(spec_expr_loop(ts, whole, p + 5, 0) == Some((Ok::<_, crate::helper::lex_wrap::ParseResultError<'a>>(whole), p + 5)));
    assert(spec_expr_loop(ts, first, p + 3, 0) == Some((Ok::<_, crate::helper::lex_wrap::ParseResultError<'a>>(whole), p + 5)));
    assert(spec_expr_loop(ts, x, p + 1, 0) == Some((Ok::<_, crate::helper::lex_wrap::ParseResultError<'a>>(whole), p + 5)));
}

/// A call `f(x, y)` is the access of `f` with the pattern of both arguments,
/// spanning from `f` to `)`.
pub proof fn lemma_call_with_two_arguments<'a>(ts: Seq<TokenWrapper<'a>>, p: int)
    requires
        0 <= p,
        ts.len() == p + 6,
        ts[p].token == Token::Identifier,
        ts[p + 1].token == Token::LParen,
        ts[p + 2].token == Token::Identifier,
        ts[p + 3].token == Token::Comma,
        ts[p + 4].token == Token::Identifier,
        ts[p + 5].token == Token::RParen,
    ensures
        spec_parse_expr(ts, p) == Some(
            (
                Ok::<_, crate::helper::lex_wrap::ParseResultError<'a>>(
                    SpecExpr::Access {
                        node_info: NodeInfo::from_indices(true, ts[p].start, ts[p + 5].end),
                        on: None,
                        scope: SpecScopedName {
                            scope: seq!["here", ts[p].slice],
                            silent: false,
                            node_info: NodeInfo::from_indices(true, ts[p].start, ts[p].end),
                        },
                        pattern: Some(
                            crate::ast::SpecPattern {
                                node_info: NodeInfo::from_indices(
                                    true,
                                    ts[p + 1].start,
                                    ts[p + 5].end,
                                ),
                                expressions: seq![plain_access(ts[p + 2]), plain_access(ts[p + 4])],
                            },
                        ),
                    },
                ),
                p + 6,
            ),
        ),
{
    let x = plain_access(ts[p + 2]);
    let y = plain_access(ts[p + 4]);
    assert(ts[p + 2 * 0].token == Token::Identifier);
    lemma_scoped_name_reads_path(ts, p, 1);
    assert(seq!["here"] + path_names(ts, p, 1) =~= seq!["here", ts[p].slice]);
    lemma_name_access(ts, p + 2, None);
    assert(spec_leading_expression(ts, p + 2) == spec_atomic_expression(ts, p + 2));
    assert(spec_expr_loop(ts, x, p + 3, 0) == Some((Ok::<_, crate::helper::lex_wrap::ParseResultError<'a>>(x), p + 3)));
    lemma_name_access(ts, p + 4, None);
    assert(spec_leading_expression(ts, p + 4) == spec_atomic_expression(ts, p + 4));
    assert(spec_expr_loop(ts, y, p + 5, 0) == Some((Ok::<_, crate::helper::lex_wrap::ParseResultError<'a>>(y), p + 5)));
    assert(spec_parse_expr(ts, p + 4) == Some((Ok::<_, crate::helper::lex_wrap::ParseResultError<'a>>(y), p + 5)));
    assert(spec_parse_expr(ts, p + 2) == Some((Ok::<_, crate::helper::lex_wrap::ParseResultError<'a>>(x), p + 3)));
    let one = Seq::<SpecExpr<'a>>::empty().push(x);
    assert(spec_pattern_items(ts, p + 4, one) == Some((one.push(y), p + 5)));
    assert(spec_pattern_items(ts, p + 2, Seq::empty()) == Some((one.push(y), p + 5)));
    assert(one.push(y) =~= seq![x, y]);
    let call = SpecExpr::Access {
        node_info: NodeInfo::from_indices(true, ts[p].start, ts[p + 5].end),
        on: None,
        scope: SpecScopedName {
            scope: seq!["here", ts[p].slice],
            silent: false,
            node_info: NodeInfo::from_indices(true, ts[p].start, ts[p].end),
        },
        pattern: Some(
            crate::ast::SpecPattern {
                node_info: NodeInfo::from_indices(true, ts[p + 1].start, ts[p + 5].end),
                expressions: seq![x, y],
            },
        ),
    };
    assert(spec_parse_access(ts, p, None) == Some((Ok::<_, crate::helper::lex_wrap::ParseResultError<'a>>(call), p + 6)));
    assert(spec_leading_expression(ts, p) == spec_atomic_expression(ts, p));
    assert(spec_expr_loop(ts, call, p + 6, 0) == Some((Ok::<_, crate::helper::lex_wrap::ParseResultError<'a>>(call), p + 6)));
}

/// The literal expression of a literal token.
pub open spec fn literal<'a>(tw: TokenWrapper<'a>) -> SpecExpr<'a> {
    SpecExpr::Literal { node_info: NodeInfo::from_indices(true, tw.start, tw.end), contents: tw }
}

/// A literal at `q` followed by the end of the input or by a token that
/// continues no expression parses as its literal expression.
proof fn lemma_literal_expr<'a>(ts: Seq<TokenWrapper<'a>>, q: int, m: u32)
    requires
        0 <= q < ts.len(),
        ts[q].token == Token::UnknownIntegerLiteral,
        q + 1 == ts.len() || (spec_infix_binding_power(ts[q + 1].token) is None
            && !is_access_start(ts[q + 1].token)),
    ensures
        spec_parse_expr_inner(ts, q, m) == Some((Ok::<_, crate::helper::lex_wrap::ParseResultError<'a>>(literal(ts[q])), q + 1)),
{
    assert(spec_leading_expression(ts, q) == Some((Ok::<_, crate::helper::lex_wrap::ParseResultError<'a>>(literal(ts[q])), q + 1)));
    assert(spec_expr_loop(ts, literal(ts[q]), q + 1, m) == Some(
        (Ok::<_, crate::helper::lex_wrap::ParseResultError<'a>>(literal(ts[q])), q + 1),
    ));
}

/// `if c t else e` is the if-expression of the three, spanning from `if` to
/// the end of `e`; without `else e` the else branch is an empty block that
/// comes from no source text and the span ends with `t`.
pub proof fn lemma_if_then_else<'a>(ts: Seq<TokenWrapper<'a>>, p: int)
    requires
        0 <= p,
        ts.len() == p + 5 || ts.len() == p + 3,
        ts[p].token == Token::If,
        ts[p + 1].token == Token::UnknownIntegerLiteral,
        ts[p + 2].token == Token::UnknownIntegerLiteral,
        ts.len() == p + 5 ==> ts[p + 3].token == Token::Else && ts[p + 4].token
            == Token::UnknownIntegerLiteral,
    ensures
        spec_parse_if_then_else(ts, p) == Some(
            (
                Ok::<_, crate::helper::lex_wrap::ParseResultError<'a>>(
                    if ts.len() == p + 5 {
                        SpecExpr::IfThenElse {
                            node_info: NodeInfo::from_indices(true, ts[p].start, ts[p + 4].end),
                            if_exp: Box::new(literal(ts[p + 1])),
                            then_exp: Box::new(literal(ts[p + 2])),
                            else_exp: Box::new(literal(ts[p + 4])),
                        }
                    } else {
                        SpecExpr::IfThenElse {
                            node_info: NodeInfo::from_indices(true, ts[p].start, ts[p + 2].end),
                            if_exp: Box::new(literal(ts[p + 1])),
                            then_exp: Box::new(literal(ts[p + 2])),
                            else_exp: Box::new(
                                SpecExpr::Block {
                                    node_info: NodeInfo::Builtin,
                                    declarations: Seq::empty(),
                                },
                            ),
                        }
                    },
                ),
                ts.len() as int,
            ),
        ),
{
    lemma_literal_expr(ts, p + 1, 0);
    lemma_literal_expr(ts, p + 2, 0);
    if ts.len() == p + 5 {
        lemma_literal_expr(ts, p + 4, 0);
    }
}

/// A prefix `+` never yields an expression: it has a binding power but no
/// unary node, so the parser stops or reports an error in its operand.
pub proof fn lemma_prefix_plus_yields_nothing<'a>(ts: Seq<TokenWrapper<'a>>, p: int)
    requires
        token_is(ts, p, Token::Plus),
    ensures
        !(spec_parse_expr(ts, p) matches Some((Ok(_), _))),
{
}

/// An array literal stops the parser.
pub proof fn lemma_array_literal_stops<'a>(ts: Seq<TokenWrapper<'a>>, p: int, min_bp: u32)
    requires
        token_is(ts, p, Token::LBracket),
    ensures
        spec_parse_expr_inner(ts, p, min_bp) is None,
{
}

/// The infix operators that have a binding power but no node.
pub open spec fn is_unbuildable_operator(t: Token) -> bool {
    t == Token::LogicalOr || t == Token::LogicalAnd || t == Token::CmpEqual || t
        == Token::CmpNotEqual || t == Token::CmpLessThan || t == Token::CmpGreaterThan || t
        == Token::CmpLessThanOrEqual || t == Token::CmpGreaterThanOrEqual || t == Token::Pipe || t
        == Token::Caret || t == Token::And || t == Token::ShiftLeft || t == Token::ShiftRight || t
        == Token::Modulo
}

/// `x op y` with an operator that has a binding power but no node stops the
/// parser.
pub proof fn lemma_unbuildable_operator_stops<'a>(ts: Seq<TokenWrapper<'a>>, p: int)
    requires
        0 <= p,
        ts.len() == p + 3,
        ts[p].token == Token::Identifier,
        is_unbuildable_operator(ts[p + 1].token),
        ts[p + 2].token == Token::Identifier,
    ensures
        spec_parse_expr(ts, p) is None,
{
    let x = plain_access(ts[p]);
    lemma_name_access(ts, p, None);
    assert(spec_leading_expression(ts, p) == spec_atomic_expression(ts, p));
    let (l, r) = spec_infix_binding_power(ts[p + 1].token).unwrap();
    lemma_name_expr(ts, p + 2, r);
    assert(spec_expr_loop(ts, x, p + 1, 0) is None);
}

/// The atomic expression at `q`: a literal token gives its literal, `_` the
/// wildcard, and a token that starts no expression is read and reported.
pub proof fn lemma_atomic_kinds<'a>(ts: Seq<TokenWrapper<'a>>, q: int)
    requires
        0 <= q < ts.len(),
    ensures
        (ts[q].token == Token::UnknownIntegerLiteral || ts[q].token == Token::StringLiteral)
            ==> spec_atomic_expression(ts, q) == Some((Ok::<_, crate::helper::lex_wrap::ParseResultError<'a>>(literal(ts[q])), q + 1)),
        ts[q].token == Token::Underscore ==> spec_atomic_expression(ts, q) == Some(
            (
                Ok::<_, crate::helper::lex_wrap::ParseResultError<'a>>(
                    SpecExpr::Wildcard {
                        node_info: NodeInfo::from_indices(true, ts[q].start, ts[q].end),
                        contents: ts[q],
                    },
                ),
                q + 1,
            ),
        ),
        (ts[q].token == Token::RParen || ts[q].token == Token::Comma || ts[q].token
            == Token::Semicolon || ts[q].token == Token::RBrace || ts[q].token == Token::Else)
            ==> spec_atomic_expression(ts, q) == Some(
            (Err::<SpecExpr<'a>, crate::helper::lex_wrap::ParseResultError<'a>>(crate::helper::lex_wrap::ParseResultError::UnexpectedToken(ts[q])), q + 1),
        ),
{
}

/// A block recovers from a failed entry: in `{ ) ; x }` the `)` is kept as
/// its error, the `;` skipped, `x` read, and the block is flagged.
pub proof fn lemma_block_recovers<'a>(ts: Seq<TokenWrapper<'a>>, p: int)
    requires
        0 <= p,
        ts.len() == p + 5,
        ts[p].token == Token::LBrace,
        ts[p + 1].token == Token::RParen,
        ts[p + 2].token == Token::Semicolon,
        ts[p + 3].token == Token::Identifier,
        ts[p + 4].token == Token::RBrace,
    ensures
        spec_syntactic_block(ts, p) == Some(
            (
                Ok::<_, crate::helper::lex_wrap::ParseResultError<'a>>(
                    SpecExpr::Block {
                        node_info: NodeInfo::from_indices(true, ts[p + 1].start, ts[p + 3].start),
                        declarations: seq![
                            Err(crate::helper::lex_wrap::ParseResultError::UnexpectedToken(ts[p + 1])),
                            Ok(plain_access(ts[p + 3])),
                        ],
                    },
                ),
                p + 5,
            ),
        ),
{
    let x = plain_access(ts[p + 3]);
    assert(spec_parse_expr(ts, p + 1) == Some(
        (Err::<SpecExpr<'a>, crate::helper::lex_wrap::ParseResultError<'a>>(crate::helper::lex_wrap::ParseResultError::UnexpectedToken(ts[p + 1])), p + 2),
    ));
    assert(spec_eat_to(ts, p + 2, seq![Token::Semicolon, Token::RBrace]) == p + 2) by {
        assert(seq![Token::Semicolon, Token::RBrace].contains(ts[p + 2].token)) by {
            assert(seq![Token::Semicolon, Token::RBrace][0] == Token::Semicolon);
        }
    }
    lemma_name_access(ts, p + 3, None);
    assert(spec_leading_expression(ts, p + 3) == spec_atomic_expression(ts, p + 3));
    assert(spec_expr_loop(ts, x, p + 4, 0) == Some((Ok::<_, crate::helper::lex_wrap::ParseResultError<'a>>(x), p + 4)));
    assert(spec_parse_expr(ts, p + 3) == Some((Ok::<_, crate::helper::lex_wrap::ParseResultError<'a>>(x), p + 4)));
    let d1 = Seq::<Result<SpecExpr<'a>, crate::helper::lex_wrap::ParseResultError<'a>>>::empty().push(
        Err(crate::helper::lex_wrap::ParseResultError::UnexpectedToken(ts[p + 1])),
    );
    let d2 = d1.push(Ok(x));
    assert(spec_block_items(ts, p + 4, d2, true) == Some((Ok::<_, crate::helper::lex_wrap::ParseResultError<'a>>((d2, true)), p + 4)));
    assert(spec_block_items(ts, p + 3, d1, true) == Some((Ok::<_, crate::helper::lex_wrap::ParseResultError<'a>>((d2, true)), p + 4)));
    assert(spec_block_items(ts, p + 2, d1, true) == Some((Ok::<_, crate::helper::lex_wrap::ParseResultError<'a>>((d2, true)), p + 4)));
    assert(spec_block_items(ts, p + 1, Seq::empty(), false) == Some(
        (Ok::<_, crate::helper::lex_wrap::ParseResultError<'a>>((d2, true)), p + 4),
    ));
    assert(d2 =~= seq![
        Err(crate::helper::lex_wrap::ParseResultError::UnexpectedToken(ts[p + 1])),
        Ok(x),
    ]);
}

/// `let n = v` declares the name `n` with the value `v`, spanning from `let`
/// to the end of `v`.
pub proof fn lemma_let_declaration<'a>(ts: Seq<TokenWrapper<'a>>, p: int)
    requires
        0 <= p,
        ts.len() == p + 4,
        ts[p].token == Token::Let,
        ts[p + 1].token == Token::Identifier,
        ts[p + 2].token == Token::Equals,
        ts[p + 3].token == Token::UnknownIntegerLiteral,
    ensures
        spec_variable_declaration(ts, p) == Some(
            (
                Ok::<_, crate::helper::lex_wrap::ParseResultError<'a>>(
                    SpecExpr::LetExpression {
                        node_info: NodeInfo::from_indices(true, ts[p].start, ts[p + 3].end),
                        name: ts[p + 1].slice,
                        value: Box::new(literal(ts[p + 3])),
                    },
                ),
                p + 4,
            ),
        ),
{
    lemma_literal_expr(ts, p + 3, 0);
}

} // verus!
