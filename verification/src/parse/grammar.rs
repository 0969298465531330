//! The grammar that the expression parser implements, written as total spec
//! functions over a token sequence `ts` and a position `p`.
//!
//! Each parsing function is modelled by a function that returns
//! `Some((result, position after the call))`, or `None` where the parser
//! stops the program instead of answering: on an array literal (not
//! implemented), on a prefix `+`, on a binary operator that has a binding
//! power but no node to build (`||`, `&&`, comparisons, `|`, `^`, `&`,
//! shifts, `%`), and where a node it needs a span of has none (which never
//! happens: `parse::laws::lemma_parse_expr_inner_has_span`). The
//! remaining `None` branches, guarded by a comparison of positions, are
//! never taken: no step moves back or past the end of the input, and every
//! step after which the parser loops or recurses has read a token (the
//! `lemma_*_progress` laws in `parse::laws`).
use vstd::prelude::*;

use crate::ast::{NodeInfo, Span, SpecExpr, SpecPattern, SpecScopedName};
use crate::helper::EitherAnd;
use crate::helper::lex_wrap::{ParseResultError, TokenWrapper, tok_at, token_is};
use crate::lex::Token;
use crate::parse::laws::lemma_scoped_name_silent;

verus! {

/// The result of one parsing step and the position after it; `None` where
/// the parser stops the program.
pub type Step<'a, T> = Option<(Result<T, ParseResultError<'a>>, int)>;

/// The message of the error for a dot access whose right side is no access.
pub const DOT_ACCESS_MESSAGE: &'static str =
    "Can not perform a dot-access with non-access RHS.\n                    RHS must be of the form (ScopedIdentifier &| Pattern).\n                    Offending RHS occurs at span";

/// The error for a token that was expected at `p` and is not there.
pub open spec fn expect_error<'a>(ts: Seq<TokenWrapper<'a>>, p: int) -> ParseResultError<'a> {
    match tok_at(ts, p) {
        Some(tw) => ParseResultError::UnexpectedToken(tw),
        None => ParseResultError::EndOfFile,
    }
}

/// The binding power of each prefix operator.
pub open spec fn spec_prefix_binding_power(t: Token) -> Option<u32> {
    match t {
        Token::Plus | Token::Dash | Token::Asterisk | Token::Bang | Token::And => Some(100),
        _ => None,
    }
}

/// The left and right binding powers of each infix operator.
pub open spec fn spec_infix_binding_power(t: Token) -> Option<(u32, u32)> {
    match t {
        Token::As => Some((1, 300)),
        Token::Dot => Some((250, 250)),
        Token::Equals => Some((200, 2)),
        Token::LogicalOr => Some((3, 4)),
        Token::LogicalAnd => Some((5, 6)),
        Token::CmpEqual | Token::CmpLessThan | Token::CmpGreaterThan | Token::CmpLessThanOrEqual
        | Token::CmpGreaterThanOrEqual | Token::CmpNotEqual => Some((7, 8)),
        Token::Pipe => Some((9, 10)),
        Token::Caret => Some((11, 12)),
        Token::And => Some((13, 14)),
        Token::ShiftLeft | Token::ShiftRight => Some((15, 16)),
        Token::Plus | Token::Dash => Some((17, 18)),
        Token::Asterisk | Token::FSlash | Token::Modulo => Some((19, 20)),
        _ => None,
    }
}

/// The tokens after an expression that start an access chained onto it.
pub open spec fn is_access_start(t: Token) -> bool {
    t == Token::LParen || t == Token::LBracket || t == Token::Identifier || t == Token::DoubleColon
}

/// The prefix operators for which a unary node is built.
pub open spec fn is_unary_operator(t: Token) -> bool {
    t == Token::And || t == Token::Asterisk || t == Token::Dash || t == Token::Bang
}

/// The start of an expression's span, or 0.
pub open spec fn start_or_zero<'a>(e: SpecExpr<'a>) -> usize {
    match e.node_info().spec_start() {
        Some(s) => s,
        None => 0,
    }
}

/// The end of an expression's span, or 0.
pub open spec fn end_or_zero<'a>(e: SpecExpr<'a>) -> usize {
    match e.node_info().spec_end() {
        Some(s) => s,
        None => 0,
    }
}

/// The unary node for prefix operator `t`; `None` for an operator that has
/// a binding power but no unary node.
pub open spec fn spec_build_unary<'a>(node_info: NodeInfo, t: Token, subexpr: SpecExpr<'a>) -> Option<
    SpecExpr<'a>,
> {
    if is_unary_operator(t) {
        Some(SpecExpr::UnaryOperation { node_info, operation: t, subexpr: Box::new(subexpr) })
    } else {
        None
    }
}

/// The node for infix operator `t` between `lhs` and `rhs`: arithmetic, a
/// cast, an assignment, or a dot access that makes `lhs` the object of the
/// access on its right. `None` for an operator without a node.
pub open spec fn spec_build_binary<'a>(
    node_info: NodeInfo,
    t: Token,
    lhs: SpecExpr<'a>,
    rhs: SpecExpr<'a>,
) -> Option<Result<SpecExpr<'a>, ParseResultError<'a>>> {
    if t == Token::Plus || t == Token::Dash || t == Token::Asterisk || t == Token::FSlash {
        Some(
            Ok(
                SpecExpr::BinaryOperation {
                    node_info,
                    operation: t,
                    lhs: Box::new(lhs),
                    rhs: Box::new(rhs),
                },
            ),
        )
    } else if t == Token::As {
        Some(Ok(SpecExpr::Cast { node_info, subexpr: Box::new(lhs), typeexpr: Box::new(rhs) }))
    } else if t == Token::Equals {
        Some(Ok(SpecExpr::Assignment { node_info, lhs: Box::new(lhs), rhs: Box::new(rhs) }))
    } else if t == Token::Dot {
        match rhs {
            SpecExpr::Access { node_info: rhs_info, on: _, scope, pattern } => Some(
                Ok(
                    SpecExpr::Access {
                        node_info: rhs_info,
                        on: Some(Box::new(lhs)),
                        scope,
                        pattern,
                    },
                ),
            ),
            _ => Some(
                Err(
                    ParseResultError::SemanticIssue(
                        DOT_ACCESS_MESSAGE,
                        start_or_zero(rhs),
                        end_or_zero(rhs),
                    ),
                ),
            ),
        }
    } else {
        None
    }
}

/// The position of the first token at or after `p` that is one of `stops`
/// (or the end of the input).
pub open spec fn spec_eat_to<'a>(ts: Seq<TokenWrapper<'a>>, p: int, stops: Seq<Token>) -> int
    decreases ts.len() - p,
{
    if 0 <= p < ts.len() && !stops.contains(ts[p].token) {
        spec_eat_to(ts, p + 1, stops)
    } else {
        p
    }
}

/// The names of a scoped name, read from `p` on: identifiers, each but the
/// last followed by `::`. Gives the scope, the silent flag, the first start
/// and last end seen, and the position after the names.
pub open spec fn scoped_name_ids<'a>(
    ts: Seq<TokenWrapper<'a>>,
    p: int,
    scope: Seq<&'a str>,
    silent: bool,
    start: Option<usize>,
    end: Option<usize>,
) -> (Seq<&'a str>, bool, Option<usize>, Option<usize>, int)
    decreases ts.len() - p,
{
    if token_is(ts, p, Token::Identifier) {
        let id = ts[p];
        let scope2 = scope.push(id.slice);
        let start2 = Some(
            match start {
                Some(s) => s,
                None => id.start,
            },
        );
        if token_is(ts, p + 1, Token::DoubleColon) {
            scoped_name_ids(ts, p + 2, scope2, false, start2, Some(ts[p + 1].end))
        } else {
            (scope2, false, start2, Some(id.end), p + 1)
        }
    } else {
        (scope, silent, start, end, p)
    }
}

/// A scoped name read from `p`: an optional leading `::` (scope "global",
/// else "here"), then the names. Never fails; it is silent when it read no
/// token.
pub open spec fn spec_scoped_name<'a>(ts: Seq<TokenWrapper<'a>>, p: int) -> (SpecScopedName<'a>, int) {
    let global = token_is(ts, p, Token::DoubleColon);
    let first: &'a str = if global {
        "global"
    } else {
        "here"
    };
    let ids = if global {
        scoped_name_ids(ts, p + 1, seq![first], false, Some(ts[p].start), Some(ts[p].end))
    } else {
        scoped_name_ids(ts, p, seq![first], true, None, None)
    };
    let node_info = match ids.2 {
        Some(s) => NodeInfo::from_indices(
            true,
            s,
            match ids.3 {
                Some(e) => e,
                None => s,
            },
        ),
        None => NodeInfo::Builtin,
    };
    (SpecScopedName { scope: ids.0, silent: ids.1, node_info }, ids.4)
}

/// The span of an access: that of its scoped name, that of its pattern, or
/// from the start of the first to the end of the second; `None` if neither
/// was parsed.
pub open spec fn access_span(either: EitherAnd<Span, Span>) -> Option<(usize, usize)> {
    match either {
        EitherAnd::Neither => None,
        EitherAnd::A(a) => Some((a.start, a.end)),
        EitherAnd::B(b) => Some((b.start, b.end)),
        EitherAnd::Both(a, b) => Some((a.start, b.end)),
    }
}

/// `parse_expr`: an expression with minimum binding power 0.
pub open spec fn spec_parse_expr<'a>(ts: Seq<TokenWrapper<'a>>, p: int) -> Step<'a, SpecExpr<'a>>
    decreases ts.len() - p, 5int,
{
    spec_parse_expr_inner(ts, p, 0)
}

/// `parse_expr_inner`: a leading expression (block, if, prefix operation or
/// atomic expression), then the infix operations and accesses that follow.
pub open spec fn spec_parse_expr_inner<'a>(ts: Seq<TokenWrapper<'a>>, p: int, min_bp: u32) -> Step<
    'a,
    SpecExpr<'a>,
>
    decreases ts.len() - p, 4int,
{
    match tok_at(ts, p) {
        None => Some((Err(ParseResultError::EndOfFile), p)),
        Some(_) => match spec_leading_expression(ts, p) {
            Some((Ok(e), p1)) => if p <= p1 <= ts.len() {
                spec_expr_loop(ts, e, p1, min_bp)
            } else {
                None
            },
            other => other,
        },
    }
}

/// The leading expression of `parse_expr_inner` at `p`: an array literal
/// (which stops the parser), a block, an if-expression, a prefix operation
/// on an expression of the operator's binding power, or an atomic
/// expression.
pub open spec fn spec_leading_expression<'a>(ts: Seq<TokenWrapper<'a>>, p: int) -> Step<
    'a,
    SpecExpr<'a>,
>
    decreases ts.len() - p, 3int,
{
    match tok_at(ts, p) {
        None => Some((Err(ParseResultError::EndOfFile), p)),
        Some(t1) => if t1.token == Token::LBracket {
            None
        } else if t1.token == Token::LBrace {
            spec_syntactic_block(ts, p)
        } else if t1.token == Token::If {
            spec_parse_if_then_else(ts, p)
        } else if spec_prefix_binding_power(t1.token) is Some {
            match spec_parse_expr_inner(ts, p + 1, spec_prefix_binding_power(t1.token).unwrap()) {
                Some((Ok(rhs), p1)) => match rhs.node_info().spec_end() {
                    Some(end) => match spec_build_unary(
                        NodeInfo::from_indices(true, t1.start, end),
                        t1.token,
                        rhs,
                    ) {
                        Some(u) => Some((Ok(u), p1)),
                        None => None,
                    },
                    None => None,
                },
                other => other,
            }
        } else {
            spec_atomic_expression(ts, p)
        },
    }
}

/// The loop of `parse_expr_inner` from position `p` with the expression
/// `lhs` built so far.
pub open spec fn spec_expr_loop<'a>(
    ts: Seq<TokenWrapper<'a>>,
    lhs: SpecExpr<'a>,
    p: int,
    min_bp: u32,
) -> Step<'a, SpecExpr<'a>>
    decreases ts.len() - p, 2int,
{
    match tok_at(ts, p) {
        None => Some((Ok(lhs), p)),
        Some(tw) => match spec_infix_binding_power(tw.token) {
            Some((l_bp, r_bp)) => if l_bp < min_bp {
                Some((Ok(lhs), p))
            } else {
                match spec_parse_expr_inner(ts, p + 1, r_bp) {
                    Some((Ok(rhs), p1)) => match (
                        lhs.node_info().spec_start(),
                        rhs.node_info().spec_end(),
                    ) {
                        (Some(s), Some(e)) => match spec_build_binary(
                            NodeInfo::from_indices(true, s, e),
                            tw.token,
                            lhs,
                            rhs,
                        ) {
                            Some(Ok(next)) => if p < p1 <= ts.len() {
                                spec_expr_loop(ts, next, p1, min_bp)
                            } else {
                                None
                            },
                            Some(Err(err)) => Some((Err(err), p1)),
                            None => None,
                        },
                        _ => None,
                    },
                    other => other,
                }
            },
            None => if is_access_start(tw.token) {
                match spec_parse_access(ts, p, Some(Box::new(lhs))) {
                    Some((Ok(next), p1)) => if p < p1 <= ts.len() {
                        spec_expr_loop(ts, next, p1, min_bp)
                    } else {
                        None
                    },
                    other => other,
                }
            } else {
                Some((Ok(lhs), p))
            },
        },
    }
}

/// `atomic_expression`: a literal, a wildcard, or an access; any other
/// token is consumed and reported.
pub open spec fn spec_atomic_expression<'a>(ts: Seq<TokenWrapper<'a>>, p: int) -> Step<
    'a,
    SpecExpr<'a>,
>
    decreases ts.len() - p, 2int,
{
    match tok_at(ts, p) {
        None => Some((Err(ParseResultError::EndOfFile), p)),
        Some(tw) => if tw.token == Token::UnknownIntegerLiteral || tw.token == Token::StringLiteral {
            Some(
                (
                    Ok(
                        SpecExpr::Literal {
                            node_info: NodeInfo::from_indices(true, tw.start, tw.end),
                            contents: tw,
                        },
                    ),
                    p + 1,
                ),
            )
        } else if tw.token == Token::Underscore {
            Some(
                (
                    Ok(
                        SpecExpr::Wildcard {
                            node_info: NodeInfo::from_indices(true, tw.start, tw.end),
                            contents: tw,
                        },
                    ),
                    p + 1,
                ),
            )
        } else if tw.token == Token::LParen || tw.token == Token::DoubleColon || tw.token
            == Token::Identifier {
            spec_parse_access(ts, p, None)
        } else {
            Some((Err(ParseResultError::UnexpectedToken(tw)), p + 1))
        },
    }
}

/// `parse_access`: a scoped name, then a pattern (required when the scoped
/// name is silent, optional otherwise), on the object `on`.
pub open spec fn spec_parse_access<'a>(
    ts: Seq<TokenWrapper<'a>>,
    p: int,
    on: Option<Box<SpecExpr<'a>>>,
) -> Step<'a, SpecExpr<'a>>
    decreases ts.len() - p, 1int,
{
    let (base, p1) = spec_scoped_name(ts, p);
    let either0: EitherAnd<Span, Span> = match base.node_info.spec_as_parsed() {
        Some(pni) => EitherAnd::A(pni.span),
        None => EitherAnd::Neither,
    };
    proof {
        lemma_scoped_name_silent(ts, p);
    }
    {
        let pat: Step<'a, Option<SpecPattern<'a>>> = match spec_parse_pattern(ts, p1) {
            Some((Ok(pt), p2)) => Some((Ok(Some(pt)), p2)),
            Some((Err(e), p2)) => if base.silent {
                Some((Err(e), p2))
            } else {
                Some((Ok(None), p2))
            },
            None => None,
        };
        match pat {
            Some((Ok(b_pattern), p2)) => {
                let either = match b_pattern {
                    Some(pt) => match pt.node_info.spec_as_parsed() {
                        Some(pni) => either0.spec_with_b(pni.span),
                        None => either0,
                    },
                    None => either0,
                };
                match access_span(either) {
                    Some((s, e)) => Some(
                        (
                            Ok(
                                SpecExpr::Access {
                                    node_info: NodeInfo::from_indices(true, s, e),
                                    on,
                                    scope: base,
                                    pattern: b_pattern,
                                },
                            ),
                            p2,
                        ),
                    ),
                    None => None,
                }
            },
            Some((Err(e), p2)) => Some((Err(e), p2)),
            None => None,
        }
    }
}

/// `parse_pattern`: `(`, expressions separated by `,`, `)`.
pub open spec fn spec_parse_pattern<'a>(ts: Seq<TokenWrapper<'a>>, p: int) -> Step<
    'a,
    SpecPattern<'a>,
>
    decreases ts.len() - p, 0int,
{
    if token_is(ts, p, Token::LParen) {
        match spec_pattern_items(ts, p + 1, Seq::empty()) {
            Some((items, p2)) => if token_is(ts, p2, Token::RParen) {
                Some(
                    (
                        Ok(
                            SpecPattern {
                                node_info: NodeInfo::from_indices(true, ts[p].start, ts[p2].end),
                                expressions: items,
                            },
                        ),
                        p2 + 1,
                    ),
                )
            } else {
                Some((Err(expect_error(ts, p2)), p2))
            },
            None => None,
        }
    } else {
        Some((Err(expect_error(ts, p)), p))
    }
}

/// The expressions of a pattern from `p`, appended to `acc`: they are read
/// while they parse, each but the last followed by `,`. Gives them and the
/// position after them (after the failed attempt, if one failed).
pub open spec fn spec_pattern_items<'a>(
    ts: Seq<TokenWrapper<'a>>,
    p: int,
    acc: Seq<SpecExpr<'a>>,
) -> Option<(Seq<SpecExpr<'a>>, int)>
    decreases ts.len() - p, 6int,
{
    match spec_parse_expr(ts, p) {
        Some((Ok(e), p1)) => if token_is(ts, p1, Token::Comma) {
            if p <= p1 {
                spec_pattern_items(ts, p1 + 1, acc.push(e))
            } else {
                None
            }
        } else {
            Some((acc.push(e), p1))
        },
        Some((Err(_), p1)) => Some((acc, p1)),
        None => None,
    }
}

/// `parse_if_then_else`: `if`, a condition, a branch, then optionally
/// `else` and a second branch (an empty block when absent).
pub open spec fn spec_parse_if_then_else<'a>(ts: Seq<TokenWrapper<'a>>, p: int) -> Step<
    'a,
    SpecExpr<'a>,
>
    decreases ts.len() - p, 2int,
{
    if !token_is(ts, p, Token::If) {
        Some((Err(expect_error(ts, p)), p))
    } else {
        let start = ts[p].start;
        match spec_parse_expr(ts, p + 1) {
            Some((Ok(if_exp), p1)) => if p < p1 <= ts.len() {
                match spec_parse_expr(ts, p1) {
                    Some((Ok(then_exp), p2)) => if token_is(ts, p2, Token::Else) {
                        if p <= p2 {
                            match spec_parse_expr(ts, p2 + 1) {
                                Some((Ok(else_exp), p3)) => match else_exp.node_info().spec_end() {
                                    Some(end) => Some(
                                        (
                                            Ok(
                                                SpecExpr::IfThenElse {
                                                    node_info: NodeInfo::from_indices(
                                                        true,
                                                        start,
                                                        end,
                                                    ),
                                                    if_exp: Box::new(if_exp),
                                                    then_exp: Box::new(then_exp),
                                                    else_exp: Box::new(else_exp),
                                                },
                                            ),
                                            p3,
                                        ),
                                    ),
                                    None => None,
                                },
                                other => other,
                            }
                        } else {
                            None
                        }
                    } else {
                        match then_exp.node_info().spec_end() {
                            Some(end) => Some(
                                (
                                    Ok(
                                        SpecExpr::IfThenElse {
                                            node_info: NodeInfo::from_indices(true, start, end),
                                            if_exp: Box::new(if_exp),
                                            then_exp: Box::new(then_exp),
                                            else_exp: Box::new(
                                                SpecExpr::Block {
                                                    node_info: NodeInfo::Builtin,
                                                    declarations: Seq::empty(),
                                                },
                                            ),
                                        },
                                    ),
                                    p2,
                                ),
                            ),
                            None => None,
                        }
                    },
                    other => other,
                }
            } else {
                None
            },
            other => other,
        }
    }
}

/// `variable_declaration`: `let`, a name, `=`, an expression.
pub open spec fn spec_variable_declaration<'a>(ts: Seq<TokenWrapper<'a>>, p: int) -> Step<
    'a,
    SpecExpr<'a>,
>
    decreases ts.len() - p, 6int,
{
    if !token_is(ts, p, Token::Let) {
        Some((Err(expect_error(ts, p)), p))
    } else if !token_is(ts, p + 1, Token::Identifier) {
        Some((Err(expect_error(ts, p + 1)), p + 1))
    } else if !token_is(ts, p + 2, Token::Equals) {
        Some((Err(expect_error(ts, p + 2)), p + 2))
    } else {
        match spec_parse_expr(ts, p + 3) {
            Some((Ok(value), p1)) => Some(
                (
                    Ok(
                        SpecExpr::LetExpression {
                            node_info: NodeInfo::from_indices(
                                true,
                                ts[p].start,
                                match value.node_info().spec_end() {
                                    Some(e) => e,
                                    None => ts[p + 2].end,
                                },
                            ),
                            name: ts[p + 1].slice,
                            value: Box::new(value),
                        },
                    ),
                    p1,
                ),
            ),
            other => other,
        }
    }
}

/// `syntactic_block`: `{`, entries, `}`. The node is flagged with whether
/// some entry failed, and spans from the first token after `{` to the start
/// of the token before `}`.
pub open spec fn spec_syntactic_block<'a>(ts: Seq<TokenWrapper<'a>>, p: int) -> Step<
    'a,
    SpecExpr<'a>,
>
    decreases ts.len() - p, 2int,
{
    if !token_is(ts, p, Token::LBrace) {
        Some((Err(expect_error(ts, p)), p))
    } else {
        let start: usize = match tok_at(ts, p + 1) {
            Some(tw) => tw.start,
            None => 0,
        };
        match spec_block_items(ts, p + 1, Seq::empty(), false) {
            Some((Ok((declarations, failed)), p2)) => {
                let end: usize = match tok_at(ts, p2 - 1) {
                    Some(tw) => tw.start,
                    None => start,
                };
                if token_is(ts, p2, Token::RBrace) {
                    Some(
                        (
                            Ok(
                                SpecExpr::Block {
                                    node_info: NodeInfo::from_indices(failed, start, end),
                                    declarations,
                                },
                            ),
                            p2 + 1,
                        ),
                    )
                } else {
                    Some((Err(expect_error(ts, p2)), p2))
                }
            },
            Some((Err(e), p2)) => Some((Err(e), p2)),
            None => None,
        }
    }
}

/// The entries of a block from `p` until `}`, appended to `decls`, with
/// `failed` set once an entry fails: `;` is skipped, `let` starts a
/// declaration, anything else an expression (a statement when `;` follows
/// it); after a failed expression the tokens up to `;` or `}` are skipped.
/// Reaching the end of the input is an error.
pub open spec fn spec_block_items<'a>(
    ts: Seq<TokenWrapper<'a>>,
    p: int,
    decls: Seq<Result<SpecExpr<'a>, ParseResultError<'a>>>,
    failed: bool,
) -> Step<'a, (Seq<Result<SpecExpr<'a>, ParseResultError<'a>>>, bool)>
    decreases ts.len() - p, 7int,
{
    match tok_at(ts, p) {
        None => Some((Err(ParseResultError::EndOfFile), p)),
        Some(tw) => if tw.token == Token::RBrace {
            Some((Ok((decls, failed)), p))
        } else if tw.token == Token::Semicolon {
            spec_block_items(ts, p + 1, decls, failed)
        } else if tw.token == Token::Let {
            match spec_variable_declaration(ts, p) {
                Some((r, p1)) => if p < p1 <= ts.len() {
                    spec_block_items(ts, p1, decls.push(r), failed || r is Err)
                } else {
                    None
                },
                None => None,
            }
        } else {
            match spec_parse_expr(ts, p) {
                Some((Ok(e), p1)) => {
                    let entry = if token_is(ts, p1, Token::Semicolon) {
                        SpecExpr::Statement {
                            node_info: NodeInfo::from_indices(true, start_or_zero(e), ts[p1].end),
                            subexpr: Box::new(e),
                        }
                    } else {
                        e
                    };
                    let p2 = if token_is(ts, p1, Token::Semicolon) {
                        p1 + 1
                    } else {
                        p1
                    };
                    if p < p2 <= ts.len() {
                        spec_block_items(ts, p2, decls.push(Ok(entry)), failed)
                    } else {
                        None
                    }
                },
                Some((Err(err), p1)) => {
                    let p2 = spec_eat_to(ts, p1, seq![Token::Semicolon, Token::RBrace]);
                    if p < p2 <= ts.len() {
                        spec_block_items(ts, p2, decls.push(Err(err)), true)
                    } else {
                        None
                    }
                },
                None => None,
            }
        },
    }
}

} // verus!
