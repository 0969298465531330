//! The expression parser: a Pratt parser over a `LookaheadStream`.
//!
//! Each parsing function `f` of the parser comes in two forms. `try_f` runs
//! on every input and returns `None` exactly where the model in
//! `parse::grammar` is `None`, the inputs on which the parser stops the
//! program; otherwise it returns what the model says. `f` itself keeps the
//! parser's signature: its `requires` excludes those inputs, and on the
//! others it returns what the model says. `can_parse_expr` tells a caller
//! beforehand whether `parse_expr` may be called.
use vstd::prelude::*;

use crate::ast::{
    AccessExpression, AssignmentExpression, BinaryOperationExpression, BlockExpression,
    CastExpression, ExpressionWrapper, IfThenElseExpression, LetExpression, NodeInfo, Pattern,
    ScopedName, Span, SpecExpr, SpecPattern, StatementExpression, UnaryOperationExpression,
    view_exprs, view_decls,
    view_on, view_pattern_result, view_result, lemma_view_exprs_push, lemma_view_decls_push,
};
use crate::helper::EitherAnd;
use crate::helper::lex_wrap::{LookaheadStream, ParseResultError, token_is};
use crate::lex::Token;
use crate::parse::laws::{lemma_eat_to_bounds, lemma_parse_expr_inner_has_span};
use crate::parse::{eat_if_infix, eat_match, eat_match_in, eat_to, expect};
use crate::parse::grammar::{
    DOT_ACCESS_MESSAGE, Step, scoped_name_ids,
    spec_atomic_expression, spec_block_items, spec_build_binary, spec_build_unary,
    spec_expr_loop, spec_infix_binding_power, spec_parse_access, spec_parse_expr,
    spec_parse_expr_inner, spec_parse_if_then_else, spec_parse_pattern, spec_pattern_items,
    spec_prefix_binding_power, spec_scoped_name, spec_syntactic_block, spec_variable_declaration,
};

verus! {

/// A parsed expression, or the error met instead.
pub type ExpressionResult<'a> = Result<Box<ExpressionWrapper<'a>>, ParseResultError<'a>>;

/// The model of the answer of a `try_` parsing function that ends at `pos`.
pub open spec fn expr_step<'a>(r: Option<ExpressionResult<'a>>, pos: int) -> Step<'a, SpecExpr<'a>> {
    match r {
        Some(res) => Some((view_result(res), pos)),
        None => None,
    }
}

/// The model of the answer of `try_parse_pattern` when it ends at `pos`.
pub open spec fn pattern_step<'a>(r: Option<Result<Pattern<'a>, ParseResultError<'a>>>, pos: int) -> Step<
    'a,
    SpecPattern<'a>,
> {
    match r {
        Some(res) => Some((view_pattern_result(res), pos)),
        None => None,
    }
}

/// The stream after a parsing call: the same tokens, a valid position, and
/// no step back.
pub open spec fn advanced<'a>(before: LookaheadStream<'a>, after: LookaheadStream<'a>) -> bool {
    &&& after.wf()
    &&& after.tokens@ == before.tokens@
    &&& before.index <= after.index
}

/// Groups the parsing functions of this module.
pub struct Parser;

impl Parser {
    /// `( e1, e2, ... )`: the expressions are read while they parse, each but
    /// the last followed by `,`. `None` where the parser would stop.
    pub fn try_parse_pattern<'a>(la: &mut LookaheadStream<'a>) -> (r: Option<
        Result<Pattern<'a>, ParseResultError<'a>>,
    >)
        requires
            old(la).wf(),
        ensures
            advanced(*old(la), *final(la)),
            spec_parse_pattern(old(la).tokens@, old(la).index as int) == pattern_step(
                r,
                final(la).index as int,
            ),
            r matches Some(Ok(_)) ==> final(la).index > old(la).index,
            r is Some && token_is(old(la).tokens@, old(la).index as int, Token::LParen)
                ==> final(la).index > old(la).index,
        decreases old(la).tokens@.len() - old(la).index, 0int,
    {
        let ghost ts = la.tokens@;
        let ghost p = la.index as int;
        let start = match expect(la, Token::LParen) {
            Ok(tw) => tw.start,
            Err(e) => return Some(Err(e)),
        };
        let mut expressions: Vec<Box<ExpressionWrapper<'a>>> = Vec::new();
        proof {
            assert(view_exprs(expressions@) =~= Seq::empty());
        }
        loop
            invariant_except_break
                la.wf(),
                la.tokens@ == ts,
                old(la).tokens@ == ts,
                old(la).index == p,
                token_is(ts, p, Token::LParen),
                p + 1 <= la.index,
                spec_pattern_items(ts, la.index as int, view_exprs(expressions@))
                    == spec_pattern_items(ts, p + 1, Seq::empty()),
            ensures
                la.wf(),
                la.tokens@ == ts,
                old(la).tokens@ == ts,
                old(la).index == p,
                token_is(ts, p, Token::LParen),
                p + 1 <= la.index,
                spec_pattern_items(ts, p + 1, Seq::empty()) == Some(
                    (view_exprs(expressions@), la.index as int),
                ),
            decreases ts.len() - la.index,
        {
            match try_parse_expr(la) {
                None => return None,
                Some(Ok(expr)) => {
                    proof {
                        lemma_view_exprs_push(expressions@, expr);
                    }
                    expressions.push(expr);
                    match eat_match(la, Token::Comma) {
                        Some(_comma) => {},
                        None => break,
                    }
                },
                Some(Err(_)) => break,
            }
        }
        let end = match expect(la, Token::RParen) {
            Ok(tw) => tw.end,
            Err(e) => return Some(Err(e)),
        };
        let node_info = NodeInfo::from_indices(true, start, end);
        Some(Ok(Pattern { node_info, expressions }))
    }

    /// `( e1, e2, ... )`, on an input on which the parser does not stop.
    pub fn parse_pattern<'a>(la: &mut LookaheadStream<'a>) -> (r: Result<
        Pattern<'a>,
        ParseResultError<'a>,
    >)
        requires
            old(la).wf(),
            spec_parse_pattern(old(la).tokens@, old(la).index as int) is Some,
        ensures
            advanced(*old(la), *final(la)),
            spec_parse_pattern(old(la).tokens@, old(la).index as int) == Some(
                (view_pattern_result(r), final(la).index as int),
            ),
            r is Ok ==> final(la).index > old(la).index,
            token_is(old(la).tokens@, old(la).index as int, Token::LParen) ==> final(la).index
                > old(la).index,
    {
        match Parser::try_parse_pattern(la) {
            Some(r) => r,
            None => vstd::pervasive::unreached(),
        }
    }
}

/// An access: a scoped name, then a pattern, on the object `on`. The pattern
/// is required when the scoped name is silent and optional otherwise (a
/// failed attempt is then dropped, the tokens it read stay read). `None`
/// where the parser would stop.
pub fn try_parse_access<'a>(la: &mut LookaheadStream<'a>, on: Option<Box<ExpressionWrapper<'a>>>) -> (r:
    Option<ExpressionResult<'a>>)
    requires
        old(la).wf(),
    ensures
        advanced(*old(la), *final(la)),
        spec_parse_access(old(la).tokens@, old(la).index as int, view_on(on)) == expr_step(
            r,
            final(la).index as int,
        ),
        r matches Some(Ok(_)) ==> final(la).index > old(la).index,
        r is Some && (token_is(old(la).tokens@, old(la).index as int, Token::LParen) || token_is(
            old(la).tokens@,
            old(la).index as int,
            Token::DoubleColon,
        ) || token_is(old(la).tokens@, old(la).index as int, Token::Identifier))
            ==> final(la).index > old(la).index,
    decreases old(la).tokens@.len() - old(la).index, 1int,
{
    let ghost ts = la.tokens@;
    let ghost p = la.index as int;
    let mut either: EitherAnd<Span, Span> = EitherAnd::Neither;

    let base = scoped_name(la);
    proof {
        crate::parse::laws::lemma_scoped_name_silent(ts, p);
    }

    match base.node_info.as_parsed() {
        Some(pni) => {
            either = either.with_a(pni.span);
        },
        None => {},
    }

    let b_pattern = if base.silent {
        match Parser::try_parse_pattern(la) {
            None => return None,
            Some(Ok(pt)) => Some(pt),
            Some(Err(e)) => return Some(Err(e)),
        }
    } else {
        match Parser::try_parse_pattern(la) {
            None => return None,
            Some(Ok(pt)) => Some(pt),
            Some(Err(_)) => None,
        }
    };

    match &b_pattern {
        Some(pt) => match pt.node_info.as_parsed() {
            Some(pni) => {
                either = either.with_b(pni.span);
            },
            None => {},
        },
        None => {},
    }

    let (start, end) = match either {
        // the parser stops here ("neither a pattern nor a base"), which
        // `laws::lemma_access_never_empty` shows cannot happen
        EitherAnd::Neither => return None,
        EitherAnd::A(a) => (a.start, a.end),
        EitherAnd::B(b) => (b.start, b.end),
        EitherAnd::Both(a, b) => (a.start, b.end),
    };

    let node_info = NodeInfo::from_indices(true, start, end);

    let ae = AccessExpression { node_info, on, scope: base, pattern: b_pattern };

    Some(Ok(Box::new(ExpressionWrapper::Access(ae))))
}

/// An access, on an input on which the parser does not stop.
pub fn parse_access<'a>(la: &mut LookaheadStream<'a>, on: Option<Box<ExpressionWrapper<'a>>>) -> (r:
    ExpressionResult<'a>)
    requires
        old(la).wf(),
        spec_parse_access(old(la).tokens@, old(la).index as int, view_on(on)) is Some,
    ensures
        advanced(*old(la), *final(la)),
        spec_parse_access(old(la).tokens@, old(la).index as int, view_on(on)) == Some(
            (view_result(r), final(la).index as int),
        ),
        r is Ok ==> final(la).index > old(la).index,
        (token_is(old(la).tokens@, old(la).index as int, Token::LParen) || token_is(
            old(la).tokens@,
            old(la).index as int,
            Token::DoubleColon,
        ) || token_is(old(la).tokens@, old(la).index as int, Token::Identifier))
            ==> final(la).index > old(la).index,
{
    match try_parse_access(la, on) {
        Some(r) => r,
        None => vstd::pervasive::unreached(),
    }
}

/// An expression: `try_parse_expr_inner` with minimum binding power 0.
/// `None` where the parser would stop.
pub fn try_parse_expr<'a>(la: &mut LookaheadStream<'a>) -> (r: Option<ExpressionResult<'a>>)
    requires
        old(la).wf(),
    ensures
        advanced(*old(la), *final(la)),
        spec_parse_expr(old(la).tokens@, old(la).index as int) == expr_step(
            r,
            final(la).index as int,
        ),
        r matches Some(Ok(_)) ==> final(la).index > old(la).index,
        r is Some && old(la).index < old(la).tokens@.len() ==> final(la).index > old(la).index,
        r matches Some(Ok(e)) ==> e@.node_info() is Parsed,
    decreases old(la).tokens@.len() - old(la).index, 5int,
{
    try_parse_expr_inner(la, 0, 1)
}

/// An expression, on an input on which the parser does not stop.
pub fn parse_expr<'a>(la: &mut LookaheadStream<'a>) -> (r: ExpressionResult<'a>)
    requires
        old(la).wf(),
        spec_parse_expr(old(la).tokens@, old(la).index as int) is Some,
    ensures
        advanced(*old(la), *final(la)),
        spec_parse_expr(old(la).tokens@, old(la).index as int) == Some(
            (view_result(r), final(la).index as int),
        ),
        r is Ok ==> final(la).index > old(la).index,
        old(la).index < old(la).tokens@.len() ==> final(la).index > old(la).index,
        r matches Ok(e) ==> e@.node_info() is Parsed,
{
    match try_parse_expr(la) {
        Some(r) => r,
        None => vstd::pervasive::unreached(),
    }
}

/// Whether the parser would answer `parse_expr` at the stream's position
/// rather than stop the program; the stream is left as it was.
pub fn can_parse_expr<'a>(la: &mut LookaheadStream<'a>) -> (r: bool)
    requires
        old(la).wf(),
    ensures
        final(la).tokens@ == old(la).tokens@,
        final(la).index == old(la).index,
        r == spec_parse_expr(old(la).tokens@, old(la).index as int) is Some,
{
    let saved = la.index;
    let answer = try_parse_expr(la);
    la.index = saved;
    answer.is_some()
}

/// Whether the parser would answer `parse_expr_inner` with minimum binding
/// power `min_bp` at the stream's position rather than stop the program; the
/// stream is left as it was.
pub fn can_parse_expr_inner<'a>(la: &mut LookaheadStream<'a>, min_bp: u32) -> (r: bool)
    requires
        old(la).wf(),
    ensures
        final(la).tokens@ == old(la).tokens@,
        final(la).index == old(la).index,
        r == spec_parse_expr_inner(old(la).tokens@, old(la).index as int, min_bp) is Some,
{
    let saved = la.index;
    let answer = try_parse_expr_inner(la, min_bp, 0);
    la.index = saved;
    answer.is_some()
}

/// `if c t` or `if c t else e`; without `else` the else branch is an empty
/// block that comes from no source text. `None` where the parser would stop.
pub fn try_parse_if_then_else<'a>(la: &mut LookaheadStream<'a>) -> (r: Option<ExpressionResult<'a>>)
    requires
        old(la).wf(),
    ensures
        advanced(*old(la), *final(la)),
        spec_parse_if_then_else(old(la).tokens@, old(la).index as int) == expr_step(
            r,
            final(la).index as int,
        ),
        r matches Some(Ok(_)) ==> final(la).index > old(la).index,
        r is Some && token_is(old(la).tokens@, old(la).index as int, Token::If)
            ==> final(la).index > old(la).index,
    decreases old(la).tokens@.len() - old(la).index, 2int,
{
    let start = match expect(la, Token::If) {
        Ok(tw) => tw.start,
        Err(e) => return Some(Err(e)),
    };
    let if_exp = match try_parse_expr(la) {
        None => return None,
        Some(Ok(e)) => e,
        Some(Err(e)) => return Some(Err(e)),
    };
    let then_exp = match try_parse_expr(la) {
        None => return None,
        Some(Ok(e)) => e,
        Some(Err(e)) => return Some(Err(e)),
    };
    let (else_exp, end) = if eat_match(la, Token::Else).is_some() {
        let exp = match try_parse_expr(la) {
            None => return None,
            Some(Ok(e)) => e,
            Some(Err(e)) => return Some(Err(e)),
        };
        // the parser stops if the else branch has no end
        let end = match exp.end() {
            Some(e) => e,
            None => return None,
        };
        (exp, end)
    } else {
        let exp = Box::new(
            ExpressionWrapper::Block(
                BlockExpression { node_info: NodeInfo::Builtin, declarations: Vec::new() },
            ),
        );
        proof {
            assert(view_decls(Seq::<Result<Box<ExpressionWrapper<'a>>, ParseResultError<'a>>>::empty())
                =~= Seq::empty());
        }
        // the parser stops if the then branch has no end
        let end = match then_exp.end() {
            Some(e) => e,
            None => return None,
        };
        (exp, end)
    };

    let node_info = NodeInfo::from_indices(true, start, end);

    Some(
        Ok(
            Box::new(
                ExpressionWrapper::IfThenElse(
                    IfThenElseExpression { node_info, if_exp, then_exp, else_exp },
                ),
            ),
        ),
    )
}

/// `if c t [else e]`, on an input on which the parser does not stop.
pub fn parse_if_then_else<'a>(la: &mut LookaheadStream<'a>) -> (r: ExpressionResult<'a>)
    requires
        old(la).wf(),
        spec_parse_if_then_else(old(la).tokens@, old(la).index as int) is Some,
    ensures
        advanced(*old(la), *final(la)),
        spec_parse_if_then_else(old(la).tokens@, old(la).index as int) == Some(
            (view_result(r), final(la).index as int),
        ),
        r is Ok ==> final(la).index > old(la).index,
        token_is(old(la).tokens@, old(la).index as int, Token::If) ==> final(la).index
            > old(la).index,
{
    match try_parse_if_then_else(la) {
        Some(r) => r,
        None => vstd::pervasive::unreached(),
    }
}

/// `let name = value`. `None` where the parser would stop.
pub fn try_variable_declaration<'a>(la: &mut LookaheadStream<'a>) -> (r: Option<ExpressionResult<'a>>)
    requires
        old(la).wf(),
    ensures
        advanced(*old(la), *final(la)),
        spec_variable_declaration(old(la).tokens@, old(la).index as int) == expr_step(
            r,
            final(la).index as int,
        ),
        r is Some && token_is(old(la).tokens@, old(la).index as int, Token::Let)
            ==> final(la).index > old(la).index,
    decreases old(la).tokens@.len() - old(la).index, 6int,
{
    let kw = match expect(la, Token::Let) {
        Ok(tw) => tw,
        Err(e) => return Some(Err(e)),
    };
    let name = match expect(la, Token::Identifier) {
        Ok(tw) => tw,
        Err(e) => return Some(Err(e)),
    };
    let eq = match expect(la, Token::Equals) {
        Ok(tw) => tw,
        Err(e) => return Some(Err(e)),
    };
    let value = match try_parse_expr(la) {
        None => return None,
        Some(Ok(e)) => e,
        Some(Err(e)) => return Some(Err(e)),
    };
    let end = match value.end() {
        Some(e) => e,
        None => eq.end,
    };
    let node_info = NodeInfo::from_indices(true, kw.start, end);
    Some(
        Ok(
            Box::new(
                ExpressionWrapper::LetExpression(LetExpression { node_info, name: name.slice, value }),
            ),
        ),
    )
}

/// `let name = value`, on an input on which the parser does not stop.
pub fn variable_declaration<'a>(la: &mut LookaheadStream<'a>) -> (r: ExpressionResult<'a>)
    requires
        old(la).wf(),
        spec_variable_declaration(old(la).tokens@, old(la).index as int) is Some,
    ensures
        advanced(*old(la), *final(la)),
        spec_variable_declaration(old(la).tokens@, old(la).index as int) == Some(
            (view_result(r), final(la).index as int),
        ),
        token_is(old(la).tokens@, old(la).index as int, Token::Let) ==> final(la).index
            > old(la).index,
{
    match try_variable_declaration(la) {
        Some(r) => r,
        None => vstd::pervasive::unreached(),
    }
}

/// `{ entries }`. An entry is skipped when it is `;`, a declaration when it
/// starts with `let`, else an expression, made a statement when `;` follows;
/// a failed entry is kept as its error (after a failed expression the input
/// is skipped to the next `;` or `}`) and flags the block. `None` where the
/// parser would stop.
pub fn try_syntactic_block<'a>(lexer: &mut LookaheadStream<'a>) -> (r: Option<ExpressionResult<'a>>)
    requires
        old(lexer).wf(),
    ensures
        advanced(*old(lexer), *final(lexer)),
        spec_syntactic_block(old(lexer).tokens@, old(lexer).index as int) == expr_step(
            r,
            final(lexer).index as int,
        ),
        r matches Some(Ok(_)) ==> final(lexer).index > old(lexer).index,
        r is Some && token_is(old(lexer).tokens@, old(lexer).index as int, Token::LBrace)
            ==> final(lexer).index > old(lexer).index,
    decreases old(lexer).tokens@.len() - old(lexer).index, 2int,
{
    let ghost ts = lexer.tokens@;
    let ghost p = lexer.index as int;
    match expect(lexer, Token::LBrace) {
        Ok(_) => {},
        Err(e) => return Some(Err(e)),
    }
    let mut declarations: Vec<Result<Box<ExpressionWrapper<'a>>, ParseResultError<'a>>> =
        Vec::new();
    let start: usize = match lexer.la(0) {
        Ok(tw) => tw.start,
        Err(_) => 0,
    };

    let mut failed = false;

    proof {
        assert(view_decls(declarations@) =~= Seq::empty());
    }

    loop
        invariant_except_break
            lexer.wf(),
            lexer.tokens@ == ts,
            old(lexer).tokens@ == ts,
            old(lexer).index == p,
            token_is(ts, p, Token::LBrace),
            p + 1 <= lexer.index,
            spec_block_items(ts, lexer.index as int, view_decls(declarations@), failed)
                == spec_block_items(ts, p + 1, Seq::empty(), false),
            start == (match crate::helper::lex_wrap::tok_at(ts, p + 1) {
                Some(tw) => tw.start,
                None => 0,
            }),
        ensures
            lexer.wf(),
            lexer.tokens@ == ts,
            old(lexer).tokens@ == ts,
            old(lexer).index == p,
            token_is(ts, p, Token::LBrace),
            p + 1 <= lexer.index,
            spec_block_items(ts, p + 1, Seq::empty(), false) == Some(
                (
                    Ok::<_, ParseResultError<'a>>((view_decls(declarations@), failed)),
                    lexer.index as int,
                ),
            ),
            token_is(ts, lexer.index as int, Token::RBrace),
            start == (match crate::helper::lex_wrap::tok_at(ts, p + 1) {
                Some(tw) => tw.start,
                None => 0,
            }),
        decreases ts.len() - lexer.index,
    {
        let tw = match lexer.la(0) {
            Ok(tw) => tw,
            Err(e) => return Some(Err(e)),
        };
        match tw.token {
            Token::RBrace => {
                break;
            },
            Token::Semicolon => {
                lexer.advance();
            },
            Token::Let => {
                let exp = match try_variable_declaration(lexer) {
                    None => return None,
                    Some(exp) => exp,
                };
                if exp.is_err() {
                    failed = true;
                }
                proof {
                    lemma_view_decls_push(declarations@, exp);
                }
                declarations.push(exp);
            },
            _ => {
                let e = match try_parse_expr(lexer) {
                    None => return None,
                    Some(e) => e,
                };
                let final_exp = match e {
                    Ok(exp) => {
                        match eat_match(lexer, Token::Semicolon) {
                            Some(semi) => {
                                let start = match exp.start() {
                                    Some(v) => v,
                                    None => 0,
                                };
                                let end = semi.end;
                                let node_info = NodeInfo::from_indices(true, start, end);
                                Ok(
                                    Box::new(
                                        ExpressionWrapper::Statement(
                                            StatementExpression { node_info, subexpr: exp },
                                        ),
                                    ),
                                )
                            },
                            None => Ok(exp),
                        }
                    },
                    Err(err) => {
                        failed = true;
                        proof {
                            lemma_eat_to_bounds(
                                ts,
                                lexer.index as int,
                                seq![Token::Semicolon, Token::RBrace],
                            );
                        }
                        eat_to(lexer, &[Token::Semicolon, Token::RBrace]);
                        Err(err)
                    },
                };
                proof {
                    lemma_view_decls_push(declarations@, final_exp);
                }
                declarations.push(final_exp);
            },
        }
    }

    let end = match lexer.la(-1) {
        Ok(tw) => tw.start,
        Err(_) => start,
    };

    let node_info = NodeInfo::from_indices(failed, start, end);

    match expect(lexer, Token::RBrace) {
        Ok(_) => {},
        Err(e) => return Some(Err(e)),
    }

    Some(Ok(Box::new(ExpressionWrapper::Block(BlockExpression { node_info, declarations }))))
}

/// `{ entries }`, on an input on which the parser does not stop.
pub fn syntactic_block<'a>(lexer: &mut LookaheadStream<'a>) -> (r: ExpressionResult<'a>)
    requires
        old(lexer).wf(),
        spec_syntactic_block(old(lexer).tokens@, old(lexer).index as int) is Some,
    ensures
        advanced(*old(lexer), *final(lexer)),
        spec_syntactic_block(old(lexer).tokens@, old(lexer).index as int) == Some(
            (view_result(r), final(lexer).index as int),
        ),
        r is Ok ==> final(lexer).index > old(lexer).index,
        token_is(old(lexer).tokens@, old(lexer).index as int, Token::LBrace)
            ==> final(lexer).index > old(lexer).index,
{
    match try_syntactic_block(lexer) {
        Some(r) => r,
        None => vstd::pervasive::unreached(),
    }
}

/// An expression whose infix operators bind at least as strongly as
/// `min_bp` (`level` is the depth of the call, which the parse does not
/// depend on): a leading block, if-expression, prefix operation or atomic
/// expression, then while they follow, infix operations and accesses on
/// the expression so far. `None` where the parser would stop.
pub fn try_parse_expr_inner<'a>(la: &mut LookaheadStream<'a>, min_bp: u32, level: usize) -> (r:
    Option<ExpressionResult<'a>>)
    requires
        old(la).wf(),
    ensures
        advanced(*old(la), *final(la)),
        spec_parse_expr_inner(old(la).tokens@, old(la).index as int, min_bp) == expr_step(
            r,
            final(la).index as int,
        ),
        r matches Some(Ok(_)) ==> final(la).index > old(la).index,
        r is Some && old(la).index < old(la).tokens@.len() ==> final(la).index > old(la).index,
        r matches Some(Ok(e)) ==> e@.node_info() is Parsed,
    decreases old(la).tokens@.len() - old(la).index, 4int,
{
    let ghost ts = la.tokens@;
    let ghost p = la.index as int;
    proof {
        lemma_parse_expr_inner_has_span(ts, p, min_bp);
    }
    let t1 = match la.la(0) {
        Ok(tw) => tw,
        Err(e) => return Some(Err(e)),
    };
    let mut lhs = match t1.token {
        // an array literal: not implemented, the parser stops
        Token::LBracket => return None,
        Token::LBrace => match try_syntactic_block(la) {
            None => return None,
            Some(Ok(e)) => e,
            Some(Err(e)) => return Some(Err(e)),
        },
        Token::If => match try_parse_if_then_else(la) {
            None => return None,
            Some(Ok(e)) => e,
            Some(Err(e)) => return Some(Err(e)),
        },
        t => {
            if prefix_binding_power(t).is_some() {
                la.advance();
                let bp = prefix_binding_power(t).expect(
                    "bp should already be Some from match guard",
                );
                let rhs = match try_parse_expr_inner(la, bp, level.wrapping_add(1)) {
                    None => return None,
                    Some(Ok(e)) => e,
                    Some(Err(e)) => return Some(Err(e)),
                };
                let start = t1.start;
                // the parser stops if the operand has no end
                let end = match rhs.end() {
                    Some(e) => e,
                    None => return None,
                };
                let node_info = NodeInfo::from_indices(true, start, end);
                match build_unary(node_info, t, rhs) {
                    Some(u) => u,
                    None => return None,
                }
            } else {
                match try_atomic_expression(la) {
                    None => return None,
                    Some(Ok(e)) => e,
                    Some(Err(e)) => return Some(Err(e)),
                }
            }
        },
    };

    loop
        invariant
            la.wf(),
            la.tokens@ == ts,
            old(la).tokens@ == ts,
            old(la).index == p,
            p < la.index,
            spec_expr_loop(ts, lhs@, la.index as int, min_bp) == spec_parse_expr_inner(
                ts,
                p,
                min_bp,
            ),
            spec_parse_expr_inner(ts, p, min_bp) matches Some((Ok(e), _)) ==> e.node_info() is Parsed,
        decreases ts.len() - la.index,
    {
        let operator = eat_if_infix(la);
        match operator {
            Some(((l_bp, r_bp), tw)) => {
                if l_bp < min_bp {
                    la.backtrack();
                    return Some(Ok(lhs));
                }
                let rhs = match try_parse_expr_inner(la, r_bp, level.wrapping_add(1)) {
                    None => return None,
                    Some(Ok(e)) => e,
                    Some(Err(e)) => return Some(Err(e)),
                };
                // the parser stops if an operand has no span
                let start = match lhs.start() {
                    Some(s) => s,
                    None => return None,
                };
                let end = match rhs.end() {
                    Some(e) => e,
                    None => return None,
                };
                let node_info = NodeInfo::from_indices(true, start, end);
                lhs = match build_binary(node_info, tw.token, lhs, rhs) {
                    None => return None,
                    Some(Ok(e)) => e,
                    Some(Err(e)) => return Some(Err(e)),
                };
            },
            None => {
                match eat_match_in(
                    la,
                    &[Token::LParen, Token::LBracket, Token::Identifier, Token::DoubleColon],
                ) {
                    Some(_tw) => {
                        // the token starts an access on `lhs`: put it back
                        la.backtrack();
                        lhs = match try_parse_access(la, Some(lhs)) {
                            None => return None,
                            Some(Ok(e)) => e,
                            Some(Err(e)) => return Some(Err(e)),
                        };
                    },
                    None => return Some(Ok(lhs)),
                }
            },
        }
    }
}

/// An expression with minimum binding power `min_bp`, on an input on which
/// the parser does not stop.
pub fn parse_expr_inner<'a>(la: &mut LookaheadStream<'a>, min_bp: u32, level: usize) -> (r:
    ExpressionResult<'a>)
    requires
        old(la).wf(),
        spec_parse_expr_inner(old(la).tokens@, old(la).index as int, min_bp) is Some,
    ensures
        advanced(*old(la), *final(la)),
        spec_parse_expr_inner(old(la).tokens@, old(la).index as int, min_bp) == Some(
            (view_result(r), final(la).index as int),
        ),
        r is Ok ==> final(la).index > old(la).index,
        old(la).index < old(la).tokens@.len() ==> final(la).index > old(la).index,
        r matches Ok(e) ==> e@.node_info() is Parsed,
{
    match try_parse_expr_inner(la, min_bp, level) {
        Some(r) => r,
        None => vstd::pervasive::unreached(),
    }
}

/// The unary node for prefix operator `t`; `None` (the parser stops) for a
/// prefix operator without one.
fn build_unary<'a>(node_info: NodeInfo, t: Token, lhs: Box<ExpressionWrapper<'a>>) -> (r: Option<
    Box<ExpressionWrapper<'a>>,
>)
    ensures
        spec_build_unary(node_info, t, lhs@) == (match r {
            Some(e) => Some(e@),
            None => None,
        }),
{
    match t {
        Token::And | Token::Asterisk | Token::Dash | Token::Bang => {
            Some(
                Box::new(
                    ExpressionWrapper::UnaryOperation(
                        UnaryOperationExpression { node_info, operation: t, subexpr: lhs },
                    ),
                ),
            )
        },
        _ => None,
    }
}

/// The node for infix operator `t`; for `.`, the access on the right gets
/// `lhs` as its object, and any other right side is an error. `None` (the
/// parser stops) for an operator without a node.
fn build_binary<'a>(
    node_info: NodeInfo,
    t: Token,
    lhs: Box<ExpressionWrapper<'a>>,
    rhs: Box<ExpressionWrapper<'a>>,
) -> (r: Option<ExpressionResult<'a>>)
    ensures
        spec_build_binary(node_info, t, lhs@, rhs@) == (match r {
            Some(res) => Some(view_result(res)),
            None => None,
        }),
{
    match t {
        Token::Plus | Token::Dash | Token::Asterisk | Token::FSlash => {
            Some(
                Ok(
                    Box::new(
                        ExpressionWrapper::BinaryOperation(
                            BinaryOperationExpression { node_info, operation: t, lhs, rhs },
                        ),
                    ),
                ),
            )
        },
        Token::As => {
            Some(
                Ok(
                    Box::new(
                        ExpressionWrapper::Cast(
                            CastExpression { node_info, subexpr: lhs, typeexpr: rhs },
                        ),
                    ),
                ),
            )
        },
        Token::Equals => {
            Some(
                Ok(
                    Box::new(
                        ExpressionWrapper::Assignment(AssignmentExpression { node_info, lhs, rhs }),
                    ),
                ),
            )
        },
        Token::Dot => {
            let rhs_start = rhs.start();
            let rhs_end = rhs.end();
            match *rhs {
                ExpressionWrapper::Access(mut ae) => {
                    proof {
                        assert(view_on(Some(lhs)) == Some(Box::new(lhs@)));
                    }
                    ae.on = Some(lhs);

                    Some(Ok(Box::new(ExpressionWrapper::Access(ae))))
                },
                _ => Some(
                    Err(
                        ParseResultError::SemanticIssue(
                            DOT_ACCESS_MESSAGE,
                            match rhs_start {
                                Some(s) => s,
                                None => 0,
                            },
                            match rhs_end {
                                Some(e) => e,
                                None => 0,
                            },
                        ),
                    ),
                ),
            }
        },
        _ => None,
    }
}

/// A literal, a wildcard, or an access; any other token is read and
/// reported. `None` where the parser would stop.
pub fn try_atomic_expression<'a>(la: &mut LookaheadStream<'a>) -> (r: Option<ExpressionResult<'a>>)
    requires
        old(la).wf(),
    ensures
        advanced(*old(la), *final(la)),
        spec_atomic_expression(old(la).tokens@, old(la).index as int) == expr_step(
            r,
            final(la).index as int,
        ),
        r matches Some(Ok(_)) ==> final(la).index > old(la).index,
        r is Some && old(la).index < old(la).tokens@.len() ==> final(la).index > old(la).index,
    decreases old(la).tokens@.len() - old(la).index, 2int,
{
    match la.next() {
        Ok(tw) => match tw.token {
            Token::UnknownIntegerLiteral => Some(Ok(ExpressionWrapper::literal_expression(tw))),
            Token::StringLiteral => Some(Ok(ExpressionWrapper::literal_expression(tw))),
            Token::Underscore => Some(Ok(ExpressionWrapper::wildcard(tw))),
            Token::LParen | Token::DoubleColon | Token::Identifier => {
                la.backtrack();
                try_parse_access(la, None)
            },
            _ => Some(Err(ParseResultError::UnexpectedToken(tw))),
        },
        Err(_) => Some(Err(ParseResultError::EndOfFile)),
    }
}

/// A literal, a wildcard, or an access, on an input on which the parser
/// does not stop.
pub fn atomic_expression<'a>(la: &mut LookaheadStream<'a>) -> (r: ExpressionResult<'a>)
    requires
        old(la).wf(),
        spec_atomic_expression(old(la).tokens@, old(la).index as int) is Some,
    ensures
        advanced(*old(la), *final(la)),
        spec_atomic_expression(old(la).tokens@, old(la).index as int) == Some(
            (view_result(r), final(la).index as int),
        ),
        r is Ok ==> final(la).index > old(la).index,
        old(la).index < old(la).tokens@.len() ==> final(la).index > old(la).index,
{
    match try_atomic_expression(la) {
        Some(r) => r,
        None => vstd::pervasive::unreached(),
    }
}

/// A scoped name: an optional leading `::`, then identifiers separated by
/// `::`. Never fails: with nothing to read it is silent and has no span.
pub fn scoped_name<'a>(la: &mut LookaheadStream<'a>) -> (r: Box<ScopedName<'a>>)
    requires
        old(la).wf(),
    ensures
        advanced(*old(la), *final(la)),
        (r@, final(la).index as int) == spec_scoped_name(old(la).tokens@, old(la).index as int),
{
    let ghost ts = la.tokens@;
    let ghost p = la.index as int;
    let mut scope: Vec<&'a str> = Vec::new();
    let mut silent = true;
    let mut start: Option<usize> = None;
    let mut end: Option<usize> = None;

    match eat_match(la, Token::DoubleColon) {
        Some(dc) => {
            scope.push("global");
            silent = false;
            start = Some(dc.start);
            end = Some(dc.end);
        },
        None => scope.push("here"),
    }
    let ghost ids = scoped_name_ids(ts, la.index as int, scope@, silent, start, end);

    loop
        invariant_except_break
            la.wf(),
            la.tokens@ == ts,
            p <= la.index,
            scoped_name_ids(ts, la.index as int, scope@, silent, start, end) == ids,
        ensures
            la.wf(),
            la.tokens@ == ts,
            p <= la.index,
            ids == (scope@, silent, start, end, la.index as int),
        decreases ts.len() - la.index,
    {
        match eat_match(la, Token::Identifier) {
            Some(id) => {
                scope.push(id.slice);
                silent = false;
                start = Some(
                    match start {
                        Some(s) => s,
                        None => id.start,
                    },
                );
                end = Some(id.end);
                match eat_match(la, Token::DoubleColon) {
                    None => break,
                    Some(dc) => {
                        end = Some(dc.end);
                    },
                }
            },
            None => break,
        }
    }

    let node_info = match start {
        Some(s) => {
            let e = match end {
                Some(e) => e,
                None => s,
            };
            NodeInfo::from_indices(true, s, e)
        },
        None => NodeInfo::Builtin,
    };
    Box::new(ScopedName { scope, silent, node_info })
}

/// The binding power of a prefix operator, if `t` is one.
pub fn prefix_binding_power(t: Token) -> (r: Option<u32>)
    ensures
        r == spec_prefix_binding_power(t),
{
    match t {
        Token::Plus | Token::Dash | Token::Asterisk | Token::Bang | Token::And => Some(100),
        _ => None,
    }
}

/// The left and right binding powers of an infix operator, if `t` is one.
pub fn infix_binding_power(t: Token) -> (r: Option<(u32, u32)>)
    ensures
        r == spec_infix_binding_power(t),
{
    match t {
        Token::As => Some((1, 300)),
        Token::Dot => Some((250, 250)),
        Token::Equals => Some((200, 2)),
        Token::LogicalOr => Some((3, 4)),
        Token::LogicalAnd => Some((5, 6)),
        Token::CmpEqual | Token::CmpLessThan | Token::CmpGreaterThan | Token::CmpLessThanOrEqual
        | Token::CmpGreaterThanOrEqual | Token::CmpNotEqual => Some((7, 8)),
        Token::Pipe => Some((9, 10)),
        Token::Caret => Some((11, 12)),
        Token::And => Some((13, 14)),
        Token::ShiftLeft | Token::ShiftRight => Some((15, 16)),
        Token::Plus | Token::Dash => Some((17, 18)),
        Token::Asterisk | Token::FSlash | Token::Modulo => Some((19, 20)),
        _ => None,
    }
}

/// What follows a `.`: a field name, or a method name and its arguments.
pub enum DotAccess<'a> {
    Field(&'a str),
    Method(&'a str, Vec<Box<ExpressionWrapper<'a>>>),
}

} // verus!
