//! The syntax tree that the parser builds, and its mathematical model.
//!
//! Every executable node type has a view (`@`) into the model types
//! `SpecScopedName`, `SpecPattern` and `SpecExpr`, in which vectors become
//! sequences; the grammar in `parse::grammar` is stated over the model.
use vstd::prelude::*;

use crate::helper::lex_wrap::{ParseResultError, TokenWrapper};
use crate::lex::Token;

verus! {

/// A byte range of the source text.
#[derive(Clone, Copy, PartialEq, Eq, Structural, Debug)]
pub struct Span {
    pub start: usize,
    pub end: usize,
}

/// Where a parsed node came from, and the flag it was built with.
#[derive(Clone, Copy, PartialEq, Eq, Structural, Debug)]
pub struct ParsedNodeInfo {
    pub span: Span,
    pub correct: bool,
}

/// A node either comes from the source text or was made up by the parser.
#[derive(Clone, Copy, PartialEq, Eq, Structural, Debug)]
pub enum NodeInfo {
    Builtin,
    Parsed(ParsedNodeInfo),
}

impl NodeInfo {
    pub open spec fn spec_from_indices(correct: bool, start: usize, end: usize) -> NodeInfo {
        NodeInfo::Parsed(ParsedNodeInfo { span: Span { start, end }, correct })
    }

    /// The node info of a node that spans `start..end` of the source.
    #[verifier::when_used_as_spec(spec_from_indices)]
    pub fn from_indices(correct: bool, start: usize, end: usize) -> (r: NodeInfo)
        ensures
            r == NodeInfo::spec_from_indices(correct, start, end),
    {
        NodeInfo::Parsed(ParsedNodeInfo { span: Span { start, end }, correct })
    }

    pub open spec fn spec_as_parsed(&self) -> Option<ParsedNodeInfo> {
        match *self {
            NodeInfo::Parsed(p) => Some(p),
            NodeInfo::Builtin => None,
        }
    }

    /// The parse information, for a node that comes from the source.
    #[verifier::when_used_as_spec(spec_as_parsed)]
    pub fn as_parsed(&self) -> (r: Option<ParsedNodeInfo>)
        ensures
            r == self.spec_as_parsed(),
    {
        match *self {
            NodeInfo::Parsed(p) => Some(p),
            NodeInfo::Builtin => None,
        }
    }

    pub open spec fn spec_start(&self) -> Option<usize> {
        match *self {
            NodeInfo::Parsed(p) => Some(p.span.start),
            NodeInfo::Builtin => None,
        }
    }

    /// Where the node starts in the source, for a node that comes from it.
    #[verifier::when_used_as_spec(spec_start)]
    pub fn start(&self) -> (r: Option<usize>)
        ensures
            r == self.spec_start(),
    {
        match *self {
            NodeInfo::Parsed(p) => Some(p.span.start),
            NodeInfo::Builtin => None,
        }
    }

    pub open spec fn spec_end(&self) -> Option<usize> {
        match *self {
            NodeInfo::Parsed(p) => Some(p.span.end),
            NodeInfo::Builtin => None,
        }
    }

    /// Where the node ends in the source, for a node that comes from it.
    #[verifier::when_used_as_spec(spec_end)]
    pub fn end(&self) -> (r: Option<usize>)
        ensures
            r == self.spec_end(),
    {
        match *self {
            NodeInfo::Parsed(p) => Some(p.span.end),
            NodeInfo::Builtin => None,
        }
    }
}

/// A path such as `::a::b::`: "global" or "here" first, then the names.
/// It is `silent` when no token of the source was read for it.
pub struct ScopedName<'a> {
    pub scope: Vec<&'a str>,
    pub silent: bool,
    pub node_info: NodeInfo,
}

/// A parenthesised list of expressions, such as the arguments of a call.
pub struct Pattern<'a> {
    pub node_info: NodeInfo,
    pub expressions: Vec<Box<ExpressionWrapper<'a>>>,
}

/// An access: an optional object, a scoped name and an optional pattern.
pub struct AccessExpression<'a> {
    pub node_info: NodeInfo,
    pub on: Option<Box<ExpressionWrapper<'a>>>,
    pub scope: Box<ScopedName<'a>>,
    pub pattern: Option<Pattern<'a>>,
}

/// `let name = value`.
pub struct LetExpression<'a> {
    pub node_info: NodeInfo,
    pub name: &'a str,
    pub value: Box<ExpressionWrapper<'a>>,
}

/// `{ ... }`: each entry is a parsed expression or the error met while
/// parsing it.
pub struct BlockExpression<'a> {
    pub node_info: NodeInfo,
    pub declarations: Vec<Result<Box<ExpressionWrapper<'a>>, ParseResultError<'a>>>,
}

pub struct IfThenElseExpression<'a> {
    pub node_info: NodeInfo,
    pub if_exp: Box<ExpressionWrapper<'a>>,
    pub then_exp: Box<ExpressionWrapper<'a>>,
    pub else_exp: Box<ExpressionWrapper<'a>>,
}

pub struct UnaryOperationExpression<'a> {
    pub node_info: NodeInfo,
    pub operation: Token,
    pub subexpr: Box<ExpressionWrapper<'a>>,
}

pub struct BinaryOperationExpression<'a> {
    pub node_info: NodeInfo,
    pub operation: Token,
    pub lhs: Box<ExpressionWrapper<'a>>,
    pub rhs: Box<ExpressionWrapper<'a>>,
}

/// `subexpr as typeexpr`.
pub struct CastExpression<'a> {
    pub node_info: NodeInfo,
    pub subexpr: Box<ExpressionWrapper<'a>>,
    pub typeexpr: Box<ExpressionWrapper<'a>>,
}

pub struct AssignmentExpression<'a> {
    pub node_info: NodeInfo,
    pub lhs: Box<ExpressionWrapper<'a>>,
    pub rhs: Box<ExpressionWrapper<'a>>,
}

/// An expression followed by `;`.
pub struct StatementExpression<'a> {
    pub node_info: NodeInfo,
    pub subexpr: Box<ExpressionWrapper<'a>>,
}

/// An integer or string literal.
pub struct LiteralExpression<'a> {
    pub node_info: NodeInfo,
    pub contents: TokenWrapper<'a>,
}

/// `_`.
pub struct WildcardExpression<'a> {
    pub node_info: NodeInfo,
    pub contents: TokenWrapper<'a>,
}

pub enum ExpressionWrapper<'a> {
    Access(AccessExpression<'a>),
    LetExpression(LetExpression<'a>),
    Block(BlockExpression<'a>),
    IfThenElse(IfThenElseExpression<'a>),
    UnaryOperation(UnaryOperationExpression<'a>),
    BinaryOperation(BinaryOperationExpression<'a>),
    Cast(CastExpression<'a>),
    Assignment(AssignmentExpression<'a>),
    Statement(StatementExpression<'a>),
    Literal(LiteralExpression<'a>),
    Wildcard(WildcardExpression<'a>),
}

/// The model of a `ScopedName`.
pub struct SpecScopedName<'a> {
    pub scope: Seq<&'a str>,
    pub silent: bool,
    pub node_info: NodeInfo,
}

/// The model of a `Pattern`.
pub struct SpecPattern<'a> {
    pub node_info: NodeInfo,
    pub expressions: Seq<SpecExpr<'a>>,
}

/// The model of an `ExpressionWrapper`: the same tree, with sequences in
/// place of vectors.
pub enum SpecExpr<'a> {
    Access {
        node_info: NodeInfo,
        on: Option<Box<SpecExpr<'a>>>,
        scope: SpecScopedName<'a>,
        pattern: Option<SpecPattern<'a>>,
    },
    LetExpression { node_info: NodeInfo, name: &'a str, value: Box<SpecExpr<'a>> },
    Block { node_info: NodeInfo, declarations: Seq<Result<SpecExpr<'a>, ParseResultError<'a>>> },
    IfThenElse {
        node_info: NodeInfo,
        if_exp: Box<SpecExpr<'a>>,
        then_exp: Box<SpecExpr<'a>>,
        else_exp: Box<SpecExpr<'a>>,
    },
    UnaryOperation { node_info: NodeInfo, operation: Token, subexpr: Box<SpecExpr<'a>> },
    BinaryOperation {
        node_info: NodeInfo,
        operation: Token,
        lhs: Box<SpecExpr<'a>>,
        rhs: Box<SpecExpr<'a>>,
    },
    Cast { node_info: NodeInfo, subexpr: Box<SpecExpr<'a>>, typeexpr: Box<SpecExpr<'a>> },
    Assignment { node_info: NodeInfo, lhs: Box<SpecExpr<'a>>, rhs: Box<SpecExpr<'a>> },
    Statement { node_info: NodeInfo, subexpr: Box<SpecExpr<'a>> },
    Literal { node_info: NodeInfo, contents: TokenWrapper<'a> },
    Wildcard { node_info: NodeInfo, contents: TokenWrapper<'a> },
}

impl<'a> SpecExpr<'a> {
    /// The node info at the root of the expression.
    pub open spec fn node_info(self) -> NodeInfo {
        match self {
            SpecExpr::Access { node_info, .. } => node_info,
            SpecExpr::LetExpression { node_info, .. } => node_info,
            SpecExpr::Block { node_info, .. } => node_info,
            SpecExpr::IfThenElse { node_info, .. } => node_info,
            SpecExpr::UnaryOperation { node_info, .. } => node_info,
            SpecExpr::BinaryOperation { node_info, .. } => node_info,
            SpecExpr::Cast { node_info, .. } => node_info,
            SpecExpr::Assignment { node_info, .. } => node_info,
            SpecExpr::Statement { node_info, .. } => node_info,
            SpecExpr::Literal { node_info, .. } => node_info,
            SpecExpr::Wildcard { node_info, .. } => node_info,
        }
    }
}

/// The model of a parsed expression or of the error met instead.
pub open spec fn view_result<'a>(r: Result<Box<ExpressionWrapper<'a>>, ParseResultError<'a>>) -> Result<
    SpecExpr<'a>,
    ParseResultError<'a>,
> {
    match r {
        Ok(e) => Ok(view_expr(*e)),
        Err(err) => Err(err),
    }
}

/// The model of the object of an access.
pub open spec fn view_on<'a>(on: Option<Box<ExpressionWrapper<'a>>>) -> Option<Box<SpecExpr<'a>>>
    decreases on,
{
    match on {
        Some(o) => Some(Box::new(view_expr(*o))),
        None => None,
    }
}

/// The model of a parsed pattern or of the error met instead.
pub open spec fn view_pattern_result<'a>(r: Result<Pattern<'a>, ParseResultError<'a>>) -> Result<
    SpecPattern<'a>,
    ParseResultError<'a>,
> {
    match r {
        Ok(p) => Ok(view_pattern(p)),
        Err(err) => Err(err),
    }
}

pub open spec fn view_scoped_name<'a>(s: ScopedName<'a>) -> SpecScopedName<'a> {
    SpecScopedName { scope: s.scope@, silent: s.silent, node_info: s.node_info }
}

/// The models of a sequence of expressions.
pub open spec fn view_exprs<'a>(es: Seq<Box<ExpressionWrapper<'a>>>) -> Seq<SpecExpr<'a>>
    decreases es,
{
    Seq::new(
        es.len(),
        |i: int|
            if 0 <= i < es.len() {
                view_expr(*es[i])
            } else {
                SpecExpr::Block { node_info: NodeInfo::Builtin, declarations: Seq::empty() }
            },
    )
}

/// The models of a sequence of block entries.
pub open spec fn view_decls<'a>(
    ds: Seq<Result<Box<ExpressionWrapper<'a>>, ParseResultError<'a>>>,
) -> Seq<Result<SpecExpr<'a>, ParseResultError<'a>>>
    decreases ds,
{
    Seq::new(
        ds.len(),
        |i: int|
            if 0 <= i < ds.len() {
                match ds[i] {
                    Ok(e) => Ok(view_expr(*e)),
                    Err(err) => Err(err),
                }
            } else {
                Err(ParseResultError::EndOfFile)
            },
    )
}

pub open spec fn view_pattern<'a>(p: Pattern<'a>) -> SpecPattern<'a>
    decreases p,
{
    SpecPattern { node_info: p.node_info, expressions: view_exprs(p.expressions@) }
}

/// The model of an expression.
pub open spec fn view_expr<'a>(e: ExpressionWrapper<'a>) -> SpecExpr<'a>
    decreases e,
{
    match e {
        ExpressionWrapper::Access(a) => SpecExpr::Access {
            node_info: a.node_info,
            on: view_on(a.on),
            scope: view_scoped_name(*a.scope),
            pattern: match a.pattern {
                Some(p) => Some(view_pattern(p)),
                None => None,
            },
        },
        ExpressionWrapper::LetExpression(l) => SpecExpr::LetExpression {
            node_info: l.node_info,
            name: l.name,
            value: Box::new(view_expr(*l.value)),
        },
        ExpressionWrapper::Block(b) => SpecExpr::Block {
            node_info: b.node_info,
            declarations: view_decls(b.declarations@),
        },
        ExpressionWrapper::IfThenElse(x) => SpecExpr::IfThenElse {
            node_info: x.node_info,
            if_exp: Box::new(view_expr(*x.if_exp)),
            then_exp: Box::new(view_expr(*x.then_exp)),
            else_exp: Box::new(view_expr(*x.else_exp)),
        },
        ExpressionWrapper::UnaryOperation(u) => SpecExpr::UnaryOperation {
            node_info: u.node_info,
            operation: u.operation,
            subexpr: Box::new(view_expr(*u.subexpr)),
        },
        ExpressionWrapper::BinaryOperation(b) => SpecExpr::BinaryOperation {
            node_info: b.node_info,
            operation: b.operation,
            lhs: Box::new(view_expr(*b.lhs)),
            rhs: Box::new(view_expr(*b.rhs)),
        },
        ExpressionWrapper::Cast(c) => SpecExpr::Cast {
            node_info: c.node_info,
            subexpr: Box::new(view_expr(*c.subexpr)),
            typeexpr: Box::new(view_expr(*c.typeexpr)),
        },
        ExpressionWrapper::Assignment(a) => SpecExpr::Assignment {
            node_info: a.node_info,
            lhs: Box::new(view_expr(*a.lhs)),
            rhs: Box::new(view_expr(*a.rhs)),
        },
        ExpressionWrapper::Statement(s) => SpecExpr::Statement {
            node_info: s.node_info,
            subexpr: Box::new(view_expr(*s.subexpr)),
        },
        ExpressionWrapper::Literal(l) => SpecExpr::Literal {
            node_info: l.node_info,
            contents: l.contents,
        },
        ExpressionWrapper::Wildcard(w) => SpecExpr::Wildcard {
            node_info: w.node_info,
            contents: w.contents,
        },
    }
}

impl<'a> View for ScopedName<'a> {
    type V = SpecScopedName<'a>;

    open spec fn view(&self) -> SpecScopedName<'a> {
        view_scoped_name(*self)
    }
}

impl<'a> View for Pattern<'a> {
    type V = SpecPattern<'a>;

    open spec fn view(&self) -> SpecPattern<'a> {
        view_pattern(*self)
    }
}

impl<'a> View for ExpressionWrapper<'a> {
    type V = SpecExpr<'a>;

    open spec fn view(&self) -> SpecExpr<'a> {
        view_expr(*self)
    }
}

impl<'a> ExpressionWrapper<'a> {
    /// The node info at the root of the expression.
    pub fn node_info(&self) -> (r: NodeInfo)
        ensures
            r == self@.node_info(),
    {
        match self {
            ExpressionWrapper::Access(x) => x.node_info,
            ExpressionWrapper::LetExpression(x) => x.node_info,
            ExpressionWrapper::Block(x) => x.node_info,
            ExpressionWrapper::IfThenElse(x) => x.node_info,
            ExpressionWrapper::UnaryOperation(x) => x.node_info,
            ExpressionWrapper::BinaryOperation(x) => x.node_info,
            ExpressionWrapper::Cast(x) => x.node_info,
            ExpressionWrapper::Assignment(x) => x.node_info,
            ExpressionWrapper::Statement(x) => x.node_info,
            ExpressionWrapper::Literal(x) => x.node_info,
            ExpressionWrapper::Wildcard(x) => x.node_info,
        }
    }

    /// Where the expression starts in the source, if it comes from it.
    pub fn start(&self) -> (r: Option<usize>)
        ensures
            r == self@.node_info().spec_start(),
    {
        self.node_info().start()
    }

    /// Where the expression ends in the source, if it comes from it.
    pub fn end(&self) -> (r: Option<usize>)
        ensures
            r == self@.node_info().spec_end(),
    {
        self.node_info().end()
    }

    /// The literal expression for an integer or string literal token.
    pub fn literal_expression(tw: TokenWrapper<'a>) -> (r: Box<ExpressionWrapper<'a>>)
        ensures
            r@ == (SpecExpr::Literal {
                node_info: NodeInfo::from_indices(true, tw.start, tw.end),
                contents: tw,
            }),
    {
        Box::new(
            ExpressionWrapper::Literal(
                LiteralExpression { node_info: NodeInfo::from_indices(true, tw.start, tw.end), contents: tw },
            ),
        )
    }

    /// The wildcard expression for a `_` token.
    pub fn wildcard(tw: TokenWrapper<'a>) -> (r: Box<ExpressionWrapper<'a>>)
        ensures
            r@ == (SpecExpr::Wildcard {
                node_info: NodeInfo::from_indices(true, tw.start, tw.end),
                contents: tw,
            }),
    {
        Box::new(
            ExpressionWrapper::Wildcard(
                WildcardExpression { node_info: NodeInfo::from_indices(true, tw.start, tw.end), contents: tw },
            ),
        )
    }
}

/// Pushing onto a vector of expressions pushes the model of the new one.
pub proof fn lemma_view_exprs_push<'a>(es: Seq<Box<ExpressionWrapper<'a>>>, e: Box<ExpressionWrapper<'a>>)
    ensures
        view_exprs(es.push(e)) == view_exprs(es).push(view_expr(*e)),
{
    assert(view_exprs(es.push(e)) =~= view_exprs(es).push(view_expr(*e)));
}

/// Pushing onto a vector of block entries pushes the model of the new one.
pub proof fn lemma_view_decls_push<'a>(
    ds: Seq<Result<Box<ExpressionWrapper<'a>>, ParseResultError<'a>>>,
    d: Result<Box<ExpressionWrapper<'a>>, ParseResultError<'a>>,
)
    ensures
        view_decls(ds.push(d)) == view_decls(ds).push(view_result(d)),
{
    assert(view_decls(ds.push(d)) =~= view_decls(ds).push(view_result(d)));
}

} // verus!
