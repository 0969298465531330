use expr_parse::ast::{ExpressionWrapper, NodeInfo, ParsedNodeInfo, Span};
use expr_parse::helper::lex_wrap::{LookaheadStream, ParseResultError, TokenWrapper};
use expr_parse::helper::EitherAnd;
use expr_parse::lex::Token;
use expr_parse::parse::grammar::DOT_ACCESS_MESSAGE;
use expr_parse::parse::parse_expr::{
    atomic_expression, can_parse_expr, can_parse_expr_inner, infix_binding_power, parse_access,
    parse_expr, parse_expr_inner, parse_if_then_else, prefix_binding_power, scoped_name,
    syntactic_block, try_atomic_expression, try_parse_expr, try_parse_expr_inner,
    variable_declaration, Parser,
};
use expr_parse::parse::{eat_match, eat_match_in, eat_to, expect};

fn tw(token: Token, slice: &'static str, start: usize, end: usize) -> TokenWrapper<'static> {
    TokenWrapper { token, slice, start, end }
}

fn ident(name: &'static str, start: usize) -> TokenWrapper<'static> {
    tw(Token::Identifier, name, start, start + name.len())
}

fn sym(token: Token, text: &'static str, start: usize) -> TokenWrapper<'static> {
    tw(token, text, start, start + text.len())
}

fn stream(tokens: Vec<TokenWrapper<'static>>) -> LookaheadStream<'static> {
    LookaheadStream::new(tokens)
}

fn span(e: &ExpressionWrapper) -> (usize, usize) {
    (e.start().unwrap(), e.end().unwrap())
}

/// The single name of an access without object or pattern.
fn access_name<'a>(e: &ExpressionWrapper<'a>) -> &'a str {
    match e {
        ExpressionWrapper::Access(a) => {
            assert!(a.on.is_none());
            assert!(a.pattern.is_none());
            assert_eq!(a.scope.scope.len(), 2);
            assert_eq!(a.scope.scope[0], "here");
            a.scope.scope[1]
        },
        _ => panic!("not an access"),
    }
}

#[test]
fn prefix_binding_powers() {
    for t in [Token::Plus, Token::Dash, Token::Asterisk, Token::Bang, Token::And] {
        assert_eq!(prefix_binding_power(t), Some(100));
    }
    assert_eq!(prefix_binding_power(Token::FSlash), None);
    assert_eq!(prefix_binding_power(Token::Identifier), None);
}

#[test]
fn infix_binding_powers() {
    assert_eq!(infix_binding_power(Token::As), Some((1, 300)));
    assert_eq!(infix_binding_power(Token::Dot), Some((250, 250)));
    assert_eq!(infix_binding_power(Token::Equals), Some((200, 2)));
    assert_eq!(infix_binding_power(Token::LogicalOr), Some((3, 4)));
    assert_eq!(infix_binding_power(Token::LogicalAnd), Some((5, 6)));
    assert_eq!(infix_binding_power(Token::CmpLessThanOrEqual), Some((7, 8)));
    assert_eq!(infix_binding_power(Token::CmpNotEqual), Some((7, 8)));
    assert_eq!(infix_binding_power(Token::Pipe), Some((9, 10)));
    assert_eq!(infix_binding_power(Token::Caret), Some((11, 12)));
    assert_eq!(infix_binding_power(Token::And), Some((13, 14)));
    assert_eq!(infix_binding_power(Token::ShiftRight), Some((15, 16)));
    assert_eq!(infix_binding_power(Token::Dash), Some((17, 18)));
    assert_eq!(infix_binding_power(Token::Modulo), Some((19, 20)));
    assert_eq!(infix_binding_power(Token::Bang), None);
    assert_eq!(infix_binding_power(Token::LParen), None);
}

#[test]
fn stream_lookahead_and_steps() {
    let mut la = stream(vec![ident("a", 0), ident("b", 2)]);
    assert!(matches!(la.la(-1), Err(ParseResultError::EndOfFile)));
    assert_eq!(la.la(1).unwrap().slice, "b");
    assert!(matches!(la.la(2), Err(ParseResultError::EndOfFile)));
    assert_eq!(la.next().unwrap().slice, "a");
    assert_eq!(la.la(-1).unwrap().slice, "a");
    la.advance();
    assert_eq!(la.index, 2);
    assert!(matches!(la.next(), Err(ParseResultError::EndOfFile)));
    la.advance();
    assert_eq!(la.index, 2);
    la.backtrack();
    la.backtrack();
    la.backtrack();
    assert_eq!(la.index, 0);
}

#[test]
fn token_helpers() {
    let mut la = stream(vec![sym(Token::Comma, ",", 0), ident("x", 2), sym(Token::Semicolon, ";", 4)]);
    assert!(matches!(expect(&mut la, Token::Semicolon), Err(ParseResultError::UnexpectedToken(t)) if t.token == Token::Comma));
    assert_eq!(la.index, 0);
    assert_eq!(expect(&mut la, Token::Comma).unwrap().start, 0);
    assert!(eat_match(&mut la, Token::Comma).is_none());
    assert_eq!(la.index, 1);
    assert!(eat_match_in(&mut la, &[Token::LParen, Token::Identifier]).is_some());
    assert_eq!(la.index, 2);
    la.backtrack();
    eat_to(&mut la, &[Token::Semicolon, Token::RBrace]);
    assert_eq!(la.index, 2);
    eat_to(&mut la, &[Token::RBrace]);
    assert_eq!(la.index, 3);
    assert!(matches!(expect(&mut la, Token::RBrace), Err(ParseResultError::EndOfFile)));
}

#[test]
fn node_info_and_either() {
    let n = NodeInfo::from_indices(true, 3, 7);
    assert_eq!(n, NodeInfo::Parsed(ParsedNodeInfo { span: Span { start: 3, end: 7 }, correct: true }));
    assert_eq!(n.start(), Some(3));
    assert_eq!(n.end(), Some(7));
    assert_eq!(NodeInfo::Builtin.as_parsed(), None);
    let e: EitherAnd<u32, u32> = EitherAnd::Neither;
    let e = e.with_b(2);
    assert!(matches!(e, EitherAnd::B(2)));
    let e = e.with_a(1);
    assert!(matches!(e, EitherAnd::Both(1, 2)));
    let e = e.with_a(5);
    assert!(matches!(e, EitherAnd::Both(5, 2)));
}

#[test]
fn scoped_name_global_path() {
    // ::a::b::c
    let mut la = stream(vec![
        sym(Token::DoubleColon, "::", 0),
        ident("a", 2),
        sym(Token::DoubleColon, "::", 3),
        ident("b", 5),
        sym(Token::DoubleColon, "::", 6),
        ident("c", 8),
        sym(Token::Comma, ",", 9),
    ]);
    let name = scoped_name(&mut la);
    assert_eq!(name.scope, vec!["global", "a", "b", "c"]);
    assert!(!name.silent);
    assert_eq!(name.node_info, NodeInfo::from_indices(true, 0, 9));
    assert_eq!(la.index, 6);
}

#[test]
fn scoped_name_trailing_double_colon() {
    // a:: (the trailing `::` is read and ends the span)
    let mut la = stream(vec![ident("a", 0), sym(Token::DoubleColon, "::", 1)]);
    let name = scoped_name(&mut la);
    assert_eq!(name.scope, vec!["here", "a"]);
    assert_eq!(name.node_info, NodeInfo::from_indices(true, 0, 3));
    assert_eq!(la.index, 2);
}

#[test]
fn scoped_name_silent_when_nothing_read() {
    let mut la = stream(vec![sym(Token::LParen, "(", 0)]);
    let name = scoped_name(&mut la);
    assert_eq!(name.scope, vec!["here"]);
    assert!(name.silent);
    assert_eq!(name.node_info, NodeInfo::Builtin);
    assert_eq!(la.index, 0);
}

#[test]
fn literal_and_wildcard() {
    let mut la = stream(vec![tw(Token::UnknownIntegerLiteral, "42", 3, 5)]);
    let e = parse_expr(&mut la).ok().unwrap();
    match &*e {
        ExpressionWrapper::Literal(l) => assert_eq!(l.contents.slice, "42"),
        _ => panic!("expected a literal"),
    }
    assert_eq!(span(&e), (3, 5));
    assert_eq!(la.index, 1);

    let mut la = stream(vec![tw(Token::StringLiteral, "\"s\"", 0, 3), tw(Token::Underscore, "_", 4, 5)]);
    let e = atomic_expression(&mut la).ok().unwrap();
    assert!(matches!(&*e, ExpressionWrapper::Literal(_)));
    let w = atomic_expression(&mut la).ok().unwrap();
    assert!(matches!(&*w, ExpressionWrapper::Wildcard(_)));
    assert_eq!(span(&w), (4, 5));
}

#[test]
fn product_binds_tighter_than_sum() {
    // a + b * c
    let mut la = stream(vec![
        ident("a", 0),
        sym(Token::Plus, "+", 2),
        ident("b", 4),
        sym(Token::Asterisk, "*", 6),
        ident("c", 8),
    ]);
    let e = parse_expr(&mut la).ok().unwrap();
    assert_eq!(la.index, 5);
    assert_eq!(span(&e), (0, 9));
    match &*e {
        ExpressionWrapper::BinaryOperation(b) => {
            assert_eq!(b.operation, Token::Plus);
            assert_eq!(access_name(&b.lhs), "a");
            match &*b.rhs {
                ExpressionWrapper::BinaryOperation(m) => {
                    assert_eq!(m.operation, Token::Asterisk);
                    assert_eq!(access_name(&m.lhs), "b");
                    assert_eq!(access_name(&m.rhs), "c");
                    assert_eq!(span(&b.rhs), (4, 9));
                },
                _ => panic!("expected a product on the right"),
            }
        },
        _ => panic!("expected a sum"),
    }
}

#[test]
fn subtraction_associates_left() {
    // a - b - c
    let mut la = stream(vec![
        ident("a", 0),
        sym(Token::Dash, "-", 2),
        ident("b", 4),
        sym(Token::Dash, "-", 6),
        ident("c", 8),
    ]);
    let e = parse_expr(&mut la).ok().unwrap();
    match &*e {
        ExpressionWrapper::BinaryOperation(outer) => {
            assert_eq!(access_name(&outer.rhs), "c");
            match &*outer.lhs {
                ExpressionWrapper::BinaryOperation(inner) => {
                    assert_eq!(access_name(&inner.lhs), "a");
                    assert_eq!(access_name(&inner.rhs), "b");
                },
                _ => panic!("expected (a - b) on the left"),
            }
        },
        _ => panic!("expected a difference"),
    }
}

#[test]
fn assignment_associates_right() {
    // a = b = c
    let mut la = stream(vec![
        ident("a", 0),
        sym(Token::Equals, "=", 2),
        ident("b", 4),
        sym(Token::Equals, "=", 6),
        ident("c", 8),
    ]);
    let e = parse_expr(&mut la).ok().unwrap();
    match &*e {
        ExpressionWrapper::Assignment(outer) => {
            assert_eq!(access_name(&outer.lhs), "a");
            match &*outer.rhs {
                ExpressionWrapper::Assignment(inner) => {
                    assert_eq!(access_name(&inner.lhs), "b");
                    assert_eq!(access_name(&inner.rhs), "c");
                },
                _ => panic!("expected b = c on the right"),
            }
        },
        _ => panic!("expected an assignment"),
    }
}

#[test]
fn min_binding_power_stops_weaker_operators() {
    // a + b with minimum binding power 18: `+` (17) is left unread
    let mut la = stream(vec![ident("a", 0), sym(Token::Plus, "+", 2), ident("b", 4)]);
    let e = parse_expr_inner(&mut la, 18, 0).ok().unwrap();
    assert_eq!(access_name(&e), "a");
    assert_eq!(la.index, 1);
}

#[test]
fn cast_and_prefix() {
    // -a as b
    let mut la = stream(vec![
        sym(Token::Dash, "-", 0),
        ident("a", 1),
        sym(Token::As, "as", 3),
        ident("b", 6),
    ]);
    let e = parse_expr(&mut la).ok().unwrap();
    match &*e {
        ExpressionWrapper::Cast(c) => {
            assert_eq!(access_name(&c.typeexpr), "b");
            match &*c.subexpr {
                ExpressionWrapper::UnaryOperation(u) => {
                    assert_eq!(u.operation, Token::Dash);
                    assert_eq!(access_name(&u.subexpr), "a");
                    assert_eq!(span(&c.subexpr), (0, 2));
                },
                _ => panic!("expected -a"),
            }
        },
        _ => panic!("expected a cast"),
    }
    assert_eq!(span(&e), (0, 7));
}

#[test]
fn call_with_arguments() {
    // f(x, y)
    let mut la = stream(vec![
        ident("f", 0),
        sym(Token::LParen, "(", 1),
        ident("x", 2),
        sym(Token::Comma, ",", 3),
        ident("y", 5),
        sym(Token::RParen, ")", 6),
    ]);
    let e = parse_expr(&mut la).ok().unwrap();
    assert_eq!(la.index, 6);
    assert_eq!(span(&e), (0, 7));
    match &*e {
        ExpressionWrapper::Access(a) => {
            assert_eq!(a.scope.scope, vec!["here", "f"]);
            let p = a.pattern.as_ref().unwrap();
            assert_eq!(p.node_info, NodeInfo::from_indices(true, 1, 7));
            assert_eq!(p.expressions.len(), 2);
            assert_eq!(access_name(&p.expressions[0]), "x");
            assert_eq!(access_name(&p.expressions[1]), "y");
        },
        _ => panic!("expected an access"),
    }
}

#[test]
fn empty_argument_list_is_dropped() {
    // f() : the `)` is read as a failed expression, so the pattern fails and,
    // the name being there, the access keeps no pattern
    let mut la = stream(vec![ident("f", 0), sym(Token::LParen, "(", 1), sym(Token::RParen, ")", 2)]);
    let e = parse_expr(&mut la).ok().unwrap();
    assert_eq!(access_name(&e), "f");
    assert_eq!(la.index, 3);
}

#[test]
fn parenthesised_pattern() {
    // (1)
    let mut la = stream(vec![
        sym(Token::LParen, "(", 0),
        tw(Token::UnknownIntegerLiteral, "1", 1, 2),
        sym(Token::RParen, ")", 2),
    ]);
    let p = Parser::parse_pattern(&mut la).ok().unwrap();
    assert_eq!(p.expressions.len(), 1);
    assert_eq!(p.node_info, NodeInfo::from_indices(true, 0, 3));
    let mut la = stream(vec![
        sym(Token::LParen, "(", 0),
        tw(Token::UnknownIntegerLiteral, "1", 1, 2),
    ]);
    assert!(matches!(Parser::parse_pattern(&mut la), Err(ParseResultError::EndOfFile)));
}

#[test]
fn access_needs_name_or_pattern() {
    // parse_access at `)`: silent name, so the pattern is required
    let mut la = stream(vec![sym(Token::RParen, ")", 0)]);
    let r = parse_access(&mut la, None);
    assert!(matches!(r, Err(ParseResultError::UnexpectedToken(t)) if t.token == Token::RParen));
    assert_eq!(la.index, 0);
}

#[test]
fn dot_access_takes_object() {
    // a.b
    let mut la = stream(vec![ident("a", 0), sym(Token::Dot, ".", 1), ident("b", 2)]);
    let e = parse_expr(&mut la).ok().unwrap();
    match &*e {
        ExpressionWrapper::Access(acc) => {
            assert_eq!(acc.scope.scope, vec!["here", "b"]);
            assert_eq!(access_name(acc.on.as_ref().unwrap()), "a");
            assert_eq!(acc.node_info, NodeInfo::from_indices(true, 2, 3));
        },
        _ => panic!("expected an access"),
    }
}

#[test]
fn dot_access_on_literal_is_semantic_issue() {
    // a.1
    let mut la = stream(vec![
        ident("a", 0),
        sym(Token::Dot, ".", 1),
        tw(Token::UnknownIntegerLiteral, "1", 2, 3),
    ]);
    match parse_expr(&mut la) {
        Err(ParseResultError::SemanticIssue(msg, s, e)) => {
            assert_eq!(msg, DOT_ACCESS_MESSAGE);
            assert_eq!((s, e), (2, 3));
        },
        _ => panic!("expected a semantic issue"),
    }
}

#[test]
fn juxtaposed_name_is_chained_access() {
    // a b : the name after an expression is an access on it
    let mut la = stream(vec![ident("a", 0), ident("b", 2)]);
    let e = parse_expr(&mut la).ok().unwrap();
    match &*e {
        ExpressionWrapper::Access(acc) => {
            assert_eq!(acc.scope.scope, vec!["here", "b"]);
            assert_eq!(access_name(acc.on.as_ref().unwrap()), "a");
        },
        _ => panic!("expected an access"),
    }
    assert_eq!(la.index, 2);
}

#[test]
fn errors_at_end_and_on_stray_token() {
    let mut la = stream(vec![]);
    assert!(matches!(parse_expr(&mut la), Err(ParseResultError::EndOfFile)));
    let mut la = stream(vec![sym(Token::RBrace, "}", 0)]);
    assert!(matches!(parse_expr(&mut la), Err(ParseResultError::UnexpectedToken(t)) if t.token == Token::RBrace));
    assert_eq!(la.index, 1);
}

#[test]
fn if_then_else_with_else() {
    // if 1 2 else c
    let mut la = stream(vec![
        sym(Token::If, "if", 0),
        tw(Token::UnknownIntegerLiteral, "1", 3, 4),
        tw(Token::UnknownIntegerLiteral, "2", 5, 6),
        sym(Token::Else, "else", 7),
        ident("c", 12),
    ]);
    let e = parse_if_then_else(&mut la).ok().unwrap();
    assert_eq!(span(&e), (0, 13));
    assert_eq!(la.index, 5);
    match &*e {
        ExpressionWrapper::IfThenElse(x) => {
            assert!(matches!(&*x.if_exp, ExpressionWrapper::Literal(l) if l.contents.slice == "1"));
            assert!(matches!(&*x.then_exp, ExpressionWrapper::Literal(l) if l.contents.slice == "2"));
            assert_eq!(access_name(&x.else_exp), "c");
        },
        _ => panic!("expected an if"),
    }
}

#[test]
fn if_condition_swallows_following_name() {
    // if a b else c : `a b` is one access, so `else` is met where the branch
    // should start
    let mut la = stream(vec![
        sym(Token::If, "if", 0),
        ident("a", 3),
        ident("b", 5),
        sym(Token::Else, "else", 7),
        ident("c", 12),
    ]);
    assert!(matches!(parse_if_then_else(&mut la), Err(ParseResultError::UnexpectedToken(t)) if t.token == Token::Else));
}

#[test]
fn if_then_without_else() {
    // if 1 2 ;
    let mut la = stream(vec![
        sym(Token::If, "if", 0),
        tw(Token::UnknownIntegerLiteral, "1", 3, 4),
        tw(Token::UnknownIntegerLiteral, "2", 5, 6),
        sym(Token::Semicolon, ";", 6),
    ]);
    let e = parse_expr(&mut la).ok().unwrap();
    assert_eq!(span(&e), (0, 6));
    assert_eq!(la.index, 3);
    match &*e {
        ExpressionWrapper::IfThenElse(x) => match &*x.else_exp {
            ExpressionWrapper::Block(b) => {
                assert_eq!(b.node_info, NodeInfo::Builtin);
                assert!(b.declarations.is_empty());
            },
            _ => panic!("expected an empty block"),
        },
        _ => panic!("expected an if"),
    }
}

#[test]
fn block_with_statement_and_declaration() {
    // { x; let y = 1 }
    let mut la = stream(vec![
        sym(Token::LBrace, "{", 0),
        ident("x", 2),
        sym(Token::Semicolon, ";", 3),
        sym(Token::Let, "let", 5),
        ident("y", 9),
        sym(Token::Equals, "=", 11),
        tw(Token::UnknownIntegerLiteral, "1", 13, 14),
        sym(Token::RBrace, "}", 15),
    ]);
    let e = syntactic_block(&mut la).ok().unwrap();
    assert_eq!(la.index, 8);
    match &*e {
        ExpressionWrapper::Block(b) => {
            assert_eq!(b.node_info, NodeInfo::from_indices(false, 2, 13));
            assert_eq!(b.declarations.len(), 2);
            match b.declarations[0].as_ref().ok().unwrap().as_ref() {
                ExpressionWrapper::Statement(s) => {
                    assert_eq!(access_name(&s.subexpr), "x");
                    assert_eq!(s.node_info, NodeInfo::from_indices(true, 2, 4));
                },
                _ => panic!("expected a statement"),
            }
            match b.declarations[1].as_ref().ok().unwrap().as_ref() {
                ExpressionWrapper::LetExpression(l) => {
                    assert_eq!(l.name, "y");
                    assert_eq!(l.node_info, NodeInfo::from_indices(true, 5, 14));
                },
                _ => panic!("expected a declaration"),
            }
        },
        _ => panic!("expected a block"),
    }
}

#[test]
fn block_recovers_after_failed_entry() {
    // { ) ; x }
    let mut la = stream(vec![
        sym(Token::LBrace, "{", 0),
        sym(Token::RParen, ")", 2),
        sym(Token::Semicolon, ";", 4),
        ident("x", 6),
        sym(Token::RBrace, "}", 8),
    ]);
    let e = parse_expr(&mut la).ok().unwrap();
    assert_eq!(la.index, 5);
    match &*e {
        ExpressionWrapper::Block(b) => {
            assert_eq!(b.node_info, NodeInfo::from_indices(true, 2, 6));
            assert_eq!(b.declarations.len(), 2);
            assert!(matches!(b.declarations[0], Err(ParseResultError::UnexpectedToken(t)) if t.token == Token::RParen));
            assert_eq!(access_name(b.declarations[1].as_ref().ok().unwrap()), "x");
        },
        _ => panic!("expected a block"),
    }
}

#[test]
fn unclosed_block_is_end_of_file() {
    let mut la = stream(vec![sym(Token::LBrace, "{", 0), ident("x", 1)]);
    assert!(matches!(parse_expr(&mut la), Err(ParseResultError::EndOfFile)));
}

#[test]
fn declaration_errors() {
    let mut la = stream(vec![sym(Token::Let, "let", 0), sym(Token::Equals, "=", 4)]);
    assert!(matches!(variable_declaration(&mut la), Err(ParseResultError::UnexpectedToken(t)) if t.token == Token::Equals));
    assert_eq!(la.index, 1);
}

#[test]
fn dot_access_message_is_the_parsers() {
    assert_eq!(
        DOT_ACCESS_MESSAGE,
        "Can not perform a dot-access with non-access RHS.
                    RHS must be of the form (ScopedIdentifier &| Pattern).
                    Offending RHS occurs at span"
    );
}

#[test]
fn can_parse_tells_where_the_parser_stops() {
    // [1] : array literals are not implemented
    let mut la = stream(vec![sym(Token::LBracket, "[", 0), tw(Token::UnknownIntegerLiteral, "1", 1, 2)]);
    assert!(!can_parse_expr(&mut la));
    assert_eq!(la.index, 0);
    assert!(try_parse_expr(&mut la).is_none());

    // +a : prefix `+` has a binding power but no node
    let mut la = stream(vec![sym(Token::Plus, "+", 0), ident("a", 1)]);
    assert!(!can_parse_expr(&mut la));

    // a < b : `<` has a binding power but no node
    let mut la = stream(vec![ident("a", 0), sym(Token::CmpLessThan, "<", 2), ident("b", 4)]);
    assert!(!can_parse_expr(&mut la));
    assert_eq!(la.index, 0);
    // with minimum binding power above that of `<` the parser stops before it
    assert!(can_parse_expr_inner(&mut la, 8));
    let e = parse_expr_inner(&mut la, 8, 0).ok().unwrap();
    assert_eq!(access_name(&e), "a");
    assert_eq!(la.index, 1);

    // a + b : answered, and the stream is left where it was
    let mut la = stream(vec![ident("a", 0), sym(Token::Plus, "+", 2), ident("b", 4)]);
    assert!(can_parse_expr(&mut la));
    assert_eq!(la.index, 0);
    let e = try_parse_expr(&mut la).unwrap().ok().unwrap();
    assert!(matches!(&*e, ExpressionWrapper::BinaryOperation(_)));
    assert_eq!(la.index, 3);
}

#[test]
fn try_atomic_reports_errors() {
    let mut la = stream(vec![sym(Token::Comma, ",", 0)]);
    assert!(matches!(try_atomic_expression(&mut la), Some(Err(ParseResultError::UnexpectedToken(t))) if t.token == Token::Comma));
    assert_eq!(la.index, 1);
    let e = atomic_expression(&mut stream(vec![ident("q", 0)])).ok().unwrap();
    assert_eq!(access_name(&e), "q");
}

#[test]
fn level_does_not_change_the_parse() {
    let tokens = vec![ident("a", 0), sym(Token::Asterisk, "*", 2), ident("b", 4)];
    let mut la1 = stream(tokens.clone());
    let mut la2 = stream(tokens);
    let e1 = try_parse_expr_inner(&mut la1, 0, 0).unwrap().ok().unwrap();
    let e2 = try_parse_expr_inner(&mut la2, 0, usize::MAX).unwrap().ok().unwrap();
    assert_eq!(span(&e1), span(&e2));
    assert_eq!(la1.index, la2.index);
}

#[test]
fn higher_minimum_binding_power_stops_no_later() {
    // a * b + c
    let tokens = vec![
        ident("a", 0),
        sym(Token::Asterisk, "*", 2),
        ident("b", 4),
        sym(Token::Plus, "+", 6),
        ident("c", 8),
    ];
    let mut ends = Vec::new();
    for m in [0u32, 17, 18, 19, 20, 300] {
        let mut la = stream(tokens.clone());
        assert!(parse_expr_inner(&mut la, m, 0).is_ok());
        ends.push(la.index);
    }
    assert_eq!(ends, vec![5, 5, 3, 3, 1, 1]);
}
