use lung::lexer::tokenize;
use lung::parser::{literal_i32, parse, Expected, ParseError};
use lung::syntax::{ArgDecl, Expr, Token, TokenInfo, TokenKind};
use lung::type_def::Type;

fn parse_src(source: &str) -> Result<Expr, ParseError> {
    parse(tokenize(source).unwrap())
}

fn expected_at(source: &str) -> Expected {
    parse_src(source).unwrap_err().expected
}

#[test]
fn number_parses_to_literal() {
    assert_eq!(parse_src("123").unwrap(), Expr::I32 { val: 123 });
}

#[test]
fn anonymous_function_parses() {
    let e = parse_src("function(x:I32)->I32{x}").unwrap();
    let expected = Expr::AnonFunc {
        args_decl: vec![ArgDecl { vname: String::from("x"), vtype: Type::I32 }],
        ret_decl: Type::I32,
        block: Box::new(Expr::Block {
            exprs: vec![Box::new(Expr::Var { name: String::from("x") })],
        }),
    };
    assert_eq!(e, expected);
}

#[test]
fn calls_chain_left_to_right() {
    let e = parse_src("f(1)(2)").unwrap();
    let f = Box::new(Expr::Var { name: String::from("f") });
    let inner = Box::new(Expr::FuncApp { callee: f, args: vec![Box::new(Expr::I32 { val: 1 })] });
    assert_eq!(e, Expr::FuncApp { callee: inner, args: vec![Box::new(Expr::I32 { val: 2 })] });
}

#[test]
fn zero_argument_call_parses() {
    let e = parse_src("function()->Unit{unit}()").unwrap();
    match e {
        Expr::FuncApp { args, .. } => assert!(args.is_empty()),
        other => panic!("not a call: {:?}", other),
    }
}

#[test]
fn parenthesised_expression() {
    assert_eq!(parse_src("((7))").unwrap(), Expr::I32 { val: 7 });
}

#[test]
fn block_with_several_expressions() {
    let e = parse_src("{1;unit;x}").unwrap();
    let expected = Expr::Block {
        exprs: vec![
            Box::new(Expr::I32 { val: 1 }),
            Box::new(Expr::Unit),
            Box::new(Expr::Var { name: String::from("x") }),
        ],
    };
    assert_eq!(e, expected);
}

#[test]
fn empty_block_is_rejected() {
    assert_eq!(expected_at("{}"), Expected::Expr);
}

#[test]
fn trailing_semicolon_is_rejected() {
    assert_eq!(expected_at("{1;}"), Expected::Expr);
}

#[test]
fn missing_separator_in_block() {
    assert_eq!(expected_at("{1 2}"), Expected::SemiColonOrRBrace);
}

#[test]
fn trailing_tokens_are_rejected() {
    let err = parse_src("1 2").unwrap_err();
    assert_eq!(err.expected, Expected::EndOfInput);
    assert_eq!(err.found, TokenKind::Num(String::from("2")));
    assert_eq!(err.span, TokenInfo { s_col: 3, s_row: 1, e_col: 3, e_row: 1 });
}

#[test]
fn error_at_end_uses_last_span() {
    let err = parse_src("function(").unwrap_err();
    assert_eq!(err.expected, Expected::Ident);
    assert_eq!(err.found, TokenKind::EOF);
    assert_eq!(err.span, TokenInfo { s_col: 9, s_row: 1, e_col: 9, e_row: 1 });
}

#[test]
fn empty_program_is_rejected() {
    let err = parse(vec![]).unwrap_err();
    assert_eq!(err.expected, Expected::Expr);
    assert_eq!(err.span, TokenInfo { s_col: 0, s_row: 0, e_col: 0, e_row: 0 });
}

#[test]
fn function_type_needs_lparen() {
    assert_eq!(expected_at("function(f:Fn I32)->I32{1}"), Expected::LParen);
}

#[test]
fn function_type_needs_arrow() {
    assert_eq!(expected_at("function(f:Fn(I32) I32)->I32{1}"), Expected::Arrow);
}

#[test]
fn missing_return_arrow() {
    assert_eq!(expected_at("function(x:I32) I32{x}"), Expected::Arrow);
}

#[test]
fn missing_colon_in_parameter() {
    assert_eq!(expected_at("function(x I32)->I32{x}"), Expected::Colon);
}

#[test]
fn missing_block() {
    assert_eq!(expected_at("function()->I32 1"), Expected::Block);
}

#[test]
fn bad_type() {
    assert_eq!(expected_at("function(x:1)->I32{1}"), Expected::Type);
}

#[test]
fn fn_keyword_does_not_start_an_expression() {
    assert_eq!(expected_at("fn"), Expected::Expr);
}

#[test]
fn unclosed_parenthesis() {
    assert_eq!(expected_at("(1"), Expected::RParen);
}

#[test]
fn bad_argument_separator() {
    assert_eq!(expected_at("f(1;2)"), Expected::CommaOrRParen);
}

#[test]
fn number_out_of_range_is_error() {
    assert_eq!(parse_src("2147483647").unwrap(), Expr::I32 { val: 2147483647 });
    assert_eq!(expected_at("2147483648"), Expected::NumberInRange);
    assert_eq!(expected_at("٣"), Expected::NumberInRange);
}

#[test]
fn literal_values() {
    assert_eq!(literal_i32(&String::from("0")), Some(0));
    assert_eq!(literal_i32(&String::from("007")), Some(7));
    assert_eq!(literal_i32(&String::from("99999999999")), None);
    assert_eq!(literal_i32(&String::from("")), None);
    assert_eq!(literal_i32(&String::from("1a")), None);
}

#[test]
fn eof_tokens_are_skipped() {
    let info = TokenInfo { s_col: 1, s_row: 1, e_col: 1, e_row: 1 };
    let tokens = vec![
        Token { kind: TokenKind::EOF, info },
        Token { kind: TokenKind::UnitVal, info },
        Token { kind: TokenKind::EOF, info },
    ];
    assert_eq!(parse(tokens).unwrap(), Expr::Unit);
}

#[test]
fn parse_error_message() {
    let err = parse_src("{1 2}").unwrap_err();
    assert_eq!(err.message(), "Error at 1:4-1:4 : Expected [SEMICOLON,RBRACE]");
}

#[test]
fn span_rendering() {
    let info = TokenInfo { s_col: 10, s_row: 3, e_col: 125, e_row: 3 };
    assert_eq!(info.to_string(), "3:10-3:125");
    let zero = TokenInfo { s_col: 0, s_row: 0, e_col: 0, e_row: 0 };
    assert_eq!(zero.to_string(), "0:0-0:0");
}
