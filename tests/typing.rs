use lung::syntax::{Expr, Token, TokenInfo, TokenKind};
use lung::parser::Parser;
use lung::type_def::Type;
use lung::typing::{typecheck, Context, TypeError};
use lung::pipeline::{check_source, FrontEndError};

fn tok(kind: TokenKind) -> Token {
    Token { kind, info: TokenInfo { s_col: 0, s_row: 0, e_col: 0, e_row: 0 } }
}

fn type_of(source: &str) -> Result<Type, FrontEndError> {
    check_source(source).map(|t| t.expr_type.unwrap())
}

#[test]
fn typing_test() {
    let mut parser = Parser::new(vec![
        tok(TokenKind::FuncAnon),
        tok(TokenKind::LParen),
        tok(TokenKind::Ident(String::from("hello"))),
        tok(TokenKind::Colon),
        tok(TokenKind::UnitType),
        tok(TokenKind::Comma),
        tok(TokenKind::Ident(String::from("hello"))),
        tok(TokenKind::Colon),
        tok(TokenKind::I32),
        tok(TokenKind::RParen),
        tok(TokenKind::Arrow),
        tok(TokenKind::UnitType),
        tok(TokenKind::LBrace),
        tok(TokenKind::Num(String::from("123"))),
        tok(TokenKind::SemiColon),
        tok(TokenKind::UnitVal),
        tok(TokenKind::RBrace),
    ]);
    let expr = *parser.parse_program().unwrap();
    expr.into_typed_expr(&mut Context::new()).unwrap();
}

#[test]
fn literal_has_type_i32() {
    let typed = check_source("123").unwrap();
    assert_eq!(*typed.expr, Expr::I32 { val: 123 });
    assert_eq!(typed.expr_type, Some(Type::I32));
}

#[test]
fn identity_function_type() {
    let typed = check_source("function(x:I32)->I32{x}").unwrap();
    match &*typed.expr {
        Expr::AnonFunc { args_decl, ret_decl, .. } => {
            assert_eq!(args_decl.len(), 1);
            assert_eq!(args_decl[0].vname, "x");
            assert_eq!(args_decl[0].vtype, Type::I32);
            assert_eq!(*ret_decl, Type::I32);
        }
        other => panic!("not a function: {:?}", other),
    }
    let expected = Type::Func { args: vec![Box::new(Type::I32)], ret: Box::new(Type::I32) };
    assert_eq!(typed.expr_type, Some(expected));
}

#[test]
fn zero_argument_call_has_return_type() {
    assert_eq!(type_of("function()->Unit{unit}()").unwrap(), Type::Unit);
}

#[test]
fn body_type_mismatch() {
    let err = type_of("function()->I32{unit}").unwrap_err();
    assert_eq!(
        err,
        FrontEndError::Type(TypeError::TypeMismatch { expected: Type::I32, found: Type::Unit })
    );
}

#[test]
fn arity_mismatch_two_params_three_args() {
    let err = type_of("function(a:I32,b:I32)->I32{a}(1,2,3)").unwrap_err();
    assert_eq!(err, FrontEndError::Type(TypeError::ArityMismatch { expected: 2, found: 3 }));
}

#[test]
fn arity_mismatch_even_with_ill_typed_arguments() {
    let err = type_of("function(a:I32)->I32{a}(unit,y)").unwrap_err();
    assert_eq!(err, FrontEndError::Type(TypeError::ArityMismatch { expected: 1, found: 2 }));
}

#[test]
fn argument_type_mismatch() {
    let err = type_of("function(a:I32)->I32{a}(unit)").unwrap_err();
    assert_eq!(
        err,
        FrontEndError::Type(TypeError::TypeMismatch { expected: Type::I32, found: Type::Unit })
    );
}

#[test]
fn calling_a_number_is_not_callable() {
    let err = type_of("1(2)").unwrap_err();
    assert_eq!(err, FrontEndError::Type(TypeError::NotCallable(Type::I32)));
}

#[test]
fn unbound_variable() {
    let err = type_of("y").unwrap_err();
    assert_eq!(err, FrontEndError::Type(TypeError::UnboundVariable(String::from("y"))));
}

#[test]
fn parameter_not_visible_after_function() {
    let err = type_of("{function(x:I32)->I32{x}; x}").unwrap_err();
    assert_eq!(err, FrontEndError::Type(TypeError::UnboundVariable(String::from("x"))));
}

#[test]
fn inner_scope_shadows_outer() {
    let t = type_of("function(x:I32)->Unit{function(x:Unit)->Unit{x}(unit)}").unwrap();
    let expected = Type::Func { args: vec![Box::new(Type::I32)], ret: Box::new(Type::Unit) };
    assert_eq!(t, expected);
}

#[test]
fn outer_variable_visible_inside() {
    let t = type_of("function(x:I32)->I32{function()->I32{x}()}(5)").unwrap();
    assert_eq!(t, Type::I32);
}

#[test]
fn later_duplicate_parameter_wins() {
    let t = type_of("function(a:Unit,a:I32)->I32{a}").unwrap();
    let expected = Type::Func {
        args: vec![Box::new(Type::Unit), Box::new(Type::I32)],
        ret: Box::new(Type::I32),
    };
    assert_eq!(t, expected);
}

#[test]
fn block_takes_type_of_last() {
    assert_eq!(type_of("{1; unit; 2}").unwrap(), Type::I32);
    assert_eq!(type_of("{1; unit}").unwrap(), Type::Unit);
}

#[test]
fn function_typed_parameter() {
    let t = type_of("function(f:Fn(I32)->I32)->I32{f(1)}").unwrap();
    let fi = Type::Func { args: vec![Box::new(Type::I32)], ret: Box::new(Type::I32) };
    let expected = Type::Func { args: vec![Box::new(fi)], ret: Box::new(Type::I32) };
    assert_eq!(t, expected);
}

#[test]
fn user_types_compare_by_name() {
    let ok = type_of("function(p:Point)->Point{p}").unwrap();
    let pt = || Type::UserType { name: String::from("Point") };
    assert_eq!(ok, Type::Func { args: vec![Box::new(pt())], ret: Box::new(pt()) });
    let err = type_of("function(p:Point)->Pair{p}").unwrap_err();
    assert_eq!(
        err,
        FrontEndError::Type(TypeError::TypeMismatch {
            expected: Type::UserType { name: String::from("Pair") },
            found: Type::UserType { name: String::from("Point") },
        })
    );
}

#[test]
fn typecheck_leaves_expression_unchanged() {
    let e = Expr::Block { exprs: vec![Box::new(Expr::Unit), Box::new(Expr::I32 { val: 7 })] };
    let typed = typecheck(e).unwrap();
    assert_eq!(
        *typed.expr,
        Expr::Block { exprs: vec![Box::new(Expr::Unit), Box::new(Expr::I32 { val: 7 })] }
    );
    assert_eq!(typed.expr_type, Some(Type::I32));
}

#[test]
fn type_error_messages() {
    let m = type_of("function(f:Fn(I32,Unit)->P)->I32{f}").unwrap_err().message();
    assert_eq!(m, "Type mismatch: expected I32, found Fn(I32,Unit)->P");
    let m = type_of("function(a:I32,b:I32)->I32{a}(1,2,3)").unwrap_err().message();
    assert_eq!(m, "Expected 2 arguments, found 3");
    assert_eq!(type_of("zz").unwrap_err().message(), "Unbound variable zz");
    assert_eq!(type_of("unit(1)").unwrap_err().message(), "Not callable: Unit");
}

#[test]
fn front_end_reports_first_stage_error() {
    assert_eq!(
        check_source("1 @ (").unwrap_err().message(),
        "Error at 1:3 : unrecognized character '@'"
    );
    assert_eq!(check_source("(").unwrap_err().message(), "Error at 1:1-1:1 : Expected EXPR");
}
