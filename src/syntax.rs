use vstd::prelude::*;

use crate::text::{decimal, push_char, push_decimal};
use crate::type_def::{Type, TypeV};

verus! {

/// A token: what was read, and where.
#[derive(Debug, Clone, PartialEq, Eq)]
pub struct Token {
    pub kind: TokenKind,
    pub info: TokenInfo,
}

/// The span of a token: 1-based row and column of its first and last character.
#[derive(Debug, Clone, Copy, PartialEq, Eq, Structural)]
pub struct TokenInfo {
    pub s_col: usize,
    pub s_row: usize,
    pub e_col: usize,
    pub e_row: usize,
}

/// A span written `start_row:start_col-end_row:end_col`.
pub open spec fn span_text(i: TokenInfo) -> Seq<char> {
    decimal(i.s_row as nat) + seq![':'] + decimal(i.s_col as nat) + seq!['-'] + decimal(
        i.e_row as nat,
    ) + seq![':'] + decimal(i.e_col as nat)
}

impl TokenInfo {
    /// The span written `start_row:start_col-end_row:end_col`.
    pub fn to_string(&self) -> (r: String)
        ensures
            r@ == span_text(*self),
    {
        let mut s = String::new();
        push_decimal(&mut s, self.s_row);
        push_char(&mut s, ':');
        push_decimal(&mut s, self.s_col);
        push_char(&mut s, '-');
        push_decimal(&mut s, self.e_row);
        push_char(&mut s, ':');
        push_decimal(&mut s, self.e_col);
        assert(s@ =~= span_text(*self));
        s
    }
}

#[derive(Debug, Clone, PartialEq, Eq)]
pub enum TokenKind {
    // symbols
    Func,
    FuncAnon,
    RParen,
    LParen,
    RBrace,
    LBrace,
    Comma,
    Colon,
    SemiColon,
    Arrow,
    // literal values
    Num(String),
    Ident(String),
    UnitVal,
    // types
    I32,
    UnitType,
    FuncType,
    // end of input
    EOF,
}

/// The mathematical model of a [`TokenKind`]: literals carry their characters.
pub enum TokenKindV {
    Func,
    FuncAnon,
    RParen,
    LParen,
    RBrace,
    LBrace,
    Comma,
    Colon,
    SemiColon,
    Arrow,
    Num(Seq<char>),
    Ident(Seq<char>),
    UnitVal,
    I32,
    UnitType,
    FuncType,
    EOF,
}

impl View for TokenKind {
    type V = TokenKindV;

    open spec fn view(&self) -> TokenKindV {
        match self {
            TokenKind::Func => TokenKindV::Func,
            TokenKind::FuncAnon => TokenKindV::FuncAnon,
            TokenKind::RParen => TokenKindV::RParen,
            TokenKind::LParen => TokenKindV::LParen,
            TokenKind::RBrace => TokenKindV::RBrace,
            TokenKind::LBrace => TokenKindV::LBrace,
            TokenKind::Comma => TokenKindV::Comma,
            TokenKind::Colon => TokenKindV::Colon,
            TokenKind::SemiColon => TokenKindV::SemiColon,
            TokenKind::Arrow => TokenKindV::Arrow,
            TokenKind::Num(s) => TokenKindV::Num(s@),
            TokenKind::Ident(s) => TokenKindV::Ident(s@),
            TokenKind::UnitVal => TokenKindV::UnitVal,
            TokenKind::I32 => TokenKindV::I32,
            TokenKind::UnitType => TokenKindV::UnitType,
            TokenKind::FuncType => TokenKindV::FuncType,
            TokenKind::EOF => TokenKindV::EOF,
        }
    }
}

/// The mathematical model of a [`Token`].
pub struct TokenV {
    pub kind: TokenKindV,
    pub info: TokenInfo,
}

impl View for Token {
    type V = TokenV;

    open spec fn view(&self) -> TokenV {
        TokenV { kind: self.kind@, info: self.info }
    }
}

/// The model of a list of expressions.
pub open spec fn exprs_view(es: Seq<Box<Expr>>) -> Seq<ExprV> {
    Seq::new(es.len(), |i: int| (*es[i])@)
}

/// The model of a token sequence.
pub open spec fn tokens_view(ts: Seq<Token>) -> Seq<TokenV> {
    Seq::new(ts.len(), |i: int| ts[i]@)
}

impl TokenKind {
    /// A copy whose model is that of `self`.
    pub fn duplicate(&self) -> (r: TokenKind)
        ensures
            r@ == self@,
    {
        match self {
            TokenKind::Func => TokenKind::Func,
            TokenKind::FuncAnon => TokenKind::FuncAnon,
            TokenKind::RParen => TokenKind::RParen,
            TokenKind::LParen => TokenKind::LParen,
            TokenKind::RBrace => TokenKind::RBrace,
            TokenKind::LBrace => TokenKind::LBrace,
            TokenKind::Comma => TokenKind::Comma,
            TokenKind::Colon => TokenKind::Colon,
            TokenKind::SemiColon => TokenKind::SemiColon,
            TokenKind::Arrow => TokenKind::Arrow,
            TokenKind::Num(s) => TokenKind::Num(s.clone()),
            TokenKind::Ident(s) => TokenKind::Ident(s.clone()),
            TokenKind::UnitVal => TokenKind::UnitVal,
            TokenKind::I32 => TokenKind::I32,
            TokenKind::UnitType => TokenKind::UnitType,
            TokenKind::FuncType => TokenKind::FuncType,
            TokenKind::EOF => TokenKind::EOF,
        }
    }
}

/// The syntax tree of an expression.
#[derive(Debug, PartialEq)]
pub enum Expr {
    I32 { val: i32 },
    Unit,
    AnonFunc { args_decl: Vec<ArgDecl>, ret_decl: Type, block: Box<Expr> },
    Block { exprs: Vec<Box<Expr>> },
    Var { name: String },
    FuncApp { callee: Box<Expr>, args: Vec<Box<Expr>> },
}

/// The mathematical model of an [`Expr`].
pub enum ExprV {
    I32 { val: i32 },
    Unit,
    AnonFunc { args_decl: Seq<ArgDeclV>, ret_decl: TypeV, block: Box<ExprV> },
    Block { exprs: Seq<ExprV> },
    Var { name: Seq<char> },
    FuncApp { callee: Box<ExprV>, args: Seq<ExprV> },
}

pub open spec fn expr_view(e: Expr) -> ExprV
    decreases e,
{
    match e {
        Expr::I32 { val } => ExprV::I32 { val },
        Expr::Unit => ExprV::Unit,
        Expr::AnonFunc { args_decl, ret_decl, block } => ExprV::AnonFunc {
            args_decl: Seq::new(args_decl.len() as nat, |i: int| args_decl@[i]@),
            ret_decl: ret_decl@,
            block: Box::new(expr_view(*block)),
        },
        Expr::Block { exprs } => ExprV::Block {
            exprs: Seq::new(
                exprs.len() as nat,
                |i: int|
                    if 0 <= i < exprs.len() {
                        expr_view(*exprs[i])
                    } else {
                        ExprV::Unit
                    },
            ),
        },
        Expr::Var { name } => ExprV::Var { name: name@ },
        Expr::FuncApp { callee, args } => ExprV::FuncApp {
            callee: Box::new(expr_view(*callee)),
            args: Seq::new(
                args.len() as nat,
                |i: int|
                    if 0 <= i < args.len() {
                        expr_view(*args[i])
                    } else {
                        ExprV::Unit
                    },
            ),
        },
    }
}

impl View for Expr {
    type V = ExprV;

    open spec fn view(&self) -> ExprV {
        expr_view(*self)
    }
}

/// A parameter declaration: a name and its declared type.
#[derive(Debug, PartialEq)]
pub struct ArgDecl {
    pub vname: String,
    pub vtype: Type,
}

/// The mathematical model of an [`ArgDecl`].
pub struct ArgDeclV {
    pub vname: Seq<char>,
    pub vtype: TypeV,
}

impl View for ArgDecl {
    type V = ArgDeclV;

    open spec fn view(&self) -> ArgDeclV {
        ArgDeclV { vname: self.vname@, vtype: self.vtype@ }
    }
}

/// The model of a list of declarations.
pub open spec fn decls_view(ds: Seq<ArgDecl>) -> Seq<ArgDeclV> {
    Seq::new(ds.len(), |i: int| ds[i]@)
}

impl ArgDecl {
    /// The declared type.
    pub fn into_type(self) -> (r: Type)
        ensures
            r@ == self@.vtype,
    {
        self.vtype
    }
}

} // verus!
