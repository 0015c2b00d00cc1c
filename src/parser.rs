use vstd::prelude::*;

use crate::syntax::{
    ArgDecl, ArgDeclV, Expr, ExprV, Token, TokenInfo, TokenKind, TokenKindV, TokenV, decls_view,
    exprs_view, tokens_view,
};
use crate::text::push_str;
use crate::syntax::span_text;
use crate::type_def::{Type, TypeV, types_view};

verus! {

/// What the parser expected where it stopped.
#[derive(Debug, Clone, Copy, PartialEq, Eq, Structural)]
pub enum Expected {
    Expr,
    Ident,
    Colon,
    Type,
    LParen,
    RParen,
    Arrow,
    Block,
    CommaOrRParen,
    SemiColonOrRBrace,
    EndOfInput,
    NumberInRange,
}

/// How an expectation is written in an error message.
pub open spec fn expected_text(e: Expected) -> Seq<char> {
    match e {
        Expected::Expr => "EXPR"@,
        Expected::Ident => "IDENT"@,
        Expected::Colon => "COLON"@,
        Expected::Type => "TYPE"@,
        Expected::LParen => "LPAREN"@,
        Expected::RParen => "RPAREN"@,
        Expected::Arrow => "ARROW"@,
        Expected::Block => "BLOCK"@,
        Expected::CommaOrRParen => "[COMMA,RPAREN]"@,
        Expected::SemiColonOrRBrace => "[SEMICOLON,RBRACE]"@,
        Expected::EndOfInput => "EOF"@,
        Expected::NumberInRange => "I32 LITERAL"@,
    }
}

impl Expected {
    /// How this expectation is written in an error message.
    pub fn description(&self) -> (r: &'static str)
        ensures
            r@ == expected_text(*self),
    {
        match self {
            Expected::Expr => "EXPR",
            Expected::Ident => "IDENT",
            Expected::Colon => "COLON",
            Expected::Type => "TYPE",
            Expected::LParen => "LPAREN",
            Expected::RParen => "RPAREN",
            Expected::Arrow => "ARROW",
            Expected::Block => "BLOCK",
            Expected::CommaOrRParen => "[COMMA,RPAREN]",
            Expected::SemiColonOrRBrace => "[SEMICOLON,RBRACE]",
            Expected::EndOfInput => "EOF",
            Expected::NumberInRange => "I32 LITERAL",
        }
    }
}

/// The first token that does not fit the grammar, and what was expected there.
#[derive(Debug, PartialEq, Eq)]
pub struct ParseError {
    pub expected: Expected,
    pub found: TokenKind,
    pub span: TokenInfo,
}

/// The mathematical model of a [`ParseError`].
pub struct ParseErrorV {
    pub expected: Expected,
    pub found: TokenKindV,
    pub span: TokenInfo,
}

impl ParseError {
    /// `Error at <span> : Expected <what>`.
    pub open spec fn message_text(&self) -> Seq<char> {
        "Error at "@ + span_text(self.span) + " : Expected "@ + expected_text(self.expected)
    }

    /// `Error at <span> : Expected <what>`.
    pub fn message(&self) -> (r: String)
        ensures
            r@ == self.message_text(),
    {
        let mut s = String::new();
        push_str(&mut s, "Error at ");
        let sp = self.span.to_string();
        push_str(&mut s, sp.as_str());
        push_str(&mut s, " : Expected ");
        push_str(&mut s, self.expected.description());
        s
    }
}

impl View for ParseError {
    type V = ParseErrorV;

    open spec fn view(&self) -> ParseErrorV {
        ParseErrorV { expected: self.expected, found: self.found@, span: self.span }
    }
}

/// The tokens left once every `EOF` marker is taken out.
pub open spec fn without_eof(ts: Seq<TokenV>) -> Seq<TokenV>
    decreases ts.len(),
{
    if ts.len() == 0 {
        ts
    } else if ts.last().kind is EOF {
        without_eof(ts.drop_last())
    } else {
        without_eof(ts.drop_last()).push(ts.last())
    }
}

pub open spec fn zero_span() -> TokenInfo {
    TokenInfo { s_col: 0, s_row: 0, e_col: 0, e_row: 0 }
}

/// The token at index `i`; past the end, `EOF` with the span of the last token.
pub open spec fn tok_at(ts: Seq<TokenV>, i: int) -> TokenV {
    if 0 <= i < ts.len() {
        ts[i]
    } else {
        TokenV {
            kind: TokenKindV::EOF,
            info: if ts.len() > 0 {
                ts.last().info
            } else {
                zero_span()
            },
        }
    }
}

pub open spec fn kind_at(ts: Seq<TokenV>, i: int) -> TokenKindV {
    tok_at(ts, i).kind
}

/// The error reported at index `i`.
pub open spec fn err_at(ts: Seq<TokenV>, i: int, expected: Expected) -> ParseErrorV {
    ParseErrorV { expected, found: tok_at(ts, i).kind, span: tok_at(ts, i).info }
}

/// Whether a production that started at `i` and stopped at `j` read at least
/// one token and stayed within the input. Every production does
/// (`lemma_expr_advances`, `lemma_type_advances`); testing it keeps the
/// recursion of the grammar well-founded.
pub open spec fn advances(ts: Seq<TokenV>, i: int, j: int) -> bool {
    i < j <= ts.len()
}

pub open spec fn is_digit(c: char) -> bool {
    '0' <= c <= '9'
}

/// The number that a string of decimal digits denotes.
pub open spec fn digits_value(s: Seq<char>) -> int
    decreases s.len(),
{
    if s.len() == 0 {
        0
    } else {
        digits_value(s.drop_last()) * 10 + (s.last() as int - '0' as int)
    }
}

/// The `i32` that a numeric literal denotes, if it is made of decimal digits
/// and fits.
pub open spec fn literal_value(s: Seq<char>) -> Option<i32> {
    if s.len() > 0 && (forall|k: int| 0 <= k < s.len() ==> is_digit(#[trigger] s[k]))
        && digits_value(s) <= i32::MAX {
        Some(digits_value(s) as i32)
    } else {
        None
    }
}

/// `type := Ident | 'I32' | 'Unit' | 'Fn' '(' type (',' type)* ')' '->' type`
pub open spec fn p_type(ts: Seq<TokenV>, i: int) -> Result<(TypeV, int), ParseErrorV>
    decreases ts.len() - i, 0int,
{
    match kind_at(ts, i) {
        TokenKindV::Ident(name) => Ok((TypeV::UserType { name }, i + 1)),
        TokenKindV::I32 => Ok((TypeV::I32, i + 1)),
        TokenKindV::UnitType => Ok((TypeV::Unit, i + 1)),
        TokenKindV::FuncType => if !(kind_at(ts, i + 1) is LParen) {
            Err(err_at(ts, i + 1, Expected::LParen))
        } else {
            match p_type_list(ts, i + 2, Seq::empty()) {
                Err(x) => Err(x),
                Ok((args, j)) => if !advances(ts, i, j) {
                    Err(err_at(ts, i, Expected::Type))
                } else if !(kind_at(ts, j) is Arrow) {
                    Err(err_at(ts, j, Expected::Arrow))
                } else {
                    match p_type(ts, j + 1) {
                        Err(x) => Err(x),
                        Ok((ret, k)) => Ok((TypeV::Func { args, ret: Box::new(ret) }, k)),
                    }
                },
            }
        },
        _ => Err(err_at(ts, i, Expected::Type)),
    }
}

/// `type (',' type)* ')'`, after the types in `acc`.
pub open spec fn p_type_list(ts: Seq<TokenV>, i: int, acc: Seq<TypeV>) -> Result<
    (Seq<TypeV>, int),
    ParseErrorV,
>
    decreases ts.len() - i, 1int,
{
    match p_type(ts, i) {
        Err(x) => Err(x),
        Ok((t, j)) => if !advances(ts, i, j) {
            Err(err_at(ts, i, Expected::Type))
        } else if kind_at(ts, j) is Comma {
            p_type_list(ts, j + 1, acc.push(t))
        } else if kind_at(ts, j) is RParen {
            Ok((acc.push(t), j + 1))
        } else {
            Err(err_at(ts, j, Expected::CommaOrRParen))
        },
    }
}

/// `Ident ':' type (',' Ident ':' type)* ')'`, after the declarations in `acc`.
pub open spec fn p_params_list(ts: Seq<TokenV>, i: int, acc: Seq<ArgDeclV>) -> Result<
    (Seq<ArgDeclV>, int),
    ParseErrorV,
>
    decreases ts.len() - i,
{
    match kind_at(ts, i) {
        TokenKindV::Ident(vname) => if !(kind_at(ts, i + 1) is Colon) {
            Err(err_at(ts, i + 1, Expected::Colon))
        } else {
            match p_type(ts, i + 2) {
                Err(x) => Err(x),
                Ok((vtype, j)) => if !advances(ts, i, j) {
                    Err(err_at(ts, i, Expected::Type))
                } else if kind_at(ts, j) is Comma {
                    p_params_list(ts, j + 1, acc.push(ArgDeclV { vname, vtype }))
                } else if kind_at(ts, j) is RParen {
                    Ok((acc.push(ArgDeclV { vname, vtype }), j + 1))
                } else {
                    Err(err_at(ts, j, Expected::CommaOrRParen))
                },
            }
        },
        _ => Err(err_at(ts, i, Expected::Ident)),
    }
}

/// `args_decl ')'`, just after the `(`.
pub open spec fn p_params(ts: Seq<TokenV>, i: int) -> Result<(Seq<ArgDeclV>, int), ParseErrorV> {
    if kind_at(ts, i) is RParen {
        Ok((Seq::empty(), i + 1))
    } else {
        p_params_list(ts, i, Seq::empty())
    }
}

/// `expr := simple_expr ( '(' args ')' )*`
pub open spec fn p_expr(ts: Seq<TokenV>, i: int) -> Result<(ExprV, int), ParseErrorV>
    decreases ts.len() - i, 1int,
{
    match p_simple(ts, i) {
        Err(x) => Err(x),
        Ok((e, j)) => if !advances(ts, i, j) {
            Err(err_at(ts, i, Expected::Expr))
        } else {
            p_calls(ts, j, e)
        },
    }
}

/// The calls that follow `callee`.
pub open spec fn p_calls(ts: Seq<TokenV>, i: int, callee: ExprV) -> Result<(ExprV, int), ParseErrorV>
    decreases ts.len() - i, 1int,
{
    if kind_at(ts, i) is LParen {
        match p_args(ts, i + 1) {
            Err(x) => Err(x),
            Ok((args, j)) => if !advances(ts, i, j) {
                Err(err_at(ts, i, Expected::Expr))
            } else {
                p_calls(ts, j, ExprV::FuncApp { callee: Box::new(callee), args })
            },
        }
    } else {
        Ok((callee, i))
    }
}

/// `args ')'`, just after the `(`.
pub open spec fn p_args(ts: Seq<TokenV>, i: int) -> Result<(Seq<ExprV>, int), ParseErrorV>
    decreases ts.len() - i, 3int,
{
    if kind_at(ts, i) is RParen {
        Ok((Seq::empty(), i + 1))
    } else {
        p_args_list(ts, i, Seq::empty())
    }
}

/// `expr (',' expr)* ')'`, after the arguments in `acc`.
pub open spec fn p_args_list(ts: Seq<TokenV>, i: int, acc: Seq<ExprV>) -> Result<
    (Seq<ExprV>, int),
    ParseErrorV,
>
    decreases ts.len() - i, 2int,
{
    match p_expr(ts, i) {
        Err(x) => Err(x),
        Ok((e, j)) => if !advances(ts, i, j) {
            Err(err_at(ts, i, Expected::Expr))
        } else if kind_at(ts, j) is Comma {
            p_args_list(ts, j + 1, acc.push(e))
        } else if kind_at(ts, j) is RParen {
            Ok((acc.push(e), j + 1))
        } else {
            Err(err_at(ts, j, Expected::CommaOrRParen))
        },
    }
}

/// `block := expr (';' expr)* '}'`, after the expressions in `acc`.
pub open spec fn p_block(ts: Seq<TokenV>, i: int, acc: Seq<ExprV>) -> Result<(ExprV, int), ParseErrorV>
    decreases ts.len() - i, 2int,
{
    match p_expr(ts, i) {
        Err(x) => Err(x),
        Ok((e, j)) => if !advances(ts, i, j) {
            Err(err_at(ts, i, Expected::Expr))
        } else if kind_at(ts, j) is SemiColon {
            p_block(ts, j + 1, acc.push(e))
        } else if kind_at(ts, j) is RBrace {
            Ok((ExprV::Block { exprs: acc.push(e) }, j + 1))
        } else {
            Err(err_at(ts, j, Expected::SemiColonOrRBrace))
        },
    }
}

/// `anon_func := '(' args_decl ')' '->' type '{' block`, after `function`.
pub open spec fn p_anon(ts: Seq<TokenV>, i: int) -> Result<(ExprV, int), ParseErrorV>
    decreases ts.len() - i, 0int,
{
    if !(kind_at(ts, i) is LParen) {
        Err(err_at(ts, i, Expected::LParen))
    } else {
        match p_params(ts, i + 1) {
            Err(x) => Err(x),
            Ok((args_decl, j)) => if !advances(ts, i, j) {
                Err(err_at(ts, i, Expected::LParen))
            } else if !(kind_at(ts, j) is Arrow) {
                Err(err_at(ts, j, Expected::Arrow))
            } else {
                match p_type(ts, j + 1) {
                    Err(x) => Err(x),
                    Ok((ret_decl, k)) => if !advances(ts, i, k) {
                        Err(err_at(ts, i, Expected::Type))
                    } else if !(kind_at(ts, k) is LBrace) {
                        Err(err_at(ts, k, Expected::Block))
                    } else {
                        match p_block(ts, k + 1, Seq::empty()) {
                            Err(x) => Err(x),
                            Ok((block, m)) => Ok(
                                (ExprV::AnonFunc { args_decl, ret_decl, block: Box::new(block) }, m),
                            ),
                        }
                    },
                }
            },
        }
    }
}

/// `simple_expr := Num | Ident | 'unit' | 'function' anon_func | '(' expr ')' | '{' block`
pub open spec fn p_simple(ts: Seq<TokenV>, i: int) -> Result<(ExprV, int), ParseErrorV>
    decreases ts.len() - i, 0int,
{
    if !(0 <= i < ts.len()) {
        Err(err_at(ts, i, Expected::Expr))
    } else {
        match kind_at(ts, i) {
            TokenKindV::Num(s) => match literal_value(s) {
                Some(val) => Ok((ExprV::I32 { val }, i + 1)),
                None => Err(err_at(ts, i, Expected::NumberInRange)),
            },
            TokenKindV::Ident(name) => Ok((ExprV::Var { name }, i + 1)),
            TokenKindV::UnitVal => Ok((ExprV::Unit, i + 1)),
            TokenKindV::FuncAnon => p_anon(ts, i + 1),
            TokenKindV::LParen => match p_expr(ts, i + 1) {
                Err(x) => Err(x),
                Ok((e, j)) => if !(kind_at(ts, j) is RParen) {
                    Err(err_at(ts, j, Expected::RParen))
                } else {
                    Ok((e, j + 1))
                },
            },
            TokenKindV::LBrace => p_block(ts, i + 1, Seq::empty()),
            _ => Err(err_at(ts, i, Expected::Expr)),
        }
    }
}

/// `program := expr` from index `i`, which must take up the rest of the tokens.
pub open spec fn p_program_at(ts: Seq<TokenV>, i: int) -> Result<ExprV, ParseErrorV> {
    match p_expr(ts, i) {
        Err(x) => Err(x),
        Ok((e, j)) => if j == ts.len() {
            Ok(e)
        } else {
            Err(err_at(ts, j, Expected::EndOfInput))
        },
    }
}

/// `program := expr`, which must take up all the tokens.
pub open spec fn p_program(ts: Seq<TokenV>) -> Result<ExprV, ParseErrorV> {
    p_program_at(ts, 0)
}

proof fn lemma_prefix_value_le(s: Seq<char>, k: int)
    requires
        0 <= k <= s.len(),
        forall|j: int| 0 <= j < s.len() ==> is_digit(#[trigger] s[j]),
    ensures
        0 <= digits_value(s.subrange(0, k)) <= digits_value(s),
    decreases s.len() - k,
{
    if k < s.len() {
        lemma_prefix_value_le(s, k + 1);
        assert(s.subrange(0, k + 1).drop_last() =~= s.subrange(0, k));
    } else {
        assert(s.subrange(0, k) =~= s);
    }
    lemma_value_nonneg(s.subrange(0, k));
}

proof fn lemma_value_nonneg(s: Seq<char>)
    requires
        forall|j: int| 0 <= j < s.len() ==> is_digit(#[trigger] s[j]),
    ensures
        digits_value(s) >= 0,
    decreases s.len(),
{
    if s.len() > 0 {
        lemma_value_nonneg(s.drop_last());
    }
}

/// A type read from index `i` takes at least one token and stays within the input.
pub proof fn lemma_type_advances(ts: Seq<TokenV>, i: int)
    requires
        0 <= i,
    ensures
        p_type(ts, i) is Ok ==> advances(ts, i, p_type(ts, i)->Ok_0.1),
    decreases ts.len() - i, 0int,
{
    if kind_at(ts, i) is FuncType && kind_at(ts, i + 1) is LParen {
        lemma_type_list_advances(ts, i + 2, Seq::empty());
        if p_type_list(ts, i + 2, Seq::empty()) is Ok {
            let j = p_type_list(ts, i + 2, Seq::empty())->Ok_0.1;
            if advances(ts, i, j) && kind_at(ts, j) is Arrow {
                lemma_type_advances(ts, j + 1);
            }
        }
    }
}

/// A list of types read from index `i` takes at least one token.
pub proof fn lemma_type_list_advances(ts: Seq<TokenV>, i: int, acc: Seq<TypeV>)
    requires
        0 <= i,
    ensures
        p_type_list(ts, i, acc) is Ok ==> advances(ts, i, p_type_list(ts, i, acc)->Ok_0.1),
    decreases ts.len() - i, 1int,
{
    lemma_type_advances(ts, i);
    if p_type(ts, i) is Ok {
        let (t, j) = p_type(ts, i)->Ok_0;
        if advances(ts, i, j) && kind_at(ts, j) is Comma {
            lemma_type_list_advances(ts, j + 1, acc.push(t));
        }
    }
}

/// A parameter list read from index `i` takes at least one token.
proof fn lemma_params_list_advances(ts: Seq<TokenV>, i: int, acc: Seq<ArgDeclV>)
    requires
        0 <= i,
    ensures
        p_params_list(ts, i, acc) is Ok ==> advances(ts, i, p_params_list(ts, i, acc)->Ok_0.1),
    decreases ts.len() - i,
{
    if kind_at(ts, i) is Ident && kind_at(ts, i + 1) is Colon {
        lemma_type_advances(ts, i + 2);
        if p_type(ts, i + 2) is Ok {
            let (vtype, j) = p_type(ts, i + 2)->Ok_0;
            if advances(ts, i, j) && kind_at(ts, j) is Comma {
                let d = ArgDeclV { vname: kind_at(ts, i)->Ident_0, vtype };
                lemma_params_list_advances(ts, j + 1, acc.push(d));
            }
        }
    }
}

/// The parameters of a function, read from index `i`, take at least one token.
pub proof fn lemma_params_advance(ts: Seq<TokenV>, i: int)
    requires
        0 <= i,
    ensures
        p_params(ts, i) is Ok ==> advances(ts, i, p_params(ts, i)->Ok_0.1),
{
    lemma_params_list_advances(ts, i, Seq::empty());
}

/// An expression read from index `i` takes at least one token and stays
/// within the input: the test of `advances` in the grammar never fails.
pub proof fn lemma_expr_advances(ts: Seq<TokenV>, i: int)
    requires
        0 <= i,
    ensures
        p_expr(ts, i) is Ok ==> advances(ts, i, p_expr(ts, i)->Ok_0.1),
    decreases ts.len() - i, 1int,
{
    lemma_simple_advances(ts, i);
    if p_simple(ts, i) is Ok {
        let (e, j) = p_simple(ts, i)->Ok_0;
        if advances(ts, i, j) {
            lemma_calls_advance(ts, j, e);
        }
    }
}

proof fn lemma_calls_advance(ts: Seq<TokenV>, i: int, callee: ExprV)
    requires
        0 <= i <= ts.len(),
    ensures
        p_calls(ts, i, callee) is Ok ==> i <= p_calls(ts, i, callee)->Ok_0.1 <= ts.len(),
    decreases ts.len() - i, 1int,
{
    if kind_at(ts, i) is LParen {
        lemma_args_advance(ts, i + 1);
        if p_args(ts, i + 1) is Ok {
            let (args, j) = p_args(ts, i + 1)->Ok_0;
            if advances(ts, i, j) {
                lemma_calls_advance(ts, j, ExprV::FuncApp { callee: Box::new(callee), args });
            }
        }
    }
}

proof fn lemma_args_advance(ts: Seq<TokenV>, i: int)
    requires
        0 <= i,
    ensures
        p_args(ts, i) is Ok ==> advances(ts, i, p_args(ts, i)->Ok_0.1),
    decreases ts.len() - i, 3int,
{
    if !(kind_at(ts, i) is RParen) {
        lemma_args_list_advance(ts, i, Seq::empty());
    }
}

proof fn lemma_args_list_advance(ts: Seq<TokenV>, i: int, acc: Seq<ExprV>)
    requires
        0 <= i,
    ensures
        p_args_list(ts, i, acc) is Ok ==> advances(ts, i, p_args_list(ts, i, acc)->Ok_0.1),
    decreases ts.len() - i, 2int,
{
    lemma_expr_advances(ts, i);
    if p_expr(ts, i) is Ok {
        let (e, j) = p_expr(ts, i)->Ok_0;
        if advances(ts, i, j) && kind_at(ts, j) is Comma {
            lemma_args_list_advance(ts, j + 1, acc.push(e));
        }
    }
}

proof fn lemma_block_advances(ts: Seq<TokenV>, i: int, acc: Seq<ExprV>)
    requires
        0 <= i,
    ensures
        p_block(ts, i, acc) is Ok ==> advances(ts, i, p_block(ts, i, acc)->Ok_0.1),
    decreases ts.len() - i, 2int,
{
    lemma_expr_advances(ts, i);
    if p_expr(ts, i) is Ok {
        let (e, j) = p_expr(ts, i)->Ok_0;
        if advances(ts, i, j) && kind_at(ts, j) is SemiColon {
            lemma_block_advances(ts, j + 1, acc.push(e));
        }
    }
}

proof fn lemma_anon_advances(ts: Seq<TokenV>, i: int)
    requires
        0 <= i,
    ensures
        p_anon(ts, i) is Ok ==> advances(ts, i, p_anon(ts, i)->Ok_0.1),
    decreases ts.len() - i, 0int,
{
    if kind_at(ts, i) is LParen {
        lemma_params_advance(ts, i + 1);
        if p_params(ts, i + 1) is Ok {
            let j = p_params(ts, i + 1)->Ok_0.1;
            if advances(ts, i, j) && kind_at(ts, j) is Arrow {
                lemma_type_advances(ts, j + 1);
                if p_type(ts, j + 1) is Ok {
                    let k = p_type(ts, j + 1)->Ok_0.1;
                    if advances(ts, i, k) && kind_at(ts, k) is LBrace {
                        lemma_block_advances(ts, k + 1, Seq::empty());
                    }
                }
            }
        }
    }
}

proof fn lemma_simple_advances(ts: Seq<TokenV>, i: int)
    requires
        0 <= i,
    ensures
        p_simple(ts, i) is Ok ==> advances(ts, i, p_simple(ts, i)->Ok_0.1),
    decreases ts.len() - i, 0int,
{
    if 0 <= i < ts.len() {
        match kind_at(ts, i) {
            TokenKindV::FuncAnon => lemma_anon_advances(ts, i + 1),
            TokenKindV::LParen => lemma_expr_advances(ts, i + 1),
            TokenKindV::LBrace => lemma_block_advances(ts, i + 1, Seq::empty()),
            _ => {},
        }
    }
}

/// The value of a numeric literal, if it is made of decimal digits and fits in
/// an `i32`.
pub fn literal_i32(s: &String) -> (r: Option<i32>)
    ensures
        r == literal_value(s@),
{
    let t = s.as_str();
    let n = t.unicode_len();
    if n == 0 {
        return None;
    }
    let mut acc: i32 = 0;
    let mut k: usize = 0;
    while k < n
        invariant
            n == s@.len(),
            t@ == s@,
            k <= n,
            forall|j: int| 0 <= j < k ==> is_digit(#[trigger] s@[j]),
            acc == digits_value(s@.subrange(0, k as int)),
            0 <= acc,
        decreases n - k,
    {
        let c = t.get_char(k);
        if !('0' <= c && c <= '9') {
            return None;
        }
        let d: i64 = (c as u32 - '0' as u32) as i64;
        let next: i64 = acc as i64 * 10 + d;
        assert(s@.subrange(0, k + 1).drop_last() =~= s@.subrange(0, k as int));
        if next > i32::MAX as i64 {
            proof {
                if forall|j: int| 0 <= j < s@.len() ==> is_digit(#[trigger] s@[j]) {
                    lemma_prefix_value_le(s@, k + 1);
                }
            }
            return None;
        }
        acc = next as i32;
        k = k + 1;
    }
    assert(s@.subrange(0, n as int) =~= s@);
    Some(acc)
}

/// The model of a parse result that carries the index reached.
pub open spec fn type_res(r: Result<Type, ParseError>, p: usize) -> Result<(TypeV, int), ParseErrorV> {
    match r {
        Ok(t) => Ok((t@, p as int)),
        Err(x) => Err(x@),
    }
}

pub open spec fn types_res(r: Result<Vec<Box<Type>>, ParseError>, p: usize) -> Result<
    (Seq<TypeV>, int),
    ParseErrorV,
> {
    match r {
        Ok(v) => Ok((types_view(v@), p as int)),
        Err(x) => Err(x@),
    }
}

pub open spec fn decls_res(r: Result<Vec<ArgDecl>, ParseError>, p: usize) -> Result<
    (Seq<ArgDeclV>, int),
    ParseErrorV,
> {
    match r {
        Ok(v) => Ok((decls_view(v@), p as int)),
        Err(x) => Err(x@),
    }
}

pub open spec fn expr_res(r: Result<Box<Expr>, ParseError>, p: usize) -> Result<(ExprV, int), ParseErrorV> {
    match r {
        Ok(e) => Ok(((*e)@, p as int)),
        Err(x) => Err(x@),
    }
}

pub open spec fn exprs_res(r: Result<Vec<Box<Expr>>, ParseError>, p: usize) -> Result<
    (Seq<ExprV>, int),
    ParseErrorV,
> {
    match r {
        Ok(v) => Ok((exprs_view(v@), p as int)),
        Err(x) => Err(x@),
    }
}

/// A recursive-descent parser: the tokens and the index of the current one.
pub struct Parser {
    pub tokens: Vec<Token>,
    pub pos: usize,
}

impl Parser {
    /// The model of the tokens.
    pub open spec fn ts(&self) -> Seq<TokenV> {
        tokens_view(self.tokens@)
    }

    pub open spec fn wf(&self) -> bool {
        self.pos <= self.tokens.len()
    }

    /// A parser on `tokens`, from which every `EOF` marker is taken out.
    pub fn new(tokens: Vec<Token>) -> (r: Parser)
        ensures
            r.wf(),
            r.pos == 0,
            r.ts() == without_eof(tokens_view(tokens@)),
    {
        let ghost all = tokens_view(tokens@);
        let mut kept: Vec<Token> = Vec::new();
        let mut i: usize = 0;
        assert(all.subrange(0, 0) =~= Seq::<TokenV>::empty());
        assert(tokens_view(kept@) =~= Seq::<TokenV>::empty());
        while i < tokens.len()
            invariant
                all == tokens_view(tokens@),
                i <= tokens.len(),
                tokens_view(kept@) == without_eof(all.subrange(0, i as int)),
            decreases tokens.len() - i,
        {
            assert(all.subrange(0, i + 1).drop_last() =~= all.subrange(0, i as int));
            let t = &tokens[i];
            match t.kind {
                TokenKind::EOF => {},
                _ => {
                    let copy = Token { kind: t.kind.duplicate(), info: t.info };
                    kept.push(copy);
                    assert(tokens_view(kept@) =~= without_eof(all.subrange(0, i as int)).push(
                        all[i as int],
                    ));
                },
            }
            i = i + 1;
        }
        assert(all.subrange(0, i as int) =~= all);
        Parser { tokens: kept, pos: 0 }
    }

    /// The kind of the current token; `EOF` past the end.
    fn current_kind(&self) -> (r: TokenKind)
        requires
            self.wf(),
        ensures
            r@ == kind_at(self.ts(), self.pos as int),
    {
        if self.pos < self.tokens.len() {
            self.tokens[self.pos].kind.duplicate()
        } else {
            TokenKind::EOF
        }
    }

    /// The error for the current token.
    fn make_error(&self, expected: Expected) -> (r: ParseError)
        requires
            self.wf(),
        ensures
            r@ == err_at(self.ts(), self.pos as int, expected),
    {
        let found = self.current_kind();
        let span = if self.pos < self.tokens.len() {
            self.tokens[self.pos].info
        } else if self.tokens.len() > 0 {
            self.tokens[self.tokens.len() - 1].info
        } else {
            TokenInfo { s_col: 0, s_row: 0, e_col: 0, e_row: 0 }
        };
        ParseError { expected, found, span }
    }

    /// Moves to the next token.
    fn next_token(&mut self)
        requires
            old(self).wf(),
            old(self).pos < old(self).tokens.len(),
        ensures
            final(self).wf(),
            final(self).tokens == old(self).tokens,
            final(self).pos == old(self).pos + 1,
    {
        self.pos = self.pos + 1;
    }

    /// `type`
    fn read_type(&mut self) -> (r: Result<Type, ParseError>)
        requires
            old(self).wf(),
        ensures
            final(self).wf(),
            final(self).tokens == old(self).tokens,
            r is Ok ==> old(self).pos < final(self).pos,
            type_res(r, final(self).pos) == p_type(old(self).ts(), old(self).pos as int),
        decreases old(self).tokens.len() - old(self).pos, 0int,
    {
        let ghost ts = self.ts();
        let ghost i = self.pos as int;
        match self.current_kind() {
            TokenKind::Ident(name) => {
                self.next_token();
                Ok(Type::UserType { name })
            },
            TokenKind::I32 => {
                self.next_token();
                Ok(Type::I32)
            },
            TokenKind::UnitType => {
                self.next_token();
                Ok(Type::Unit)
            },
            TokenKind::FuncType => {
                self.next_token();
                match self.current_kind() {
                    TokenKind::LParen => {},
                    _ => {
                        return Err(self.make_error(Expected::LParen));
                    },
                }
                self.next_token();
                let args = match self.read_type_args() {
                    Ok(a) => a,
                    Err(e) => {
                        return Err(e);
                    },
                };
                match self.current_kind() {
                    TokenKind::Arrow => {},
                    _ => {
                        return Err(self.make_error(Expected::Arrow));
                    },
                }
                self.next_token();
                let ret = match self.read_type() {
                    Ok(t) => t,
                    Err(e) => {
                        return Err(e);
                    },
                };
                let r = Type::Func { args, ret: Box::new(ret) };
                assert(r@->Func_args =~= types_view(args@));
                Ok(r)
            },
            _ => Err(self.make_error(Expected::Type)),
        }
    }

    /// `type (',' type)* ')'`
    fn read_type_args(&mut self) -> (r: Result<Vec<Box<Type>>, ParseError>)
        requires
            old(self).wf(),
        ensures
            final(self).wf(),
            final(self).tokens == old(self).tokens,
            r is Ok ==> old(self).pos < final(self).pos,
            types_res(r, final(self).pos) == p_type_list(
                old(self).ts(),
                old(self).pos as int,
                Seq::empty(),
            ),
        decreases old(self).tokens.len() - old(self).pos, 1int,
    {
        let ghost ts = self.ts();
        let ghost i0 = self.pos as int;
        let mut args: Vec<Box<Type>> = Vec::new();
        assert(types_view(args@) =~= Seq::<TypeV>::empty());
        loop
            invariant
                self.wf(),
                self.tokens == old(self).tokens,
                ts == self.ts(),
                i0 == old(self).pos,
                i0 <= self.pos,
                args.len() > 0 ==> i0 < self.pos,
                p_type_list(ts, i0, Seq::empty()) == p_type_list(
                    ts,
                    self.pos as int,
                    types_view(args@),
                ),
            decreases self.tokens.len() - self.pos,
        {
            let t = match self.read_type() {
                Ok(t) => t,
                Err(e) => {
                    return Err(e);
                },
            };
            let ghost acc = types_view(args@);
            args.push(Box::new(t));
            assert(types_view(args@) =~= acc.push(t@));
            match self.current_kind() {
                TokenKind::Comma => {
                    self.next_token();
                },
                TokenKind::RParen => {
                    self.next_token();
                    return Ok(args);
                },
                _ => {
                    return Err(self.make_error(Expected::CommaOrRParen));
                },
            }
        }
    }

    /// `args_decl ')'`, just after the `(` of a function.
    fn read_args_decl(&mut self) -> (r: Result<Vec<ArgDecl>, ParseError>)
        requires
            old(self).wf(),
        ensures
            final(self).wf(),
            final(self).tokens == old(self).tokens,
            r is Ok ==> old(self).pos < final(self).pos,
            decls_res(r, final(self).pos) == p_params(old(self).ts(), old(self).pos as int),
    {
        let ghost ts = self.ts();
        let ghost i0 = self.pos as int;
        let mut args_def: Vec<ArgDecl> = Vec::new();
        if let TokenKind::RParen = self.current_kind() {
            self.next_token();
            assert(decls_view(args_def@) =~= Seq::<ArgDeclV>::empty());
            return Ok(args_def);
        }
        assert(decls_view(args_def@) =~= Seq::<ArgDeclV>::empty());
        loop
            invariant
                self.wf(),
                self.tokens == old(self).tokens,
                ts == self.ts(),
                i0 == old(self).pos,
                i0 <= self.pos,
                args_def.len() > 0 ==> i0 < self.pos,
                p_params(ts, i0) == p_params_list(ts, self.pos as int, decls_view(args_def@)),
            decreases self.tokens.len() - self.pos,
        {
            let vname = match self.current_kind() {
                TokenKind::Ident(s) => {
                    self.next_token();
                    s
                },
                _ => {
                    return Err(self.make_error(Expected::Ident));
                },
            };
            match self.current_kind() {
                TokenKind::Colon => {
                    self.next_token();
                },
                _ => {
                    return Err(self.make_error(Expected::Colon));
                },
            }
            let vtype = match self.read_type() {
                Ok(t) => t,
                Err(e) => {
                    return Err(e);
                },
            };
            let ghost acc = decls_view(args_def@);
            let d = ArgDecl { vname, vtype };
            args_def.push(d);
            assert(decls_view(args_def@) =~= acc.push(d@));
            match self.current_kind() {
                TokenKind::RParen => {
                    self.next_token();
                    return Ok(args_def);
                },
                TokenKind::Comma => {
                    self.next_token();
                },
                _ => {
                    return Err(self.make_error(Expected::CommaOrRParen));
                },
            }
        }
    }

    /// `'->' type`
    fn read_ret_decl(&mut self) -> (r: Result<Type, ParseError>)
        requires
            old(self).wf(),
        ensures
            final(self).wf(),
            final(self).tokens == old(self).tokens,
            r is Ok ==> old(self).pos < final(self).pos,
            if kind_at(old(self).ts(), old(self).pos as int) is Arrow {
                type_res(r, final(self).pos) == p_type(old(self).ts(), old(self).pos + 1)
            } else {
                r is Err && r->Err_0@ == err_at(old(self).ts(), old(self).pos as int, Expected::Arrow)
            },
    {
        match self.current_kind() {
            TokenKind::Arrow => self.next_token(),
            _ => {
                return Err(self.make_error(Expected::Arrow));
            },
        }
        self.read_type()
    }

    /// `expr (',' expr)* ')'` or `')'`, just after the `(` of a call.
    fn read_args(&mut self) -> (r: Result<Vec<Box<Expr>>, ParseError>)
        requires
            old(self).wf(),
        ensures
            final(self).wf(),
            final(self).tokens == old(self).tokens,
            r is Ok ==> old(self).pos < final(self).pos,
            exprs_res(r, final(self).pos) == p_args(old(self).ts(), old(self).pos as int),
        decreases old(self).tokens.len() - old(self).pos, 3int,
    {
        let ghost ts = self.ts();
        let ghost i0 = self.pos as int;
        let mut tmp: Vec<Box<Expr>> = Vec::new();
        assert(exprs_view(tmp@) =~= Seq::<ExprV>::empty());
        if let TokenKind::RParen = self.current_kind() {
            self.next_token();
            return Ok(tmp);
        }
        loop
            invariant
                self.wf(),
                self.tokens == old(self).tokens,
                ts == self.ts(),
                i0 == old(self).pos,
                i0 <= self.pos,
                tmp.len() > 0 ==> i0 < self.pos,
                p_args(ts, i0) == p_args_list(ts, self.pos as int, exprs_view(tmp@)),
            decreases self.tokens.len() - self.pos,
        {
            let e = match self.read_expr() {
                Ok(e) => e,
                Err(x) => {
                    return Err(x);
                },
            };
            let ghost acc = exprs_view(tmp@);
            let ghost ev = (*e)@;
            tmp.push(e);
            assert(exprs_view(tmp@) =~= acc.push(ev));
            match self.current_kind() {
                TokenKind::RParen => {
                    self.next_token();
                    return Ok(tmp);
                },
                TokenKind::Comma => {
                    self.next_token();
                },
                _ => {
                    return Err(self.make_error(Expected::CommaOrRParen));
                },
            }
        }
    }

    /// `expr (';' expr)* '}'`, just after the `{`.
    fn read_block(&mut self) -> (r: Result<Box<Expr>, ParseError>)
        requires
            old(self).wf(),
        ensures
            final(self).wf(),
            final(self).tokens == old(self).tokens,
            r is Ok ==> old(self).pos < final(self).pos,
            expr_res(r, final(self).pos) == p_block(
                old(self).ts(),
                old(self).pos as int,
                Seq::empty(),
            ),
        decreases old(self).tokens.len() - old(self).pos, 2int,
    {
        let ghost ts = self.ts();
        let ghost i0 = self.pos as int;
        let mut exprs: Vec<Box<Expr>> = Vec::new();
        assert(exprs_view(exprs@) =~= Seq::<ExprV>::empty());
        loop
            invariant
                self.wf(),
                self.tokens == old(self).tokens,
                ts == self.ts(),
                i0 == old(self).pos,
                i0 <= self.pos,
                exprs.len() > 0 ==> i0 < self.pos,
                p_block(ts, i0, Seq::empty()) == p_block(ts, self.pos as int, exprs_view(exprs@)),
            decreases self.tokens.len() - self.pos,
        {
            let e = match self.read_expr() {
                Ok(e) => e,
                Err(x) => {
                    return Err(x);
                },
            };
            let ghost acc = exprs_view(exprs@);
            let ghost ev = (*e)@;
            exprs.push(e);
            assert(exprs_view(exprs@) =~= acc.push(ev));
            match self.current_kind() {
                TokenKind::SemiColon => {
                    self.next_token();
                },
                TokenKind::RBrace => {
                    self.next_token();
                    let r = Box::new(Expr::Block { exprs });
                    assert((*r)@->Block_exprs =~= acc.push(ev));
                    return Ok(r);
                },
                _ => {
                    return Err(self.make_error(Expected::SemiColonOrRBrace));
                },
            }
        }
    }

    /// `'(' args_decl ')' '->' type '{' block`, just after `function`.
    fn read_anon_func(&mut self) -> (r: Result<Box<Expr>, ParseError>)
        requires
            old(self).wf(),
        ensures
            final(self).wf(),
            final(self).tokens == old(self).tokens,
            r is Ok ==> old(self).pos < final(self).pos,
            expr_res(r, final(self).pos) == p_anon(old(self).ts(), old(self).pos as int),
        decreases old(self).tokens.len() - old(self).pos, 0int,
    {
        match self.current_kind() {
            TokenKind::LParen => self.next_token(),
            _ => {
                return Err(self.make_error(Expected::LParen));
            },
        }
        let args_decl = match self.read_args_decl() {
            Ok(a) => a,
            Err(x) => {
                return Err(x);
            },
        };
        let ret_decl = match self.read_ret_decl() {
            Ok(t) => t,
            Err(x) => {
                return Err(x);
            },
        };
        match self.current_kind() {
            TokenKind::LBrace => self.next_token(),
            _ => {
                return Err(self.make_error(Expected::Block));
            },
        }
        let block = match self.read_block() {
            Ok(b) => b,
            Err(x) => {
                return Err(x);
            },
        };
        let r = Box::new(Expr::AnonFunc { args_decl, ret_decl, block });
        assert((*r)@->AnonFunc_args_decl =~= decls_view(args_decl@));
        Ok(r)
    }

    /// `simple_expr ( '(' args ')' )*`
    fn read_expr(&mut self) -> (r: Result<Box<Expr>, ParseError>)
        requires
            old(self).wf(),
        ensures
            final(self).wf(),
            final(self).tokens == old(self).tokens,
            r is Ok ==> old(self).pos < final(self).pos,
            expr_res(r, final(self).pos) == p_expr(old(self).ts(), old(self).pos as int),
        decreases old(self).tokens.len() - old(self).pos, 1int,
    {
        let ghost ts = self.ts();
        let ghost i0 = self.pos as int;
        let mut ret_expr = match self.read_simple_expr() {
            Ok(e) => e,
            Err(x) => {
                return Err(x);
            },
        };
        loop
            invariant
                self.wf(),
                self.tokens == old(self).tokens,
                ts == self.ts(),
                i0 == old(self).pos,
                i0 < self.pos,
                p_expr(ts, i0) == p_calls(ts, self.pos as int, (*ret_expr)@),
            decreases self.tokens.len() - self.pos,
        {
            match self.current_kind() {
                TokenKind::LParen => {
                    self.next_token();
                    let args = match self.read_args() {
                        Ok(a) => a,
                        Err(x) => {
                            return Err(x);
                        },
                    };
                    let ghost cv = (*ret_expr)@;
                    ret_expr = Box::new(Expr::FuncApp { callee: ret_expr, args });
                    assert((*ret_expr)@->FuncApp_args =~= exprs_view(args@));
                    assert((*ret_expr)@ == ExprV::FuncApp {
                        callee: Box::new(cv),
                        args: exprs_view(args@),
                    });
                },
                _ => {
                    return Ok(ret_expr);
                },
            }
        }
    }

    /// `Num | Ident | 'unit' | 'function' anon_func | '(' expr ')' | '{' block`
    fn read_simple_expr(&mut self) -> (r: Result<Box<Expr>, ParseError>)
        requires
            old(self).wf(),
        ensures
            final(self).wf(),
            final(self).tokens == old(self).tokens,
            r is Ok ==> old(self).pos < final(self).pos,
            expr_res(r, final(self).pos) == p_simple(old(self).ts(), old(self).pos as int),
        decreases old(self).tokens.len() - old(self).pos, 0int,
    {
        if self.pos >= self.tokens.len() {
            return Err(self.make_error(Expected::Expr));
        }
        match self.current_kind() {
            TokenKind::Num(s) => match literal_i32(&s) {
                Some(val) => {
                    self.next_token();
                    Ok(Box::new(Expr::I32 { val }))
                },
                None => Err(self.make_error(Expected::NumberInRange)),
            },
            TokenKind::Ident(name) => {
                self.next_token();
                Ok(Box::new(Expr::Var { name }))
            },
            TokenKind::UnitVal => {
                self.next_token();
                Ok(Box::new(Expr::Unit))
            },
            TokenKind::FuncAnon => {
                self.next_token();
                self.read_anon_func()
            },
            TokenKind::LParen => {
                self.next_token();
                let e = match self.read_expr() {
                    Ok(e) => e,
                    Err(x) => {
                        return Err(x);
                    },
                };
                match self.current_kind() {
                    TokenKind::RParen => {
                        self.next_token();
                        Ok(e)
                    },
                    _ => Err(self.make_error(Expected::RParen)),
                }
            },
            TokenKind::LBrace => {
                self.next_token();
                self.read_block()
            },
            _ => Err(self.make_error(Expected::Expr)),
        }
    }

    /// A whole program from the current token on: one expression that takes up
    /// the rest of the tokens.
    pub fn parse_program(&mut self) -> (r: Result<Box<Expr>, ParseError>)
        requires
            old(self).wf(),
        ensures
            final(self).wf(),
            final(self).tokens == old(self).tokens,
            match p_program_at(old(self).ts(), old(self).pos as int) {
                Ok(e) => r is Ok && (*r->Ok_0)@ == e,
                Err(x) => r is Err && r->Err_0@ == x,
            },
    {
        let e = match self.read_expr() {
            Ok(e) => e,
            Err(x) => {
                return Err(x);
            },
        };
        if self.pos < self.tokens.len() {
            return Err(self.make_error(Expected::EndOfInput));
        }
        Ok(e)
    }
}

/// Taking the `EOF` markers out of a sequence that has none changes nothing.
pub proof fn lemma_without_eof_unchanged(ts: Seq<TokenV>)
    requires
        forall|j: int| 0 <= j < ts.len() ==> !(#[trigger] ts[j].kind is EOF),
    ensures
        without_eof(ts) == ts,
    decreases ts.len(),
{
    if ts.len() > 0 {
        lemma_without_eof_unchanged(ts.drop_last());
        assert(ts.drop_last().push(ts.last()) =~= ts);
    }
}

/// The model of what parsing a program gives.
pub open spec fn parsed(r: Result<Expr, ParseError>) -> Result<ExprV, ParseErrorV> {
    match r {
        Ok(e) => Ok(e@),
        Err(x) => Err(x@),
    }
}

/// The syntax tree of a program, from its tokens; `EOF` markers are skipped.
pub fn parse(tokens: Vec<Token>) -> (r: Result<Expr, ParseError>)
    ensures
        parsed(r) == p_program(without_eof(tokens_view(tokens@))),
{
    let mut parser = Parser::new(tokens);
    match parser.parse_program() {
        Ok(e) => Ok(*e),
        Err(x) => Err(x),
    }
}

} // verus!
