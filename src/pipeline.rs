use vstd::prelude::*;

use crate::lexer::{LexError, lemma_lexed_has_no_eof, lex_spec, lexed, tokenize};
use crate::parser::{
    ParseError, lemma_without_eof_unchanged, p_program, parse, parsed, without_eof,
};
use crate::syntax::{Expr, TokenV, tokens_view};
use crate::type_def::TypedExpr;
use crate::typing::{TypeError, type_error_text, typecheck, typed_expr_matches};

verus! {

/// The first error met on the way from source text to a typed tree.
#[derive(Debug, PartialEq)]
pub enum FrontEndError {
    Lex(LexError),
    Parse(ParseError),
    Type(TypeError),
}

impl FrontEndError {
    /// A description of the error, with its position where it has one.
    pub fn message(&self) -> (r: String)
        ensures
            match self {
                FrontEndError::Lex(e) => r@ == e.message_text(),
                FrontEndError::Parse(e) => r@ == e.message_text(),
                FrontEndError::Type(e) => r@ == type_error_text(e@),
            },
    {
        match self {
            FrontEndError::Lex(e) => e.message(),
            FrontEndError::Parse(e) => e.message(),
            FrontEndError::Type(e) => e.message(),
        }
    }
}

/// When the grammar accepts the tokens `ts` of a source text `s`, parsing what
/// the tokenizer returned for `s` (`r`, as `parse` ensures it) succeeds, with
/// the one root expression that the grammar derives.
pub proof fn lemma_accepted_source_parses(
    s: Seq<char>,
    ts: Seq<TokenV>,
    r: Result<Expr, ParseError>,
)
    requires
        lex_spec(s) == Ok::<Seq<TokenV>, LexError>(ts),
        p_program(ts) is Ok,
        parsed(r) == p_program(without_eof(ts)),
    ensures
        r is Ok,
        r->Ok_0@ == p_program(ts)->Ok_0,
{
    lemma_lexed_has_no_eof(s, 0);
    lemma_without_eof_unchanged(ts);
}

/// Tokenizes, parses and checks `source`, stopping at the first error.
pub fn check_source(source: &str) -> (r: Result<TypedExpr, FrontEndError>)
    requires
        source@.len() < usize::MAX,
    ensures
        match lex_spec(source@) {
            Err(e) => r == Err::<TypedExpr, FrontEndError>(FrontEndError::Lex(e)),
            Ok(ts) => match p_program(ts) {
                Err(x) => r is Err && r->Err_0 is Parse && r->Err_0->Parse_0@ == x,
                Ok(e) => match r {
                    Err(FrontEndError::Type(y)) => typed_expr_matches(e, Seq::empty(), Err(y)),
                    Ok(t) => typed_expr_matches(e, Seq::empty(), Ok(t)),
                    _ => false,
                },
            },
        },
{
    let tokens = match tokenize(source) {
        Ok(t) => t,
        Err(e) => {
            return Err(FrontEndError::Lex(e));
        },
    };
    proof {
        lemma_lexed_has_no_eof(source@, 0);
        lemma_without_eof_unchanged(tokens_view(tokens@));
    }
    let expr = match parse(tokens) {
        Ok(e) => e,
        Err(x) => {
            return Err(FrontEndError::Parse(x));
        },
    };
    match typecheck(expr) {
        Ok(t) => Ok(t),
        Err(y) => Err(FrontEndError::Type(y)),
    }
}

} // verus!
