use lung::lexer::{tokenize, Eater, LexError, Lexer};
use lung::syntax::{Token, TokenInfo, TokenKind};

fn span(s_row: usize, s_col: usize, e_row: usize, e_col: usize) -> TokenInfo {
    TokenInfo { s_col, s_row, e_col, e_row }
}

fn kinds(source: &str) -> Vec<TokenKind> {
    tokenize(source).unwrap().into_iter().map(|t| t.kind).collect()
}

#[test]
fn number_token() {
    let tokens = tokenize("123").unwrap();
    assert_eq!(
        tokens,
        vec![Token { kind: TokenKind::Num(String::from("123")), info: span(1, 1, 1, 3) }]
    );
}

#[test]
fn tokenizing_twice_gives_same_tokens() {
    let src = "function(x:I32)->I32{\n  x\n}(42)";
    assert_eq!(tokenize(src).unwrap(), tokenize(src).unwrap());
    assert_eq!(tokenize("a @"), tokenize("a @"));
}

#[test]
fn unknown_character_position() {
    assert_eq!(tokenize("@"), Err(LexError { found: '@', row: 1, col: 1 }));
    assert_eq!(tokenize("1\n  @"), Err(LexError { found: '@', row: 2, col: 3 }));
    assert_eq!(tokenize("ab (@"), Err(LexError { found: '@', row: 1, col: 5 }));
}

#[test]
fn minus_without_arrow_is_error() {
    assert_eq!(tokenize("x - y"), Err(LexError { found: '-', row: 1, col: 3 }));
    assert_eq!(tokenize("-"), Err(LexError { found: '-', row: 1, col: 1 }));
}

#[test]
fn arrow_token_span() {
    let tokens = tokenize(" ->").unwrap();
    assert_eq!(tokens, vec![Token { kind: TokenKind::Arrow, info: span(1, 2, 1, 3) }]);
}

#[test]
fn keywords_and_identifiers() {
    assert_eq!(
        kinds("fn function Fn unit Unit I32 functions x1"),
        vec![
            TokenKind::Func,
            TokenKind::FuncAnon,
            TokenKind::FuncType,
            TokenKind::UnitVal,
            TokenKind::UnitType,
            TokenKind::I32,
            TokenKind::Ident(String::from("functions")),
            TokenKind::Ident(String::from("x1")),
        ]
    );
}

#[test]
fn symbols() {
    assert_eq!(
        kinds("(){},:;"),
        vec![
            TokenKind::LParen,
            TokenKind::RParen,
            TokenKind::LBrace,
            TokenKind::RBrace,
            TokenKind::Comma,
            TokenKind::Colon,
            TokenKind::SemiColon,
        ]
    );
}

#[test]
fn empty_and_blank_sources() {
    assert_eq!(tokenize("").unwrap(), vec![]);
    assert_eq!(tokenize(" \t\n\r\n ").unwrap(), vec![]);
}

#[test]
fn newline_belongs_to_row_it_ends() {
    let tokens = tokenize("ab\ncd\n\n  e").unwrap();
    assert_eq!(tokens[0].info, span(1, 1, 1, 2));
    assert_eq!(tokens[1].info, span(2, 1, 2, 2));
    assert_eq!(tokens[2].info, span(4, 3, 4, 3));
}

#[test]
fn digits_then_letters_split() {
    assert_eq!(
        kinds("12ab"),
        vec![TokenKind::Num(String::from("12")), TokenKind::Ident(String::from("ab"))]
    );
}

#[test]
fn unicode_letters_and_digits() {
    assert_eq!(kinds("été"), vec![TokenKind::Ident(String::from("été"))]);
    assert_eq!(kinds("٣"), vec![TokenKind::Num(String::from("٣"))]);
    assert_eq!(kinds("a\u{3000}b").len(), 2);
}

#[test]
fn eater_reads_one_token_at_a_time() {
    let mut eater = Eater::from_str("  x(");
    let t = eater.eat_token_dump().unwrap();
    assert_eq!(t, Token { kind: TokenKind::Ident(String::from("x")), info: span(1, 3, 1, 3) });
    let t = eater.eat_token_dump().unwrap();
    assert_eq!(t.kind, TokenKind::LParen);
    let t = eater.eat_token_dump().unwrap();
    assert_eq!(t.kind, TokenKind::EOF);
}

#[test]
fn lexer_on_buffer() {
    let lexer = Lexer::new(String::from("unit"));
    assert_eq!(lexer.lex().unwrap().len(), 1);
}

#[test]
fn lex_error_message() {
    let err = tokenize("x\n @").unwrap_err();
    assert_eq!(err.message(), "Error at 2:2 : unrecognized character '@'");
}
