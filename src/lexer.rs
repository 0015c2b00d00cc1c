use vstd::prelude::*;

use crate::syntax::{Token, TokenInfo, TokenKind, TokenKindV, TokenV, tokens_view};
use crate::text::{decimal, push_char, push_decimal, push_str, str_eq};
use vstd::std_specs::iter::IteratorSpec;

verus! {

/// What `char::is_whitespace` says of a character (Unicode `White_Space`).
pub uninterp spec fn is_space(c: char) -> bool;

/// What `char::is_alphabetic` says of a character (Unicode `Alphabetic`).
pub uninterp spec fn is_alpha(c: char) -> bool;

/// What `char::is_numeric` says of a character (Unicode general categories `Nd`, `Nl`, `No`).
pub uninterp spec fn is_num(c: char) -> bool;

/// Relies on `char::is_whitespace`.
#[verifier::external_body]
fn char_is_space(c: char) -> (r: bool)
    ensures
        r == is_space(c),
{
    c.is_whitespace()
}

/// Relies on `char::is_alphabetic`.
#[verifier::external_body]
fn char_is_alpha(c: char) -> (r: bool)
    ensures
        r == is_alpha(c),
{
    c.is_alphabetic()
}

/// Relies on `char::is_numeric`.
#[verifier::external_body]
fn char_is_num(c: char) -> (r: bool)
    ensures
        r == is_num(c),
{
    c.is_numeric()
}

/// Relies on `char::is_alphanumeric`, documented as `is_alphabetic() || is_numeric()`.
#[verifier::external_body]
fn char_is_alnum(c: char) -> (r: bool)
    ensures
        r == (is_alpha(c) || is_num(c)),
{
    c.is_alphanumeric()
}

/// An unrecognised character, with its row and column.
#[derive(Debug, Clone, Copy, PartialEq, Eq, Structural)]
pub struct LexError {
    pub found: char,
    pub row: usize,
    pub col: usize,
}

impl LexError {
    /// `Error at <row>:<col> : unrecognized character '<c>'`.
    pub open spec fn message_text(&self) -> Seq<char> {
        "Error at "@ + decimal(self.row as nat) + seq![':'] + decimal(self.col as nat)
            + " : unrecognized character '"@ + seq![self.found, '\'']
    }

    /// `Error at <row>:<col> : unrecognized character '<c>'`.
    pub fn message(&self) -> (r: String)
        ensures
            r@ == self.message_text(),
    {
        let mut s = String::new();
        push_str(&mut s, "Error at ");
        push_decimal(&mut s, self.row);
        push_char(&mut s, ':');
        push_decimal(&mut s, self.col);
        push_str(&mut s, " : unrecognized character '");
        push_char(&mut s, self.found);
        push_char(&mut s, '\'');
        assert(s@ =~= "Error at "@ + decimal(self.row as nat) + seq![':'] + decimal(self.col as nat)
            + " : unrecognized character '"@ + seq![self.found, '\'']);
        s
    }
}

/// The row of the character at index `k`: a newline belongs to the row it ends,
/// and the next row starts after it.
pub open spec fn row_of(s: Seq<char>, k: int) -> int
    decreases k,
{
    if k <= 0 {
        1
    } else if s[k - 1] == '\n' {
        row_of(s, k - 1) + 1
    } else {
        row_of(s, k - 1)
    }
}

/// The column of the character at index `k`, counted from 1 within its row.
pub open spec fn col_of(s: Seq<char>, k: int) -> int
    decreases k,
{
    if k <= 0 {
        1
    } else if s[k - 1] == '\n' {
        1
    } else {
        col_of(s, k - 1) + 1
    }
}

/// The span from the character at index `a` to the one at index `b`.
pub open spec fn span_of(s: Seq<char>, a: int, b: int) -> TokenInfo {
    TokenInfo {
        s_row: row_of(s, a) as usize,
        s_col: col_of(s, a) as usize,
        e_row: row_of(s, b) as usize,
        e_col: col_of(s, b) as usize,
    }
}

/// The first index at or after `k` that does not hold whitespace.
pub open spec fn skip_space(s: Seq<char>, k: int) -> int
    decreases s.len() - k,
{
    if 0 <= k < s.len() && is_space(s[k]) {
        skip_space(s, k + 1)
    } else {
        k
    }
}

/// The end of the run of alphanumeric characters that starts at `k`.
pub open spec fn alnum_end(s: Seq<char>, k: int) -> int
    decreases s.len() - k,
{
    if 0 <= k < s.len() && (is_alpha(s[k]) || is_num(s[k])) {
        alnum_end(s, k + 1)
    } else {
        k
    }
}

/// The end of the run of numeric characters that starts at `k`.
pub open spec fn num_end(s: Seq<char>, k: int) -> int
    decreases s.len() - k,
{
    if 0 <= k < s.len() && is_num(s[k]) {
        num_end(s, k + 1)
    } else {
        k
    }
}

/// An identifier-shaped word: a keyword, or else an identifier.
pub open spec fn word_kind(w: Seq<char>) -> TokenKindV {
    if w == "fn"@ {
        TokenKindV::Func
    } else if w == "function"@ {
        TokenKindV::FuncAnon
    } else if w == "Fn"@ {
        TokenKindV::FuncType
    } else if w == "unit"@ {
        TokenKindV::UnitVal
    } else if w == "Unit"@ {
        TokenKindV::UnitType
    } else if w == "I32"@ {
        TokenKindV::I32
    } else {
        TokenKindV::Ident(w)
    }
}

/// The one-character symbols.
pub open spec fn symbol_kind(c: char) -> Option<TokenKindV> {
    if c == '(' {
        Some(TokenKindV::LParen)
    } else if c == ')' {
        Some(TokenKindV::RParen)
    } else if c == '{' {
        Some(TokenKindV::LBrace)
    } else if c == '}' {
        Some(TokenKindV::RBrace)
    } else if c == ',' {
        Some(TokenKindV::Comma)
    } else if c == ':' {
        Some(TokenKindV::Colon)
    } else if c == ';' {
        Some(TokenKindV::SemiColon)
    } else {
        None
    }
}

/// The token that starts at the first non-whitespace index at or after `k`, with
/// the index just past it; at the end of input, the `EOF` token.
pub open spec fn token_at(s: Seq<char>, k: int) -> Result<(TokenV, int), LexError> {
    let a = skip_space(s, k);
    if a >= s.len() {
        Ok((TokenV { kind: TokenKindV::EOF, info: span_of(s, a, a) }, a))
    } else {
        let c = s[a];
        if is_alpha(c) {
            let e = alnum_end(s, a + 1);
            Ok((TokenV { kind: word_kind(s.subrange(a, e)), info: span_of(s, a, e - 1) }, e))
        } else if is_num(c) {
            let e = num_end(s, a + 1);
            Ok((TokenV { kind: TokenKindV::Num(s.subrange(a, e)), info: span_of(s, a, e - 1) }, e))
        } else if symbol_kind(c) is Some {
            Ok((TokenV { kind: symbol_kind(c)->0, info: span_of(s, a, a) }, a + 1))
        } else if c == '-' && a + 1 < s.len() && s[a + 1] == '>' {
            Ok((TokenV { kind: TokenKindV::Arrow, info: span_of(s, a, a + 1) }, a + 2))
        } else {
            Err(LexError { found: c, row: row_of(s, a) as usize, col: col_of(s, a) as usize })
        }
    }
}

proof fn lemma_ends_advance(s: Seq<char>, k: int)
    requires
        0 <= k <= s.len(),
    ensures
        k <= skip_space(s, k) <= s.len(),
        k <= alnum_end(s, k) <= s.len(),
        k <= num_end(s, k) <= s.len(),
    decreases s.len() - k,
{
    if k < s.len() {
        lemma_ends_advance(s, k + 1);
    }
}

/// The tokens of `s` from index `k` on, without the final `EOF`, or the first
/// lexical error.
pub open spec fn tokens_from(s: Seq<char>, k: int) -> Result<Seq<TokenV>, LexError>
    decreases s.len() - k,
    via tokens_from_decreases
{
    if k < 0 || k > s.len() {
        Ok(Seq::empty())
    } else {
        match token_at(s, k) {
            Err(e) => Err(e),
            Ok((t, n)) => if t.kind is EOF {
                Ok(Seq::empty())
            } else {
                match tokens_from(s, n) {
                    Ok(ts) => Ok(seq![t] + ts),
                    Err(e) => Err(e),
                }
            },
        }
    }
}

#[via_fn]
proof fn tokens_from_decreases(s: Seq<char>, k: int) {
    if 0 <= k <= s.len() {
        lemma_ends_advance(s, k);
        let a = skip_space(s, k);
        if a < s.len() {
            lemma_ends_advance(s, a + 1);
        }
    }
}

/// The tokens of a whole source text.
pub open spec fn lex_spec(s: Seq<char>) -> Result<Seq<TokenV>, LexError> {
    tokens_from(s, 0)
}

proof fn lemma_position_bounds(s: Seq<char>, k: int)
    requires
        0 <= k,
    ensures
        1 <= row_of(s, k) <= k + 1,
        1 <= col_of(s, k) <= k + 1,
    decreases k,
{
    if k > 0 {
        lemma_position_bounds(s, k - 1);
    }
}

/// The kind of an identifier-shaped word.
fn word_kind_of(w: String) -> (r: TokenKind)
    ensures
        r@ == word_kind(w@),
{
    let t = w.as_str();
    if str_eq(t, "fn") {
        TokenKind::Func
    } else if str_eq(t, "function") {
        TokenKind::FuncAnon
    } else if str_eq(t, "Fn") {
        TokenKind::FuncType
    } else if str_eq(t, "unit") {
        TokenKind::UnitVal
    } else if str_eq(t, "Unit") {
        TokenKind::UnitType
    } else if str_eq(t, "I32") {
        TokenKind::I32
    } else {
        TokenKind::Ident(w)
    }
}

/// A cursor over the characters of a source text, which knows the row and
/// column of the character under it.
pub struct Eater {
    pub chars: Vec<char>,
    pub pos: usize,
    pub row: usize,
    pub col: usize,
}

impl Eater {
    pub open spec fn wf(&self) -> bool {
        &&& self.chars@.len() < usize::MAX
        &&& self.pos <= self.chars@.len()
        &&& self.row == row_of(self.chars@, self.pos as int)
        &&& self.col == col_of(self.chars@, self.pos as int)
    }

    /// A cursor on the first character of `input`.
    pub fn from_str(input: &str) -> (r: Eater)
        requires
            input@.len() < usize::MAX,
        ensures
            r.wf(),
            r.chars@ == input@,
            r.pos == 0,
    {
        broadcast use vstd::string::group_string_axioms;

        let mut chars: Vec<char> = Vec::new();
        let mut it = input.chars();
        loop
            invariant
                chars@ + it.remaining() == input@,
                it.decrease() is Some,
            ensures
                chars@ == input@,
            decreases it.decrease()->0,
        {
            match it.next() {
                Some(c) => {
                    chars.push(c);
                },
                None => {
                    assert(chars@ + it.remaining() =~= chars@);
                    break;
                },
            }
        }
        assert(chars@ == input@);
        Eater { chars, pos: 0, row: 1, col: 1 }
    }

    /// Moves past the current character.
    fn next_char(&mut self)
        requires
            old(self).wf(),
            old(self).pos < old(self).chars@.len(),
        ensures
            final(self).wf(),
            final(self).chars == old(self).chars,
            final(self).pos == old(self).pos + 1,
    {
        proof {
            lemma_position_bounds(self.chars@, self.pos as int);
        }
        if self.chars[self.pos] == '\n' {
            self.row = self.row + 1;
            self.col = 1;
        } else {
            self.col = self.col + 1;
        }
        self.pos = self.pos + 1;
    }

    /// Moves past the whitespace under the cursor.
    fn skip_white(&mut self)
        requires
            old(self).wf(),
        ensures
            final(self).wf(),
            final(self).chars == old(self).chars,
            final(self).pos == skip_space(old(self).chars@, old(self).pos as int),
    {
        while self.pos < self.chars.len() && char_is_space(self.chars[self.pos])
            invariant
                self.wf(),
                self.chars == old(self).chars,
                skip_space(self.chars@, self.pos as int) == skip_space(
                    old(self).chars@,
                    old(self).pos as int,
                ),
            decreases self.chars@.len() - self.pos,
        {
            self.next_char();
        }
    }

    /// Reads the run of alphanumeric characters under the cursor: its text and
    /// the row and column of its last character.
    fn eat_alnum_dump(&mut self) -> (r: (String, usize, usize))
        requires
            old(self).wf(),
            old(self).pos < old(self).chars@.len(),
        ensures
            final(self).wf(),
            final(self).chars == old(self).chars,
            final(self).pos == alnum_end(old(self).chars@, old(self).pos as int),
            final(self).pos > old(self).pos ==> r.0@ == old(self).chars@.subrange(
                old(self).pos as int,
                final(self).pos as int,
            ) && r.1 == row_of(old(self).chars@, final(self).pos - 1) && r.2 == col_of(
                old(self).chars@,
                final(self).pos - 1,
            ),
    {
        let mut tmp = String::new();
        let mut e_row = self.row;
        let mut e_col = self.col;
        let ghost start = self.pos as int;
        while self.pos < self.chars.len() && char_is_alnum(self.chars[self.pos])
            invariant
                self.wf(),
                self.chars == old(self).chars,
                start == old(self).pos,
                start <= self.pos,
                alnum_end(self.chars@, self.pos as int) == alnum_end(self.chars@, start),
                tmp@ == self.chars@.subrange(start, self.pos as int),
                self.pos > start ==> e_row == row_of(self.chars@, self.pos - 1) && e_col
                    == col_of(self.chars@, self.pos - 1),
            decreases self.chars@.len() - self.pos,
        {
            let c = self.chars[self.pos];
            push_char(&mut tmp, c);
            e_row = self.row;
            e_col = self.col;
            assert(self.chars@.subrange(start, self.pos + 1) == self.chars@.subrange(
                start,
                self.pos as int,
            ).push(c));
            self.next_char();
        }
        (tmp, e_row, e_col)
    }

    /// Reads the run of numeric characters under the cursor: its text and the
    /// row and column of its last character.
    fn eat_num_dump(&mut self) -> (r: (String, usize, usize))
        requires
            old(self).wf(),
            old(self).pos < old(self).chars@.len(),
        ensures
            final(self).wf(),
            final(self).chars == old(self).chars,
            final(self).pos == num_end(old(self).chars@, old(self).pos as int),
            final(self).pos > old(self).pos ==> r.0@ == old(self).chars@.subrange(
                old(self).pos as int,
                final(self).pos as int,
            ) && r.1 == row_of(old(self).chars@, final(self).pos - 1) && r.2 == col_of(
                old(self).chars@,
                final(self).pos - 1,
            ),
    {
        let mut tmp = String::new();
        let mut e_row = self.row;
        let mut e_col = self.col;
        let ghost start = self.pos as int;
        while self.pos < self.chars.len() && char_is_num(self.chars[self.pos])
            invariant
                self.wf(),
                self.chars == old(self).chars,
                start == old(self).pos,
                start <= self.pos,
                num_end(self.chars@, self.pos as int) == num_end(self.chars@, start),
                tmp@ == self.chars@.subrange(start, self.pos as int),
                self.pos > start ==> e_row == row_of(self.chars@, self.pos - 1) && e_col
                    == col_of(self.chars@, self.pos - 1),
            decreases self.chars@.len() - self.pos,
        {
            let c = self.chars[self.pos];
            push_char(&mut tmp, c);
            e_row = self.row;
            e_col = self.col;
            assert(self.chars@.subrange(start, self.pos + 1) == self.chars@.subrange(
                start,
                self.pos as int,
            ).push(c));
            self.next_char();
        }
        (tmp, e_row, e_col)
    }

    /// Reads the next token, after any whitespace; at the end of input, `EOF`.
    pub fn eat_token_dump(&mut self) -> (r: Result<Token, LexError>)
        requires
            old(self).wf(),
        ensures
            final(self).wf(),
            final(self).chars == old(self).chars,
            match token_at(old(self).chars@, old(self).pos as int) {
                Ok((t, n)) => r is Ok && r->Ok_0@ == t && final(self).pos == n,
                Err(e) => r == Err::<Token, LexError>(e),
            },
    {
        self.skip_white();
        let ghost s = self.chars@;
        let ghost a = self.pos as int;
        proof {
            lemma_position_bounds(s, a);
        }
        let s_row = self.row;
        let s_col = self.col;
        if self.pos >= self.chars.len() {
            let info = TokenInfo { s_col, s_row, e_col: s_col, e_row: s_row };
            return Ok(Token { kind: TokenKind::EOF, info });
        }
        let c = self.chars[self.pos];
        proof {
            lemma_ends_advance(s, a + 1);
        }
        if char_is_alpha(c) {
            let (id, e_row, e_col) = self.eat_alnum_dump();
            assert(alnum_end(s, a) == alnum_end(s, a + 1));
            let kind = word_kind_of(id);
            let info = TokenInfo { s_col, s_row, e_col, e_row };
            Ok(Token { kind, info })
        } else if char_is_num(c) {
            let (num, e_row, e_col) = self.eat_num_dump();
            assert(num_end(s, a) == num_end(s, a + 1));
            let info = TokenInfo { s_col, s_row, e_col, e_row };
            Ok(Token { kind: TokenKind::Num(num), info })
        } else if c == '-' {
            self.next_char();
            if self.pos < self.chars.len() && self.chars[self.pos] == '>' {
                let info = TokenInfo { s_col, s_row, e_col: self.col, e_row: self.row };
                self.next_char();
                Ok(Token { kind: TokenKind::Arrow, info })
            } else {
                Err(LexError { found: c, row: s_row, col: s_col })
            }
        } else {
            let kind = match c {
                '(' => TokenKind::LParen,
                ')' => TokenKind::RParen,
                '{' => TokenKind::LBrace,
                '}' => TokenKind::RBrace,
                ',' => TokenKind::Comma,
                ':' => TokenKind::Colon,
                ';' => TokenKind::SemiColon,
                _ => {
                    return Err(LexError { found: c, row: s_row, col: s_col });
                },
            };
            let info = TokenInfo { s_col, s_row, e_col: s_col, e_row: s_row };
            self.next_char();
            Ok(Token { kind, info })
        }
    }
}

proof fn lemma_token_at_advances(s: Seq<char>, k: int)
    requires
        0 <= k <= s.len(),
    ensures
        token_at(s, k) is Ok ==> k <= token_at(s, k)->Ok_0.1 <= s.len(),
        token_at(s, k) is Ok && !(token_at(s, k)->Ok_0.0.kind is EOF) ==> k < token_at(
            s,
            k,
        )->Ok_0.1,
{
    lemma_ends_advance(s, k);
    let a = skip_space(s, k);
    if a < s.len() {
        lemma_ends_advance(s, a + 1);
    }
}

/// No token that lexing returns is an `EOF` marker.
pub proof fn lemma_lexed_has_no_eof(s: Seq<char>, k: int)
    requires
        0 <= k <= s.len(),
    ensures
        tokens_from(s, k) is Ok ==> forall|j: int|
            0 <= j < tokens_from(s, k)->Ok_0.len() ==> !(tokens_from(s, k)->Ok_0[j].kind is EOF),
    decreases s.len() - k,
{
    lemma_token_at_advances(s, k);
    match token_at(s, k) {
        Ok((t, n)) => {
            if !(t.kind is EOF) {
                lemma_lexed_has_no_eof(s, n);
                if tokens_from(s, n) is Ok {
                    let rest = tokens_from(s, n)->Ok_0;
                    assert forall|j: int| 0 <= j < tokens_from(s, k)->Ok_0.len() implies !(
                    tokens_from(s, k)->Ok_0[j].kind is EOF) by {
                        if j > 0 {
                            assert(tokens_from(s, k)->Ok_0[j] == rest[j - 1]);
                        }
                    }
                }
            }
        },
        Err(_) => {},
    }
}

/// The model of what a tokenizer returns.
pub open spec fn lexed(r: Result<Vec<Token>, LexError>) -> Result<Seq<TokenV>, LexError> {
    match r {
        Ok(v) => Ok(tokens_view(v@)),
        Err(e) => Err(e),
    }
}

/// Tokenizing the same text twice gives the same tokens, kinds and spans
/// alike, or the same error.
pub proof fn lemma_tokenize_deterministic(
    s: Seq<char>,
    r1: Result<Vec<Token>, LexError>,
    r2: Result<Vec<Token>, LexError>,
)
    requires
        lexed(r1) == lex_spec(s),
        lexed(r2) == lex_spec(s),
    ensures
        lexed(r1) == lexed(r2),
        r1 is Ok <==> r2 is Ok,
{
}

/// Holds a source text to tokenize.
pub struct Lexer {
    pub buffer: String,
}

impl Lexer {
    pub fn new(buffer: String) -> (r: Lexer)
        ensures
            r.buffer@ == buffer@,
    {
        Lexer { buffer }
    }

    /// The tokens of the whole buffer, without the final `EOF`.
    pub fn lex(&self) -> (r: Result<Vec<Token>, LexError>)
        requires
            self.buffer@.len() < usize::MAX,
        ensures
            lexed(r) == lex_spec(self.buffer@),
    {
        tokenize(self.buffer.as_str())
    }
}

/// The tokens of `source`, without the final `EOF`, or the first lexical error.
pub fn tokenize(source: &str) -> (r: Result<Vec<Token>, LexError>)
    requires
        source@.len() < usize::MAX,
    ensures
        lexed(r) == lex_spec(source@),
{
    let mut eater = Eater::from_str(source);
    let ghost s = source@;
    let mut tokens: Vec<Token> = Vec::new();
    assert(tokens_view(tokens@) + seq![] =~= seq![]);
    loop
        invariant
            eater.wf(),
            s == source@,
            eater.chars@ == s,
            tokens_from(s, 0) == match tokens_from(s, eater.pos as int) {
                Ok(rest) => Ok(tokens_view(tokens@) + rest),
                Err(e) => Err(e),
            },
        ensures
            lexed(Ok(tokens)) == lex_spec(s),
        decreases s.len() - eater.pos,
    {
        let ghost k = eater.pos as int;
        proof {
            lemma_token_at_advances(s, k);
        }
        match eater.eat_token_dump() {
            Ok(t) => {
                if let TokenKind::EOF = t.kind {
                    assert(tokens_view(tokens@) + seq![] =~= tokens_view(tokens@));
                    break;
                }
                let ghost rest = tokens_from(s, eater.pos as int);
                assert(tokens_view(tokens@.push(t)) =~= tokens_view(tokens@) + seq![t@]);
                proof {
                    if rest is Ok {
                        assert(tokens_view(tokens@) + (seq![t@] + rest->Ok_0) =~= tokens_view(
                            tokens@,
                        ) + seq![t@] + rest->Ok_0);
                    }
                }
                tokens.push(t);
            },
            Err(e) => {
                assert(tokens_from(s, k) == Err::<Seq<TokenV>, LexError>(e));
                return Err(e);
            },
        }
    }
    Ok(tokens)
}

} // verus!
