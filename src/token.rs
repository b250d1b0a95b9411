use vstd::prelude::*;

verus! {

/// The kinds of token, in the order of their rows in the rule table.
#[derive(Clone, Copy, Debug, PartialEq, Eq, Structural)]
pub enum TokenType {
    LeftParen,
    RightParen,
    LeftBrace,
    RightBrace,
    Comma,
    Dot,
    Minus,
    Plus,
    Semicolon,
    Slash,
    Star,
    Bang,
    BangEqual,
    Equal,
    EqualEqual,
    Greater,
    GreaterEqual,
    Less,
    LessEqual,
    SlashEqual,
    Identifier,
    Str,
    Number,
    And,
    Class,
    Else,
    False,
    For,
    Fun,
    If,
    Nil,
    Or,
    Print,
    Return,
    Super,
    This,
    True,
    Var,
    While,
    Error,
    Eof,
}

/// What went wrong in a token of kind `Error`.
#[derive(Clone, Copy, Debug, PartialEq, Eq, Structural)]
pub enum LexError {
    UnexpectedCharacter,
    UnterminatedString,
}

pub open spec fn lex_error_text(e: LexError) -> Seq<char> {
    match e {
        LexError::UnexpectedCharacter => "Unexpected character."@,
        LexError::UnterminatedString => "Unterminated string."@,
    }
}

impl LexError {
    /// The message a diagnostic shows for this error.
    pub fn text(&self) -> (r: String)
        ensures
            r@ == lex_error_text(*self),
    {
        match self {
            LexError::UnexpectedCharacter => "Unexpected character.".to_string(),
            LexError::UnterminatedString => "Unterminated string.".to_string(),
        }
    }
}

/// A token: its kind, the range `start .. start + length` of the source it covers,
/// the line it stands on, and, for a token of kind `Error`, what went wrong.
#[derive(Clone, Copy, Debug, PartialEq, Eq, Structural)]
pub struct Token {
    pub token_type: TokenType,
    pub start: usize,
    pub length: usize,
    pub line: usize,
    pub error: Option<LexError>,
}

pub open spec fn is_digit(c: char) -> bool {
    '0' <= c && c <= '9'
}

/// `s[a..b]` is a non-empty run of digits.
pub open spec fn digits_in(s: Seq<char>, a: int, b: int) -> bool {
    &&& 0 <= a < b <= s.len()
    &&& forall|i: int| a <= i < b ==> is_digit(#[trigger] s[i])
}

/// A numeral: digits, optionally followed by a dot and more digits.
pub open spec fn is_numeral(s: Seq<char>) -> bool {
    ||| digits_in(s, 0, s.len() as int)
    ||| exists|k: int|
        digits_in(s, 0, k) && #[trigger] s[k] == '.' && digits_in(s, k + 1, s.len() as int)
}

impl Token {
    /// The token lies within `src`; a number covers a numeral; an error token says why.
    pub open spec fn wf_in(self, src: Seq<char>) -> bool {
        &&& self.start + self.length <= src.len()
        &&& self.token_type == TokenType::Number ==> is_numeral(
            src.subrange(self.start as int, self.start + self.length),
        )
        &&& (self.token_type == TokenType::Error <==> self.error is Some)
    }
}

} // verus!
