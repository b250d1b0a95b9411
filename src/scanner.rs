use vstd::prelude::*;

use crate::token::{digits_in, is_digit, is_numeral, LexError, Token, TokenType};

verus! {

pub open spec fn is_alpha(c: char) -> bool {
    ('a' <= c && c <= 'z') || ('A' <= c && c <= 'Z') || c == '_'
}

fn is_digit_char(c: char) -> (r: bool)
    ensures
        r == is_digit(c),
{
    '0' <= c && c <= '9'
}

fn is_alpha_char(c: char) -> (r: bool)
    ensures
        r == is_alpha(c),
{
    ('a' <= c && c <= 'z') || ('A' <= c && c <= 'Z') || c == '_'
}

/// The kind of a punctuation token that starts with `c`; `two` says whether it takes a
/// following `=` as well. `None` where `c` starts no punctuation token.
pub open spec fn punct_kind(c: char, two: bool) -> Option<TokenType> {
    if c == '(' {
        Some(TokenType::LeftParen)
    } else if c == ')' {
        Some(TokenType::RightParen)
    } else if c == '{' {
        Some(TokenType::LeftBrace)
    } else if c == '}' {
        Some(TokenType::RightBrace)
    } else if c == ',' {
        Some(TokenType::Comma)
    } else if c == '.' {
        Some(TokenType::Dot)
    } else if c == '-' {
        Some(TokenType::Minus)
    } else if c == '+' {
        Some(TokenType::Plus)
    } else if c == ';' {
        Some(TokenType::Semicolon)
    } else if c == '*' {
        Some(TokenType::Star)
    } else if c == '/' {
        Some(if two { TokenType::SlashEqual } else { TokenType::Slash })
    } else if c == '!' {
        Some(if two { TokenType::BangEqual } else { TokenType::Bang })
    } else if c == '=' {
        Some(if two { TokenType::EqualEqual } else { TokenType::Equal })
    } else if c == '<' {
        Some(if two { TokenType::LessEqual } else { TokenType::Less })
    } else if c == '>' {
        Some(if two { TokenType::GreaterEqual } else { TokenType::Greater })
    } else {
        None
    }
}

/// The kind of token `t` agrees with the character it starts with: punctuation by the
/// table above, a number at a digit, a word at a letter, a string or an unterminated one
/// at a quote, and an unexpected-character error at anything else.
pub open spec fn kind_fits(src: Seq<char>, t: Token) -> bool {
    let c = src[t.start as int];
    if punct_kind(c, false) is Some {
        &&& 1 <= t.length <= 2
        &&& t.token_type == punct_kind(c, t.length == 2)->0
        &&& t.length == 2 ==> src[t.start + 1] == '='
    } else if is_digit(c) {
        t.token_type == TokenType::Number
    } else if is_alpha(c) {
        t.token_type != TokenType::Number && t.token_type != TokenType::Error && t.token_type
            != TokenType::Eof && punct_kind(c, false) is None
    } else if c == '"' {
        t.token_type == TokenType::Str || t.error == Some(LexError::UnterminatedString)
    } else {
        t.length == 1 && t.error == Some(LexError::UnexpectedCharacter)
    }
}

/// The line after `l`, staying put at the largest line number.
pub open spec fn next_line(l: usize) -> usize {
    if l < usize::MAX {
        (l + 1) as usize
    } else {
        l
    }
}

/// Where scanning resumes, and on which line, after the blanks, line breaks and `//`
/// comments from `p` on; `comment` says that `p` lies inside a comment.
pub open spec fn skip_ws(s: Seq<char>, p: int, l: usize, comment: bool) -> (int, usize)
    decreases s.len() - p, if comment { 1int } else { 0int },
{
    if p < 0 || p >= s.len() {
        (p, l)
    } else if comment {
        if s[p] == '\n' {
            skip_ws(s, p, l, false)
        } else {
            skip_ws(s, p + 1, l, true)
        }
    } else if s[p] == ' ' || s[p] == '\r' || s[p] == '\t' {
        skip_ws(s, p + 1, l, false)
    } else if s[p] == '\n' {
        skip_ws(s, p + 1, next_line(l), false)
    } else if s[p] == '/' && p + 1 < s.len() && s[p + 1] == '/' {
        skip_ws(s, p + 2, l, true)
    } else {
        (p, l)
    }
}

/// The end of the run of digits from `p`.
pub open spec fn digits_end(s: Seq<char>, p: int) -> int
    decreases s.len() - p,
{
    if 0 <= p < s.len() && is_digit(s[p]) {
        digits_end(s, p + 1)
    } else {
        p
    }
}

/// The end of a number whose first digit ends at `p`: digits, then a dot and digits if a
/// digit follows the dot.
pub open spec fn number_end(s: Seq<char>, p: int) -> int {
    let e = digits_end(s, p);
    if e + 1 < s.len() && s[e] == '.' && is_digit(s[e + 1]) {
        digits_end(s, e + 2)
    } else {
        e
    }
}

/// The end of the run of letters and digits from `p`.
pub open spec fn word_end(s: Seq<char>, p: int) -> int
    decreases s.len() - p,
{
    if 0 <= p < s.len() && (is_alpha(s[p]) || is_digit(s[p])) {
        word_end(s, p + 1)
    } else {
        p
    }
}

/// Where the closing quote of a string whose body starts at `p` stands (the end of the
/// source where there is none), and the line it stands on.
pub open spec fn string_end(s: Seq<char>, p: int, l: usize) -> (int, usize)
    decreases s.len() - p,
{
    if p < 0 || p >= s.len() || s[p] == '"' {
        (p, l)
    } else {
        string_end(s, p + 1, if s[p] == '\n' { next_line(l) } else { l })
    }
}

/// The kind of a word: a keyword, or an identifier.
pub open spec fn keyword_kind(w: Seq<char>) -> TokenType {
    if w == seq!['a', 'n', 'd'] {
        TokenType::And
    } else if w == seq!['c', 'l', 'a', 's', 's'] {
        TokenType::Class
    } else if w == seq!['e', 'l', 's', 'e'] {
        TokenType::Else
    } else if w == seq!['f', 'a', 'l', 's', 'e'] {
        TokenType::False
    } else if w == seq!['f', 'o', 'r'] {
        TokenType::For
    } else if w == seq!['f', 'u', 'n'] {
        TokenType::Fun
    } else if w == seq!['i', 'f'] {
        TokenType::If
    } else if w == seq!['n', 'i', 'l'] {
        TokenType::Nil
    } else if w == seq!['o', 'r'] {
        TokenType::Or
    } else if w == seq!['p', 'r', 'i', 'n', 't'] {
        TokenType::Print
    } else if w == seq!['r', 'e', 't', 'u', 'r', 'n'] {
        TokenType::Return
    } else if w == seq!['s', 'u', 'p', 'e', 'r'] {
        TokenType::Super
    } else if w == seq!['t', 'h', 'i', 's'] {
        TokenType::This
    } else if w == seq!['t', 'r', 'u', 'e'] {
        TokenType::True
    } else if w == seq!['v', 'a', 'r'] {
        TokenType::Var
    } else if w == seq!['w', 'h', 'i', 'l', 'e'] {
        TokenType::While
    } else {
        TokenType::Identifier
    }
}

pub open spec fn mk_token(k: TokenType, start: int, end: int, l: usize, e: Option<LexError>) -> Token {
    Token { token_type: k, start: start as usize, length: (end - start) as usize, line: l, error: e }
}

/// The token that scanning `s` from position `p` on line `l` gives, the position after it
/// and the line it ends on.
pub open spec fn spec_scan(s: Seq<char>, p: int, l: usize) -> (Token, int, usize) {
    let (q, l1) = skip_ws(s, p, l, false);
    if q >= s.len() {
        (mk_token(TokenType::Eof, q, q, l1, None), q, l1)
    } else {
        let c = s[q];
        if is_alpha(c) {
            let e = word_end(s, q + 1);
            (mk_token(keyword_kind(s.subrange(q, e)), q, e, l1, None), e, l1)
        } else if is_digit(c) {
            let e = number_end(s, q + 1);
            (mk_token(TokenType::Number, q, e, l1, None), e, l1)
        } else if c == '"' {
            let (e, l2) = string_end(s, q + 1, l1);
            if e >= s.len() {
                (mk_token(TokenType::Error, q, e, l2, Some(LexError::UnterminatedString)), e, l2)
            } else {
                (mk_token(TokenType::Str, q, e + 1, l2, None), e + 1, l2)
            }
        } else if punct_kind(c, false) is Some {
            let two = (c == '/' || c == '!' || c == '=' || c == '<' || c == '>') && q + 1 < s.len()
                && s[q + 1] == '=';
            let e = if two { q + 2 } else { q + 1 };
            (mk_token(punct_kind(c, two)->0, q, e, l1, None), e, l1)
        } else {
            (mk_token(TokenType::Error, q, q + 1, l1, Some(LexError::UnexpectedCharacter)), q + 1, l1)
        }
    }
}

/// Hands out the tokens of a source text one at a time, from left to right.
pub struct Scanner {
    pub source: Vec<char>,
    pub start: usize,
    pub current: usize,
    pub line: usize,
}

impl Scanner {
    pub open spec fn wf(&self) -> bool {
        self.start <= self.current <= self.source.len()
    }

    pub fn new(source: String) -> (s: Scanner)
        ensures
            s.wf(),
            s.source@ == source@,
            s.current == 0,
            s.line == 1,
    {
        let mut chars: Vec<char> = Vec::new();
        for c in it: source.as_str().chars()
            invariant
                chars@ == it.seq().take(it.index() as int),
                it.seq() == source@,
        {
            chars.push(c);
        }
        Scanner { source: chars, start: 0, current: 0, line: 1 }
    }

    fn is_at_end(&self) -> (r: bool)
        requires
            self.wf(),
        ensures
            r == (self.current == self.source.len()),
    {
        self.current >= self.source.len()
    }

    /// The next character, or `'\0'` at the end.
    fn peek(&self) -> (c: char)
        requires
            self.wf(),
        ensures
            self.current < self.source.len() ==> c == self.source@[self.current as int],
            self.current == self.source.len() ==> c == '\0',
    {
        if self.current < self.source.len() {
            self.source[self.current]
        } else {
            '\0'
        }
    }

    /// The character after the next one, or `'\0'` past the end.
    fn peek_next(&self) -> (c: char)
        requires
            self.wf(),
        ensures
            self.current + 1 < self.source.len() ==> c == self.source@[self.current + 1],
            self.current + 1 >= self.source.len() ==> c == '\0',
    {
        if self.source.len() - self.current > 1 {
            self.source[self.current + 1]
        } else {
            '\0'
        }
    }

    fn bump(&mut self) -> (c: char)
        requires
            old(self).wf(),
            old(self).current < old(self).source.len(),
        ensures
            final(self).wf(),
            c == old(self).source@[old(self).current as int],
            final(self).current == old(self).current + 1,
            final(self).source == old(self).source,
            final(self).start == old(self).start,
            final(self).line == old(self).line,
    {
        let c = self.source[self.current];
        self.current = self.current + 1;
        c
    }

    /// Takes the next character if it is `expected`.
    fn match_char(&mut self, expected: char) -> (r: bool)
        requires
            old(self).wf(),
        ensures
            final(self).wf(),
            final(self).source == old(self).source,
            final(self).start == old(self).start,
            final(self).line == old(self).line,
            r == (old(self).current < old(self).source.len()
                && old(self).source@[old(self).current as int] == expected),
            final(self).current == old(self).current + if r { 1int } else { 0int },
    {
        if self.is_at_end() || self.source[self.current] != expected {
            false
        } else {
            self.current = self.current + 1;
            true
        }
    }

    fn new_line(&mut self)
        ensures
            final(self).source == old(self).source,
            final(self).start == old(self).start,
            final(self).current == old(self).current,
            final(self).line == next_line(old(self).line),
    {
        if self.line < usize::MAX {
            self.line = self.line + 1;
        }
    }

    /// Passes over blanks, line breaks and `//` comments.
    fn skip_whitespace(&mut self)
        requires
            old(self).wf(),
        ensures
            final(self).wf(),
            final(self).source == old(self).source,
            final(self).start == old(self).start,
            final(self).line == old(self).line || final(self).current > old(self).current,
            final(self).current >= old(self).current,
            old(self).current < old(self).source.len() && is_digit(
                old(self).source@[old(self).current as int],
            ) ==> final(self).current == old(self).current && final(self).line == old(self).line,
            (final(self).current as int, final(self).line) == skip_ws(
                old(self).source@,
                old(self).current as int,
                old(self).line,
                false,
            ),
    {
        loop
            invariant
                self.wf(),
                self.source == old(self).source,
                self.start == old(self).start,
                self.current >= old(self).current,
                self.line == old(self).line || self.current > old(self).current,
                old(self).current < old(self).source.len() && is_digit(
                    old(self).source@[old(self).current as int],
                ) ==> self.current == old(self).current && self.line == old(self).line,
                skip_ws(self.source@, self.current as int, self.line, false) == skip_ws(
                    old(self).source@,
                    old(self).current as int,
                    old(self).line,
                    false,
                ),
            decreases self.source.len() - self.current,
        {
            let c = self.peek();
            if self.is_at_end() {
                return;
            }
            if c == ' ' || c == '\r' || c == '\t' {
                self.bump();
            } else if c == '\n' {
                self.new_line();
                self.bump();
            } else if c == '/' && self.peek_next() == '/' {
                self.bump();
                self.bump();
                let ghost after_slashes = self.current;
                while !self.is_at_end() && self.peek() != '\n'
                    invariant
                        self.current >= after_slashes,
                        skip_ws(self.source@, self.current as int, self.line, true) == skip_ws(
                            old(self).source@,
                            old(self).current as int,
                            old(self).line,
                            false,
                        ),
                        self.wf(),
                        self.source == old(self).source,
                        self.start == old(self).start,
                        self.current >= old(self).current,
                    decreases self.source.len() - self.current,
                {
                    self.bump();
                }
            } else {
                return;
            }
        }
    }

    /// The rest of a number whose first digit has been taken: digits, then a dot and
    /// digits if a digit follows the dot. Where the rest of the source is a numeral,
    /// all of it is taken.
    #[verifier::rlimit(60)]
    fn number(&mut self) -> (t: Token)
        requires
            old(self).wf(),
            old(self).current == old(self).start + 1,
            is_digit(old(self).source@[old(self).start as int]),
        ensures
            final(self).wf(),
            final(self).source == old(self).source,
            final(self).start == old(self).start,
            final(self).line == old(self).line,
            final(self).current > old(self).start,
            t.token_type == TokenType::Number,
            t.start == final(self).start,
            t.start + t.length == final(self).current,
            t.line == old(self).line,
            t.error is None,
            is_numeral(final(self).source@.subrange(t.start as int, t.start + t.length)),
            is_numeral(old(self).source@.subrange(old(self).start as int, old(self).source.len() as int))
                ==> final(self).current == final(self).source.len(),
            final(self).current as int == number_end(old(self).source@, old(self).current as int),
    {
        let ghost src = self.source@;
        let ghost start = self.start as int;
        let ghost rest = src.subrange(start, src.len() as int);
        while !self.is_at_end() && is_digit_char(self.peek())
            invariant
                self.wf(),
                self.source@ == src,
                self.source == old(self).source,
                self.start == start,
                self.line == old(self).line,
                self.current > self.start,
                digits_in(src, start, self.current as int),
                digits_end(src, self.current as int) == digits_end(src, start + 1),
            decreases self.source.len() - self.current,
        {
            self.bump();
        }
        let ghost int_end = self.current as int;
        proof {
            if is_numeral(rest) && !digits_in(rest, 0, rest.len() as int) {
                let k = choose|k: int|
                    digits_in(rest, 0, k) && #[trigger] rest[k] == '.' && digits_in(
                        rest,
                        k + 1,
                        rest.len() as int,
                    );
                assert(rest[k] == src[start + k]);
                if int_end > start + k {
                    assert(is_digit(src[start + k]));
                }
                if int_end < start + k {
                    assert(rest[int_end - start] == src[int_end]);
                }
                assert(int_end == start + k);
                assert(rest[k + 1] == src[start + k + 1]);
            } else if is_numeral(rest) {
                if int_end < src.len() {
                    assert(rest[int_end - start] == src[int_end]);
                }
            }
        }
        if self.peek() == '.' && is_digit_char(self.peek_next()) {
            self.bump();
            let ghost frac_start = self.current as int;
            self.bump();
            while !self.is_at_end() && is_digit_char(self.peek())
                invariant
                    self.wf(),
                    self.source@ == src,
                    self.source == old(self).source,
                    self.start == start,
                    self.line == old(self).line,
                    self.current > frac_start,
                    frac_start == int_end + 1,
                    digits_in(src, frac_start, self.current as int),
                    digits_end(src, self.current as int) == digits_end(src, int_end + 2),
                decreases self.source.len() - self.current,
            {
                self.bump();
            }
            proof {
                let lex = src.subrange(start, self.current as int);
                let k = int_end - start;
                assert(lex[k] == src[int_end]);
                assert(digits_in(lex, 0, k)) by {
                    assert forall|i: int| 0 <= i < k implies is_digit(#[trigger] lex[i]) by {
                        assert(lex[i] == src[start + i]);
                    }
                }
                assert(digits_in(lex, k + 1, lex.len() as int)) by {
                    assert forall|i: int| k + 1 <= i < lex.len() implies is_digit(
                        #[trigger] lex[i],
                    ) by {
                        assert(lex[i] == src[start + i]);
                    }
                }
                if is_numeral(rest) && self.current < src.len() {
                    if !digits_in(rest, 0, rest.len() as int) {
                        let k2 = choose|k2: int|
                            digits_in(rest, 0, k2) && #[trigger] rest[k2] == '.' && digits_in(
                                rest,
                                k2 + 1,
                                rest.len() as int,
                            );
                        assert(rest[k2] == src[start + k2]);
                        if int_end > start + k2 {
                            assert(is_digit(src[start + k2]));
                        }
                        if int_end < start + k2 {
                            assert(rest[int_end - start] == src[int_end]);
                        }
                        assert(rest[self.current - start] == src[self.current as int]);
                    } else {
                        assert(rest[k] == src[int_end]);
                    }
                }
            }
        } else {
            proof {
                let lex = src.subrange(start, self.current as int);
                assert(digits_in(lex, 0, lex.len() as int)) by {
                    assert forall|i: int| 0 <= i < lex.len() implies is_digit(#[trigger] lex[i]) by {
                        assert(lex[i] == src[start + i]);
                    }
                }
            }
        }
        self.make_token(TokenType::Number)
    }

    /// The rest of a string literal whose opening quote has been taken.
    fn string(&mut self) -> (t: Token)
        requires
            old(self).wf(),
            old(self).current > old(self).start,
        ensures
            final(self).wf(),
            final(self).source == old(self).source,
            final(self).start == old(self).start,
            final(self).current > old(self).start,
            t.token_type == TokenType::Str || t.error == Some(LexError::UnterminatedString),
            ({
                let (e, l2) = string_end(old(self).source@, old(self).current as int, old(self).line);
                &&& final(self).line == l2
                &&& e >= old(self).source.len() ==> final(self).current == e && t == mk_token(
                    TokenType::Error,
                    old(self).start as int,
                    e,
                    l2,
                    Some(LexError::UnterminatedString),
                )
                &&& e < old(self).source.len() ==> final(self).current == e + 1 && t == mk_token(
                    TokenType::Str,
                    old(self).start as int,
                    e + 1,
                    l2,
                    None,
                )
            }),
            t.start == final(self).start,
            t.start + t.length == final(self).current,
            t.token_type == TokenType::Error <==> t.error is Some,
    {
        while !self.is_at_end() && self.peek() != '"'
            invariant
                string_end(self.source@, self.current as int, self.line) == string_end(
                    old(self).source@,
                    old(self).current as int,
                    old(self).line,
                ),
                self.wf(),
                self.source == old(self).source,
                self.start == old(self).start,
                self.current > self.start,
            decreases self.source.len() - self.current,
        {
            if self.peek() == '\n' {
                self.new_line();
            }
            self.bump();
        }
        if self.is_at_end() {
            return self.error_token(LexError::UnterminatedString);
        }
        self.bump();
        self.make_token(TokenType::Str)
    }

    /// Whether the text from `start` to `current` is `word`.
    fn lexeme_is(&self, word: &[char]) -> (r: bool)
        requires
            self.wf(),
        ensures
            r == (self.source@.subrange(self.start as int, self.current as int) == word@),
    {
        if self.current - self.start != word.len() {
            proof {
                assert(self.source@.subrange(self.start as int, self.current as int).len()
                    != word@.len());
            }
            return false;
        }
        let mut i: usize = 0;
        while i < word.len()
            invariant
                self.wf(),
                i <= word.len(),
                self.current - self.start == word.len(),
                forall|j: int| 0 <= j < i ==> self.source@[self.start + j] == word@[j],
            decreases word.len() - i,
        {
            if self.source[self.start + i] != word[i] {
                proof {
                    assert(self.source@.subrange(self.start as int, self.current as int)[i as int]
                        != word@[i as int]);
                }
                return false;
            }
            i = i + 1;
        }
        proof {
            assert(self.source@.subrange(self.start as int, self.current as int) =~= word@);
        }
        true
    }

    /// The kind of the identifier or keyword from `start` to `current`.
    fn identifier_type(&self) -> (k: TokenType)
        requires
            self.wf(),
        ensures
            k != TokenType::Number && k != TokenType::Error && k != TokenType::Eof,
            k == keyword_kind(self.source@.subrange(self.start as int, self.current as int)),
    {
        if self.lexeme_is(&['a', 'n', 'd']) {
            TokenType::And
        } else if self.lexeme_is(&['c', 'l', 'a', 's', 's']) {
            TokenType::Class
        } else if self.lexeme_is(&['e', 'l', 's', 'e']) {
            TokenType::Else
        } else if self.lexeme_is(&['f', 'a', 'l', 's', 'e']) {
            TokenType::False
        } else if self.lexeme_is(&['f', 'o', 'r']) {
            TokenType::For
        } else if self.lexeme_is(&['f', 'u', 'n']) {
            TokenType::Fun
        } else if self.lexeme_is(&['i', 'f']) {
            TokenType::If
        } else if self.lexeme_is(&['n', 'i', 'l']) {
            TokenType::Nil
        } else if self.lexeme_is(&['o', 'r']) {
            TokenType::Or
        } else if self.lexeme_is(&['p', 'r', 'i', 'n', 't']) {
            TokenType::Print
        } else if self.lexeme_is(&['r', 'e', 't', 'u', 'r', 'n']) {
            TokenType::Return
        } else if self.lexeme_is(&['s', 'u', 'p', 'e', 'r']) {
            TokenType::Super
        } else if self.lexeme_is(&['t', 'h', 'i', 's']) {
            TokenType::This
        } else if self.lexeme_is(&['t', 'r', 'u', 'e']) {
            TokenType::True
        } else if self.lexeme_is(&['v', 'a', 'r']) {
            TokenType::Var
        } else if self.lexeme_is(&['w', 'h', 'i', 'l', 'e']) {
            TokenType::While
        } else {
            TokenType::Identifier
        }
    }

    /// The rest of an identifier or keyword whose first character has been taken.
    fn identifier(&mut self) -> (t: Token)
        requires
            old(self).wf(),
            old(self).current > old(self).start,
        ensures
            final(self).wf(),
            final(self).source == old(self).source,
            final(self).start == old(self).start,
            final(self).current > old(self).start,
            t.start == final(self).start,
            t.start + t.length == final(self).current,
            t.error is None,
            t.token_type != TokenType::Number && t.token_type != TokenType::Error
                && t.token_type != TokenType::Eof,
            final(self).line == old(self).line,
            final(self).current as int == word_end(old(self).source@, old(self).current as int),
            t == mk_token(
                keyword_kind(old(self).source@.subrange(old(self).start as int, final(self).current as int)),
                old(self).start as int,
                final(self).current as int,
                old(self).line,
                None,
            ),
    {
        while !self.is_at_end() && (is_alpha_char(self.peek()) || is_digit_char(self.peek()))
            invariant
                word_end(self.source@, self.current as int) == word_end(
                    old(self).source@,
                    old(self).current as int,
                ),
                self.line == old(self).line,
                self.wf(),
                self.source == old(self).source,
                self.start == old(self).start,
                self.current > self.start,
            decreases self.source.len() - self.current,
        {
            self.bump();
        }
        let k = self.identifier_type();
        self.make_token(k)
    }

    /// The next token. Past the last one, every call gives a token of kind `Eof`.
    pub fn scan_token(&mut self) -> (t: Token)
        requires
            old(self).wf(),
        ensures
            final(self).wf(),
            final(self).source == old(self).source,
            final(self).current >= old(self).current,
            t.token_type != TokenType::Eof ==> final(self).current > old(self).current,
            t.token_type == TokenType::Eof ==> final(self).current == final(self).source.len(),
            t.wf_in(final(self).source@),
            old(self).current == old(self).source.len() ==> t.token_type == TokenType::Eof,
            t.token_type != TokenType::Eof ==> t.length >= 1 && kind_fits(final(self).source@, t),
            t.start == final(self).start,
            (t, final(self).current as int, final(self).line) == spec_scan(
                old(self).source@,
                old(self).current as int,
                old(self).line,
            ),
            old(self).current <= t.start,
            t.start + t.length == final(self).current,
            is_numeral(old(self).source@.subrange(old(self).current as int, old(self).source.len() as int))
                ==> {
                &&& t.token_type == TokenType::Number
                &&& t.start == old(self).current
                &&& t.start + t.length == final(self).source.len()
                &&& t.line == old(self).line
                &&& final(self).current == final(self).source.len()
            },
    {
        proof {
            let rest = self.source@.subrange(self.current as int, self.source.len() as int);
            if is_numeral(rest) {
                assert(is_digit(rest[0]));
                assert(rest[0] == self.source@[self.current as int]);
            }
        }
        self.skip_whitespace();
        self.start = self.current;
        if self.is_at_end() {
            return self.make_token(TokenType::Eof);
        }
        let c = self.bump();
        proof {
            let rest = old(self).source@.subrange(old(self).current as int, old(self).source.len() as int);
            if is_numeral(rest) {
                assert(rest[0] == old(self).source@[old(self).current as int]);
                assert(self.source@.subrange(self.start as int, self.source.len() as int) == rest);
            }
        }
        if is_alpha_char(c) {
            return self.identifier();
        }
        if is_digit_char(c) {
            return self.number();
        }
        let k = if c == '(' {
            TokenType::LeftParen
        } else if c == ')' {
            TokenType::RightParen
        } else if c == '{' {
            TokenType::LeftBrace
        } else if c == '}' {
            TokenType::RightBrace
        } else if c == ',' {
            TokenType::Comma
        } else if c == '.' {
            TokenType::Dot
        } else if c == '-' {
            TokenType::Minus
        } else if c == '+' {
            TokenType::Plus
        } else if c == ';' {
            TokenType::Semicolon
        } else if c == '*' {
            TokenType::Star
        } else if c == '/' {
            if self.match_char('=') {
                TokenType::SlashEqual
            } else {
                TokenType::Slash
            }
        } else if c == '!' {
            if self.match_char('=') {
                TokenType::BangEqual
            } else {
                TokenType::Bang
            }
        } else if c == '=' {
            if self.match_char('=') {
                TokenType::EqualEqual
            } else {
                TokenType::Equal
            }
        } else if c == '<' {
            if self.match_char('=') {
                TokenType::LessEqual
            } else {
                TokenType::Less
            }
        } else if c == '>' {
            if self.match_char('=') {
                TokenType::GreaterEqual
            } else {
                TokenType::Greater
            }
        } else if c == '"' {
            return self.string();
        } else {
            return self.error_token(LexError::UnexpectedCharacter);
        };
        self.make_token(k)
    }

    /// The characters that `t` covers.
    pub fn lexeme(&self, t: &Token) -> (r: Vec<char>)
        requires
            t.start + t.length <= self.source.len(),
        ensures
            r@ == self.source@.subrange(t.start as int, t.start + t.length),
    {
        let mut r: Vec<char> = Vec::new();
        let mut i: usize = t.start;
        while i < t.start + t.length
            invariant
                t.start <= i <= t.start + t.length,
                t.start + t.length <= self.source.len(),
                r@ == self.source@.subrange(t.start as int, i as int),
            decreases t.start + t.length - i,
        {
            r.push(self.source[i]);
            i = i + 1;
            proof {
                assert(r@ =~= self.source@.subrange(t.start as int, i as int));
            }
        }
        r
    }

    fn make_token(&self, token_type: TokenType) -> (t: Token)
        requires
            self.wf(),
        ensures
            t == (Token {
                token_type,
                start: self.start,
                length: (self.current - self.start) as usize,
                line: self.line,
                error: None,
            }),
    {
        Token {
            token_type,
            start: self.start,
            length: self.current - self.start,
            line: self.line,
            error: None,
        }
    }

    fn error_token(&self, error: LexError) -> (t: Token)
        requires
            self.wf(),
        ensures
            t == (Token {
                token_type: TokenType::Error,
                start: self.start,
                length: (self.current - self.start) as usize,
                line: self.line,
                error: Some(error),
            }),
    {
        Token {
            token_type: TokenType::Error,
            start: self.start,
            length: self.current - self.start,
            line: self.line,
            error: Some(error),
        }
    }
}

} // verus!
