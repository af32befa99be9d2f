//! The lexer: produces a finite token stream from source text, terminated by
//! an `Eof` token that is returned repeatedly once the input is exhausted.
//!
//! Trivia (whitespace runs, newlines, `//` line comments) are emitted as
//! distinct tokens so that diagnostics can account for every source
//! character; higher layers filter them. Lexing failures are in-band
//! `TokenType::Error` tokens whose lexeme points at the offending input.
//!
//! Two invariants of the stream are part of the contracts below: the
//! concatenation of all lexemes (trivia included) reproduces the source
//! exactly, and line numbers are monotone non-decreasing across successive
//! tokens.
//!
//! The whole stream is pinned by the relation [`tokens_of`]: the lexemes
//! tile the source, each classifies to its token's kind ([`classify`]) and
//! is scanned maximally ([`maximal_munch`]), and lines are counted from 1.
//! Maximal munch makes the stream satisfying the relation unique.

use crate::token::{Token, TokenType};
use vstd::prelude::*;

verus! {

/// Lexing failures, carried in-band as `TokenType::Error` tokens.
#[derive(Debug, PartialEq, Eq, Clone, Copy, Structural)]
pub enum LexError {
    InvalidCharacter,
    UnterminatedString,
}

/// ASCII decimal digit.
pub open spec fn is_digit_ch(c: char) -> bool {
    48 <= c as u32 && c as u32 <= 57
}

/// ASCII letter or underscore: what may start an identifier.
pub open spec fn is_alpha_ch(c: char) -> bool {
    (97 <= c as u32 && c as u32 <= 122) || (65 <= c as u32 && c as u32 <= 90) || c == '_'
}

/// What may continue an identifier.
pub open spec fn is_alnum_ch(c: char) -> bool {
    is_alpha_ch(c) || is_digit_ch(c)
}

/// Number of newline characters in `s`: how many lines a lexeme spans.
pub open spec fn count_nl(s: Seq<char>) -> nat
    decreases s.len(),
{
    if s.len() == 0 {
        0
    } else {
        count_nl(s.drop_last()) + if s.last() == '\n' {
            1nat
        } else {
            0nat
        }
    }
}

pub open spec fn all_digits(s: Seq<char>) -> bool {
    forall|i: int| 0 <= i < s.len() ==> is_digit_ch(#[trigger] s[i])
}

pub open spec fn all_alnum(s: Seq<char>) -> bool {
    forall|i: int| 0 <= i < s.len() ==> is_alnum_ch(#[trigger] s[i])
}

pub open spec fn all_eq_ch(s: Seq<char>, c: char) -> bool {
    forall|i: int| 0 <= i < s.len() ==> #[trigger] s[i] == c
}

pub open spec fn contains_ch(s: Seq<char>, c: char) -> bool {
    exists|i: int| 0 <= i < s.len() && #[trigger] s[i] == c
}

/// The shape of a numeric lexeme: `DIGIT+ ( "." DIGIT+ )?`. A trailing dot
/// without fractional digits is never part of the lexeme.
pub open spec fn number_shape(s: Seq<char>) -> bool {
    &&& s.len() > 0
    &&& is_digit_ch(s[0])
    &&& (all_digits(s) || exists|k: int|
        {
            &&& 1 <= k && k + 2 <= s.len()
            &&& #[trigger] s[k] == '.'
            &&& (forall|i: int| 0 <= i < k ==> is_digit_ch(#[trigger] s[i]))
            &&& (forall|i: int| k < i < s.len() ==> is_digit_ch(#[trigger] s[i]))
        })
}

/// Keyword recognition: an identifier-shaped lexeme is a keyword exactly
/// when it equals one of the sixteen reserved words.
pub open spec fn keyword_or_ident(s: Seq<char>) -> TokenType {
    if s == "and"@ {
        TokenType::And
    } else if s == "class"@ {
        TokenType::Class
    } else if s == "else"@ {
        TokenType::Else
    } else if s == "false"@ {
        TokenType::False
    } else if s == "for"@ {
        TokenType::For
    } else if s == "fun"@ {
        TokenType::Fun
    } else if s == "if"@ {
        TokenType::If
    } else if s == "nil"@ {
        TokenType::Nil
    } else if s == "or"@ {
        TokenType::Or
    } else if s == "print"@ {
        TokenType::Print
    } else if s == "return"@ {
        TokenType::Return
    } else if s == "super"@ {
        TokenType::Super
    } else if s == "this"@ {
        TokenType::This
    } else if s == "true"@ {
        TokenType::True
    } else if s == "var"@ {
        TokenType::Var
    } else if s == "while"@ {
        TokenType::While
    } else {
        TokenType::Identifier
    }
}

/// The token kind a lexeme denotes, or `None` if the character sequence is
/// not a single well-formed lexeme. `next_token` always returns a token
/// whose lexeme classifies to its kind.
pub open spec fn classify(s: Seq<char>) -> Option<TokenType> {
    if s.len() == 0 {
        Some(TokenType::Eof)
    } else {
        let c = s[0];
        if is_alpha_ch(c) {
            if all_alnum(s) {
                Some(keyword_or_ident(s))
            } else {
                None
            }
        } else if is_digit_ch(c) {
            if number_shape(s) {
                Some(TokenType::Number)
            } else {
                None
            }
        } else if c == ' ' || c == '\t' {
            if all_eq_ch(s, c) {
                Some(TokenType::Whitespace)
            } else {
                None
            }
        } else if c == '\n' {
            if s.len() == 1 {
                Some(TokenType::Newline)
            } else {
                None
            }
        } else if c == '(' {
            if s.len() == 1 {
                Some(TokenType::LeftParen)
            } else {
                None
            }
        } else if c == ')' {
            if s.len() == 1 {
                Some(TokenType::RightParen)
            } else {
                None
            }
        } else if c == '{' {
            if s.len() == 1 {
                Some(TokenType::LeftBrace)
            } else {
                None
            }
        } else if c == '}' {
            if s.len() == 1 {
                Some(TokenType::RightBrace)
            } else {
                None
            }
        } else if c == ',' {
            if s.len() == 1 {
                Some(TokenType::Comma)
            } else {
                None
            }
        } else if c == '.' {
            if s.len() == 1 {
                Some(TokenType::Dot)
            } else {
                None
            }
        } else if c == '-' {
            if s.len() == 1 {
                Some(TokenType::Minus)
            } else {
                None
            }
        } else if c == '+' {
            if s.len() == 1 {
                Some(TokenType::Plus)
            } else {
                None
            }
        } else if c == ';' {
            if s.len() == 1 {
                Some(TokenType::Semicolon)
            } else {
                None
            }
        } else if c == '*' {
            if s.len() == 1 {
                Some(TokenType::Star)
            } else {
                None
            }
        } else if c == '/' {
            if s.len() == 1 {
                Some(TokenType::Slash)
            } else if s.len() >= 2 && s[1] == '/' && !contains_ch(s, '\n') {
                Some(TokenType::Comment)
            } else {
                None
            }
        } else if c == '!' {
            if s.len() == 1 {
                Some(TokenType::Bang)
            } else if s.len() == 2 && s[1] == '=' {
                Some(TokenType::BangEqual)
            } else {
                None
            }
        } else if c == '=' {
            if s.len() == 1 {
                Some(TokenType::Equal)
            } else if s.len() == 2 && s[1] == '=' {
                Some(TokenType::EqualEqual)
            } else {
                None
            }
        } else if c == '>' {
            if s.len() == 1 {
                Some(TokenType::Greater)
            } else if s.len() == 2 && s[1] == '=' {
                Some(TokenType::GreaterEqual)
            } else {
                None
            }
        } else if c == '<' {
            if s.len() == 1 {
                Some(TokenType::Less)
            } else if s.len() == 2 && s[1] == '=' {
                Some(TokenType::LessEqual)
            } else {
                None
            }
        } else if c == '"' {
            if s.len() >= 2 && s.last() == '"' && !contains_ch(
                s.subrange(1, s.len() - 1),
                '"',
            ) {
                Some(TokenType::String)
            } else if !contains_ch(s.subrange(1, s.len() as int), '"') && s.last() != '"' || s.len()
                == 1 {
                Some(TokenType::Error(LexError::UnterminatedString))
            } else {
                None
            }
        } else {
            if s.len() == 1 {
                Some(TokenType::Error(LexError::InvalidCharacter))
            } else {
                None
            }
        }
    }
}

/// Maximal munch: given the lexeme `s` and the remaining input `rest`, the
/// lexeme could not have been extended by another character.
pub open spec fn maximal_munch(s: Seq<char>, rest: Seq<char>) -> bool {
    if s.len() == 0 {
        true
    } else {
        let c = s[0];
        if is_alpha_ch(c) {
            rest.len() == 0 || !is_alnum_ch(rest[0])
        } else if is_digit_ch(c) {
            rest.len() == 0 || (!is_digit_ch(rest[0]) && (contains_ch(s, '.') || !(rest[0] == '.'
                && rest.len() >= 2 && is_digit_ch(rest[1]))))
        } else if c == ' ' || c == '\t' {
            rest.len() == 0 || rest[0] != c
        } else if c == '/' {
            if s.len() >= 2 {
                rest.len() == 0 || rest[0] == '\n'
            } else {
                rest.len() == 0 || rest[0] != '/'
            }
        } else if (c == '!' || c == '=' || c == '>' || c == '<') && s.len() == 1 {
            rest.len() == 0 || rest[0] != '='
        } else if c == '"' && (s.len() == 1 || s.last() != '"') {
            rest.len() == 0
        } else {
            true
        }
    }
}

pub open spec fn is_trivia(t: TokenType) -> bool {
    t == TokenType::Whitespace || t == TokenType::Newline || t == TokenType::Comment
}

/// The lexer walks the source by character position, tracking the current
/// 1-based line. It hands out one token per call to `next_token`.
pub struct Lexer<'t> {
    text: &'t str,
    text_len: usize,
    pos: usize,
    line: usize,
}

impl<'t> Lexer<'t> {
    pub closed spec fn wf(self) -> bool {
        &&& self.text_len == self.text@.len()
        &&& self.text@.len() < usize::MAX
        &&& self.pos <= self.text_len
        &&& 1 <= self.line
        &&& self.line <= 1 + self.pos
    }

    pub closed spec fn spec_text(self) -> Seq<char> {
        self.text@
    }

    pub closed spec fn spec_pos(self) -> int {
        self.pos as int
    }

    pub closed spec fn spec_line(self) -> int {
        self.line as int
    }

    pub fn new(text: &'t str) -> (l: Lexer<'t>)
        requires
            text@.len() < usize::MAX,
        ensures
            l.wf(),
            l.spec_text() == text@,
            l.spec_pos() == 0,
            l.spec_line() == 1,
    {
        let n = text.unicode_len();
        Lexer { text, text_len: n, pos: 0, line: 1 }
    }

    /// The character at the cursor, without consuming it.
    fn peek(&self) -> (c: Option<char>)
        requires
            self.wf(),
        ensures
            match c {
                Some(ch) => self.spec_pos() < self.spec_text().len() && ch == self.spec_text()[
                    self.spec_pos()
                ],
                None => self.spec_pos() == self.spec_text().len(),
            },
    {
        if self.pos < self.text_len {
            Some(self.text.get_char(self.pos))
        } else {
            None
        }
    }

    /// The character one past the cursor.
    fn peek_2(&self) -> (c: Option<char>)
        requires
            self.wf(),
        ensures
            match c {
                Some(ch) => self.spec_pos() + 1 < self.spec_text().len() && ch == self.spec_text()[
                    self.spec_pos() + 1
                ],
                None => self.spec_pos() + 1 >= self.spec_text().len(),
            },
    {
        if self.pos < self.text_len && self.pos + 1 < self.text_len {
            Some(self.text.get_char(self.pos + 1))
        } else {
            None
        }
    }

    /// Consume and return the character at the cursor, advancing the line
    /// counter on a newline.
    fn next_char(&mut self) -> (c: Option<char>)
        requires
            old(self).wf(),
        ensures
            final(self).wf(),
            final(self).text == old(self).text,
            final(self).text_len == old(self).text_len,
            match c {
                Some(ch) => {
                    &&& old(self).spec_pos() < final(self).spec_text().len()
                    &&& ch == final(self).spec_text()[old(self).spec_pos()]
                    &&& final(self).spec_pos() == old(self).spec_pos() + 1
                    &&& final(self).spec_line() == old(self).spec_line() + if ch == '\n' {
                        1int
                    } else {
                        0int
                    }
                },
                None => old(self).spec_pos() == final(self).spec_text().len() && *final(self) == *old(self),
            },
    {
        if self.pos < self.text_len {
            let c = self.text.get_char(self.pos);
            self.pos = self.pos + 1;
            if c == '\n' {
                self.line = self.line + 1;
            }
            Some(c)
        } else {
            None
        }
    }

    /// Consume the cursor character if it equals `ch`; `ch` is never a
    /// newline here, so the line is unchanged.
    fn advance_if(&mut self, ch: char) -> (b: bool)
        requires
            old(self).wf(),
            ch != '\n',
        ensures
            final(self).wf(),
            final(self).text == old(self).text,
            final(self).text_len == old(self).text_len,
            final(self).spec_line() == old(self).spec_line(),
            if b {
                old(self).spec_pos() < final(self).spec_text().len() && final(self).spec_text()[old(
                    self,
                ).spec_pos()] == ch && final(self).spec_pos() == old(self).spec_pos() + 1
            } else {
                *final(self) == *old(self) && (old(self).spec_pos() == final(self).spec_text().len()
                    || final(self).spec_text()[old(self).spec_pos()] != ch)
            },
    {
        match self.peek() {
            Some(c) => {
                if c == ch {
                    self.next_char();
                    true
                } else {
                    false
                }
            },
            None => false,
        }
    }

    /// Consume a run of decimal digits.
    fn consume_digits(&mut self)
        requires
            old(self).wf(),
        ensures
            final(self).wf(),
            final(self).text == old(self).text,
            final(self).text_len == old(self).text_len,
            final(self).spec_line() == old(self).spec_line(),
            old(self).spec_pos() <= final(self).spec_pos(),
            forall|i: int|
                old(self).spec_pos() <= i < final(self).spec_pos() ==> is_digit_ch(
                    #[trigger] final(self).spec_text()[i],
                ),
            final(self).spec_pos() == final(self).spec_text().len() || !is_digit_ch(
                final(self).spec_text()[final(self).spec_pos()],
            ),
    {
        loop
            invariant
                self.wf(),
                self.text == old(self).text,
                self.text_len == old(self).text_len,
                self.spec_line() == old(self).spec_line(),
                old(self).spec_pos() <= self.spec_pos(),
                forall|i: int|
                    old(self).spec_pos() <= i < self.spec_pos() ==> is_digit_ch(
                        #[trigger] self.spec_text()[i],
                    ),
            decreases self.text_len - self.pos,
        {
            match self.peek() {
                Some(c) => {
                    let u = c as u32;
                    if 48 <= u && u <= 57 {
                        self.next_char();
                    } else {
                        return ;
                    }
                },
                None => {
                    return ;
                },
            }
        }
    }

    /// Consume a run of identifier characters (letters, digits, underscore).
    fn consume_ident_chars(&mut self)
        requires
            old(self).wf(),
        ensures
            final(self).wf(),
            final(self).text == old(self).text,
            final(self).text_len == old(self).text_len,
            final(self).spec_line() == old(self).spec_line(),
            old(self).spec_pos() <= final(self).spec_pos(),
            forall|i: int|
                old(self).spec_pos() <= i < final(self).spec_pos() ==> is_alnum_ch(
                    #[trigger] final(self).spec_text()[i],
                ),
            final(self).spec_pos() == final(self).spec_text().len() || !is_alnum_ch(
                final(self).spec_text()[final(self).spec_pos()],
            ),
    {
        loop
            invariant
                self.wf(),
                self.text == old(self).text,
                self.text_len == old(self).text_len,
                self.spec_line() == old(self).spec_line(),
                old(self).spec_pos() <= self.spec_pos(),
                forall|i: int|
                    old(self).spec_pos() <= i < self.spec_pos() ==> is_alnum_ch(
                        #[trigger] self.spec_text()[i],
                    ),
            decreases self.text_len - self.pos,
        {
            match self.peek() {
                Some(c) => {
                    if Lexer::is_alpha(c) || Lexer::is_digit(c) {
                        self.next_char();
                    } else {
                        return ;
                    }
                },
                None => {
                    return ;
                },
            }
        }
    }

    /// Consume a run of one repeated character (space runs, tab runs).
    fn consume_run(&mut self, ch: char)
        requires
            old(self).wf(),
            ch != '\n',
        ensures
            final(self).wf(),
            final(self).text == old(self).text,
            final(self).text_len == old(self).text_len,
            final(self).spec_line() == old(self).spec_line(),
            old(self).spec_pos() <= final(self).spec_pos(),
            forall|i: int|
                old(self).spec_pos() <= i < final(self).spec_pos() ==> #[trigger] final(self).spec_text()[i]
                    == ch,
            final(self).spec_pos() == final(self).spec_text().len() || final(self).spec_text()[final(self).spec_pos()] != ch,
    {
        loop
            invariant
                self.wf(),
                self.text == old(self).text,
                self.text_len == old(self).text_len,
                self.spec_line() == old(self).spec_line(),
                ch != '\n',
                old(self).spec_pos() <= self.spec_pos(),
                forall|i: int|
                    old(self).spec_pos() <= i < self.spec_pos() ==> #[trigger] self.spec_text()[i]
                        == ch,
            decreases self.text_len - self.pos,
        {
            let ghost prev = *self;
            if !self.advance_if(ch) {
                return ;
            }
            proof {
                assert(self.spec_text() == prev.spec_text());
                assert forall|i: int|
                    old(self).spec_pos() <= i < self.spec_pos() implies #[trigger] self.spec_text()[
                    i
                ] == ch by {
                    if i < prev.spec_pos() {
                        assert(prev.spec_text()[i] == ch);
                    } else {
                        assert(i == prev.spec_pos());
                    }
                }
            }
        }
    }

    /// Consume the rest of a `//` comment: everything up to, but not
    /// including, the next newline.
    fn consume_comment(&mut self)
        requires
            old(self).wf(),
        ensures
            final(self).wf(),
            final(self).text == old(self).text,
            final(self).text_len == old(self).text_len,
            final(self).spec_line() == old(self).spec_line(),
            old(self).spec_pos() <= final(self).spec_pos(),
            forall|i: int|
                old(self).spec_pos() <= i < final(self).spec_pos() ==> #[trigger] final(self).spec_text()[i]
                    != '\n',
            final(self).spec_pos() == final(self).spec_text().len() || final(self).spec_text()[final(self).spec_pos()] == '\n',
    {
        loop
            invariant
                self.wf(),
                self.text == old(self).text,
                self.text_len == old(self).text_len,
                self.spec_line() == old(self).spec_line(),
                old(self).spec_pos() <= self.spec_pos(),
                forall|i: int|
                    old(self).spec_pos() <= i < self.spec_pos() ==> #[trigger] self.spec_text()[i]
                        != '\n',
            decreases self.text_len - self.pos,
        {
            match self.peek() {
                Some(c) => {
                    if c != '\n' {
                        self.next_char();
                    } else {
                        return ;
                    }
                },
                None => {
                    return ;
                },
            }
        }
    }

    /// Consume the body of a string literal: everything up to, but not
    /// including, the closing quote, counting embedded newlines.
    fn consume_string_body(&mut self)
        requires
            old(self).wf(),
        ensures
            final(self).wf(),
            final(self).text == old(self).text,
            final(self).text_len == old(self).text_len,
            old(self).spec_pos() <= final(self).spec_pos(),
            forall|i: int|
                old(self).spec_pos() <= i < final(self).spec_pos() ==> #[trigger] final(self).spec_text()[i]
                    != '"',
            final(self).spec_pos() == final(self).spec_text().len() || final(self).spec_text()[final(self).spec_pos()] == '"',
            final(self).spec_line() == old(self).spec_line() + count_nl(
                final(self).spec_text().subrange(old(self).spec_pos(), final(self).spec_pos()),
            ),
    {
        proof {
            assert(self.spec_text().subrange(old(self).spec_pos(), old(self).spec_pos())
                =~= Seq::<char>::empty());
        }
        loop
            invariant
                self.wf(),
                self.text == old(self).text,
                self.text_len == old(self).text_len,
                old(self).spec_pos() <= self.spec_pos(),
                forall|i: int|
                    old(self).spec_pos() <= i < self.spec_pos() ==> #[trigger] self.spec_text()[i]
                        != '"',
                self.spec_line() == old(self).spec_line() + count_nl(
                    self.spec_text().subrange(old(self).spec_pos(), self.spec_pos()),
                ),
            decreases self.text_len - self.pos,
        {
            match self.peek() {
                Some(c) => {
                    if c != '"' {
                        proof {
                            assert(self.spec_text().subrange(
                                old(self).spec_pos(),
                                self.spec_pos() + 1,
                            ).drop_last() =~= self.spec_text().subrange(
                                old(self).spec_pos(),
                                self.spec_pos(),
                            ));
                        }
                        self.next_char();
                    } else {
                        return ;
                    }
                },
                None => {
                    return ;
                },
            }
        }
    }

    /// Letter or underscore: what may start an identifier.
    pub fn is_alpha(c: char) -> (b: bool)
        ensures
            b == is_alpha_ch(c),
    {
        let u = c as u32;
        (97 <= u && u <= 122) || (65 <= u && u <= 90) || u == 95
    }

    /// ASCII decimal digit.
    fn is_digit(c: char) -> (b: bool)
        ensures
            b == is_digit_ch(c),
    {
        let u = c as u32;
        48 <= u && u <= 57
    }

    /// Compare the source characters in `[start, end)` with `kw`.
    fn check_keyword(&self, start: usize, end: usize, kw: &str) -> (b: bool)
        requires
            self.wf(),
            start <= end <= self.text_len,
        ensures
            b == (self.spec_text().subrange(start as int, end as int) == kw@),
    {
        let kw_len = kw.unicode_len();
        if end - start != kw_len {
            proof {
                assert(self.spec_text().subrange(start as int, end as int).len() != kw@.len());
            }
            return false;
        }
        let mut i: usize = 0;
        while i < kw_len
            invariant
                self.wf(),
                start <= end <= self.text_len,
                i <= kw_len,
                kw_len == kw@.len(),
                end - start == kw_len,
                forall|j: int|
                    0 <= j < i ==> self.spec_text()[start + j] == #[trigger] kw@[j],
            decreases kw_len - i,
        {
            if self.text.get_char(start + i) != kw.get_char(i) {
                proof {
                    assert(self.spec_text().subrange(start as int, end as int)[i as int] != kw@[
                        i as int
                    ]);
                }
                return false;
            }
            i = i + 1;
        }
        proof {
            assert(self.spec_text().subrange(start as int, end as int) =~= kw@);
        }
        true
    }

    /// Classify the identifier-shaped lexeme in `[start, end)` as a keyword
    /// or a plain identifier.
    fn identifier_or_keyword(&self, start: usize, end: usize) -> (typ: TokenType)
        requires
            self.wf(),
            start <= end <= self.text_len,
        ensures
            typ == keyword_or_ident(self.spec_text().subrange(start as int, end as int)),
    {
        if self.check_keyword(start, end, "and") {
            TokenType::And
        } else if self.check_keyword(start, end, "class") {
            TokenType::Class
        } else if self.check_keyword(start, end, "else") {
            TokenType::Else
        } else if self.check_keyword(start, end, "false") {
            TokenType::False
        } else if self.check_keyword(start, end, "for") {
            TokenType::For
        } else if self.check_keyword(start, end, "fun") {
            TokenType::Fun
        } else if self.check_keyword(start, end, "if") {
            TokenType::If
        } else if self.check_keyword(start, end, "nil") {
            TokenType::Nil
        } else if self.check_keyword(start, end, "or") {
            TokenType::Or
        } else if self.check_keyword(start, end, "print") {
            TokenType::Print
        } else if self.check_keyword(start, end, "return") {
            TokenType::Return
        } else if self.check_keyword(start, end, "super") {
            TokenType::Super
        } else if self.check_keyword(start, end, "this") {
            TokenType::This
        } else if self.check_keyword(start, end, "true") {
            TokenType::True
        } else if self.check_keyword(start, end, "var") {
            TokenType::Var
        } else if self.check_keyword(start, end, "while") {
            TokenType::While
        } else {
            TokenType::Identifier
        }
    }

    /// Scan the rest of a numeric literal (the first digit is consumed):
    /// the remaining digits, then a fractional part only if a dot is
    /// directly followed by a digit.
    fn number(&mut self)
        requires
            old(self).wf(),
            0 < old(self).spec_pos(),
            is_digit_ch(old(self).spec_text()[old(self).spec_pos() - 1]),
        ensures
            final(self).wf(),
            final(self).text == old(self).text,
            final(self).text_len == old(self).text_len,
            final(self).spec_line() == old(self).spec_line(),
            old(self).spec_pos() <= final(self).spec_pos(),
            number_shape(final(self).spec_text().subrange(old(self).spec_pos() - 1, final(self).spec_pos())),
            maximal_munch(
                final(self).spec_text().subrange(old(self).spec_pos() - 1, final(self).spec_pos()),
                final(self).spec_text().subrange(final(self).spec_pos(), final(self).spec_text().len() as int),
            ),
    {
        let ghost start = old(self).spec_pos() - 1;
        self.consume_digits();
        let ghost int_end = self.spec_pos();
        let mut has_frac = false;
        match self.peek() {
            Some(c) => {
                if c == '.' {
                    match self.peek_2() {
                        Some(c2) => {
                            if Lexer::is_digit(c2) {
                                self.next_char();
                                self.consume_digits();
                                has_frac = true;
                            }
                        },
                        None => {},
                    }
                }
            },
            None => {},
        }
        proof {
            let s = self.spec_text().subrange(start, self.spec_pos());
            let rest = self.spec_text().subrange(self.spec_pos(), self.spec_text().len() as int);
            if has_frac {
                let k = int_end - start;
                assert(s[k] == '.');
                assert(number_shape(s));
                assert(contains_ch(s, '.'));
                assert(maximal_munch(s, rest));
            } else {
                assert(all_digits(s));
                assert(number_shape(s));
                assert(maximal_munch(s, rest));
            }
        }
    }

    /// Scan the rest of a string literal (the opening quote is consumed).
    /// Returns `String` when the closing quote is found, otherwise an
    /// unterminated-string error token type.
    fn string(&mut self) -> (typ: TokenType)
        requires
            old(self).wf(),
            0 < old(self).spec_pos(),
            old(self).spec_text()[old(self).spec_pos() - 1] == '"',
        ensures
            final(self).wf(),
            final(self).text == old(self).text,
            final(self).text_len == old(self).text_len,
            old(self).spec_pos() <= final(self).spec_pos(),
            final(self).spec_line() == old(self).spec_line() + count_nl(
                final(self).spec_text().subrange(old(self).spec_pos() - 1, final(self).spec_pos()),
            ),
            classify(final(self).spec_text().subrange(old(self).spec_pos() - 1, final(self).spec_pos()))
                == Some(typ),
            maximal_munch(
                final(self).spec_text().subrange(old(self).spec_pos() - 1, final(self).spec_pos()),
                final(self).spec_text().subrange(final(self).spec_pos(), final(self).spec_text().len() as int),
            ),
            typ == TokenType::String || typ == TokenType::Error(LexError::UnterminatedString),
    {
        let ghost start = old(self).spec_pos() - 1;
        self.consume_string_body();
        let ghost body_end = self.spec_pos();
        let terminated = self.advance_if('"');
        proof {
            let text = self.spec_text();
            let s = text.subrange(start, self.spec_pos());
            let one = text.subrange(start, start + 1);
            let body = text.subrange(start + 1, self.spec_pos());
            assert(count_nl(s) == count_nl(one) + count_nl(body)) by {
                lemma_count_nl_concat(text, start, start + 1, self.spec_pos());
            }
            assert(count_nl(one) == 0) by {
                assert(one.drop_last() =~= Seq::<char>::empty());
                assert(count_nl(Seq::<char>::empty()) == 0);
                assert(one.last() == text[start]);
                assert(one.last() == '"');
            }
            let inner = text.subrange(start + 1, body_end);
            if terminated {
                assert(count_nl(body) == count_nl(body.drop_last()) + 0) by {
                    assert(body.last() == text[self.spec_pos() - 1]);
                    assert(body.last() == '"');
                }
                assert(body.drop_last() =~= inner);
                let mid = s.subrange(1, s.len() - 1);
                assert(forall|i: int|
                    0 <= i < mid.len() ==> #[trigger] mid[i] == text[start + 1 + i]);
                assert(!contains_ch(mid, '"'));
                assert(s.last() == '"');
                assert(s.len() >= 2);
            } else {
                assert(self.spec_pos() == body_end);
                let tail = s.subrange(1, s.len() as int);
                assert(tail =~= inner);
                assert(forall|i: int|
                    0 <= i < tail.len() ==> #[trigger] tail[i] == text[start + 1 + i]);
                assert(!contains_ch(tail, '"'));
                if s.len() >= 2 {
                    assert(s.last() == text[self.spec_pos() - 1]);
                    assert(s.last() != '"');
                }
            }
        }
        if terminated {
            TokenType::String
        } else {
            TokenType::Error(LexError::UnterminatedString)
        }
    }

    /// Produce the next token. The lexeme is exactly the consumed source
    /// segment, its kind is what `classify` says of it, the scan is maximal,
    /// and the token's line is the line at the end of the lexeme. Once the
    /// input is exhausted an `Eof` token with an empty lexeme is returned,
    /// and again on every later call.
    pub fn next_token(&mut self) -> (tok: Token<'t>)
        requires
            old(self).wf(),
        ensures
            final(self).wf(),
            final(self).spec_text() == old(self).spec_text(),
            old(self).spec_pos() <= final(self).spec_pos(),
            final(self).spec_pos() <= final(self).spec_text().len(),
            1 <= final(self).spec_line(),
            tok.lexeme@ == final(self).spec_text().subrange(old(self).spec_pos(), final(self).spec_pos()),
            classify(tok.lexeme@) == Some(tok.typ),
            maximal_munch(
                tok.lexeme@,
                final(self).spec_text().subrange(final(self).spec_pos(), final(self).spec_text().len() as int),
            ),
            tok.line == final(self).spec_line(),
            final(self).spec_line() == old(self).spec_line() + count_nl(tok.lexeme@),
            (tok.typ == TokenType::Eof) <==> (old(self).spec_pos() == final(self).spec_text().len()),
            tok.typ != TokenType::Eof ==> old(self).spec_pos() < final(self).spec_pos(),
    {
        let start_pos = self.pos;
        let ghost start = self.spec_pos();
        let text: &'t str = self.text;
        let c_opt = self.next_char();
        match c_opt {
            None => {
                let tok = Token::new(TokenType::Eof, "", self.line);
                proof {
                    reveal_strlit("");
                    assert(tok.lexeme@ =~= self.spec_text().subrange(start, self.spec_pos()));
                    assert(count_nl(tok.lexeme@) == 0);
                }
                tok
            },
            Some(c) => {
                let typ: TokenType;
                if Lexer::is_alpha(c) {
                    self.consume_ident_chars();
                    typ = self.identifier_or_keyword(start_pos, self.pos);
                    proof {
                        let s = self.spec_text().subrange(start, self.spec_pos());
                        assert(all_alnum(s));
                        assert(typ != TokenType::Eof);
                    }
                } else if Lexer::is_digit(c) {
                    self.number();
                    typ = TokenType::Number;
                } else if c == ' ' {
                    self.consume_run(' ');
                    typ = TokenType::Whitespace;
                    proof {
                        let s = self.spec_text().subrange(start, self.spec_pos());
                        assert(all_eq_ch(s, ' '));
                    }
                } else if c == '\t' {
                    self.consume_run('\t');
                    typ = TokenType::Whitespace;
                    proof {
                        let s = self.spec_text().subrange(start, self.spec_pos());
                        assert(all_eq_ch(s, '\t'));
                    }
                } else if c == '\n' {
                    typ = TokenType::Newline;
                } else if c == '(' {
                    typ = TokenType::LeftParen;
                } else if c == ')' {
                    typ = TokenType::RightParen;
                } else if c == '{' {
                    typ = TokenType::LeftBrace;
                } else if c == '}' {
                    typ = TokenType::RightBrace;
                } else if c == ',' {
                    typ = TokenType::Comma;
                } else if c == '.' {
                    typ = TokenType::Dot;
                } else if c == '-' {
                    typ = TokenType::Minus;
                } else if c == '+' {
                    typ = TokenType::Plus;
                } else if c == ';' {
                    typ = TokenType::Semicolon;
                } else if c == '*' {
                    typ = TokenType::Star;
                } else if c == '/' {
                    if self.advance_if('/') {
                        self.consume_comment();
                        typ = TokenType::Comment;
                        proof {
                            let s = self.spec_text().subrange(start, self.spec_pos());
                            assert(s.len() >= 2 && s[1] == '/');
                            assert(forall|i: int| 0 <= i < s.len() ==> #[trigger] s[i] != '\n');
                            assert(!contains_ch(s, '\n'));
                        }
                    } else {
                        typ = TokenType::Slash;
                    }
                } else if c == '!' {
                    if self.advance_if('=') {
                        typ = TokenType::BangEqual;
                    } else {
                        typ = TokenType::Bang;
                    }
                } else if c == '=' {
                    if self.advance_if('=') {
                        typ = TokenType::EqualEqual;
                    } else {
                        typ = TokenType::Equal;
                    }
                } else if c == '>' {
                    if self.advance_if('=') {
                        typ = TokenType::GreaterEqual;
                    } else {
                        typ = TokenType::Greater;
                    }
                } else if c == '<' {
                    if self.advance_if('=') {
                        typ = TokenType::LessEqual;
                    } else {
                        typ = TokenType::Less;
                    }
                } else if c == '"' {
                    typ = self.string();
                } else {
                    typ = TokenType::Error(LexError::InvalidCharacter);
                }
                let lexeme = text.substring_char(start_pos, self.pos);
                let tok = Token::new(typ, lexeme, self.line);
                proof {
                    let s = tok.lexeme@;
                    assert(s[0] == c);
                    if c != '"' && c != '\n' {
                        assert(forall|i: int| 0 <= i < s.len() ==> #[trigger] s[i] != '\n');
                        lemma_count_nl_no_nl(s);
                    }
                    if c == '\n' {
                        assert(s.len() == 1);
                        assert(s.drop_last() =~= Seq::<char>::empty());
                        assert(count_nl(s.drop_last()) == 0);
                        assert(s.last() == '\n');
                        assert(count_nl(s) == 1);
                    }
                    assert(classify(s) == Some(typ));
                }
                tok
            },
        }
    }
}


/// `toks` are exactly the tokens of `text` between positions `pos0` (at
/// line `line0`) and `pos1` (at line `line1`): each lexeme is the next
/// source segment, classifies to its token's kind, is maximal, and carries
/// the line at its end.
pub open spec fn stream_prefix<'t>(
    text: Seq<char>,
    pos0: int,
    line0: int,
    pos1: int,
    line1: int,
    toks: Seq<Token<'t>>,
) -> bool
    decreases toks.len(),
{
    if toks.len() == 0 {
        pos1 == pos0 && line1 == line0
    } else {
        let t = toks[0];
        let end = pos0 + t.lexeme@.len();
        &&& 0 <= pos0 < text.len()
        &&& t.lexeme@.len() > 0
        &&& end <= text.len()
        &&& t.lexeme@ == text.subrange(pos0, end)
        &&& classify(t.lexeme@) == Some(t.typ)
        &&& maximal_munch(t.lexeme@, text.subrange(end, text.len() as int))
        &&& t.line == line0 + count_nl(t.lexeme@)
        &&& stream_prefix(text, end, t.line as int, pos1, line1, toks.subrange(1, toks.len() as int))
    }
}

/// `toks` is the complete token stream of `text` (trivia included, `Eof`
/// excluded): the lexemes tile the whole source from its start, each
/// classifying to its token's kind and scanned maximally, with lines
/// counted from 1. Maximal munch makes this stream unique.
pub open spec fn tokens_of<'t>(text: Seq<char>, toks: Seq<Token<'t>>) -> bool {
    exists|final_line: int| stream_prefix(text, 0, 1, text.len() as int, final_line, toks)
}

/// The non-trivia tokens of `toks`, in order.
pub open spec fn filter_trivia<'t>(toks: Seq<Token<'t>>) -> Seq<Token<'t>>
    decreases toks.len(),
{
    if toks.len() == 0 {
        Seq::empty()
    } else if is_trivia(toks.last().typ) {
        filter_trivia(toks.drop_last())
    } else {
        filter_trivia(toks.drop_last()).push(toks.last())
    }
}

/// `toks` is the compiler's token stream for `text`: the non-trivia tokens
/// of the full stream of `text`, with a final `Eof` token appended.
pub open spec fn lexes_to_filtered<'t>(text: Seq<char>, toks: Seq<Token<'t>>) -> bool {
    exists|full: Seq<Token<'t>>|
        {
            &&& #[trigger] tokens_of(text, full)
            &&& toks.len() >= 1
            &&& toks.last().typ == TokenType::Eof
            &&& toks.last().lexeme@ == Seq::<char>::empty()
            &&& toks.drop_last() == filter_trivia(full)
        }
}

/// A token that fits at the end of a stream prefix extends it.
proof fn lemma_stream_prefix_snoc<'t>(
    text: Seq<char>,
    pos0: int,
    line0: int,
    pos1: int,
    line1: int,
    toks: Seq<Token<'t>>,
    t: Token<'t>,
)
    requires
        stream_prefix(text, pos0, line0, pos1, line1, toks),
        0 <= pos1 < text.len(),
        t.lexeme@.len() > 0,
        pos1 + t.lexeme@.len() <= text.len(),
        t.lexeme@ == text.subrange(pos1, pos1 + t.lexeme@.len()),
        classify(t.lexeme@) == Some(t.typ),
        maximal_munch(
            t.lexeme@,
            text.subrange(pos1 + t.lexeme@.len(), text.len() as int),
        ),
        t.line == line1 + count_nl(t.lexeme@),
    ensures
        stream_prefix(text, pos0, line0, pos1 + t.lexeme@.len(), t.line as int, toks.push(t)),
    decreases toks.len(),
{
    let l = t.lexeme@.len() as int;
    if toks.len() == 0 {
        assert(toks.push(t)[0] == t);
        assert(toks.push(t).subrange(1, 1) =~= Seq::<Token<'t>>::empty());
        assert(stream_prefix(
            text,
            pos0 + l,
            t.line as int,
            pos1 + l,
            t.line as int,
            toks.push(t).subrange(1, 1),
        ));
    } else {
        let rest = toks.subrange(1, toks.len() as int);
        let first = toks[0];
        lemma_stream_prefix_snoc(
            text,
            pos0 + first.lexeme@.len(),
            first.line as int,
            pos1,
            line1,
            rest,
            t,
        );
        assert(toks.push(t).subrange(1, toks.push(t).len() as int) =~= rest.push(t));
        assert(toks.push(t)[0] == first);
        assert(stream_prefix(
            text,
            pos0 + first.lexeme@.len(),
            first.line as int,
            pos1 + l,
            t.line as int,
            toks.push(t).subrange(1, toks.push(t).len() as int),
        ));
    }
}

/// The concatenation of the lexemes of `toks`, in order.
pub open spec fn concat_lexemes(toks: Seq<Token>) -> Seq<char>
    decreases toks.len(),
{
    if toks.len() == 0 {
        Seq::empty()
    } else {
        concat_lexemes(toks.drop_last()) + toks.last().lexeme@
    }
}

/// Tokenize a whole source buffer, trivia included, stopping at `Eof` (the
/// `Eof` token itself is not collected).
///
/// The contract carries the lexer's two stream invariants: joining all
/// lexemes in order reproduces the source byte-for-byte, and line numbers
/// are monotone non-decreasing across successive tokens.
pub fn get_tokens<'t>(text: &'t str) -> (toks: Vec<Token<'t>>)
    requires
        text@.len() < usize::MAX,
    ensures
        tokens_of(text@, toks@),
        concat_lexemes(toks@) == text@,
        forall|i: int, j: int|
            0 <= i <= j < toks@.len() ==> #[trigger] toks@[i].line <= #[trigger] toks@[j].line,
        forall|i: int|
            0 <= i < toks@.len() ==> classify(#[trigger] toks@[i].lexeme@) == Some(toks@[i].typ),
        forall|i: int| 0 <= i < toks@.len() ==> (#[trigger] toks@[i].typ) != TokenType::Eof,
{
    let mut lexer = Lexer::new(text);
    let mut tokens: Vec<Token<'t>> = Vec::new();
    proof {
        assert(concat_lexemes(tokens@) =~= text@.subrange(0, 0));
    }
    loop
        invariant
            lexer.wf(),
            lexer.spec_text() == text@,
            stream_prefix(text@, 0, 1, lexer.spec_pos(), lexer.spec_line(), tokens@),
            concat_lexemes(tokens@) == text@.subrange(0, lexer.spec_pos()),
            forall|i: int, j: int|
                0 <= i <= j < tokens@.len() ==> #[trigger] tokens@[i].line <= #[trigger] tokens@[j].line,
            forall|i: int| 0 <= i < tokens@.len() ==> tokens@[i].line <= lexer.spec_line(),
            forall|i: int|
                0 <= i < tokens@.len() ==> classify(#[trigger] tokens@[i].lexeme@) == Some(
                    tokens@[i].typ,
                ),
            forall|i: int| 0 <= i < tokens@.len() ==> (#[trigger] tokens@[i].typ) != TokenType::Eof,
        decreases lexer.spec_text().len() - lexer.spec_pos(),
    {
        let ghost pos0 = lexer.spec_pos();
        let ghost line0 = lexer.spec_line();
        let tok = lexer.next_token();
        if matches!(tok.typ, TokenType::Eof) {
            proof {
                assert(text@.subrange(0, lexer.spec_pos()) =~= text@);
                assert(tokens_of(text@, tokens@)) by {
                    assert(stream_prefix(
                        text@,
                        0,
                        1,
                        text@.len() as int,
                        lexer.spec_line(),
                        tokens@,
                    ));
                }
            }
            return tokens;
        }
        proof {
            assert(tokens@.push(tok).drop_last() =~= tokens@);
            assert(concat_lexemes(tokens@.push(tok)) == concat_lexemes(tokens@) + tok.lexeme@);
            assert(text@.subrange(0, pos0) + text@.subrange(pos0, lexer.spec_pos())
                =~= text@.subrange(0, lexer.spec_pos()));
            lemma_stream_prefix_snoc(text@, 0, 1, pos0, line0, tokens@, tok);
        }
        tokens.push(tok);
    }
}

/// Tokenize a whole source buffer, filtering out whitespace, newline and
/// comment trivia. Lexing error tokens are kept, in order.
pub fn get_tokens_no_trivia<'t>(text: &'t str) -> (toks: Vec<Token<'t>>)
    requires
        text@.len() < usize::MAX,
    ensures
        exists|full: Seq<Token<'t>>|
            #[trigger] tokens_of(text@, full) && toks@ == filter_trivia(full),
        forall|i: int, j: int|
            0 <= i <= j < toks@.len() ==> #[trigger] toks@[i].line <= #[trigger] toks@[j].line,
        forall|i: int|
            0 <= i < toks@.len() ==> classify(#[trigger] toks@[i].lexeme@) == Some(toks@[i].typ),
        forall|i: int| 0 <= i < toks@.len() ==> !is_trivia(#[trigger] toks@[i].typ),
        forall|i: int| 0 <= i < toks@.len() ==> (#[trigger] toks@[i].typ) != TokenType::Eof,
{
    let all = get_tokens(text);
    let mut tokens: Vec<Token<'t>> = Vec::new();
    let mut i: usize = 0;
    proof {
        assert(all@.subrange(0, 0) =~= Seq::<Token<'t>>::empty());
    }
    while i < all.len()
        invariant
            i <= all@.len(),
            tokens_of(text@, all@),
            tokens@ == filter_trivia(all@.subrange(0, i as int)),
            forall|p: int, q: int|
                0 <= p <= q < all@.len() ==> #[trigger] all@[p].line <= #[trigger] all@[q].line,
            forall|p: int|
                0 <= p < all@.len() ==> classify(#[trigger] all@[p].lexeme@) == Some(all@[p].typ),
            forall|p: int| 0 <= p < all@.len() ==> (#[trigger] all@[p].typ) != TokenType::Eof,
            forall|p: int, q: int|
                0 <= p <= q < tokens@.len() ==> #[trigger] tokens@[p].line <= #[trigger] tokens@[q].line,
            forall|p: int|
                0 <= p < tokens@.len() ==> classify(#[trigger] tokens@[p].lexeme@) == Some(
                    tokens@[p].typ,
                ),
            forall|p: int| 0 <= p < tokens@.len() ==> !is_trivia(#[trigger] tokens@[p].typ),
            forall|p: int|
                0 <= p < tokens@.len() ==> (#[trigger] tokens@[p].typ) != TokenType::Eof,
            forall|p: int|
                0 <= p < tokens@.len() ==> i > 0 && tokens@[p].line <= all@[i - 1].line,
        decreases all@.len() - i,
    {
        let tok = all[i];
        proof {
            assert(all@.subrange(0, i + 1).drop_last() =~= all@.subrange(0, i as int));
            assert(all@.subrange(0, i + 1).last() == tok);
        }
        match tok.typ {
            TokenType::Comment | TokenType::Whitespace | TokenType::Newline => {},
            _ => {
                tokens.push(tok);
            },
        }
        i = i + 1;
    }
    proof {
        assert(all@.subrange(0, all@.len() as int) =~= all@);
    }
    tokens
}

/// Tokenize for the compiler: trivia filtered out, and a final `Eof` token
/// (with an empty lexeme and the final line number) appended.
pub(crate) fn lex_filtered<'t>(text: &'t str) -> (toks: Vec<Token<'t>>)
    requires
        text@.len() < usize::MAX,
    ensures
        lexes_to_filtered(text@, toks@),
        toks@.len() >= 1,
        toks@.last().typ == TokenType::Eof,
        forall|i: int|
            0 <= i < toks@.len() - 1 ==> (#[trigger] toks@[i].typ) != TokenType::Eof,
        forall|i: int| 0 <= i < toks@.len() ==> !is_trivia(#[trigger] toks@[i].typ),
        forall|i: int|
            0 <= i < toks@.len() ==> classify(#[trigger] toks@[i].lexeme@) == Some(toks@[i].typ),
        forall|i: int, j: int|
            0 <= i <= j < toks@.len() ==> #[trigger] toks@[i].line <= #[trigger] toks@[j].line,
{
    let mut lexer = Lexer::new(text);
    let mut tokens: Vec<Token<'t>> = Vec::new();
    let ghost mut full: Seq<Token<'t>> = Seq::empty();
    loop
        invariant
            lexer.wf(),
            lexer.spec_text() == text@,
            stream_prefix(text@, 0, 1, lexer.spec_pos(), lexer.spec_line(), full),
            tokens@ == filter_trivia(full),
            forall|i: int, j: int|
                0 <= i <= j < tokens@.len() ==> #[trigger] tokens@[i].line <= #[trigger] tokens@[j].line,
            forall|i: int| 0 <= i < tokens@.len() ==> tokens@[i].line <= lexer.spec_line(),
            forall|i: int| 0 <= i < tokens@.len() ==> !is_trivia(#[trigger] tokens@[i].typ),
            forall|i: int|
                0 <= i < tokens@.len() ==> (#[trigger] tokens@[i].typ) != TokenType::Eof,
            forall|i: int|
                0 <= i < tokens@.len() ==> classify(#[trigger] tokens@[i].lexeme@) == Some(
                    tokens@[i].typ,
                ),
        decreases lexer.spec_text().len() - lexer.spec_pos(),
    {
        let ghost pos0 = lexer.spec_pos();
        let ghost line0 = lexer.spec_line();
        let tok = lexer.next_token();
        match tok.typ {
            TokenType::Eof => {
                tokens.push(tok);
                proof {
                    assert(tok.lexeme@ =~= Seq::<char>::empty());
                    assert(tokens@.drop_last() =~= filter_trivia(full));
                    assert(lexes_to_filtered(text@, tokens@)) by {
                        assert(tokens_of(text@, full)) by {
                            assert(stream_prefix(
                                text@,
                                0,
                                1,
                                text@.len() as int,
                                lexer.spec_line(),
                                full,
                            ));
                        }
                    }
                }
                return tokens;
            },
            TokenType::Comment | TokenType::Whitespace | TokenType::Newline => {
                proof {
                    lemma_stream_prefix_snoc(text@, 0, 1, pos0, line0, full, tok);
                    assert(full.push(tok).drop_last() =~= full);
                    full = full.push(tok);
                }
            },
            _ => {
                proof {
                    lemma_stream_prefix_snoc(text@, 0, 1, pos0, line0, full, tok);
                    assert(full.push(tok).drop_last() =~= full);
                    full = full.push(tok);
                }
                tokens.push(tok);
            },
        }
    }
}

/// A sequence without newline characters spans no lines.
proof fn lemma_count_nl_no_nl(s: Seq<char>)
    requires
        forall|i: int| 0 <= i < s.len() ==> #[trigger] s[i] != '\n',
    ensures
        count_nl(s) == 0,
    decreases s.len(),
{
    if s.len() > 0 {
        lemma_count_nl_no_nl(s.drop_last());
    }
}

/// `count_nl` distributes over splitting a source segment in two.
proof fn lemma_count_nl_concat(text: Seq<char>, a: int, b: int, c: int)
    requires
        0 <= a <= b <= c <= text.len(),
    ensures
        count_nl(text.subrange(a, c)) == count_nl(text.subrange(a, b)) + count_nl(
            text.subrange(b, c),
        ),
    decreases c - b,
{
    if b == c {
        assert(text.subrange(b, c) =~= Seq::<char>::empty());
        assert(text.subrange(a, c) =~= text.subrange(a, b));
    } else {
        lemma_count_nl_concat(text, a, b, c - 1);
        assert(text.subrange(a, c).drop_last() =~= text.subrange(a, c - 1));
        assert(text.subrange(b, c).drop_last() =~= text.subrange(b, c - 1));
        assert(text.subrange(a, c).last() == text[c - 1]);
        assert(text.subrange(b, c).last() == text[c - 1]);
    }
}

} // verus!
