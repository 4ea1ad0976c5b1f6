//! The lexer: a single-pass scanner from source characters to tokens.
//!
//! Whitespace (space, tab, carriage return, line feed) is skipped between
//! tokens. `==` and `!=` are recognised by one character of lookahead.
//! Identifiers are ASCII letter and underscore runs, digits form integer
//! tokens, and any other character becomes an `ILLEGAL` token. At the end
//! of the input the lexer returns `EOF` forever.

use vstd::prelude::*;
use vstd::string::*;

use crate::token::{lookup_ident, lookup_ident_v, Token, TokenV};

verus! {

/// Whitespace skipped between tokens: space, tab, CR, LF.
pub open spec fn is_ws_char(c: char) -> bool {
    c == ' ' || c == '\t' || c == '\r' || c == '\n'
}

/// Characters that may form an identifier: ASCII letters and underscore.
pub open spec fn is_letter_char(c: char) -> bool {
    let u = c as u32;
    (('a' as u32) <= u && u <= ('z' as u32)) || (('A' as u32) <= u && u <= ('Z' as u32)) || u == (
    '_' as u32)
}

/// Decimal digit characters.
pub open spec fn is_digit_char(c: char) -> bool {
    let u = c as u32;
    ('0' as u32) <= u && u <= ('9' as u32)
}

/// The numeric value of a decimal digit character.
pub open spec fn digit_value(c: char) -> int {
    c as u32 - '0' as u32
}

/// The value of a run of decimal digit characters.
pub open spec fn digits_value(ds: Seq<char>) -> int
    decreases ds.len(),
{
    if ds.len() == 0 {
        0
    } else {
        digits_value(ds.drop_last()) * 10 + digit_value(ds.last())
    }
}

/// The first index at or after `i` that does not hold whitespace.
pub open spec fn skip_ws(s: Seq<char>, i: int) -> int
    decreases s.len() - i,
{
    if i < s.len() && is_ws_char(s[i]) {
        skip_ws(s, i + 1)
    } else {
        i
    }
}

/// The first index at or after `i` that does not hold a letter.
pub open spec fn ident_end(s: Seq<char>, i: int) -> int
    decreases s.len() - i,
{
    if i < s.len() && is_letter_char(s[i]) {
        ident_end(s, i + 1)
    } else {
        i
    }
}

/// The first index at or after `i` that does not hold a digit.
pub open spec fn digit_end(s: Seq<char>, i: int) -> int
    decreases s.len() - i,
{
    if i < s.len() && is_digit_char(s[i]) {
        digit_end(s, i + 1)
    } else {
        i
    }
}

/// The next token of `s` at position `pos`, and the position after it.
/// Whitespace before the token is skipped. A digit run whose value does
/// not fit a signed machine integer is an `ILLEGAL` token.
pub open spec fn next_token_v(s: Seq<char>, pos: int) -> (TokenV, int) {
    let i = skip_ws(s, pos);
    if i >= s.len() {
        (TokenV::EOF, s.len() as int)
    } else {
        let c = s[i];
        if c == '=' {
            if i + 1 < s.len() && s[i + 1] == '=' {
                (TokenV::EQ, i + 2)
            } else {
                (TokenV::ASSIGN, i + 1)
            }
        } else if c == '+' {
            (TokenV::PLUS, i + 1)
        } else if c == '-' {
            (TokenV::MINUS, i + 1)
        } else if c == '!' {
            if i + 1 < s.len() && s[i + 1] == '=' {
                (TokenV::NOT_EQ, i + 2)
            } else {
                (TokenV::BANG, i + 1)
            }
        } else if c == '*' {
            (TokenV::ASTERISK, i + 1)
        } else if c == '/' {
            (TokenV::SLASH, i + 1)
        } else if c == '<' {
            (TokenV::LT, i + 1)
        } else if c == '>' {
            (TokenV::GT, i + 1)
        } else if c == ',' {
            (TokenV::COMMA, i + 1)
        } else if c == ';' {
            (TokenV::SEMICOLON, i + 1)
        } else if c == '(' {
            (TokenV::LPAREN, i + 1)
        } else if c == ')' {
            (TokenV::RPAREN, i + 1)
        } else if c == '{' {
            (TokenV::LBRACE, i + 1)
        } else if c == '}' {
            (TokenV::RBRACE, i + 1)
        } else if is_letter_char(c) {
            let j = ident_end(s, i);
            (lookup_ident_v(s.subrange(i, j)), j)
        } else if is_digit_char(c) {
            let j = digit_end(s, i);
            if digits_value(s.subrange(i, j)) <= isize::MAX as int {
                (TokenV::INT(digits_value(s.subrange(i, j)) as isize), j)
            } else {
                (TokenV::ILLEGAL, j)
            }
        } else {
            (TokenV::ILLEGAL, i + 1)
        }
    }
}

/// All tokens of `s` from position `pos` on, ending with the `EOF` token.
pub open spec fn lex_all_from(s: Seq<char>, pos: int) -> Seq<TokenV>
    decreases s.len() - pos,
{
    let (t, p) = next_token_v(s, pos);
    if t is EOF {
        seq![TokenV::EOF]
    } else if p <= pos || p > s.len() {
        // never reached: a non-EOF token always advances within bounds
        seq![t, TokenV::EOF]
    } else {
        seq![t] + lex_all_from(s, p)
    }
}

/// `skip_ws` stays within `[i, s.len()]`.
pub proof fn lemma_skip_ws_bounds(s: Seq<char>, i: int)
    requires
        0 <= i <= s.len(),
    ensures
        i <= skip_ws(s, i) <= s.len(),
    decreases s.len() - i,
{
    if i < s.len() && is_ws_char(s[i]) {
        lemma_skip_ws_bounds(s, i + 1);
    }
}

/// `ident_end` stays within `[i, s.len()]`.
pub proof fn lemma_ident_end_bounds(s: Seq<char>, i: int)
    requires
        0 <= i <= s.len(),
    ensures
        i <= ident_end(s, i) <= s.len(),
    decreases s.len() - i,
{
    if i < s.len() && is_letter_char(s[i]) {
        lemma_ident_end_bounds(s, i + 1);
    }
}

/// `digit_end` stays within `[i, s.len()]`.
pub proof fn lemma_digit_end_bounds(s: Seq<char>, i: int)
    requires
        0 <= i <= s.len(),
    ensures
        i <= digit_end(s, i) <= s.len(),
    decreases s.len() - i,
{
    if i < s.len() && is_digit_char(s[i]) {
        lemma_digit_end_bounds(s, i + 1);
    }
}

/// A token scan never moves backward, never runs past the end of the
/// input, and advances by at least one character unless it hits `EOF`.
pub proof fn lemma_next_token_v_bounds(s: Seq<char>, pos: int)
    requires
        0 <= pos <= s.len(),
    ensures
        pos <= next_token_v(s, pos).1 <= s.len(),
        !(next_token_v(s, pos).0 is EOF) ==> next_token_v(s, pos).1 > pos,
{
    lemma_skip_ws_bounds(s, pos);
    let i = skip_ws(s, pos);
    if i < s.len() {
        let c = s[i];
        if is_letter_char(c) {
            lemma_ident_end_bounds(s, i + 1);
            assert(ident_end(s, i) == ident_end(s, i + 1));
        } else if !(c == '=' || c == '+' || c == '-' || c == '!' || c == '*' || c == '/' || c == '<'
            || c == '>' || c == ',' || c == ';' || c == '(' || c == ')' || c == '{' || c == '}') {
            if is_digit_char(c) {
                lemma_digit_end_bounds(s, i + 1);
                assert(digit_end(s, i) == digit_end(s, i + 1));
            }
        }
    }
}

/// The lexer's scan state over a borrowed input.
pub struct Lexer<'a> {
    input: &'a str,
    length: usize,
    position: usize,
}

impl<'a> Lexer<'a> {
    /// The input character sequence.
    pub closed spec fn inp(&self) -> Seq<char> {
        self.input@
    }

    /// The current scan position, as a character index.
    pub closed spec fn pos(&self) -> int {
        self.position as int
    }

    /// The scan position never leaves the input.
    pub closed spec fn wf(&self) -> bool {
        self.length == self.input@.len() && self.position <= self.length
    }

    /// A well-formed lexer's position lies within its input.
    pub proof fn lemma_wf_bounds(&self)
        requires
            self.wf(),
        ensures
            0 <= self.pos() <= self.inp().len(),
    {
    }

    /// A lexer at the start of `input`.
    pub fn new(input: &'a str) -> (l: Lexer<'a>)
        ensures
            l.wf(),
            l.inp() == input@,
            l.pos() == 0,
    {
        let length = input.unicode_len();
        Lexer { input, length, position: 0 }
    }

    /// The character at index `i`.
    fn char_at(&self, i: usize) -> (c: char)
        requires
            self.wf(),
            i < self.inp().len(),
        ensures
            c == self.inp()[i as int],
    {
        self.input.get_char(i)
    }

    /// True when the character at the current position is whitespace.
    fn is_ws_at(&self) -> (b: bool)
        requires
            self.wf(),
            self.pos() < self.inp().len(),
        ensures
            b == is_ws_char(self.inp()[self.pos()]),
    {
        let c = self.char_at(self.position);
        c == ' ' || c == '\t' || c == '\r' || c == '\n'
    }

    /// Advances past whitespace.
    fn skip_whitespace(&mut self)
        requires
            old(self).wf(),
        ensures
            final(self).wf(),
            final(self).inp() == old(self).inp(),
            final(self).pos() == skip_ws(old(self).inp(), old(self).pos()),
    {
        while self.position < self.length && self.is_ws_at()
            invariant
                self.wf(),
                self.inp() == old(self).inp(),
                skip_ws(self.inp(), old(self).pos()) == skip_ws(self.inp(), self.pos()),
            decreases self.length - self.position,
        {
            self.position += 1;
        }
    }

    /// Scans and returns the next token, advancing past it. At the end
    /// of the input it returns `EOF` and stays there.
    pub fn next_token(&mut self) -> (t: Token)
        requires
            old(self).wf(),
        ensures
            final(self).wf(),
            final(self).inp() == old(self).inp(),
            t@ == next_token_v(old(self).inp(), old(self).pos()).0,
            final(self).pos() == next_token_v(old(self).inp(), old(self).pos()).1,
    {
        self.skip_whitespace();
        if self.position >= self.length {
            return Token::EOF;
        }
        let c = self.char_at(self.position);
        if c == '=' {
            if self.position + 1 < self.length && self.char_at(self.position + 1) == '=' {
                self.position += 2;
                Token::EQ
            } else {
                self.position += 1;
                Token::ASSIGN
            }
        } else if c == '+' {
            self.position += 1;
            Token::PLUS
        } else if c == '-' {
            self.position += 1;
            Token::MINUS
        } else if c == '!' {
            if self.position + 1 < self.length && self.char_at(self.position + 1) == '=' {
                self.position += 2;
                Token::NOT_EQ
            } else {
                self.position += 1;
                Token::BANG
            }
        } else if c == '*' {
            self.position += 1;
            Token::ASTERISK
        } else if c == '/' {
            self.position += 1;
            Token::SLASH
        } else if c == '<' {
            self.position += 1;
            Token::LT
        } else if c == '>' {
            self.position += 1;
            Token::GT
        } else if c == ',' {
            self.position += 1;
            Token::COMMA
        } else if c == ';' {
            self.position += 1;
            Token::SEMICOLON
        } else if c == '(' {
            self.position += 1;
            Token::LPAREN
        } else if c == ')' {
            self.position += 1;
            Token::RPAREN
        } else if c == '{' {
            self.position += 1;
            Token::LBRACE
        } else if c == '}' {
            self.position += 1;
            Token::RBRACE
        } else if is_letter(c) {
            self.read_identifier()
        } else if is_digit(c) {
            self.read_number()
        } else {
            self.position += 1;
            Token::ILLEGAL
        }
    }

    /// Scans an identifier or keyword run.
    fn read_identifier(&mut self) -> (t: Token)
        requires
            old(self).wf(),
            old(self).pos() < old(self).inp().len(),
            is_letter_char(old(self).inp()[old(self).pos()]),
        ensures
            final(self).wf(),
            final(self).inp() == old(self).inp(),
            final(self).pos() == ident_end(old(self).inp(), old(self).pos()),
            t@ == lookup_ident_v(
                old(self).inp().subrange(old(self).pos(), ident_end(old(self).inp(), old(self).pos())),
            ),
    {
        let start = self.position;
        while self.position < self.length && self.is_letter_at()
            invariant
                self.wf(),
                self.inp() == old(self).inp(),
                start <= self.position,
                ident_end(self.inp(), start as int) == ident_end(self.inp(), self.pos()),
            decreases self.length - self.position,
        {
            self.position += 1;
        }
        let text = self.input.substring_char(start, self.position);
        lookup_ident(text)
    }

    /// True when the character at the current position is a letter.
    fn is_letter_at(&self) -> (b: bool)
        requires
            self.wf(),
            self.pos() < self.inp().len(),
        ensures
            b == is_letter_char(self.inp()[self.pos()]),
    {
        is_letter(self.char_at(self.position))
    }

    /// True when the character at the current position is a digit.
    fn is_digit_at(&self) -> (b: bool)
        requires
            self.wf(),
            self.pos() < self.inp().len(),
        ensures
            b == is_digit_char(self.inp()[self.pos()]),
    {
        is_digit(self.char_at(self.position))
    }

    /// Scans a digit run into an integer token; a run whose value
    /// overflows the integer type becomes `ILLEGAL`.
    fn read_number(&mut self) -> (t: Token)
        requires
            old(self).wf(),
            old(self).pos() < old(self).inp().len(),
            is_digit_char(old(self).inp()[old(self).pos()]),
        ensures
            final(self).wf(),
            final(self).inp() == old(self).inp(),
            final(self).pos() == digit_end(old(self).inp(), old(self).pos()),
            t@ == ({
                let run = old(self).inp().subrange(
                    old(self).pos(),
                    digit_end(old(self).inp(), old(self).pos()),
                );
                if digits_value(run) <= isize::MAX as int {
                    TokenV::INT(digits_value(run) as isize)
                } else {
                    TokenV::ILLEGAL
                }
            }),
    {
        let start = self.position;
        let mut value: isize = 0;
        let mut overflow = false;
        while self.position < self.length && self.is_digit_at()
            invariant
                self.wf(),
                self.inp() == old(self).inp(),
                start <= self.position,
                digit_end(self.inp(), start as int) == digit_end(self.inp(), self.pos()),
                !overflow ==> 0 <= value && value as int == digits_value(
                    self.inp().subrange(start as int, self.pos()),
                ),
                overflow ==> digits_value(self.inp().subrange(start as int, self.pos()))
                    > isize::MAX as int,
            decreases self.length - self.position,
        {
            let c = self.char_at(self.position);
            let d = (c as u32 - '0' as u32) as isize;
            let ghost prev = self.inp().subrange(start as int, self.pos());
            let ghost run = self.inp().subrange(start as int, self.pos() + 1);
            proof {
                assert(run.drop_last() =~= prev);
                assert(run.last() == self.inp()[self.pos()]);
                assert(digits_value(run) == digits_value(prev) * 10 + digit_value(run.last()));
            }
            if !overflow {
                let stepped = value.checked_mul(10);
                match stepped {
                    Some(v10) => {
                        match v10.checked_add(d) {
                            Some(v) => {
                                value = v;
                            },
                            None => {
                                overflow = true;
                            },
                        }
                    },
                    None => {
                        overflow = true;
                    },
                }
            }
            self.position += 1;
        }
        if overflow {
            Token::ILLEGAL
        } else {
            Token::INT(value)
        }
    }
}

/// True for ASCII letters and underscore.
fn is_letter(ch: char) -> (b: bool)
    ensures
        b == is_letter_char(ch),
{
    let u = ch as u32;
    (('a' as u32) <= u && u <= ('z' as u32)) || (('A' as u32) <= u && u <= ('Z' as u32)) || u == (
    '_' as u32)
}

/// True for decimal digits.
fn is_digit(ch: char) -> (b: bool)
    ensures
        b == is_digit_char(ch),
{
    let u = ch as u32;
    ('0' as u32) <= u && u <= ('9' as u32)
}

} // verus!
