//! Tokens of the Monkey language and the keyword table.

use vstd::prelude::*;
use vstd::string::*;

use crate::text::{int_text, int_to_string, str_eq};

verus! {

/// A lexical token.
#[allow(non_camel_case_types)]
#[derive(Debug, PartialEq, Clone)]
pub enum Token {
    ILLEGAL,
    EOF,
    IDENT(String),
    INT(isize),
    // Operators
    ASSIGN,
    PLUS,
    MINUS,
    BANG,
    ASTERISK,
    SLASH,
    LT,
    GT,
    // Delimiters
    COMMA,
    SEMICOLON,
    LPAREN,
    RPAREN,
    LBRACE,
    RBRACE,
    EQ,
    NOT_EQ,
    // Keywords
    FUNCTION,
    LET,
    IF,
    ELSE,
    TRUE,
    FALSE,
    RETURN,
}

/// The mathematical model of a token: identifier text as a character
/// sequence, integer payload as a machine integer.
#[allow(non_camel_case_types)]
pub enum TokenV {
    ILLEGAL,
    EOF,
    IDENT(Seq<char>),
    INT(isize),
    ASSIGN,
    PLUS,
    MINUS,
    BANG,
    ASTERISK,
    SLASH,
    LT,
    GT,
    COMMA,
    SEMICOLON,
    LPAREN,
    RPAREN,
    LBRACE,
    RBRACE,
    EQ,
    NOT_EQ,
    FUNCTION,
    LET,
    IF,
    ELSE,
    TRUE,
    FALSE,
    RETURN,
}

impl View for Token {
    type V = TokenV;

    open spec fn view(&self) -> TokenV {
        match self {
            Token::ILLEGAL => TokenV::ILLEGAL,
            Token::EOF => TokenV::EOF,
            Token::IDENT(s) => TokenV::IDENT(s@),
            Token::INT(i) => TokenV::INT(*i),
            Token::ASSIGN => TokenV::ASSIGN,
            Token::PLUS => TokenV::PLUS,
            Token::MINUS => TokenV::MINUS,
            Token::BANG => TokenV::BANG,
            Token::ASTERISK => TokenV::ASTERISK,
            Token::SLASH => TokenV::SLASH,
            Token::LT => TokenV::LT,
            Token::GT => TokenV::GT,
            Token::COMMA => TokenV::COMMA,
            Token::SEMICOLON => TokenV::SEMICOLON,
            Token::LPAREN => TokenV::LPAREN,
            Token::RPAREN => TokenV::RPAREN,
            Token::LBRACE => TokenV::LBRACE,
            Token::RBRACE => TokenV::RBRACE,
            Token::EQ => TokenV::EQ,
            Token::NOT_EQ => TokenV::NOT_EQ,
            Token::FUNCTION => TokenV::FUNCTION,
            Token::LET => TokenV::LET,
            Token::IF => TokenV::IF,
            Token::ELSE => TokenV::ELSE,
            Token::TRUE => TokenV::TRUE,
            Token::FALSE => TokenV::FALSE,
            Token::RETURN => TokenV::RETURN,
        }
    }
}

/// The token a completed identifier run denotes: one of the seven
/// keywords, or an identifier.
pub open spec fn lookup_ident_v(name: Seq<char>) -> TokenV {
    if name == "fn"@ {
        TokenV::FUNCTION
    } else if name == "let"@ {
        TokenV::LET
    } else if name == "if"@ {
        TokenV::IF
    } else if name == "else"@ {
        TokenV::ELSE
    } else if name == "true"@ {
        TokenV::TRUE
    } else if name == "false"@ {
        TokenV::FALSE
    } else if name == "return"@ {
        TokenV::RETURN
    } else {
        TokenV::IDENT(name)
    }
}

/// Classifies a completed identifier run against the keyword table.
pub fn lookup_ident(ident: &str) -> (t: Token)
    ensures
        t@ == lookup_ident_v(ident@),
{
    if str_eq(ident, "fn") {
        Token::FUNCTION
    } else if str_eq(ident, "let") {
        Token::LET
    } else if str_eq(ident, "if") {
        Token::IF
    } else if str_eq(ident, "else") {
        Token::ELSE
    } else if str_eq(ident, "true") {
        Token::TRUE
    } else if str_eq(ident, "false") {
        Token::FALSE
    } else if str_eq(ident, "return") {
        Token::RETURN
    } else {
        Token::IDENT(ident.to_owned())
    }
}

impl Token {
    /// A copy of this token.
    pub fn dup(&self) -> (t: Token)
        ensures
            t@ == self@,
    {
        match self {
            Token::ILLEGAL => Token::ILLEGAL,
            Token::EOF => Token::EOF,
            Token::IDENT(s) => Token::IDENT(s.clone()),
            Token::INT(i) => Token::INT(*i),
            Token::ASSIGN => Token::ASSIGN,
            Token::PLUS => Token::PLUS,
            Token::MINUS => Token::MINUS,
            Token::BANG => Token::BANG,
            Token::ASTERISK => Token::ASTERISK,
            Token::SLASH => Token::SLASH,
            Token::LT => Token::LT,
            Token::GT => Token::GT,
            Token::COMMA => Token::COMMA,
            Token::SEMICOLON => Token::SEMICOLON,
            Token::LPAREN => Token::LPAREN,
            Token::RPAREN => Token::RPAREN,
            Token::LBRACE => Token::LBRACE,
            Token::RBRACE => Token::RBRACE,
            Token::EQ => Token::EQ,
            Token::NOT_EQ => Token::NOT_EQ,
            Token::FUNCTION => Token::FUNCTION,
            Token::LET => Token::LET,
            Token::IF => Token::IF,
            Token::ELSE => Token::ELSE,
            Token::TRUE => Token::TRUE,
            Token::FALSE => Token::FALSE,
            Token::RETURN => Token::RETURN,
        }
    }
}

/// Equality of two tokens, payloads included.
pub fn token_eq(a: &Token, b: &Token) -> (r: bool)
    ensures
        r == (a@ == b@),
{
    match (a, b) {
        (Token::ILLEGAL, Token::ILLEGAL) => true,
        (Token::EOF, Token::EOF) => true,
        (Token::IDENT(x), Token::IDENT(y)) => str_eq(x.as_str(), y.as_str()),
        (Token::INT(x), Token::INT(y)) => *x == *y,
        (Token::ASSIGN, Token::ASSIGN) => true,
        (Token::PLUS, Token::PLUS) => true,
        (Token::MINUS, Token::MINUS) => true,
        (Token::BANG, Token::BANG) => true,
        (Token::ASTERISK, Token::ASTERISK) => true,
        (Token::SLASH, Token::SLASH) => true,
        (Token::LT, Token::LT) => true,
        (Token::GT, Token::GT) => true,
        (Token::COMMA, Token::COMMA) => true,
        (Token::SEMICOLON, Token::SEMICOLON) => true,
        (Token::LPAREN, Token::LPAREN) => true,
        (Token::RPAREN, Token::RPAREN) => true,
        (Token::LBRACE, Token::LBRACE) => true,
        (Token::RBRACE, Token::RBRACE) => true,
        (Token::EQ, Token::EQ) => true,
        (Token::NOT_EQ, Token::NOT_EQ) => true,
        (Token::FUNCTION, Token::FUNCTION) => true,
        (Token::LET, Token::LET) => true,
        (Token::IF, Token::IF) => true,
        (Token::ELSE, Token::ELSE) => true,
        (Token::TRUE, Token::TRUE) => true,
        (Token::FALSE, Token::FALSE) => true,
        (Token::RETURN, Token::RETURN) => true,
        _ => false,
    }
}

/// The display text of a token: operators and delimiters print as their
/// source characters, keywords as their source word, identifier and
/// integer tokens with their payload.
pub open spec fn token_text(t: TokenV) -> Seq<char> {
    match t {
        TokenV::ILLEGAL => "ILLEGAL"@,
        TokenV::EOF => "EOF"@,
        TokenV::IDENT(s) => "IDENT("@ + s + ")"@,
        TokenV::INT(i) => "INT("@ + int_text(i as int) + ")"@,
        TokenV::ASSIGN => "="@,
        TokenV::PLUS => "+"@,
        TokenV::MINUS => "-"@,
        TokenV::BANG => "!"@,
        TokenV::ASTERISK => "*"@,
        TokenV::SLASH => "/"@,
        TokenV::LT => "<"@,
        TokenV::GT => ">"@,
        TokenV::COMMA => ","@,
        TokenV::SEMICOLON => ";"@,
        TokenV::LPAREN => "("@,
        TokenV::RPAREN => ")"@,
        TokenV::LBRACE => "{"@,
        TokenV::RBRACE => "}"@,
        TokenV::EQ => "=="@,
        TokenV::NOT_EQ => "!="@,
        TokenV::FUNCTION => "fn"@,
        TokenV::LET => "let"@,
        TokenV::IF => "if"@,
        TokenV::ELSE => "else"@,
        TokenV::TRUE => "true"@,
        TokenV::FALSE => "false"@,
        TokenV::RETURN => "return"@,
    }
}

impl Token {
    /// The display text of this token.
    pub fn to_string(&self) -> (r: String)
        ensures
            r@ == token_text(self@),
    {
        match self {
            Token::ILLEGAL => "ILLEGAL".to_owned(),
            Token::EOF => "EOF".to_owned(),
            Token::IDENT(s) => {
                let mut r = "IDENT(".to_owned();
                r.append(s.as_str());
                r.append(")");
                r
            },
            Token::INT(i) => {
                let mut r = "INT(".to_owned();
                let digits = int_to_string(*i);
                r.append(digits.as_str());
                r.append(")");
                r
            },
            Token::ASSIGN => "=".to_owned(),
            Token::PLUS => "+".to_owned(),
            Token::MINUS => "-".to_owned(),
            Token::BANG => "!".to_owned(),
            Token::ASTERISK => "*".to_owned(),
            Token::SLASH => "/".to_owned(),
            Token::LT => "<".to_owned(),
            Token::GT => ">".to_owned(),
            Token::COMMA => ",".to_owned(),
            Token::SEMICOLON => ";".to_owned(),
            Token::LPAREN => "(".to_owned(),
            Token::RPAREN => ")".to_owned(),
            Token::RBRACE => "}".to_owned(),
            Token::LBRACE => "{".to_owned(),
            Token::EQ => "==".to_owned(),
            Token::NOT_EQ => "!=".to_owned(),
            Token::FUNCTION => "fn".to_owned(),
            Token::LET => "let".to_owned(),
            Token::IF => "if".to_owned(),
            Token::ELSE => "else".to_owned(),
            Token::TRUE => "true".to_owned(),
            Token::FALSE => "false".to_owned(),
            Token::RETURN => "return".to_owned(),
        }
    }
}

} // verus!
