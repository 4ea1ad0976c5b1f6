//! The parser: a Pratt-style top-down operator precedence parser from
//! tokens to the syntax tree.
//!
//! Parsing is best effort: a failed expectation appends an error message
//! and the statement loop moves past the offending token, so one input
//! yields a possibly partial program together with zero or more errors.
//! The whole parse is modelled by spec functions over token views; the
//! executable parser returns exactly what the model says.

use vstd::prelude::*;
use vstd::string::*;

use crate::ast::{
    lemma_exprs_view_push, lemma_params_view_push, lemma_stmts_view_push, params_view, ExprV,
    Expression, Infix, Prefix, Program, Statement, StmtV,
};
use crate::lexer::{lex_all_from, lemma_next_token_v_bounds, Lexer};
use crate::token::{token_eq, token_text, Token, TokenV};

verus! {

/// The precedence ladder, ascending.
pub const LOWEST: u8 = 0;

pub const EQUALS: u8 = 1;

pub const LESSGREATER: u8 = 2;

pub const SUM: u8 = 3;

pub const PRODUCT: u8 = 4;

pub const PREFIX: u8 = 5;

pub const CALL: u8 = 6;

/// The token at index `i`; out of range reads as `EOF`.
pub open spec fn tok_at(ts: Seq<TokenV>, i: int) -> TokenV {
    if 0 <= i < ts.len() {
        ts[i]
    } else {
        TokenV::EOF
    }
}

/// One step forward, capped at the end of the token list.
pub open spec fn adv(ts: Seq<TokenV>, p: int) -> int {
    if p < ts.len() {
        p + 1
    } else {
        p
    }
}

/// A returned position, brought back into range: at least `low` and at
/// most the token count. The fallback is never needed — every parse ends
/// at or after the position it started from — but it keeps positions
/// well founded without appeal to that fact.
pub open spec fn cap(ts: Seq<TokenV>, low: int, p: int) -> int {
    if low <= p <= ts.len() {
        p
    } else {
        low
    }
}

/// The precedence that a token binds with in infix position.
pub open spec fn prec_of(t: TokenV) -> u8 {
    match t {
        TokenV::EQ => EQUALS,
        TokenV::NOT_EQ => EQUALS,
        TokenV::LT => LESSGREATER,
        TokenV::GT => LESSGREATER,
        TokenV::PLUS => SUM,
        TokenV::MINUS => SUM,
        TokenV::ASTERISK => PRODUCT,
        TokenV::SLASH => PRODUCT,
        TokenV::LPAREN => CALL,
        _ => LOWEST,
    }
}

/// The infix operator a token denotes, if any.
pub open spec fn infix_op_of(t: TokenV) -> Option<Infix> {
    match t {
        TokenV::PLUS => Some(Infix::PLUS),
        TokenV::MINUS => Some(Infix::MINUS),
        TokenV::ASTERISK => Some(Infix::ASTERISK),
        TokenV::SLASH => Some(Infix::SLASH),
        TokenV::EQ => Some(Infix::EQ),
        TokenV::NOT_EQ => Some(Infix::NOT_EQ),
        TokenV::LT => Some(Infix::LT),
        TokenV::GT => Some(Infix::GT),
        _ => None,
    }
}

/// The message recorded when the token after the current one is not the
/// expected one.
pub open spec fn peek_error_text(expected: TokenV, got: TokenV) -> Seq<char> {
    "expected next token to be "@ + token_text(expected) + ", got "@ + token_text(got)
        + " instead"@
}

/// The message recorded when no expression can start at a token.
pub open spec fn no_prefix_text(t: TokenV) -> Seq<char> {
    "no prefix parse function for "@ + token_text(t)
}

/// The outcome of parsing an expression: the expression if one was
/// produced, the index of its last token, and the errors appended.
pub struct PExpr {
    pub out: Option<ExprV>,
    pub pos: int,
    pub errs: Seq<Seq<char>>,
}

/// The outcome of parsing a statement.
pub struct PStmt {
    pub out: Option<StmtV>,
    pub pos: int,
    pub errs: Seq<Seq<char>>,
}

/// The outcome of parsing a parameter or argument list.
pub struct PList {
    pub params: Option<Seq<Seq<char>>>,
    pub args: Option<Seq<ExprV>>,
    pub pos: int,
    pub errs: Seq<Seq<char>>,
}

/// The outcome of parsing a program.
pub struct PProgram {
    pub stmts: Seq<StmtV>,
    pub pos: int,
    pub errs: Seq<Seq<char>>,
}

/// Parsing a whole program: statements are parsed until `EOF`; after
/// each one the parser steps past its last token; a statement that fails
/// contributes no tree but its errors stay.
#[verifier::opaque]
pub open spec fn sp_program(ts: Seq<TokenV>, pos: int) -> PProgram
    decreases ts.len() - pos, 10int,
{
    if pos >= ts.len() || tok_at(ts, pos) is EOF {
        PProgram { stmts: Seq::empty(), pos, errs: Seq::empty() }
    } else {
        let st = sp_statement(ts, pos);
        let next = adv(ts, cap(ts, pos, st.pos));
        let rest = sp_program(ts, next);
        PProgram {
            stmts: (match st.out {
                Some(s) => seq![s],
                None => Seq::empty(),
            }) + rest.stmts,
            pos: rest.pos,
            errs: st.errs + rest.errs,
        }
    }
}

/// Statement dispatch on the current token.
#[verifier::opaque]
pub open spec fn sp_statement(ts: Seq<TokenV>, pos: int) -> PStmt
    decreases ts.len() - pos, 8int,
{
    match tok_at(ts, pos) {
        TokenV::LET => sp_let(ts, pos),
        TokenV::RETURN => sp_return(ts, pos),
        _ => sp_expr_statement(ts, pos),
    }
}

/// A `let` statement: the name must follow, then `=`, then the value
/// expression at lowest precedence, then an optional `;`. A missing name
/// fails silently; a missing `=` records an expectation error.
#[verifier::opaque]
pub open spec fn sp_let(ts: Seq<TokenV>, pos: int) -> PStmt
    decreases ts.len() - pos, 7int,
{
    match tok_at(ts, adv(ts, pos)) {
        TokenV::IDENT(name) => {
            let p1 = adv(ts, pos);  // current: the name
            if tok_at(ts, adv(ts, p1)) is ASSIGN {
                let p2 = adv(ts, p1);  // current: `=`
                let e = sp_expression(ts, adv(ts, p2), LOWEST);
                match e.out {
                    Some(value) => {
                        let p3 = if tok_at(ts, adv(ts, e.pos)) is SEMICOLON {
                            adv(ts, e.pos)
                        } else {
                            e.pos
                        };
                        PStmt { out: Some(StmtV::Let { name, value }), pos: p3, errs: e.errs }
                    },
                    None => PStmt { out: None, pos: e.pos, errs: e.errs },
                }
            } else {
                PStmt {
                    out: None,
                    pos: p1,
                    errs: seq![peek_error_text(TokenV::ASSIGN, tok_at(ts, adv(ts, p1)))],
                }
            }
        },
        _ => PStmt { out: None, pos, errs: Seq::empty() },
    }
}

/// A `return` statement: the value expression at lowest precedence, then
/// an optional `;`.
#[verifier::opaque]
pub open spec fn sp_return(ts: Seq<TokenV>, pos: int) -> PStmt
    decreases ts.len() - pos, 7int,
{
    let e = sp_expression(ts, adv(ts, pos), LOWEST);
    match e.out {
        Some(value) => {
            let p1 = if tok_at(ts, adv(ts, e.pos)) is SEMICOLON {
                adv(ts, e.pos)
            } else {
                e.pos
            };
            PStmt { out: Some(StmtV::Return(value)), pos: p1, errs: e.errs }
        },
        None => PStmt { out: None, pos: e.pos, errs: e.errs },
    }
}

/// An expression statement: the expression at lowest precedence, then an
/// optional `;`.
#[verifier::opaque]
pub open spec fn sp_expr_statement(ts: Seq<TokenV>, pos: int) -> PStmt
    decreases ts.len() - pos, 7int,
{
    let e = sp_expression(ts, pos, LOWEST);
    match e.out {
        Some(value) => {
            let p1 = if tok_at(ts, adv(ts, e.pos)) is SEMICOLON {
                adv(ts, e.pos)
            } else {
                e.pos
            };
            PStmt { out: Some(StmtV::Expr(value)), pos: p1, errs: e.errs }
        },
        None => PStmt { out: None, pos: e.pos, errs: e.errs },
    }
}

/// A block: statements are parsed until `}` or `EOF`; the block's last
/// token is that closing token. A block always produces a statement.
#[verifier::opaque]
pub open spec fn sp_block(ts: Seq<TokenV>, pos: int) -> (Seq<StmtV>, int, Seq<Seq<char>>)
    decreases ts.len() - pos, 9int,
{
    if pos >= ts.len() || tok_at(ts, pos) is RBRACE || tok_at(ts, pos) is EOF {
        (Seq::empty(), pos, Seq::empty())
    } else {
        let st = sp_statement(ts, pos);
        let next = adv(ts, cap(ts, pos, st.pos));
        let (rest, pr, rerrs) = sp_block(ts, next);
        (
            (match st.out {
                Some(s) => seq![s],
                None => Seq::empty(),
            }) + rest,
            pr,
            st.errs + rerrs,
        )
    }
}

/// A Pratt expression parse at a given precedence: a prefix parse for
/// the current token, then infix extensions while the next token binds
/// tighter.
#[verifier::opaque]
pub open spec fn sp_expression(ts: Seq<TokenV>, pos: int, prec: u8) -> PExpr
    decreases ts.len() - pos, 6int,
{
    let first = sp_prefix(ts, pos);
    match first.out {
        None => first,
        Some(left) => {
            let p2 = cap(ts, pos, first.pos);
            let rest = sp_infix_loop(ts, p2, left, prec);
            PExpr { out: rest.out, pos: rest.pos, errs: first.errs + rest.errs }
        },
    }
}

/// The infix loop: while the next token is not `;` and binds tighter
/// than `prec`, step onto it and extend `left` with an infix or call
/// parse.
#[verifier::opaque]
pub open spec fn sp_infix_loop(ts: Seq<TokenV>, pos: int, left: ExprV, prec: u8) -> PExpr
    decreases ts.len() - pos, 5int,
{
    let peek = tok_at(ts, adv(ts, pos));
    if pos >= ts.len() || peek is SEMICOLON || prec >= prec_of(peek) {
        PExpr { out: Some(left), pos, errs: Seq::empty() }
    } else if peek is LPAREN {
        let c = sp_call(ts, adv(ts, pos), left);
        match c.out {
            None => c,
            Some(newleft) => {
                let np = cap(ts, pos + 1, c.pos);
                let rest = sp_infix_loop(ts, np, newleft, prec);
                PExpr { out: rest.out, pos: rest.pos, errs: c.errs + rest.errs }
            },
        }
    } else {
        match infix_op_of(peek) {
            None => PExpr { out: Some(left), pos, errs: Seq::empty() },
            Some(op) => {
                let c = sp_infix_op(ts, adv(ts, pos), left, op);
                match c.out {
                    None => c,
                    Some(newleft) => {
                        let np = cap(ts, pos + 1, c.pos);
                        let rest = sp_infix_loop(ts, np, newleft, prec);
                        PExpr { out: rest.out, pos: rest.pos, errs: c.errs + rest.errs }
                    },
                }
            },
        }
    }
}

/// An infix parse: the operator is the current token; the right operand
/// is parsed at the operator's own precedence, which makes operators of
/// equal precedence left-associative.
#[verifier::opaque]
pub open spec fn sp_infix_op(ts: Seq<TokenV>, pos: int, left: ExprV, op: Infix) -> PExpr
    decreases ts.len() - pos, 4int,
{
    if pos >= ts.len() {
        // never reached: the operator token is in range
        PExpr { out: None, pos, errs: Seq::empty() }
    } else {
        let r = sp_expression(ts, adv(ts, pos), prec_of(tok_at(ts, pos)));
        match r.out {
            Some(right) => PExpr {
                out: Some(ExprV::Infix(op, Box::new(left), Box::new(right))),
                pos: r.pos,
                errs: r.errs,
            },
            None => PExpr { out: None, pos: r.pos, errs: r.errs },
        }
    }
}

/// A call parse: the `(` is the current token; a comma-separated
/// argument list follows, closed by `)`.
#[verifier::opaque]
pub open spec fn sp_call(ts: Seq<TokenV>, pos: int, function: ExprV) -> PExpr
    decreases ts.len() - pos, 4int,
{
    let l = sp_call_arguments(ts, pos);
    match l.args {
        Some(arguments) => PExpr {
            out: Some(ExprV::Call { function: Box::new(function), arguments }),
            pos: l.pos,
            errs: l.errs,
        },
        None => PExpr { out: None, pos: l.pos, errs: l.errs },
    }
}

/// A call argument list: the `(` is the current token. An empty list is
/// closed immediately; otherwise expressions at lowest precedence are
/// separated by commas, and `)` must follow.
#[verifier::opaque]
pub open spec fn sp_call_arguments(ts: Seq<TokenV>, pos: int) -> PList
    decreases ts.len() - pos, 3int,
{
    if tok_at(ts, adv(ts, pos)) is RPAREN {
        PList { params: None, args: Some(Seq::empty()), pos: adv(ts, pos), errs: Seq::empty() }
    } else if pos >= ts.len() {
        // never reached: the opening parenthesis is in range
        PList { params: None, args: None, pos, errs: Seq::empty() }
    } else {
        let e = sp_expression(ts, adv(ts, pos), LOWEST);
        match e.out {
            None => PList { params: None, args: None, pos: e.pos, errs: e.errs },
            Some(first) => {
                let p2 = cap(ts, pos + 1, e.pos);
                let rest = sp_call_arguments_rest(ts, p2);
                match rest.args {
                    None => PList {
                        params: None,
                        args: None,
                        pos: rest.pos,
                        errs: e.errs + rest.errs,
                    },
                    Some(more) => PList {
                        params: None,
                        args: Some(seq![first] + more),
                        pos: rest.pos,
                        errs: e.errs + rest.errs,
                    },
                }
            },
        }
    }
}

/// The remaining call arguments: while a comma follows, step past it and
/// parse the next argument; then `)` must follow.
#[verifier::opaque]
pub open spec fn sp_call_arguments_rest(ts: Seq<TokenV>, pos: int) -> PList
    decreases ts.len() - pos, 2int,
{
    if tok_at(ts, adv(ts, pos)) is COMMA {
        let e = sp_expression(ts, adv(ts, adv(ts, pos)), LOWEST);
        match e.out {
            None => PList { params: None, args: None, pos: e.pos, errs: e.errs },
            Some(arg) => {
                let p2 = cap(ts, pos + 1, e.pos);
                let rest = sp_call_arguments_rest(ts, p2);
                match rest.args {
                    None => PList {
                        params: None,
                        args: None,
                        pos: rest.pos,
                        errs: e.errs + rest.errs,
                    },
                    Some(more) => PList {
                        params: None,
                        args: Some(seq![arg] + more),
                        pos: rest.pos,
                        errs: e.errs + rest.errs,
                    },
                }
            },
        }
    } else if tok_at(ts, adv(ts, pos)) is RPAREN {
        PList { params: None, args: Some(Seq::empty()), pos: adv(ts, pos), errs: Seq::empty() }
    } else {
        PList {
            params: None,
            args: None,
            pos,
            errs: seq![peek_error_text(TokenV::RPAREN, tok_at(ts, adv(ts, pos)))],
        }
    }
}

/// Prefix dispatch on the current token: literals and identifiers stand
/// alone; `(`, `if`, `fn`, `!` and `-` open larger forms; any other
/// token records that no expression can start there.
#[verifier::opaque]
pub open spec fn sp_prefix(ts: Seq<TokenV>, pos: int) -> PExpr
    decreases ts.len() - pos, 1int,
{
    match tok_at(ts, pos) {
        TokenV::IDENT(name) => PExpr {
            out: Some(ExprV::Ident(name)),
            pos,
            errs: Seq::empty(),
        },
        TokenV::INT(i) => PExpr { out: Some(ExprV::Int(i)), pos, errs: Seq::empty() },
        TokenV::TRUE => PExpr { out: Some(ExprV::Bool(true)), pos, errs: Seq::empty() },
        TokenV::FALSE => PExpr { out: Some(ExprV::Bool(false)), pos, errs: Seq::empty() },
        TokenV::BANG => sp_prefix_op(ts, pos, Prefix::BANG),
        TokenV::MINUS => sp_prefix_op(ts, pos, Prefix::MINUS),
        TokenV::LPAREN => sp_grouped(ts, pos),
        TokenV::IF => sp_if(ts, pos),
        TokenV::FUNCTION => sp_function(ts, pos),
        _ => PExpr { out: None, pos, errs: seq![no_prefix_text(tok_at(ts, pos))] },
    }
}

/// A prefix operator parse: the operand follows at prefix precedence.
#[verifier::opaque]
pub open spec fn sp_prefix_op(ts: Seq<TokenV>, pos: int, op: Prefix) -> PExpr
    decreases ts.len() - pos, 0int,
{
    if pos >= ts.len() {
        // never reached: the operator token is in range
        PExpr { out: None, pos, errs: Seq::empty() }
    } else {
        let r = sp_expression(ts, adv(ts, pos), PREFIX);
        match r.out {
            Some(right) => PExpr {
                out: Some(ExprV::Prefix(op, Box::new(right))),
                pos: r.pos,
                errs: r.errs,
            },
            None => PExpr { out: None, pos: r.pos, errs: r.errs },
        }
    }
}

/// A grouped expression: the inner expression at lowest precedence, then
/// `)` must follow — its absence is recorded even when the inner parse
/// already failed.
#[verifier::opaque]
pub open spec fn sp_grouped(ts: Seq<TokenV>, pos: int) -> PExpr
    decreases ts.len() - pos, 0int,
{
    if pos >= ts.len() {
        // never reached: the opening parenthesis is in range
        PExpr { out: None, pos, errs: Seq::empty() }
    } else {
        let e = sp_expression(ts, adv(ts, pos), LOWEST);
        if tok_at(ts, adv(ts, e.pos)) is RPAREN {
            PExpr { out: e.out, pos: adv(ts, e.pos), errs: e.errs }
        } else {
            PExpr {
                out: None,
                pos: e.pos,
                errs: e.errs + seq![peek_error_text(TokenV::RPAREN, tok_at(ts, adv(ts, e.pos)))],
            }
        }
    }
}

/// An `if` expression: `(`, the condition at lowest precedence, `)`,
/// then a braced consequence block, and optionally `else` with a braced
/// alternative block.
#[verifier::opaque]
pub open spec fn sp_if(ts: Seq<TokenV>, pos: int) -> PExpr
    decreases ts.len() - pos, 0int,
{
    if !(tok_at(ts, adv(ts, pos)) is LPAREN) {
        PExpr {
            out: None,
            pos,
            errs: seq![peek_error_text(TokenV::LPAREN, tok_at(ts, adv(ts, pos)))],
        }
    } else {
        let p1 = adv(ts, pos);  // current: `(`
        let c = sp_expression(ts, adv(ts, p1), LOWEST);
        match c.out {
            None => PExpr { out: None, pos: c.pos, errs: c.errs },
            Some(condition) => {
                let cp = if c.pos > p1 {
                    c.pos
                } else {
                    p1
                };
                if !(tok_at(ts, adv(ts, cp)) is RPAREN) {
                    PExpr {
                        out: None,
                        pos: cp,
                        errs: c.errs + seq![
                            peek_error_text(TokenV::RPAREN, tok_at(ts, adv(ts, cp))),
                        ],
                    }
                } else {
                    let p2 = adv(ts, cp);  // current: `)`
                    if !(tok_at(ts, adv(ts, p2)) is LBRACE) {
                        PExpr {
                            out: None,
                            pos: p2,
                            errs: c.errs + seq![
                                peek_error_text(TokenV::LBRACE, tok_at(ts, adv(ts, p2))),
                            ],
                        }
                    } else {
                        let p3 = adv(ts, p2);  // current: `{`
                        let (cons, p4raw, berrs) = sp_block(ts, adv(ts, p3));
                        let p4 = if p4raw > p3 {
                            p4raw
                        } else {
                            p3 + 1
                        };
                        if tok_at(ts, adv(ts, p4)) is ELSE {
                            let p5 = adv(ts, p4);  // current: `else`
                            if !(tok_at(ts, adv(ts, p5)) is LBRACE) {
                                PExpr {
                                    out: None,
                                    pos: p5,
                                    errs: c.errs + berrs + seq![
                                        peek_error_text(TokenV::LBRACE, tok_at(ts, adv(ts, p5))),
                                    ],
                                }
                            } else {
                                let p6 = adv(ts, p5);  // current: `{`
                                let (alt, p7raw, aerrs) = sp_block(ts, adv(ts, p6));
                                let p7 = if p7raw > p6 {
                                    p7raw
                                } else {
                                    p6 + 1
                                };
                                PExpr {
                                    out: Some(ExprV::If {
                                        condition: Box::new(condition),
                                        consequence: Box::new(StmtV::Block(cons)),
                                        alternative: Some(Box::new(StmtV::Block(alt))),
                                    }),
                                    pos: p7,
                                    errs: c.errs + berrs + aerrs,
                                }
                            }
                        } else {
                            PExpr {
                                out: Some(ExprV::If {
                                    condition: Box::new(condition),
                                    consequence: Box::new(StmtV::Block(cons)),
                                    alternative: None,
                                }),
                                pos: p4,
                                errs: c.errs + berrs,
                            }
                        }
                    }
                }
            },
        }
    }
}

/// A function literal: `(`, a possibly empty parameter list of
/// identifiers separated by commas, `)`, then a braced body block.
#[verifier::opaque]
pub open spec fn sp_function(ts: Seq<TokenV>, pos: int) -> PExpr
    decreases ts.len() - pos, 0int,
{
    if !(tok_at(ts, adv(ts, pos)) is LPAREN) {
        PExpr {
            out: None,
            pos,
            errs: seq![peek_error_text(TokenV::LPAREN, tok_at(ts, adv(ts, pos)))],
        }
    } else {
        let p1 = adv(ts, pos);  // current: `(`
        let l = sp_function_parameters(ts, p1);
        match l.params {
            None => PExpr { out: None, pos: l.pos, errs: l.errs },
            Some(parameters) => {
                let lp = if l.pos > p1 {
                    l.pos
                } else {
                    p1
                };
                if !(tok_at(ts, adv(ts, lp)) is LBRACE) {
                    PExpr {
                        out: None,
                        pos: lp,
                        errs: l.errs + seq![
                            peek_error_text(TokenV::LBRACE, tok_at(ts, adv(ts, lp))),
                        ],
                    }
                } else {
                    let p2 = adv(ts, lp);  // current: `{`
                    let (body, p3raw, berrs) = sp_block(ts, adv(ts, p2));
                    let p3 = if p3raw > p2 {
                        p3raw
                    } else {
                        p2 + 1
                    };
                    PExpr {
                        out: Some(ExprV::Function {
                            parameters,
                            body: Box::new(StmtV::Block(body)),
                        }),
                        pos: p3,
                        errs: l.errs + berrs,
                    }
                }
            },
        }
    }
}

/// A parameter list: the `(` is the current token. An empty list is
/// closed immediately; otherwise identifiers are separated by commas —
/// a non-identifier fails silently — and `)` must follow.
#[verifier::opaque]
pub open spec fn sp_function_parameters(ts: Seq<TokenV>, pos: int) -> PList
    decreases ts.len() - pos, 2int,
{
    if tok_at(ts, adv(ts, pos)) is RPAREN {
        PList { params: Some(Seq::empty()), args: None, pos: adv(ts, pos), errs: Seq::empty() }
    } else {
        match tok_at(ts, adv(ts, pos)) {
            TokenV::IDENT(name) => {
                let rest = sp_function_parameters_rest(ts, adv(ts, pos));
                match rest.params {
                    None => rest,
                    Some(more) => PList {
                        params: Some(seq![name] + more),
                        args: None,
                        pos: rest.pos,
                        errs: rest.errs,
                    },
                }
            },
            _ => PList { params: None, args: None, pos: adv(ts, pos), errs: Seq::empty() },
        }
    }
}

/// The remaining parameters: while a comma follows, step past it onto
/// the next identifier; then `)` must follow.
#[verifier::opaque]
pub open spec fn sp_function_parameters_rest(ts: Seq<TokenV>, pos: int) -> PList
    decreases ts.len() - pos, 1int,
{
    if tok_at(ts, adv(ts, pos)) is COMMA {
        let p1 = adv(ts, adv(ts, pos));
        match tok_at(ts, p1) {
            TokenV::IDENT(name) => {
                if p1 > pos {
                    let rest = sp_function_parameters_rest(ts, p1);
                    match rest.params {
                        None => rest,
                        Some(more) => PList {
                            params: Some(seq![name] + more),
                            args: None,
                            pos: rest.pos,
                            errs: rest.errs,
                        },
                    }
                } else {
                    PList { params: None, args: None, pos: p1, errs: Seq::empty() }
                }
            },
            _ => PList { params: None, args: None, pos: p1, errs: Seq::empty() },
        }
    } else if tok_at(ts, adv(ts, pos)) is RPAREN {
        PList { params: Some(Seq::empty()), args: None, pos: adv(ts, pos), errs: Seq::empty() }
    } else {
        PList {
            params: None,
            args: None,
            pos,
            errs: seq![peek_error_text(TokenV::RPAREN, tok_at(ts, adv(ts, pos)))],
        }
    }
}

/// The views of a token list.
pub open spec fn toks_view(ts: Seq<Token>) -> Seq<TokenV> {
    ts.map_values(|t: Token| t@)
}

/// The views of an error list.
pub open spec fn errs_view(es: Seq<String>) -> Seq<Seq<char>> {
    es.map_values(|s: String| s@)
}

/// The parser: the token list of its input, a cursor, and the errors
/// collected so far.
pub struct Parser {
    tokens: Vec<Token>,
    pos: usize,
    pub errors: Vec<String>,
}

impl Parser {
    /// The views of the parser's tokens.
    pub closed spec fn toks(&self) -> Seq<TokenV> {
        toks_view(self.tokens@)
    }

    /// The cursor: the index of the current token.
    pub closed spec fn at(&self) -> int {
        self.pos as int
    }

    /// The cursor never leaves the token list.
    pub closed spec fn wf(&self) -> bool {
        self.pos <= self.tokens@.len()
    }

    /// The views of the errors collected so far.
    pub closed spec fn errs(&self) -> Seq<Seq<char>> {
        errs_view(self.errors@)
    }

    /// A parser over all tokens of `lexer`, from the lexer's position to
    /// the end of its input, with the cursor on the first token.
    pub fn new(lexer: Lexer<'_>) -> (p: Parser)
        requires
            lexer.wf(),
        ensures
            p.wf(),
            p.toks() == lex_all_from(lexer.inp(), lexer.pos()),
            p.at() == 0,
            p.errs() == Seq::<Seq<char>>::empty(),
    {
        let ghost inp = lexer.inp();
        let ghost start = lexer.pos();
        proof {
            lexer.lemma_wf_bounds();
        }
        let mut lx = lexer;
        let mut tokens: Vec<Token> = Vec::new();
        loop
            invariant_except_break
                lx.wf(),
                lx.inp() == inp,
                0 <= start <= inp.len(),
                0 <= lx.pos() <= inp.len(),
                lex_all_from(inp, start) == toks_view(tokens@) + lex_all_from(inp, lx.pos()),
            ensures
                toks_view(tokens@) == lex_all_from(inp, start),
            decreases inp.len() - lx.pos() + 1,
        {
            proof {
                lx.lemma_wf_bounds();
                lemma_next_token_v_bounds(inp, lx.pos());
            }
            let ghost pre = lx.pos();
            let t = lx.next_token();
            let is_eof = matches!(t, Token::EOF);
            let ghost pre_tokens = tokens@;
            tokens.push(t);
            proof {
                assert(tokens@.drop_last() =~= pre_tokens);
                assert(toks_view(tokens@) =~= toks_view(pre_tokens).push(tokens@.last()@));
                if is_eof {
                    assert(lex_all_from(inp, pre) =~= seq![TokenV::EOF]);
                    assert(toks_view(tokens@) =~= toks_view(pre_tokens) + seq![TokenV::EOF]);
                    assert(toks_view(tokens@) =~= lex_all_from(inp, start));
                } else {
                    assert(lex_all_from(inp, pre) =~= seq![tokens@.last()@] + lex_all_from(
                        inp,
                        lx.pos(),
                    ));
                    assert(toks_view(pre_tokens) + lex_all_from(inp, pre) =~= toks_view(tokens@)
                        + lex_all_from(inp, lx.pos()));
                }
            }
            if is_eof {
                break ;
            }
        }
        let p = Parser { tokens, pos: 0, errors: Vec::new() };
        proof {
            assert(p.errors@ =~= Seq::<String>::empty());
            assert(p.errs() =~= Seq::<Seq<char>>::empty());
        }
        p
    }

    /// Steps the cursor one token forward; at the end it stays.
    fn next_token(&mut self)
        requires
            old(self).wf(),
        ensures
            final(self).wf(),
            final(self).toks() == old(self).toks(),
            final(self).errors@ == old(self).errors@,
            final(self).at() == adv(old(self).toks(), old(self).at()),
    {
        if self.pos < self.tokens.len() {
            self.pos += 1;
        }
    }

    /// A copy of the current token; past the end it is `EOF`.
    fn cur_clone(&self) -> (t: Token)
        requires
            self.wf(),
        ensures
            t@ == tok_at(self.toks(), self.at()),
    {
        if self.pos < self.tokens.len() {
            self.tokens[self.pos].dup()
        } else {
            Token::EOF
        }
    }

    /// A copy of the token after the current one; past the end it is
    /// `EOF`.
    fn peek_clone(&self) -> (t: Token)
        requires
            self.wf(),
        ensures
            t@ == tok_at(self.toks(), adv(self.toks(), self.at())),
    {
        let n = self.tokens.len();
        if self.pos < n && n - self.pos > 1 {
            self.tokens[self.pos + 1].dup()
        } else {
            Token::EOF
        }
    }

    /// True when the current token equals `token`.
    fn current_token_is(&self, token: &Token) -> (r: bool)
        requires
            self.wf(),
        ensures
            r == (tok_at(self.toks(), self.at()) == token@),
    {
        let cur = self.cur_clone();
        token_eq(&cur, token)
    }

    /// True when the token after the current one equals `token`.
    fn peek_token_is(&self, token: &Token) -> (r: bool)
        requires
            self.wf(),
        ensures
            r == (tok_at(self.toks(), adv(self.toks(), self.at())) == token@),
    {
        let peek = self.peek_clone();
        token_eq(&peek, token)
    }

    /// Records that the token after the current one was not the expected
    /// one.
    fn peek_error(&mut self, token: &Token)
        requires
            old(self).wf(),
        ensures
            final(self).wf(),
            final(self).toks() == old(self).toks(),
            final(self).at() == old(self).at(),
            errs_view(final(self).errors@) == errs_view(old(self).errors@).push(
                peek_error_text(token@, tok_at(old(self).toks(), adv(old(self).toks(), old(self).at()))),
            ),
    {
        let mut msg = "expected next token to be ".to_owned();
        let expected_str = token.to_string();
        msg.append(expected_str.as_str());
        msg.append(", got ");
        let peek = self.peek_clone();
        let got_str = peek.to_string();
        msg.append(got_str.as_str());
        msg.append(" instead");
        let ghost pre = self.errors@;
        self.errors.push(msg);
        proof {
            assert(self.errors@.drop_last() =~= pre);
            assert(errs_view(self.errors@) =~= errs_view(pre).push(self.errors@.last()@));
        }
    }

    /// When the token after the current one equals `token`, steps onto it
    /// and reports success; otherwise records an error and stays.
    fn expect_peek(&mut self, token: &Token) -> (r: bool)
        requires
            old(self).wf(),
        ensures
            final(self).wf(),
            final(self).toks() == old(self).toks(),
            r == (tok_at(old(self).toks(), adv(old(self).toks(), old(self).at())) == token@),
            r ==> final(self).at() == adv(old(self).toks(), old(self).at()) && final(self).errors@
                == old(self).errors@,
            !r ==> final(self).at() == old(self).at() && errs_view(final(self).errors@)
                == errs_view(old(self).errors@).push(
                peek_error_text(token@, tok_at(old(self).toks(), adv(old(self).toks(), old(self).at()))),
            ),
    {
        if self.peek_token_is(token) {
            self.next_token();
            true
        } else {
            self.peek_error(token);
            false
        }
    }

    /// The precedence the token after the current one binds with.
    fn peek_precedence(&self) -> (r: u8)
        requires
            self.wf(),
        ensures
            r == prec_of(tok_at(self.toks(), adv(self.toks(), self.at()))),
    {
        let peek = self.peek_clone();
        token_precedence(&peek)
    }

    /// The precedence the current token binds with.
    fn current_precedence(&self) -> (r: u8)
        requires
            self.wf(),
        ensures
            r == prec_of(tok_at(self.toks(), self.at())),
    {
        let cur = self.cur_clone();
        token_precedence(&cur)
    }
}

impl Parser {
    /// Records that no expression can start at the current token.
    fn no_prefix_error(&mut self)
        requires
            old(self).wf(),
        ensures
            final(self).wf(),
            final(self).toks() == old(self).toks(),
            final(self).at() == old(self).at(),
            errs_view(final(self).errors@) == errs_view(old(self).errors@).push(
                no_prefix_text(tok_at(old(self).toks(), old(self).at())),
            ),
    {
        let mut msg = "no prefix parse function for ".to_owned();
        let cur = self.cur_clone();
        let cur_str = cur.to_string();
        msg.append(cur_str.as_str());
        let ghost pre = self.errors@;
        self.errors.push(msg);
        proof {
            assert(self.errors@.drop_last() =~= pre);
            assert(errs_view(self.errors@) =~= errs_view(pre).push(self.errors@.last()@));
        }
    }

    /// Parses the whole token stream into a program, accumulating any
    /// errors on the parser.
    #[verifier::rlimit(100)]
    #[verifier::spinoff_prover]
    pub fn parse_program(&mut self) -> (program: Program)
        requires
            old(self).wf(),
        ensures
            final(self).wf(),
            final(self).toks() == old(self).toks(),
            ({
                let r = sp_program(old(self).toks(), old(self).at());
                program@ == r.stmts && final(self).at() == r.pos && final(self).errs() == old(
                    self,
                ).errs() + r.errs
            }),
    {
        proof {
            reveal(sp_program);
        }
        let ghost t0 = self.toks();
        let ghost at0 = self.at();
        let ghost errs0 = self.errors@;
        let mut program = Program::new();
        proof {
            assert(crate::ast::stmts_view(program.statements@) =~= Seq::<StmtV>::empty());
            assert(errs_view(errs0) + Seq::<Seq<char>>::empty() =~= errs_view(errs0));
        }
        while !self.current_token_is(&Token::EOF)
            invariant
                self.wf(),
                self.toks() == t0,
                t0 == old(self).toks(),
                at0 == old(self).at(),
                errs0 == old(self).errors@,
                at0 <= self.at() <= t0.len(),
                ({
                    let r = sp_program(t0, at0);
                    let l = sp_program(t0, self.at());
                    r.stmts == crate::ast::stmts_view(program.statements@) + l.stmts && r.pos
                        == l.pos && errs_view(errs0) + r.errs == errs_view(self.errors@) + l.errs
                }),
            decreases t0.len() - self.at(),
        {
            let ghost pre_at = self.at();
            let ghost pre_errs = self.errors@;
            let ghost pre_stmts = program.statements@;
            let statement = self.parse_statement();
            proof {
                reveal(sp_program);
                assert(cap(t0, pre_at, sp_statement(t0, pre_at).pos) == self.at());
            }
            self.next_token();
            match statement {
                Some(statement) => {
                    let ghost sv = statement@;
                    program.statements.push(statement);
                    proof {
                        lemma_stmts_view_push(pre_stmts, program.statements@.last());
                        assert(program.statements@.drop_last() =~= pre_stmts);
                        assert(crate::ast::stmts_view(program.statements@) =~= crate::ast::stmts_view(
                            pre_stmts,
                        ) + seq![sv]);
                        assert(crate::ast::stmts_view(pre_stmts) + (seq![sv] + sp_program(
                            t0,
                            self.at(),
                        ).stmts) =~= (crate::ast::stmts_view(pre_stmts) + seq![sv]) + sp_program(
                            t0,
                            self.at(),
                        ).stmts);
                    }
                },
                None => {
                    proof {
                        assert(Seq::<StmtV>::empty() + sp_program(t0, self.at()).stmts
                            =~= sp_program(t0, self.at()).stmts);
                    }
                },
            }
            proof {
                assert(errs_view(pre_errs) + (sp_statement(t0, pre_at).errs + sp_program(
                    t0,
                    self.at(),
                ).errs) =~= (errs_view(pre_errs) + sp_statement(t0, pre_at).errs) + sp_program(
                    t0,
                    self.at(),
                ).errs);
            }
        }
        proof {
            assert(sp_program(t0, self.at()).stmts =~= Seq::<StmtV>::empty());
            assert(crate::ast::stmts_view(program.statements@) + Seq::<StmtV>::empty()
                =~= crate::ast::stmts_view(program.statements@));
            assert(errs_view(self.errors@) + Seq::<Seq<char>>::empty() =~= errs_view(
                self.errors@,
            ));
        }
        program
    }

    /// Parses one statement, dispatching on the current token.
    #[verifier::rlimit(100)]
    #[verifier::spinoff_prover]
    fn parse_statement(&mut self) -> (r: Option<Statement>)
        requires
            old(self).wf(),
        ensures
            final(self).wf(),
            final(self).toks() == old(self).toks(),
            old(self).at() <= final(self).at() <= final(self).toks().len(),
            ({
                let s = sp_statement(old(self).toks(), old(self).at());
                final(self).at() == s.pos && errs_view(final(self).errors@) == errs_view(
                    old(self).errors@,
                ) + s.errs && (match (r, s.out) {
                    (Some(st), Some(sv)) => st@ == sv,
                    (None, None) => true,
                    _ => false,
                })
            }),
        decreases self.tokens@.len() - self.pos, 8int,
    {
        proof {
            reveal(sp_statement);
        }
        let cur = self.cur_clone();
        match cur {
            Token::LET => self.parse_let_statement(),
            Token::RETURN => self.parse_return_statement(),
            _ => self.parse_expression_statement(),
        }
    }

    /// Parses a `let` statement.
    #[verifier::rlimit(100)]
    #[verifier::spinoff_prover]
    fn parse_let_statement(&mut self) -> (r: Option<Statement>)
        requires
            old(self).wf(),
        ensures
            final(self).wf(),
            final(self).toks() == old(self).toks(),
            old(self).at() <= final(self).at() <= final(self).toks().len(),
            ({
                let s = sp_let(old(self).toks(), old(self).at());
                final(self).at() == s.pos && errs_view(final(self).errors@) == errs_view(
                    old(self).errors@,
                ) + s.errs && (match (r, s.out) {
                    (Some(st), Some(sv)) => st@ == sv,
                    (None, None) => true,
                    _ => false,
                })
            }),
        decreases self.tokens@.len() - self.pos, 7int,
    {
        proof {
            reveal(sp_let);
        }
        let ghost errs0 = self.errors@;
        let peek = self.peek_clone();
        let name = match peek {
            Token::IDENT(s) => s,
            _ => {
                proof {
                    assert(errs_view(errs0) + Seq::<Seq<char>>::empty() =~= errs_view(errs0));
                }
                return None;
            },
        };
        self.next_token();
        if !self.expect_peek(&Token::ASSIGN) {
            proof {
                assert(errs_view(self.errors@) =~= errs_view(errs0) + seq![
                    peek_error_text(
                        TokenV::ASSIGN,
                        tok_at(self.toks(), adv(self.toks(), self.at())),
                    ),
                ]);
            }
            return None;
        }
        self.next_token();
        let value = match self.parse_expression(LOWEST) {
            Some(v) => v,
            None => {
                return None;
            },
        };
        if self.peek_token_is(&Token::SEMICOLON) {
            self.next_token();
        }
        Some(Statement::LetStatement { name, value })
    }

    /// Parses a `return` statement.
    #[verifier::rlimit(100)]
    #[verifier::spinoff_prover]
    fn parse_return_statement(&mut self) -> (r: Option<Statement>)
        requires
            old(self).wf(),
        ensures
            final(self).wf(),
            final(self).toks() == old(self).toks(),
            old(self).at() <= final(self).at() <= final(self).toks().len(),
            ({
                let s = sp_return(old(self).toks(), old(self).at());
                final(self).at() == s.pos && errs_view(final(self).errors@) == errs_view(
                    old(self).errors@,
                ) + s.errs && (match (r, s.out) {
                    (Some(st), Some(sv)) => st@ == sv,
                    (None, None) => true,
                    _ => false,
                })
            }),
        decreases self.tokens@.len() - self.pos, 7int,
    {
        proof {
            reveal(sp_return);
        }
        self.next_token();
        let value = match self.parse_expression(LOWEST) {
            Some(v) => v,
            None => {
                return None;
            },
        };
        if self.peek_token_is(&Token::SEMICOLON) {
            self.next_token();
        }
        Some(Statement::ReturnStatement(value))
    }

    /// Parses an expression statement.
    #[verifier::rlimit(100)]
    #[verifier::spinoff_prover]
    fn parse_expression_statement(&mut self) -> (r: Option<Statement>)
        requires
            old(self).wf(),
        ensures
            final(self).wf(),
            final(self).toks() == old(self).toks(),
            old(self).at() <= final(self).at() <= final(self).toks().len(),
            ({
                let s = sp_expr_statement(old(self).toks(), old(self).at());
                final(self).at() == s.pos && errs_view(final(self).errors@) == errs_view(
                    old(self).errors@,
                ) + s.errs && (match (r, s.out) {
                    (Some(st), Some(sv)) => st@ == sv,
                    (None, None) => true,
                    _ => false,
                })
            }),
        decreases self.tokens@.len() - self.pos, 7int,
    {
        proof {
            reveal(sp_expr_statement);
        }
        let expression = match self.parse_expression(LOWEST) {
            Some(e) => e,
            None => {
                return None;
            },
        };
        if self.peek_token_is(&Token::SEMICOLON) {
            self.next_token();
        }
        Some(Statement::ExpressionStatement(expression))
    }

    /// Parses a block: the current token is the opening `{`; statements
    /// follow until `}` or the end of the input.
    #[verifier::rlimit(100)]
    #[verifier::spinoff_prover]
    fn parse_block_statement(&mut self) -> (r: Statement)
        requires
            old(self).wf(),
            tok_at(old(self).toks(), old(self).at()) is LBRACE,
        ensures
            final(self).wf(),
            final(self).toks() == old(self).toks(),
            old(self).at() < final(self).at() <= final(self).toks().len(),
            ({
                let (ss, p, es) = sp_block(
                    old(self).toks(),
                    adv(old(self).toks(), old(self).at()),
                );
                r@ == StmtV::Block(ss) && final(self).at() == p && errs_view(final(self).errors@)
                    == errs_view(old(self).errors@) + es
            }),
        decreases self.tokens@.len() - self.pos, 9int,
    {
        proof {
            reveal(sp_block);
        }
        let ghost t0 = self.toks();
        let ghost errs0 = self.errors@;
        self.next_token();
        let ghost start = self.at();
        let mut statements: Vec<Statement> = Vec::new();
        proof {
            assert(crate::ast::stmts_view(statements@) =~= Seq::<StmtV>::empty());
            assert(errs_view(errs0) + Seq::<Seq<char>>::empty() =~= errs_view(errs0));
        }
        while !self.current_token_is(&Token::RBRACE) && !self.current_token_is(&Token::EOF)
            invariant
                self.wf(),
                self.toks() == t0,
                t0 == old(self).toks(),
                errs0 == old(self).errors@,
                start == adv(t0, old(self).at()),
                start <= self.at() <= t0.len(),
                ({
                    let (ss, p, es) = sp_block(t0, start);
                    let (ls, lp, les) = sp_block(t0, self.at());
                    ss == crate::ast::stmts_view(statements@) + ls && p == lp && errs_view(errs0)
                        + es == errs_view(self.errors@) + les
                }),
            decreases t0.len() - self.at(),
        {
            let ghost pre_at = self.at();
            let ghost pre_errs = self.errors@;
            let ghost pre_stmts = statements@;
            let statement = self.parse_statement();
            proof {
                reveal(sp_block);
                assert(cap(t0, pre_at, sp_statement(t0, pre_at).pos) == self.at());
            }
            self.next_token();
            match statement {
                Some(statement) => {
                    let ghost sv = statement@;
                    statements.push(statement);
                    proof {
                        lemma_stmts_view_push(pre_stmts, statements@.last());
                        assert(statements@.drop_last() =~= pre_stmts);
                        assert(crate::ast::stmts_view(statements@) =~= crate::ast::stmts_view(
                            pre_stmts,
                        ) + seq![sv]);
                        assert(crate::ast::stmts_view(pre_stmts) + (seq![sv] + sp_block(
                            t0,
                            self.at(),
                        ).0) =~= (crate::ast::stmts_view(pre_stmts) + seq![sv]) + sp_block(
                            t0,
                            self.at(),
                        ).0);
                    }
                },
                None => {
                    proof {
                        assert(Seq::<StmtV>::empty() + sp_block(t0, self.at()).0 =~= sp_block(
                            t0,
                            self.at(),
                        ).0);
                    }
                },
            }
            proof {
                assert(errs_view(pre_errs) + (sp_statement(t0, pre_at).errs + sp_block(
                    t0,
                    self.at(),
                ).2) =~= (errs_view(pre_errs) + sp_statement(t0, pre_at).errs) + sp_block(
                    t0,
                    self.at(),
                ).2);
            }
        }
        proof {
            assert(sp_block(t0, self.at()).0 =~= Seq::<StmtV>::empty());
            assert(crate::ast::stmts_view(statements@) + Seq::<StmtV>::empty()
                =~= crate::ast::stmts_view(statements@));
            assert(errs_view(self.errors@) + Seq::<Seq<char>>::empty() =~= errs_view(
                self.errors@,
            ));
        }
        Statement::BlockStatement(statements)
    }

    /// Dispatches the prefix parse for the current token.
    #[verifier::rlimit(100)]
    #[verifier::spinoff_prover]
    fn parse_prefix_dispatch(&mut self) -> (r: Option<Expression>)
        requires
            old(self).wf(),
        ensures
            final(self).wf(),
            final(self).toks() == old(self).toks(),
            old(self).at() <= final(self).at() <= final(self).toks().len(),
            ({
                let t = sp_prefix(old(self).toks(), old(self).at());
                final(self).at() == t.pos && errs_view(final(self).errors@) == errs_view(
                    old(self).errors@,
                ) + t.errs && (match (r, t.out) {
                    (Some(e), Some(ev)) => e@ == ev,
                    (None, None) => true,
                    _ => false,
                })
            }),
        decreases self.tokens@.len() - self.pos, 2int,
    {
        proof {
            reveal(sp_prefix);
        }
        let ghost t0 = self.toks();
        let ghost at0 = self.at();
        let ghost errs0 = self.errors@;
        let cur = self.cur_clone();
        match cur {
            Token::IDENT(name) => {
                proof {
                    assert(errs_view(errs0) + Seq::<Seq<char>>::empty() =~= errs_view(errs0));
                }
                Some(Expression::Identifier(name))
            },
            Token::INT(value) => {
                proof {
                    assert(errs_view(errs0) + Seq::<Seq<char>>::empty() =~= errs_view(errs0));
                }
                Some(Expression::IntegerLiteral(value))
            },
            Token::TRUE => {
                proof {
                    assert(errs_view(errs0) + Seq::<Seq<char>>::empty() =~= errs_view(errs0));
                }
                Some(Expression::BooleanLiteral(true))
            },
            Token::FALSE => {
                proof {
                    assert(errs_view(errs0) + Seq::<Seq<char>>::empty() =~= errs_view(errs0));
                }
                Some(Expression::BooleanLiteral(false))
            },
            Token::BANG => self.parse_prefix(),
            Token::MINUS => self.parse_prefix(),
            Token::LPAREN => self.parse_grouped_expression(),
            Token::IF => self.parse_if_expression(),
            Token::FUNCTION => self.parse_function_literal(),
            _ => {
                self.no_prefix_error();
                proof {
                    assert(errs_view(errs0).push(no_prefix_text(tok_at(t0, at0))) =~= errs_view(
                        errs0,
                    ) + seq![no_prefix_text(tok_at(t0, at0))]);
                }
                None
            },
        }
    }

    /// Parses an expression at the given precedence: a prefix parse for
    /// the current token, then infix extensions while the next token
    /// binds tighter.
    #[verifier::rlimit(100)]
    #[verifier::spinoff_prover]
    fn parse_expression(&mut self, precedence: u8) -> (r: Option<Expression>)
        requires
            old(self).wf(),
        ensures
            final(self).wf(),
            final(self).toks() == old(self).toks(),
            old(self).at() <= final(self).at() <= final(self).toks().len(),
            ({
                let t = sp_expression(old(self).toks(), old(self).at(), precedence);
                final(self).at() == t.pos && errs_view(final(self).errors@) == errs_view(
                    old(self).errors@,
                ) + t.errs && (match (r, t.out) {
                    (Some(e), Some(ev)) => e@ == ev,
                    (None, None) => true,
                    _ => false,
                })
            }),
        decreases self.tokens@.len() - self.pos, 6int,
    {
        proof {
            reveal(sp_expression);
            reveal(sp_infix_loop);
        }
        let ghost t0 = self.toks();
        let ghost at0 = self.at();
        let ghost errs0 = self.errors@;
        let handled: Option<Expression> = self.parse_prefix_dispatch();
        let mut left = match handled {
            Some(e) => e,
            None => {
                return None;
            },
        };
        let ghost first = sp_prefix(t0, at0);
        proof {
            assert(first.out matches Some(lv) && lv == left@);
            assert(cap(t0, at0, first.pos) == self.at());
        }
        loop
            invariant_except_break
                self.wf(),
                self.toks() == t0,
                t0 == old(self).toks(),
                at0 == old(self).at(),
                errs0 == old(self).errors@,
                at0 <= self.at() <= t0.len(),
                ({
                    let t = sp_expression(t0, at0, precedence);
                    let l = sp_infix_loop(t0, self.at(), left@, precedence);
                    t.out == l.out && t.pos == l.pos && errs_view(self.errors@) + l.errs
                        == errs_view(errs0) + t.errs
                }),
            ensures
                self.wf(),
                self.toks() == t0,
                at0 <= self.at() <= t0.len(),
                ({
                    let t = sp_expression(t0, at0, precedence);
                    t.out == Some(left@) && t.pos == self.at() && errs_view(self.errors@)
                        == errs_view(errs0) + t.errs
                }),
            decreases t0.len() - self.at(),
        {
            let ghost head_at = self.at();
            proof {
                reveal(sp_infix_loop);
            }
            if self.peek_token_is(&Token::SEMICOLON) {
                break ;
            }
            let prec_next = self.peek_precedence();
            if precedence >= prec_next {
                break ;
            }
            let peek = self.peek_clone();
            if matches!(peek, Token::LPAREN) {
                self.next_token();
                let ghost lv = left@;
                match self.parse_call_expression(left) {
                    Some(new_left) => {
                        proof {
                            assert(cap(t0, head_at + 1, sp_call(t0, adv(t0, head_at), lv).pos)
                                == self.at());
                        }
                        left = new_left;
                    },
                    None => {
                        return None;
                    },
                }
            } else {
                match token_infix_op(&peek) {
                    Some(_) => {
                        self.next_token();
                        let ghost lv = left@;
                        let ghost op = infix_op_of(tok_at(t0, adv(t0, head_at)))->0;
                        match self.parse_infix(left) {
                            Some(new_left) => {
                                proof {
                                    assert(cap(
                                        t0,
                                        head_at + 1,
                                        sp_infix_op(t0, adv(t0, head_at), lv, op).pos,
                                    ) == self.at());
                                }
                                left = new_left;
                            },
                            None => {
                                return None;
                            },
                        }
                    },
                    None => {
                        break ;
                    },
                }
            }
        }
        Some(left)
    }

    /// Parses a prefix operator expression: the current token is `!` or
    /// `-`, and the operand follows at prefix precedence.
    #[verifier::rlimit(100)]
    #[verifier::spinoff_prover]
    fn parse_prefix(&mut self) -> (r: Option<Expression>)
        requires
            old(self).wf(),
            tok_at(old(self).toks(), old(self).at()) is BANG || tok_at(
                old(self).toks(),
                old(self).at(),
            ) is MINUS,
        ensures
            final(self).wf(),
            final(self).toks() == old(self).toks(),
            old(self).at() <= final(self).at() <= final(self).toks().len(),
            ({
                let op = if tok_at(old(self).toks(), old(self).at()) is BANG {
                    Prefix::BANG
                } else {
                    Prefix::MINUS
                };
                let t = sp_prefix_op(old(self).toks(), old(self).at(), op);
                final(self).at() == t.pos && errs_view(final(self).errors@) == errs_view(
                    old(self).errors@,
                ) + t.errs && (match (r, t.out) {
                    (Some(e), Some(ev)) => e@ == ev,
                    (None, None) => true,
                    _ => false,
                })
            }),
        decreases self.tokens@.len() - self.pos, 1int,
    {
        proof {
            reveal(sp_prefix_op);
        }
        let cur = self.cur_clone();
        let operator = match cur {
            Token::BANG => Prefix::BANG,
            _ => Prefix::MINUS,
        };
        self.next_token();
        match self.parse_expression(PREFIX) {
            Some(right) => {
                proof {
                    reveal(sp_prefix_op);
                }
                Some(Expression::Prefix(operator, Box::new(right)))
            },
            None => {
                proof {
                    reveal(sp_prefix_op);
                }
                None
            },
        }
    }

    /// Parses a grouped expression: the current token is `(`, the inner
    /// expression follows at lowest precedence, and `)` must close it.
    #[verifier::rlimit(100)]
    #[verifier::spinoff_prover]
    fn parse_grouped_expression(&mut self) -> (r: Option<Expression>)
        requires
            old(self).wf(),
            tok_at(old(self).toks(), old(self).at()) is LPAREN,
        ensures
            final(self).wf(),
            final(self).toks() == old(self).toks(),
            old(self).at() <= final(self).at() <= final(self).toks().len(),
            ({
                let t = sp_grouped(old(self).toks(), old(self).at());
                final(self).at() == t.pos && errs_view(final(self).errors@) == errs_view(
                    old(self).errors@,
                ) + t.errs && (match (r, t.out) {
                    (Some(e), Some(ev)) => e@ == ev,
                    (None, None) => true,
                    _ => false,
                })
            }),
        decreases self.tokens@.len() - self.pos, 1int,
    {
        proof {
            reveal(sp_grouped);
        }
        let ghost errs0 = self.errors@;
        self.next_token();
        let expression = self.parse_expression(LOWEST);
        if !self.expect_peek(&Token::RPAREN) {
            proof {
                reveal(sp_grouped);
                let t = sp_expression(self.toks(), adv(self.toks(), old(self).at()), LOWEST);
                assert((errs_view(errs0) + t.errs).push(
                    peek_error_text(TokenV::RPAREN, tok_at(self.toks(), adv(self.toks(), t.pos))),
                ) =~= errs_view(errs0) + (t.errs + seq![
                    peek_error_text(TokenV::RPAREN, tok_at(self.toks(), adv(self.toks(), t.pos))),
                ]));
            }
            return None;
        }
        proof {
            reveal(sp_grouped);
        }
        expression
    }
}

impl Parser {
    /// Parses an `if` expression: the current token is `if`.
    #[verifier::rlimit(100)]
    #[verifier::spinoff_prover]
    fn parse_if_expression(&mut self) -> (r: Option<Expression>)
        requires
            old(self).wf(),
            tok_at(old(self).toks(), old(self).at()) is IF,
        ensures
            final(self).wf(),
            final(self).toks() == old(self).toks(),
            old(self).at() <= final(self).at() <= final(self).toks().len(),
            ({
                let t = sp_if(old(self).toks(), old(self).at());
                final(self).at() == t.pos && errs_view(final(self).errors@) == errs_view(
                    old(self).errors@,
                ) + t.errs && (match (r, t.out) {
                    (Some(e), Some(ev)) => e@ == ev,
                    (None, None) => true,
                    _ => false,
                })
            }),
        decreases self.tokens@.len() - self.pos, 1int,
    {
        proof {
            reveal(sp_if);
        }
        let ghost t0 = self.toks();
        let ghost at0 = self.at();
        let ghost errs0 = self.errors@;
        if !self.expect_peek(&Token::LPAREN) {
            proof {
                assert(errs_view(errs0).push(peek_error_text(TokenV::LPAREN, tok_at(t0, adv(t0, at0))))
                    =~= errs_view(errs0) + seq![
                    peek_error_text(TokenV::LPAREN, tok_at(t0, adv(t0, at0))),
                ]);
            }
            return None;
        }
        self.next_token();
        let ghost c = sp_expression(t0, adv(t0, adv(t0, at0)), LOWEST);
        let condition = match self.parse_expression(LOWEST) {
            Some(c) => c,
            None => {
                return None;
            },
        };
        proof {
            assert(cap(t0, adv(t0, at0), c.pos) == self.at());
        }
        if !self.expect_peek(&Token::RPAREN) {
            proof {
                assert((errs_view(errs0) + c.errs).push(
                    peek_error_text(TokenV::RPAREN, tok_at(t0, adv(t0, c.pos))),
                ) =~= errs_view(errs0) + (c.errs + seq![
                    peek_error_text(TokenV::RPAREN, tok_at(t0, adv(t0, c.pos))),
                ]));
            }
            return None;
        }
        if !self.expect_peek(&Token::LBRACE) {
            proof {
                assert((errs_view(errs0) + c.errs).push(
                    peek_error_text(TokenV::LBRACE, tok_at(t0, adv(t0, adv(t0, cap(t0, adv(t0, at0), c.pos))))),
                ) =~= errs_view(errs0) + (c.errs + seq![
                    peek_error_text(TokenV::LBRACE, tok_at(t0, adv(t0, adv(t0, cap(t0, adv(t0, at0), c.pos))))),
                ]));
            }
            return None;
        }
        let ghost p3 = self.at();
        let consequence = self.parse_block_statement();
        proof {
            let (bs, p4raw, berrs) = sp_block(t0, adv(t0, p3));
            assert(self.at() == p4raw);
            assert((p4raw > p3 ==> cap(t0, p3 + 1, p4raw) == p4raw));
        }
        let alternative: Option<Box<Statement>> = if self.peek_token_is(&Token::ELSE) {
            self.next_token();
            let ghost p5 = self.at();
            if !self.expect_peek(&Token::LBRACE) {
                proof {
                    let (bs, p4raw, berrs) = sp_block(t0, adv(t0, p3));
                    assert((errs_view(errs0) + c.errs + berrs).push(
                        peek_error_text(TokenV::LBRACE, tok_at(t0, adv(t0, p5))),
                    ) =~= errs_view(errs0) + (c.errs + berrs + seq![
                        peek_error_text(TokenV::LBRACE, tok_at(t0, adv(t0, p5))),
                    ]));
                }
                return None;
            }
            let alt = self.parse_block_statement();
            Some(Box::new(alt))
        } else {
            None
        };
        Some(Expression::If {
            condition: Box::new(condition),
            consequence: Box::new(consequence),
            alternative,
        })
    }

    /// Parses a function literal: the current token is `fn`.
    #[verifier::rlimit(100)]
    #[verifier::spinoff_prover]
    fn parse_function_literal(&mut self) -> (r: Option<Expression>)
        requires
            old(self).wf(),
            tok_at(old(self).toks(), old(self).at()) is FUNCTION,
        ensures
            final(self).wf(),
            final(self).toks() == old(self).toks(),
            old(self).at() <= final(self).at() <= final(self).toks().len(),
            ({
                let t = sp_function(old(self).toks(), old(self).at());
                final(self).at() == t.pos && errs_view(final(self).errors@) == errs_view(
                    old(self).errors@,
                ) + t.errs && (match (r, t.out) {
                    (Some(e), Some(ev)) => e@ == ev,
                    (None, None) => true,
                    _ => false,
                })
            }),
        decreases self.tokens@.len() - self.pos, 1int,
    {
        proof {
            reveal(sp_function);
        }
        let ghost t0 = self.toks();
        let ghost at0 = self.at();
        let ghost errs0 = self.errors@;
        if !self.expect_peek(&Token::LPAREN) {
            proof {
                assert(errs_view(errs0).push(peek_error_text(TokenV::LPAREN, tok_at(t0, adv(t0, at0))))
                    =~= errs_view(errs0) + seq![
                    peek_error_text(TokenV::LPAREN, tok_at(t0, adv(t0, at0))),
                ]);
            }
            return None;
        }
        let ghost l = sp_function_parameters(t0, adv(t0, at0));
        let parameters = match self.parse_function_parameters() {
            Some(ps) => ps,
            None => {
                return None;
            },
        };
        proof {
            assert(cap(t0, adv(t0, at0), l.pos) == self.at());
        }
        if !self.expect_peek(&Token::LBRACE) {
            proof {
                assert((errs_view(errs0) + l.errs).push(
                    peek_error_text(TokenV::LBRACE, tok_at(t0, adv(t0, l.pos))),
                ) =~= errs_view(errs0) + (l.errs + seq![
                    peek_error_text(TokenV::LBRACE, tok_at(t0, adv(t0, l.pos))),
                ]));
            }
            return None;
        }
        let body = self.parse_block_statement();
        Some(Expression::FunctionLiteral { parameters, body: Box::new(body) })
    }

    /// Parses a parameter list: the current token is `(`; identifiers
    /// separated by commas follow, closed by `)`.
    #[verifier::rlimit(100)]
    #[verifier::spinoff_prover]
    fn parse_function_parameters(&mut self) -> (r: Option<Vec<String>>)
        requires
            old(self).wf(),
            tok_at(old(self).toks(), old(self).at()) is LPAREN,
        ensures
            final(self).wf(),
            final(self).toks() == old(self).toks(),
            old(self).at() <= final(self).at() <= final(self).toks().len(),
            ({
                let t = sp_function_parameters(old(self).toks(), old(self).at());
                final(self).at() == t.pos && errs_view(final(self).errors@) == errs_view(
                    old(self).errors@,
                ) + t.errs && (match (r, t.params) {
                    (Some(ps), Some(pvs)) => params_view(ps@) == pvs,
                    (None, None) => true,
                    _ => false,
                })
            }),
    {
        proof {
            reveal(sp_function_parameters);
            reveal(sp_function_parameters_rest);
        }
        let ghost t0 = self.toks();
        let ghost at0 = self.at();
        let ghost errs0 = self.errors@;
        let mut identifiers: Vec<String> = Vec::new();
        if self.peek_token_is(&Token::RPAREN) {
            self.next_token();
            proof {
                assert(params_view(identifiers@) =~= Seq::<Seq<char>>::empty());
                assert(errs_view(errs0) + Seq::<Seq<char>>::empty() =~= errs_view(errs0));
            }
            return Some(identifiers);
        }
        self.next_token();
        let cur = self.cur_clone();
        match cur {
            Token::IDENT(s) => {
                identifiers.push(s);
            },
            _ => {
                proof {
                    assert(errs_view(errs0) + Seq::<Seq<char>>::empty() =~= errs_view(errs0));
                }
                return None;
            },
        }
        proof {
            assert(params_view(identifiers@) =~= seq![tok_at(t0, adv(t0, at0))->IDENT_0]);
        }
        while self.peek_token_is(&Token::COMMA)
            invariant
                self.wf(),
                self.toks() == t0,
                t0 == old(self).toks(),
                at0 == old(self).at(),
                errs0 == old(self).errors@,
                at0 < self.at() <= t0.len(),
                identifiers@.len() >= 1,
                errs_view(self.errors@) == errs_view(errs0),
                ({
                    let t = sp_function_parameters(t0, at0);
                    let l = sp_function_parameters_rest(t0, self.at());
                    match l.params {
                        Some(more) => t.params == Some(params_view(identifiers@) + more) && t.pos
                            == l.pos && t.errs == l.errs,
                        None => t.params == None::<Seq<Seq<char>>> && t.pos == l.pos && t.errs
                            == l.errs,
                    }
                }),
            decreases t0.len() - self.at(),
        {
            let ghost head_at = self.at();
            proof {
                reveal(sp_function_parameters_rest);
            }
            self.next_token();
            self.next_token();
            let cur = self.cur_clone();
            match cur {
                Token::IDENT(s) => {
                    let ghost pre = identifiers@;
                    identifiers.push(s);
                    proof {
                        lemma_params_view_push(pre, identifiers@.last());
                        assert(identifiers@.drop_last() =~= pre);
                        assert(params_view(identifiers@) =~= params_view(pre).push(
                            identifiers@.last()@,
                        ));
                        let l = sp_function_parameters_rest(t0, self.at());
                        match l.params {
                            Some(more) => {
                                assert(params_view(pre) + (seq![identifiers@.last()@] + more)
                                    =~= params_view(identifiers@) + more);
                            },
                            None => {},
                        }
                    }
                },
                _ => {
                    return None;
                },
            }
        }
        if !self.expect_peek(&Token::RPAREN) {
            proof {
                assert(errs_view(errs0).push(
                    peek_error_text(TokenV::RPAREN, tok_at(t0, adv(t0, self.at()))),
                ) =~= errs_view(errs0) + seq![
                    peek_error_text(TokenV::RPAREN, tok_at(t0, adv(t0, self.at()))),
                ]);
            }
            return None;
        }
        proof {
            assert(errs_view(errs0) + Seq::<Seq<char>>::empty() =~= errs_view(errs0));
        }
        Some(identifiers)
    }

    /// Parses an infix expression: the current token is the operator and
    /// `left` its left operand; the right operand follows at the
    /// operator's precedence.
    #[verifier::rlimit(100)]
    #[verifier::spinoff_prover]
    fn parse_infix(&mut self, left: Expression) -> (r: Option<Expression>)
        requires
            old(self).wf(),
            infix_op_of(tok_at(old(self).toks(), old(self).at())) is Some,
        ensures
            final(self).wf(),
            final(self).toks() == old(self).toks(),
            old(self).at() <= final(self).at() <= final(self).toks().len(),
            ({
                let t = sp_infix_op(
                    old(self).toks(),
                    old(self).at(),
                    left@,
                    infix_op_of(tok_at(old(self).toks(), old(self).at()))->0,
                );
                final(self).at() == t.pos && errs_view(final(self).errors@) == errs_view(
                    old(self).errors@,
                ) + t.errs && (match (r, t.out) {
                    (Some(e), Some(ev)) => e@ == ev,
                    (None, None) => true,
                    _ => false,
                })
            }),
        decreases self.tokens@.len() - self.pos, 4int,
    {
        proof {
            reveal(sp_infix_op);
        }
        let cur = self.cur_clone();
        let operator = match token_infix_op(&cur) {
            Some(op) => op,
            None => {
                proof {
                    assert(false);
                }
                return None;
            },
        };
        let precedence = self.current_precedence();
        self.next_token();
        match self.parse_expression(precedence) {
            Some(right) => Some(Expression::Infix(operator, Box::new(left), Box::new(right))),
            None => None,
        }
    }

    /// Parses a call expression: the current token is `(` and `left` the
    /// callee; a comma-separated argument list follows.
    #[verifier::rlimit(100)]
    #[verifier::spinoff_prover]
    fn parse_call_expression(&mut self, function: Expression) -> (r: Option<Expression>)
        requires
            old(self).wf(),
            tok_at(old(self).toks(), old(self).at()) is LPAREN,
        ensures
            final(self).wf(),
            final(self).toks() == old(self).toks(),
            old(self).at() <= final(self).at() <= final(self).toks().len(),
            ({
                let t = sp_call(old(self).toks(), old(self).at(), function@);
                final(self).at() == t.pos && errs_view(final(self).errors@) == errs_view(
                    old(self).errors@,
                ) + t.errs && (match (r, t.out) {
                    (Some(e), Some(ev)) => e@ == ev,
                    (None, None) => true,
                    _ => false,
                })
            }),
        decreases self.tokens@.len() - self.pos, 4int,
    {
        proof {
            reveal(sp_call);
        }
        let arguments = match self.parse_call_arguments() {
            Some(a) => a,
            None => {
                return None;
            },
        };
        Some(Expression::Call { function: Box::new(function), arguments })
    }

    /// Parses a call argument list: the current token is `(`; expressions
    /// at lowest precedence separated by commas follow, closed by `)`.
    #[verifier::rlimit(100)]
    #[verifier::spinoff_prover]
    fn parse_call_arguments(&mut self) -> (r: Option<Vec<Expression>>)
        requires
            old(self).wf(),
            tok_at(old(self).toks(), old(self).at()) is LPAREN,
        ensures
            final(self).wf(),
            final(self).toks() == old(self).toks(),
            old(self).at() <= final(self).at() <= final(self).toks().len(),
            ({
                let t = sp_call_arguments(old(self).toks(), old(self).at());
                final(self).at() == t.pos && errs_view(final(self).errors@) == errs_view(
                    old(self).errors@,
                ) + t.errs && (match (r, t.args) {
                    (Some(es), Some(evs)) => crate::ast::exprs_view(es@) == evs,
                    (None, None) => true,
                    _ => false,
                })
            }),
        decreases self.tokens@.len() - self.pos, 3int,
    {
        proof {
            reveal(sp_call_arguments);
            reveal(sp_call_arguments_rest);
        }
        let ghost t0 = self.toks();
        let ghost at0 = self.at();
        let ghost errs0 = self.errors@;
        let mut arguments: Vec<Expression> = Vec::new();
        if self.peek_token_is(&Token::RPAREN) {
            self.next_token();
            proof {
                assert(crate::ast::exprs_view(arguments@) =~= Seq::<ExprV>::empty());
                assert(errs_view(errs0) + Seq::<Seq<char>>::empty() =~= errs_view(errs0));
            }
            return Some(arguments);
        }
        self.next_token();
        let ghost e0 = sp_expression(t0, adv(t0, at0), LOWEST);
        match self.parse_expression(LOWEST) {
            Some(argument) => {
                let ghost av = argument@;
                arguments.push(argument);
                proof {
                    lemma_exprs_view_push(Seq::<Expression>::empty(), arguments@.last());
                    assert(arguments@.drop_last() =~= Seq::<Expression>::empty());
                    assert(arguments@ =~= Seq::<Expression>::empty().push(arguments@.last()));
                    assert(crate::ast::exprs_view(arguments@) =~= seq![av]);
                }
            },
            None => {
                return None;
            },
        }
        proof {
            assert(cap(t0, at0 + 1, e0.pos) == self.at());
        }
        while self.peek_token_is(&Token::COMMA)
            invariant
                self.wf(),
                self.toks() == t0,
                t0 == old(self).toks(),
                at0 == old(self).at(),
                errs0 == old(self).errors@,
                at0 < self.at() <= t0.len(),
                arguments@.len() >= 1,
                ({
                    let t = sp_call_arguments(t0, at0);
                    let l = sp_call_arguments_rest(t0, self.at());
                    match l.args {
                        Some(more) => t.args == Some(crate::ast::exprs_view(arguments@) + more)
                            && t.pos == l.pos && errs_view(errs0) + t.errs == errs_view(
                            self.errors@,
                        ) + l.errs,
                        None => t.args == None::<Seq<ExprV>> && t.pos == l.pos && errs_view(errs0)
                            + t.errs == errs_view(self.errors@) + l.errs,
                    }
                }),
            decreases t0.len() - self.at(),
        {
            let ghost head_at = self.at();
            proof {
                reveal(sp_call_arguments_rest);
            }
            self.next_token();
            self.next_token();
            let ghost e = sp_expression(t0, adv(t0, adv(t0, head_at)), LOWEST);
            match self.parse_expression(LOWEST) {
                Some(argument) => {
                    let ghost av = argument@;
                    let ghost pre = arguments@;
                    arguments.push(argument);
                    proof {
                        assert(cap(t0, head_at + 1, e.pos) == self.at());
                        lemma_exprs_view_push(pre, arguments@.last());
                        assert(arguments@.drop_last() =~= pre);
                        assert(crate::ast::exprs_view(arguments@) =~= crate::ast::exprs_view(
                            pre,
                        ).push(av));
                        let l = sp_call_arguments_rest(t0, self.at());
                        match l.args {
                            Some(more) => {
                                assert(crate::ast::exprs_view(pre) + (seq![av] + more)
                                    =~= crate::ast::exprs_view(arguments@) + more);
                            },
                            None => {},
                        }
                    }
                },
                None => {
                    return None;
                },
            }
        }
        if !self.expect_peek(&Token::RPAREN) {
            proof {
                let t = sp_call_arguments(t0, at0);
                assert(errs_view(self.errors@).push(
                    peek_error_text(TokenV::RPAREN, tok_at(t0, adv(t0, self.at()))),
                ) =~= errs_view(self.errors@) + seq![
                    peek_error_text(TokenV::RPAREN, tok_at(t0, adv(t0, self.at()))),
                ]);
            }
            return None;
        }
        proof {
            assert(crate::ast::exprs_view(arguments@) + Seq::<ExprV>::empty()
                =~= crate::ast::exprs_view(arguments@));
        }
        Some(arguments)
    }
}

/// The precedence a token binds with in infix position.
fn token_precedence(token: &Token) -> (r: u8)
    ensures
        r == prec_of(token@),
{
    match token {
        Token::EQ | Token::NOT_EQ => EQUALS,
        Token::LT | Token::GT => LESSGREATER,
        Token::PLUS | Token::MINUS => SUM,
        Token::ASTERISK | Token::SLASH => PRODUCT,
        Token::LPAREN => CALL,
        _ => LOWEST,
    }
}

/// The infix operator a token denotes, if any.
fn token_infix_op(token: &Token) -> (r: Option<Infix>)
    ensures
        r == infix_op_of(token@),
{
    match token {
        Token::PLUS => Some(Infix::PLUS),
        Token::MINUS => Some(Infix::MINUS),
        Token::ASTERISK => Some(Infix::ASTERISK),
        Token::SLASH => Some(Infix::SLASH),
        Token::EQ => Some(Infix::EQ),
        Token::NOT_EQ => Some(Infix::NOT_EQ),
        Token::LT => Some(Infix::LT),
        Token::GT => Some(Infix::GT),
        _ => None,
    }
}

} // verus!
