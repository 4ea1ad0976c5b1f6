//! The abstract syntax tree: programs, statements and expressions, their
//! mathematical views, and their textual rendering.
//!
//! Rendering fully parenthesises every prefix and infix node, so the text
//! of a tree re-parses to a structurally equal tree.

use vstd::prelude::*;
use vstd::string::*;

use crate::text::{int_text, int_to_string};

verus! {

/// A prefix operator.
#[derive(Debug, Clone, Copy, PartialEq, Eq, Hash, Structural)]
pub enum Prefix {
    BANG,
    MINUS,
}

/// An infix operator.
#[allow(non_camel_case_types)]
#[derive(Debug, Clone, Copy, PartialEq, Eq, Hash, Structural)]
pub enum Infix {
    PLUS,
    MINUS,
    ASTERISK,
    SLASH,
    EQ,
    NOT_EQ,
    LT,
    GT,
}

/// A statement.
#[derive(Debug, PartialEq, Eq, Hash)]
pub enum Statement {
    LetStatement { name: String, value: Expression },
    ReturnStatement(Expression),
    BlockStatement(Vec<Statement>),
    ExpressionStatement(Expression),
}

/// An expression.
#[derive(Debug, PartialEq, Eq, Hash)]
pub enum Expression {
    Identifier(String),
    IntegerLiteral(isize),
    BooleanLiteral(bool),
    If {
        condition: Box<Expression>,
        consequence: Box<Statement>,
        alternative: Option<Box<Statement>>,
    },
    FunctionLiteral { parameters: Vec<String>, body: Box<Statement> },
    Call { function: Box<Expression>, arguments: Vec<Expression> },
    Prefix(Prefix, Box<Expression>),
    Infix(Infix, Box<Expression>, Box<Expression>),
}

/// A parsed program: an ordered sequence of statements.
#[derive(Debug)]
pub struct Program {
    pub statements: Vec<Statement>,
}

/// The mathematical view of a statement.
pub enum StmtV {
    Let { name: Seq<char>, value: ExprV },
    Return(ExprV),
    Block(Seq<StmtV>),
    Expr(ExprV),
}

/// The mathematical view of an expression.
pub enum ExprV {
    Ident(Seq<char>),
    Int(isize),
    Bool(bool),
    If { condition: Box<ExprV>, consequence: Box<StmtV>, alternative: Option<Box<StmtV>> },
    Function { parameters: Seq<Seq<char>>, body: Box<StmtV> },
    Call { function: Box<ExprV>, arguments: Seq<ExprV> },
    Prefix(Prefix, Box<ExprV>),
    Infix(Infix, Box<ExprV>, Box<ExprV>),
}

/// The views of a parameter list.
pub open spec fn params_view(ps: Seq<String>) -> Seq<Seq<char>> {
    ps.map_values(|p: String| p@)
}

/// The view of an expression.
pub open spec fn expr_view(e: Expression) -> ExprV
    decreases e,
{
    match e {
        Expression::Identifier(s) => ExprV::Ident(s@),
        Expression::IntegerLiteral(i) => ExprV::Int(i),
        Expression::BooleanLiteral(b) => ExprV::Bool(b),
        Expression::If { condition, consequence, alternative } => ExprV::If {
            condition: Box::new(expr_view(*condition)),
            consequence: Box::new(stmt_view(*consequence)),
            alternative: match alternative {
                Some(a) => Some(Box::new(stmt_view(*a))),
                None => None,
            },
        },
        Expression::FunctionLiteral { parameters, body } => ExprV::Function {
            parameters: params_view(parameters@),
            body: Box::new(stmt_view(*body)),
        },
        Expression::Call { function, arguments } => ExprV::Call {
            function: Box::new(expr_view(*function)),
            arguments: exprs_view(arguments@),
        },
        Expression::Prefix(op, right) => ExprV::Prefix(op, Box::new(expr_view(*right))),
        Expression::Infix(op, left, right) => ExprV::Infix(
            op,
            Box::new(expr_view(*left)),
            Box::new(expr_view(*right)),
        ),
    }
}

/// The views of a sequence of expressions.
pub open spec fn exprs_view(es: Seq<Expression>) -> Seq<ExprV>
    decreases es,
{
    if es.len() == 0 {
        Seq::empty()
    } else {
        seq![expr_view(es[0])] + exprs_view(es.drop_first())
    }
}

/// The view of a statement.
pub open spec fn stmt_view(s: Statement) -> StmtV
    decreases s,
{
    match s {
        Statement::LetStatement { name, value } => StmtV::Let {
            name: name@,
            value: expr_view(value),
        },
        Statement::ReturnStatement(value) => StmtV::Return(expr_view(value)),
        Statement::BlockStatement(statements) => StmtV::Block(stmts_view(statements@)),
        Statement::ExpressionStatement(e) => StmtV::Expr(expr_view(e)),
    }
}

/// The views of a sequence of statements.
pub open spec fn stmts_view(ss: Seq<Statement>) -> Seq<StmtV>
    decreases ss,
{
    if ss.len() == 0 {
        Seq::empty()
    } else {
        seq![stmt_view(ss[0])] + stmts_view(ss.drop_first())
    }
}

impl View for Expression {
    type V = ExprV;

    open spec fn view(&self) -> ExprV {
        expr_view(*self)
    }
}

impl View for Statement {
    type V = StmtV;

    open spec fn view(&self) -> StmtV {
        stmt_view(*self)
    }
}

impl View for Program {
    type V = Seq<StmtV>;

    open spec fn view(&self) -> Seq<StmtV> {
        stmts_view(self.statements@)
    }
}

impl Program {
    /// An empty program.
    pub fn new() -> (p: Program)
        ensures
            p@ == Seq::<StmtV>::empty(),
    {
        Program { statements: Vec::new() }
    }
}

/// The source character of a prefix operator.
pub open spec fn prefix_text(op: Prefix) -> Seq<char> {
    match op {
        Prefix::BANG => "!"@,
        Prefix::MINUS => "-"@,
    }
}

/// The source characters of an infix operator.
pub open spec fn infix_text(op: Infix) -> Seq<char> {
    match op {
        Infix::PLUS => "+"@,
        Infix::MINUS => "-"@,
        Infix::ASTERISK => "*"@,
        Infix::SLASH => "/"@,
        Infix::EQ => "=="@,
        Infix::NOT_EQ => "!="@,
        Infix::LT => "<"@,
        Infix::GT => ">"@,
    }
}

/// The rendering of an expression. Prefix nodes print as `(opR)` and
/// infix nodes as `(L op R)`, so precedence is explicit in the text.
pub open spec fn expr_text(e: ExprV) -> Seq<char>
    decreases e,
{
    match e {
        ExprV::Ident(s) => s,
        ExprV::Int(i) => int_text(i as int),
        ExprV::Bool(b) => if b {
            "true"@
        } else {
            "false"@
        },
        ExprV::Prefix(op, right) => "("@ + prefix_text(op) + expr_text(*right) + ")"@,
        ExprV::Infix(op, left, right) => "("@ + expr_text(*left) + " "@ + infix_text(op) + " "@
            + expr_text(*right) + ")"@,
        ExprV::If { condition, consequence, alternative } => {
            let head = "if "@ + expr_text(*condition) + " "@ + stmt_text(*consequence);
            match alternative {
                Some(a) => head + "else "@ + stmt_text(*a),
                None => head,
            }
        },
        ExprV::Function { parameters, body } => "fn("@ + params_text(parameters) + ") "@
            + stmt_text(*body),
        ExprV::Call { function, arguments } => expr_text(*function) + "("@ + exprs_text(arguments)
            + ")"@,
    }
}

/// The rendering of a comma-separated parameter list.
pub open spec fn params_text(ps: Seq<Seq<char>>) -> Seq<char>
    decreases ps.len(),
{
    if ps.len() == 0 {
        Seq::empty()
    } else if ps.len() == 1 {
        ps[0]
    } else {
        ps[0] + ", "@ + params_text(ps.drop_first())
    }
}

/// The rendering of a comma-separated argument list.
pub open spec fn exprs_text(es: Seq<ExprV>) -> Seq<char>
    decreases es,
{
    if es.len() == 0 {
        Seq::empty()
    } else if es.len() == 1 {
        expr_text(es[0])
    } else {
        expr_text(es[0]) + ", "@ + exprs_text(es.drop_first())
    }
}

/// The rendering of a statement.
pub open spec fn stmt_text(s: StmtV) -> Seq<char>
    decreases s,
{
    match s {
        StmtV::Let { name, value } => "let "@ + name + " = "@ + expr_text(value) + ";"@,
        StmtV::Return(value) => "return "@ + expr_text(value) + ";"@,
        StmtV::Block(ss) => stmts_text(ss),
        StmtV::Expr(e) => expr_text(e),
    }
}

/// The rendering of a statement sequence: the concatenation of the
/// statements' renderings, with no separator.
pub open spec fn stmts_text(ss: Seq<StmtV>) -> Seq<char>
    decreases ss,
{
    if ss.len() == 0 {
        Seq::empty()
    } else {
        stmt_text(ss[0]) + stmts_text(ss.drop_first())
    }
}

/// Appending a statement to a sequence appends its rendering.
pub proof fn lemma_stmts_text_push(ss: Seq<StmtV>, s: StmtV)
    ensures
        stmts_text(ss.push(s)) == stmts_text(ss) + stmt_text(s),
    decreases ss.len(),
{
    assert(stmts_text(Seq::<StmtV>::empty()) == Seq::<char>::empty());
    if ss.len() == 0 {
        assert(ss.push(s).drop_first() =~= Seq::<StmtV>::empty());
        assert(ss.push(s)[0] == s);
        assert(stmts_text(ss.push(s)) =~= stmt_text(s));
        assert(stmts_text(ss) + stmt_text(s) =~= stmt_text(s));
    } else {
        assert(ss.push(s).drop_first() =~= ss.drop_first().push(s));
        assert(ss.push(s)[0] == ss[0]);
        lemma_stmts_text_push(ss.drop_first(), s);
        assert(stmts_text(ss.push(s)) =~= stmts_text(ss) + stmt_text(s));
    }
}

/// Appending a statement to a sequence appends its view.
pub proof fn lemma_stmts_view_push(ss: Seq<Statement>, s: Statement)
    ensures
        stmts_view(ss.push(s)) == stmts_view(ss).push(stmt_view(s)),
    decreases ss.len(),
{
    assert(stmts_view(Seq::<Statement>::empty()) == Seq::<StmtV>::empty());
    if ss.len() == 0 {
        assert(ss.push(s).drop_first() =~= Seq::<Statement>::empty());
        assert(ss.push(s)[0] == s);
        assert(stmts_view(ss.push(s)) =~= stmts_view(ss).push(stmt_view(s)));
    } else {
        assert(ss.push(s).drop_first() =~= ss.drop_first().push(s));
        assert(ss.push(s)[0] == ss[0]);
        lemma_stmts_view_push(ss.drop_first(), s);
        assert(stmts_view(ss.push(s)) =~= stmts_view(ss).push(stmt_view(s)));
    }
}

/// The view of a sequence of statements is the sequence of their views.
pub proof fn lemma_stmts_view_index(ss: Seq<Statement>, i: int)
    requires
        0 <= i < ss.len(),
    ensures
        stmts_view(ss).len() == ss.len(),
        stmts_view(ss)[i] == stmt_view(ss[i]),
    decreases i,
{
    lemma_stmts_view_len(ss);
    if i > 0 {
        lemma_stmts_view_index(ss.drop_first(), i - 1);
    }
}

/// The view of a sequence of expressions is the sequence of their views.
pub proof fn lemma_exprs_view_index(es: Seq<Expression>, i: int)
    requires
        0 <= i < es.len(),
    ensures
        exprs_view(es).len() == es.len(),
        exprs_view(es)[i] == expr_view(es[i]),
    decreases i,
{
    lemma_exprs_view_len(es);
    if i > 0 {
        lemma_exprs_view_index(es.drop_first(), i - 1);
    }
}

/// A sequence of expressions and its view have the same length.
pub proof fn lemma_exprs_view_len(es: Seq<Expression>)
    ensures
        exprs_view(es).len() == es.len(),
    decreases es.len(),
{
    if es.len() > 0 {
        lemma_exprs_view_len(es.drop_first());
    }
}

/// A sequence of statements and its view have the same length.
pub proof fn lemma_stmts_view_len(ss: Seq<Statement>)
    ensures
        stmts_view(ss).len() == ss.len(),
    decreases ss.len(),
{
    if ss.len() > 0 {
        lemma_stmts_view_len(ss.drop_first());
    }
}

/// Appending an expression to a sequence appends its view.
pub proof fn lemma_exprs_view_push(es: Seq<Expression>, e: Expression)
    ensures
        exprs_view(es.push(e)) == exprs_view(es).push(expr_view(e)),
    decreases es.len(),
{
    assert(exprs_view(Seq::<Expression>::empty()) == Seq::<ExprV>::empty());
    if es.len() == 0 {
        assert(es.push(e).drop_first() =~= Seq::<Expression>::empty());
        assert(es.push(e)[0] == e);
        assert(exprs_view(es.push(e)) =~= exprs_view(es).push(expr_view(e)));
    } else {
        assert(es.push(e).drop_first() =~= es.drop_first().push(e));
        assert(es.push(e)[0] == es[0]);
        lemma_exprs_view_push(es.drop_first(), e);
        assert(exprs_view(es.push(e)) =~= exprs_view(es).push(expr_view(e)));
    }
}

impl Expression {
    /// The rendering of this expression.
    pub fn to_string(&self) -> (r: String)
        ensures
            r@ == expr_text(self@),
        decreases *self,
    {
        match self {
            Expression::Identifier(s) => s.clone(),
            Expression::IntegerLiteral(i) => int_to_string(*i),
            Expression::BooleanLiteral(b) => {
                if *b {
                    "true".to_owned()
                } else {
                    "false".to_owned()
                }
            },
            Expression::Prefix(op, right) => {
                let mut r = "(".to_owned();
                let op_str: &'static str = match op {
                    Prefix::BANG => "!",
                    Prefix::MINUS => "-",
                };
                r.append(op_str);
                let right_str = right.to_string();
                r.append(right_str.as_str());
                r.append(")");
                r
            },
            Expression::Infix(op, left, right) => {
                let mut r = "(".to_owned();
                let left_str = left.to_string();
                r.append(left_str.as_str());
                r.append(" ");
                let op_str: &'static str = match op {
                    Infix::PLUS => "+",
                    Infix::MINUS => "-",
                    Infix::ASTERISK => "*",
                    Infix::SLASH => "/",
                    Infix::EQ => "==",
                    Infix::NOT_EQ => "!=",
                    Infix::LT => "<",
                    Infix::GT => ">",
                };
                r.append(op_str);
                r.append(" ");
                let right_str = right.to_string();
                r.append(right_str.as_str());
                r.append(")");
                r
            },
            Expression::If { condition, consequence, alternative } => {
                let mut r = "if ".to_owned();
                let cond_str = condition.to_string();
                r.append(cond_str.as_str());
                r.append(" ");
                let cons_str = consequence.to_string();
                r.append(cons_str.as_str());
                match alternative {
                    Some(a) => {
                        r.append("else ");
                        let alt_str = a.to_string();
                        r.append(alt_str.as_str());
                    },
                    None => {},
                }
                r
            },
            Expression::FunctionLiteral { parameters, body } => {
                let mut r = "fn(".to_owned();
                let params_str = join_params(parameters);
                r.append(params_str.as_str());
                r.append(") ");
                let body_str = body.to_string();
                r.append(body_str.as_str());
                r
            },
            Expression::Call { function, arguments } => {
                let mut r = function.to_string();
                r.append("(");
                let args_str = join_exprs(arguments);
                r.append(args_str.as_str());
                r.append(")");
                r
            },
        }
    }
}

/// Appending an expression to a list extends the list's rendering with a
/// comma separator when the list was not empty.
pub proof fn lemma_exprs_text_snoc(es: Seq<ExprV>, e: ExprV)
    ensures
        es.len() == 0 ==> exprs_text(es.push(e)) == expr_text(e),
        es.len() > 0 ==> exprs_text(es.push(e)) == exprs_text(es) + ", "@ + expr_text(e),
    decreases es.len(),
{
    if es.len() == 0 {
        assert(es.push(e)[0] == e);
        assert(exprs_text(es.push(e)) == expr_text(e));
    } else if es.len() == 1 {
        assert(es.push(e)[0] == es[0]);
        assert(es.push(e).drop_first() =~= seq![e]);
        assert(exprs_text(seq![e]) == expr_text(e));
        assert(exprs_text(es) == expr_text(es[0]));
        assert(exprs_text(es.push(e)) =~= exprs_text(es) + ", "@ + expr_text(e));
    } else {
        assert(es.push(e)[0] == es[0]);
        assert(es.push(e).drop_first() =~= es.drop_first().push(e));
        lemma_exprs_text_snoc(es.drop_first(), e);
        assert(exprs_text(es.push(e)) =~= exprs_text(es) + ", "@ + expr_text(e));
    }
}

/// Appending a parameter to a list extends the list's rendering with a
/// comma separator when the list was not empty.
pub proof fn lemma_params_text_snoc(ps: Seq<Seq<char>>, p: Seq<char>)
    ensures
        ps.len() == 0 ==> params_text(ps.push(p)) == p,
        ps.len() > 0 ==> params_text(ps.push(p)) == params_text(ps) + ", "@ + p,
    decreases ps.len(),
{
    if ps.len() == 0 {
        assert(ps.push(p)[0] == p);
    } else if ps.len() == 1 {
        assert(ps.push(p)[0] == ps[0]);
        assert(ps.push(p).drop_first() =~= seq![p]);
        assert(params_text(seq![p]) == p);
        assert(params_text(ps) == ps[0]);
        assert(params_text(ps.push(p)) =~= params_text(ps) + ", "@ + p);
    } else {
        assert(ps.push(p)[0] == ps[0]);
        assert(ps.push(p).drop_first() =~= ps.drop_first().push(p));
        lemma_params_text_snoc(ps.drop_first(), p);
        assert(params_text(ps.push(p)) =~= params_text(ps) + ", "@ + p);
    }
}

/// Appending a parameter name to a list appends its view.
pub proof fn lemma_params_view_push(ps: Seq<String>, p: String)
    ensures
        params_view(ps.push(p)) == params_view(ps).push(p@),
{
    assert(params_view(ps.push(p)) =~= params_view(ps).push(p@));
}

/// Renders a parameter list with `, ` between names.
pub fn join_params(parameters: &Vec<String>) -> (r: String)
    ensures
        r@ == params_text(params_view(parameters@)),
{
    let mut r = String::new();
    let mut i: usize = 0;
    while i < parameters.len()
        invariant
            0 <= i <= parameters@.len(),
            r@ == params_text(params_view(parameters@.take(i as int))),
        decreases parameters@.len() - i,
    {
        if i > 0 {
            r.append(", ");
        }
        r.append(parameters[i].as_str());
        proof {
            lemma_params_view_push(parameters@.take(i as int), parameters@[i as int]);
            lemma_params_text_snoc(params_view(parameters@.take(i as int)), parameters@[i as int]@);
            assert(parameters@.take(i as int).push(parameters@[i as int]) =~= parameters@.take(
                i as int + 1,
            ));
            assert(params_view(parameters@.take(i as int)).len() == i);
        }
        i += 1;
    }
    proof {
        assert(parameters@.take(parameters@.len() as int) =~= parameters@);
    }
    r
}

impl Statement {
    /// The rendering of this statement.
    pub fn to_string(&self) -> (r: String)
        ensures
            r@ == stmt_text(self@),
        decreases *self,
    {
        match self {
            Statement::LetStatement { name, value } => {
                let mut r = "let ".to_owned();
                r.append(name.as_str());
                r.append(" = ");
                let value_str = value.to_string();
                r.append(value_str.as_str());
                r.append(";");
                r
            },
            Statement::ReturnStatement(value) => {
                let mut r = "return ".to_owned();
                let value_str = value.to_string();
                r.append(value_str.as_str());
                r.append(";");
                r
            },
            Statement::BlockStatement(statements) => join_stmts(statements),
            Statement::ExpressionStatement(e) => e.to_string(),
        }
    }
}

impl Program {
    /// The rendering of this program: the statements' renderings
    /// concatenated with no separator.
    pub fn to_string(&self) -> (r: String)
        ensures
            r@ == stmts_text(self@),
    {
        join_stmts(&self.statements)
    }
}

impl Expression {
    /// A structurally equal copy of this expression.
    pub fn dup(&self) -> (r: Expression)
        ensures
            r@ == self@,
        decreases *self,
    {
        match self {
            Expression::Identifier(s) => Expression::Identifier(s.clone()),
            Expression::IntegerLiteral(i) => Expression::IntegerLiteral(*i),
            Expression::BooleanLiteral(b) => Expression::BooleanLiteral(*b),
            Expression::If { condition, consequence, alternative } => Expression::If {
                condition: Box::new(condition.dup()),
                consequence: Box::new(consequence.dup()),
                alternative: match alternative {
                    Some(a) => Some(Box::new(a.dup())),
                    None => None,
                },
            },
            Expression::FunctionLiteral { parameters, body } => Expression::FunctionLiteral {
                parameters: dup_params(parameters),
                body: Box::new(body.dup()),
            },
            Expression::Call { function, arguments } => Expression::Call {
                function: Box::new(function.dup()),
                arguments: dup_exprs(arguments),
            },
            Expression::Prefix(op, right) => Expression::Prefix(*op, Box::new(right.dup())),
            Expression::Infix(op, left, right) => Expression::Infix(
                *op,
                Box::new(left.dup()),
                Box::new(right.dup()),
            ),
        }
    }
}

impl Statement {
    /// A structurally equal copy of this statement.
    pub fn dup(&self) -> (r: Statement)
        ensures
            r@ == self@,
        decreases *self,
    {
        match self {
            Statement::LetStatement { name, value } => Statement::LetStatement {
                name: name.clone(),
                value: value.dup(),
            },
            Statement::ReturnStatement(value) => Statement::ReturnStatement(value.dup()),
            Statement::BlockStatement(statements) => Statement::BlockStatement(
                dup_stmts(statements),
            ),
            Statement::ExpressionStatement(e) => Statement::ExpressionStatement(e.dup()),
        }
    }
}

/// A copy of a parameter list with the same names.
pub fn dup_params(ps: &Vec<String>) -> (r: Vec<String>)
    ensures
        params_view(r@) == params_view(ps@),
{
    let mut r: Vec<String> = Vec::new();
    let mut i: usize = 0;
    while i < ps.len()
        invariant
            0 <= i <= ps@.len(),
            params_view(r@) == params_view(ps@.take(i as int)),
        decreases ps@.len() - i,
    {
        r.push(ps[i].clone());
        proof {
            lemma_params_view_push(ps@.take(i as int), ps@[i as int]);
            assert(ps@.take(i as int).push(ps@[i as int]) =~= ps@.take(i as int + 1));
            assert(params_view(r@.drop_last()).push(r@.last()@) =~= params_view(r@));
        }
        i += 1;
    }
    proof {
        assert(ps@.take(ps@.len() as int) =~= ps@);
    }
    r
}

/// A structurally equal copy of a statement list.
pub fn dup_stmts(ss: &Vec<Statement>) -> (r: Vec<Statement>)
    ensures
        stmts_view(r@) == stmts_view(ss@),
    decreases *ss,
{
    let mut r: Vec<Statement> = Vec::new();
    let mut i: usize = 0;
    while i < ss.len()
        invariant
            0 <= i <= ss@.len(),
            stmts_view(r@) == stmts_view(ss@.take(i as int)),
        decreases ss@.len() - i,
    {
        proof {
            assert(decreases_to!(*ss => ss@[i as int]));
        }
        let copy = ss[i].dup();
        let ghost prefix = r@;
        r.push(copy);
        proof {
            lemma_stmts_view_push(ss@.take(i as int), ss@[i as int]);
            lemma_stmts_view_push(prefix, r@.last());
            assert(r@.drop_last() =~= prefix);
            assert(r@ =~= prefix.push(r@.last()));
            assert(ss@.take(i as int).push(ss@[i as int]) =~= ss@.take(i as int + 1));
        }
        i += 1;
    }
    proof {
        assert(ss@.take(ss@.len() as int) =~= ss@);
    }
    r
}

/// A structurally equal copy of an expression list.
pub fn dup_exprs(es: &Vec<Expression>) -> (r: Vec<Expression>)
    ensures
        exprs_view(r@) == exprs_view(es@),
    decreases *es,
{
    let mut r: Vec<Expression> = Vec::new();
    let mut i: usize = 0;
    while i < es.len()
        invariant
            0 <= i <= es@.len(),
            exprs_view(r@) == exprs_view(es@.take(i as int)),
        decreases es@.len() - i,
    {
        proof {
            assert(decreases_to!(*es => es@[i as int]));
        }
        let copy = es[i].dup();
        let ghost prefix = r@;
        r.push(copy);
        proof {
            lemma_exprs_view_push(es@.take(i as int), es@[i as int]);
            lemma_exprs_view_push(prefix, r@.last());
            assert(r@.drop_last() =~= prefix);
            assert(r@ =~= prefix.push(r@.last()));
            assert(es@.take(i as int).push(es@[i as int]) =~= es@.take(i as int + 1));
        }
        i += 1;
    }
    proof {
        assert(es@.take(es@.len() as int) =~= es@);
    }
    r
}

/// Renders a statement sequence with no separator.
pub fn join_stmts(statements: &Vec<Statement>) -> (r: String)
    ensures
        r@ == stmts_text(stmts_view(statements@)),
    decreases *statements,
{
    let mut r = String::new();
    let mut i: usize = 0;
    while i < statements.len()
        invariant
            0 <= i <= statements@.len(),
            r@ == stmts_text(stmts_view(statements@.take(i as int))),
        decreases statements@.len() - i,
    {
        proof {
            assert(decreases_to!(*statements => statements@[i as int]));
        }
        let stmt_str = statements[i].to_string();
        r.append(stmt_str.as_str());
        proof {
            lemma_stmts_view_push(statements@.take(i as int), statements@[i as int]);
            lemma_stmts_text_push(stmts_view(statements@.take(i as int)), stmt_view(
                statements@[i as int],
            ));
            assert(statements@.take(i as int).push(statements@[i as int]) =~= statements@.take(
                i as int + 1,
            ));
        }
        i += 1;
    }
    proof {
        assert(statements@.take(statements@.len() as int) =~= statements@);
    }
    r
}

/// Renders an argument list with `, ` between expressions.
pub fn join_exprs(arguments: &Vec<Expression>) -> (r: String)
    ensures
        r@ == exprs_text(exprs_view(arguments@)),
    decreases *arguments,
{
    let mut r = String::new();
    let mut i: usize = 0;
    while i < arguments.len()
        invariant
            0 <= i <= arguments@.len(),
            r@ == exprs_text(exprs_view(arguments@.take(i as int))),
        decreases arguments@.len() - i,
    {
        if i > 0 {
            r.append(", ");
        }
        proof {
            assert(decreases_to!(*arguments => arguments@[i as int]));
        }
        let arg_str = arguments[i].to_string();
        r.append(arg_str.as_str());
        proof {
            lemma_exprs_view_len(arguments@.take(i as int));
            lemma_exprs_view_push(arguments@.take(i as int), arguments@[i as int]);
            lemma_exprs_text_snoc(exprs_view(arguments@.take(i as int)), expr_view(
                arguments@[i as int],
            ));
            assert(arguments@.take(i as int).push(arguments@[i as int]) =~= arguments@.take(
                i as int + 1,
            ));
            assert(exprs_view(arguments@.take(i as int)).len() == i);
        }
        i += 1;
    }
    proof {
        assert(arguments@.take(arguments@.len() as int) =~= arguments@);
    }
    r
}

} // verus!
