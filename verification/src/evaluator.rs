//! The evaluator: a recursive walk over the syntax tree under a lexically
//! scoped environment, producing a value or an evaluation error.
//!
//! The whole evaluation is modelled by spec functions over the views of
//! the tree, the environment and the values; every executable function
//! here returns exactly what its model says. Because the language can
//! express unbounded recursion through self-application, evaluation
//! carries a call-depth budget: each function application consumes one
//! unit, and an exhausted budget is an evaluation error. The budget is
//! large enough that real programs exhaust the native stack first.
//!
//! Integer arithmetic wraps on overflow; division truncates toward zero,
//! division by zero is an evaluation error, and the one wrapping quotient
//! is the most negative value divided by minus one.
//!
//! A function literal captures its environment as a value: the bindings
//! of the frame it stands in are snapshotted and the outer frames are
//! shared, so closures observe every binding made before their creation
//! and none made after — a function can therefore not call itself
//! through its own `let` name.

use std::rc::Rc;

use vstd::prelude::*;

use crate::ast::{
    dup_params, exprs_view, lemma_exprs_view_index, lemma_stmts_view_index, params_view,
    stmts_view, ExprV, Expression, Infix, Prefix, Program, Statement, StmtV,
};
use crate::laws::{lemma_equality_structural, lemma_no_return_leak};
use crate::object::{
    env_lookup, env_no_nested, no_nested_return, obj_eq, obj_eq_v, obj_view, rc_as_ref, rc_clone,
    truthy, type_of_v, EnvV, Environment, ErrV, EvalError, Function, Object, ObjectV,
};

verus! {

/// The call-depth budget of a top-level evaluation.
pub const CALL_DEPTH_LIMIT: u64 = u64::MAX;

/// The size of an expression: one more than the sizes of its children.
pub open spec fn esize(e: ExprV) -> nat
    decreases e,
{
    match e {
        ExprV::Ident(_) => 1,
        ExprV::Int(_) => 1,
        ExprV::Bool(_) => 1,
        ExprV::Prefix(_, right) => 1 + esize(*right),
        ExprV::Infix(_, left, right) => 1 + esize(*left) + esize(*right),
        ExprV::If { condition, consequence, alternative } => 1 + esize(*condition) + ssize(
            *consequence,
        ) + (match alternative {
            Some(a) => ssize(*a),
            None => 0,
        }),
        ExprV::Function { body, .. } => 1 + ssize(*body),
        ExprV::Call { function, arguments } => 1 + esize(*function) + esizes(arguments),
    }
}

/// The size of a statement.
pub open spec fn ssize(s: StmtV) -> nat
    decreases s,
{
    match s {
        StmtV::Let { value, .. } => 1 + esize(value),
        StmtV::Return(value) => 1 + esize(value),
        StmtV::Block(ss) => 1 + ssizes(ss),
        StmtV::Expr(e) => 1 + esize(e),
    }
}

/// The total size of a statement sequence.
pub open spec fn ssizes(ss: Seq<StmtV>) -> nat
    decreases ss,
{
    if ss.len() == 0 {
        0
    } else {
        ssize(ss[0]) + ssizes(ss.drop_first())
    }
}

/// The total size of an expression sequence.
pub open spec fn esizes(es: Seq<ExprV>) -> nat
    decreases es,
{
    if es.len() == 0 {
        0
    } else {
        esize(es[0]) + esizes(es.drop_first())
    }
}

/// The negation of an integer value; the most negative value wraps to
/// itself.
pub open spec fn neg_wrap(i: isize) -> isize {
    if i == isize::MIN {
        isize::MIN
    } else {
        (-i) as isize
    }
}

/// The quotient of two integer values, truncating toward zero; the most
/// negative value divided by minus one wraps to itself.
pub open spec fn div_wrap(x: isize, y: isize) -> isize
    recommends
        y != 0,
{
    match x.checked_div(y) {
        Some(q) => q,
        None => isize::MIN,
    }
}

/// What the `!` operator yields: the negation of its operand's
/// truthiness, except that only booleans and null are projected — any
/// other value maps to `false`.
pub open spec fn bang_v(v: ObjectV) -> bool {
    match v {
        ObjectV::Boolean(b) => !b,
        ObjectV::Null => true,
        _ => false,
    }
}

/// Evaluation of a prefix operator applied to a value. `!` always yields
/// a boolean; `-` negates an integer and rejects anything else.
pub open spec fn ev_prefix(op: Prefix, v: ObjectV) -> Result<ObjectV, ErrV> {
    match op {
        Prefix::BANG => Ok(ObjectV::Boolean(bang_v(v))),
        Prefix::MINUS => match v {
            ObjectV::Integer(i) => Ok(ObjectV::Integer(neg_wrap(i))),
            _ => Err(ErrV::UnknownPrefixOperator { prefix: Prefix::MINUS, right: type_of_v(v) }),
        },
    }
}

/// Evaluation of an infix operator on two integer values: arithmetic
/// wraps, division by zero is an error, comparisons yield booleans.
pub open spec fn ev_int_infix(op: Infix, x: isize, y: isize) -> Result<ObjectV, ErrV> {
    match op {
        Infix::PLUS => Ok(ObjectV::Integer(x.wrapping_add(y))),
        Infix::MINUS => Ok(ObjectV::Integer(x.wrapping_sub(y))),
        Infix::ASTERISK => Ok(ObjectV::Integer(x.wrapping_mul(y))),
        Infix::SLASH => if y == 0 {
            Err(ErrV::DivisionByZero)
        } else {
            Ok(ObjectV::Integer(div_wrap(x, y)))
        },
        Infix::LT => Ok(ObjectV::Boolean(x < y)),
        Infix::GT => Ok(ObjectV::Boolean(x > y)),
        Infix::EQ => Ok(ObjectV::Boolean(x == y)),
        Infix::NOT_EQ => Ok(ObjectV::Boolean(x != y)),
    }
}

/// Evaluation of an infix operator on two values. Values of different
/// type tags are a type mismatch; two integers use integer semantics;
/// any other same-tagged pair admits only `==` and `!=`, which compare
/// structurally.
pub open spec fn ev_infix(op: Infix, l: ObjectV, r: ObjectV) -> Result<ObjectV, ErrV> {
    if type_of_v(l) != type_of_v(r) {
        Err(ErrV::TypeMismatch { left: type_of_v(l), op, right: type_of_v(r) })
    } else {
        match (l, r) {
            (ObjectV::Integer(x), ObjectV::Integer(y)) => ev_int_infix(op, x, y),
            _ => match op {
                Infix::EQ => Ok(ObjectV::Boolean(obj_eq_v(l, r))),
                Infix::NOT_EQ => Ok(ObjectV::Boolean(!obj_eq_v(l, r))),
                _ => Err(ErrV::UnknownInfixOperator {
                    left: type_of_v(l),
                    op,
                    right: type_of_v(r),
                }),
            },
        }
    }
}

/// Binds parameters to arguments positionally: pairs beyond the shorter
/// list are dropped, so extra arguments are ignored and missing
/// parameters stay unbound.
pub open spec fn bind_params(
    ps: Seq<Seq<char>>,
    args: Seq<ObjectV>,
    m: Map<Seq<char>, ObjectV>,
) -> Map<Seq<char>, ObjectV>
    decreases ps.len(),
{
    if ps.len() == 0 || args.len() == 0 {
        m
    } else {
        bind_params(ps.drop_first(), args.drop_first(), m.insert(ps[0], args[0]))
    }
}

/// Evaluation of a whole program: statements run in order; an error
/// stops evaluation; a return wrapper stops evaluation and is stripped,
/// its inner value becoming the program's result. An empty program
/// yields null, otherwise the last statement's value.
pub open spec fn ev_program(ss: Seq<StmtV>, env: EnvV, fuel: nat) -> (Result<ObjectV, ErrV>, EnvV)
    decreases fuel, ssizes(ss), ss.len(), 1nat,
{
    if ss.len() == 0 {
        (Ok(ObjectV::Null), env)
    } else {
        let (r0, env0) = ev_stmt(ss[0], env, fuel);
        match r0 {
            Err(e) => (Err(e), env0),
            Ok(v) => match v {
                ObjectV::ReturnValue(inner) => (Ok(*inner), env0),
                _ => if ss.len() == 1 {
                    (Ok(v), env0)
                } else {
                    ev_program(ss.drop_first(), env0, fuel)
                },
            },
        }
    }
}

/// Evaluation of a block: like a program, except that a return wrapper
/// propagates still wrapped, so enclosing blocks also stop early.
pub open spec fn ev_block(ss: Seq<StmtV>, env: EnvV, fuel: nat) -> (Result<ObjectV, ErrV>, EnvV)
    decreases fuel, ssizes(ss), ss.len(), 1nat,
{
    if ss.len() == 0 {
        (Ok(ObjectV::Null), env)
    } else {
        let (r0, env0) = ev_stmt(ss[0], env, fuel);
        match r0 {
            Err(e) => (Err(e), env0),
            Ok(v) => match v {
                ObjectV::ReturnValue(_) => (Ok(v), env0),
                _ => if ss.len() == 1 {
                    (Ok(v), env0)
                } else {
                    ev_block(ss.drop_first(), env0, fuel)
                },
            },
        }
    }
}

/// A `return`'s result: the value behind the control-flow wrapper. A
/// value that already carries the wrapper — a `return` of an `if` whose
/// taken branch returned — passes unchanged, so the wrapper never nests.
pub open spec fn wrap_return(v: ObjectV) -> ObjectV {
    if v is ReturnValue {
        v
    } else {
        ObjectV::ReturnValue(Box::new(v))
    }
}

/// Evaluation of one statement. A `let` binds its value in the innermost
/// frame and yields the value; a `return` wraps its value in the return
/// marker, never nesting it; a block runs its statements.
pub open spec fn ev_stmt(s: StmtV, env: EnvV, fuel: nat) -> (Result<ObjectV, ErrV>, EnvV)
    decreases fuel, ssize(s), 0nat, 1nat,
{
    match s {
        StmtV::Let { name, value } => {
            let (r, env1) = ev_expr(value, env, fuel);
            match r {
                Err(e) => (Err(e), env1),
                Ok(v) => (
                    Ok(v),
                    EnvV { bindings: env1.bindings.insert(name, v), outer: env1.outer },
                ),
            }
        },
        StmtV::Return(value) => {
            let (r, env1) = ev_expr(value, env, fuel);
            match r {
                Err(e) => (Err(e), env1),
                Ok(v) => (Ok(wrap_return(v)), env1),
            }
        },
        StmtV::Block(ss) => ev_block(ss, env, fuel),
        StmtV::Expr(e) => ev_expr(e, env, fuel),
    }
}

/// Evaluation of one expression.
pub open spec fn ev_expr(e: ExprV, env: EnvV, fuel: nat) -> (Result<ObjectV, ErrV>, EnvV)
    decreases fuel, esize(e), 0nat, 1nat,
{
    match e {
        ExprV::Ident(name) => (
            match env_lookup(env, name) {
                Some(v) => Ok(v),
                None => Err(ErrV::IdentifierNotFound(name)),
            },
            env,
        ),
        ExprV::Int(i) => (Ok(ObjectV::Integer(i)), env),
        ExprV::Bool(b) => (Ok(ObjectV::Boolean(b)), env),
        ExprV::Prefix(op, right) => {
            let (r, env1) = ev_expr(*right, env, fuel);
            match r {
                Err(e2) => (Err(e2), env1),
                Ok(v) => (ev_prefix(op, v), env1),
            }
        },
        ExprV::Infix(op, left, right) => {
            let (rl, env1) = ev_expr(*left, env, fuel);
            match rl {
                Err(e2) => (Err(e2), env1),
                Ok(lv) => {
                    let (rr, env2) = ev_expr(*right, env1, fuel);
                    match rr {
                        Err(e2) => (Err(e2), env2),
                        Ok(rv) => (ev_infix(op, lv, rv), env2),
                    }
                },
            }
        },
        ExprV::If { condition, consequence, alternative } => {
            let (rc, env1) = ev_expr(*condition, env, fuel);
            match rc {
                Err(e2) => (Err(e2), env1),
                Ok(cv) => if truthy(cv) {
                    ev_stmt(*consequence, env1, fuel)
                } else {
                    match alternative {
                        Some(a) => ev_stmt(*a, env1, fuel),
                        None => (Ok(ObjectV::Null), env1),
                    }
                },
            }
        },
        ExprV::Function { parameters, body } => (
            Ok(ObjectV::Function { parameters, body: *body, env: Box::new(env) }),
            env,
        ),
        ExprV::Call { function, arguments } => {
            let (rf, env1) = ev_expr(*function, env, fuel);
            match rf {
                Err(e2) => (Err(e2), env1),
                Ok(fv) => {
                    let (ra, env2) = ev_exprs(arguments, env1, fuel);
                    match ra {
                        Err(e2) => (Err(e2), env2),
                        Ok(avs) => (ev_apply(fv, avs, fuel), env2),
                    }
                },
            }
        },
    }
}

/// Evaluation of an expression list, left to right; the first error
/// stops evaluation and the remaining expressions are not evaluated.
pub open spec fn ev_exprs(es: Seq<ExprV>, env: EnvV, fuel: nat) -> (
    Result<Seq<ObjectV>, ErrV>,
    EnvV,
)
    decreases fuel, esizes(es), es.len(), 1nat,
{
    if es.len() == 0 {
        (Ok(Seq::empty()), env)
    } else {
        let (r, env1) = ev_expr(es[0], env, fuel);
        match r {
            Err(e) => (Err(e), env1),
            Ok(v) => {
                let (rest, env2) = ev_exprs(es.drop_first(), env1, fuel);
                match rest {
                    Err(e) => (Err(e), env2),
                    Ok(vs) => (Ok(seq![v] + vs), env2),
                }
            },
        }
    }
}

/// Application of a value to arguments. A non-function callee is an
/// error. Otherwise the body runs, with one unit of call depth consumed,
/// in a fresh frame over the function's captured environment — not the
/// caller's — with parameters bound positionally; a return wrapper on
/// the body's result is stripped.
pub open spec fn ev_apply(f: ObjectV, args: Seq<ObjectV>, fuel: nat) -> Result<ObjectV, ErrV>
    decreases fuel, 0nat, 0nat, 0nat,
{
    if fuel == 0 {
        Err(ErrV::CallDepthExceeded)
    } else {
        match f {
            ObjectV::Function { parameters, body, env } => {
                let callee_env = EnvV {
                    bindings: bind_params(parameters, args, Map::empty()),
                    outer: Some(env),
                };
                let (r, _) = ev_stmt(body, callee_env, (fuel - 1) as nat);
                match r {
                    Err(e) => Err(e),
                    Ok(v) => match v {
                        ObjectV::ReturnValue(inner) => Ok(*inner),
                        _ => Ok(v),
                    },
                }
            },
            _ => Err(ErrV::NotAFunction(f)),
        }
    }
}

/// The views of a sequence of shared values.
pub open spec fn objs_view(vs: Seq<Rc<Object>>) -> Seq<ObjectV> {
    vs.map_values(|o: Rc<Object>| obj_view(*o))
}

/// Each statement's size is bounded by its sequence's total size.
pub proof fn lemma_ssizes_index(ss: Seq<StmtV>, i: int)
    requires
        0 <= i < ss.len(),
    ensures
        ssize(ss[i]) <= ssizes(ss),
    decreases i,
{
    if i > 0 {
        lemma_ssizes_index(ss.drop_first(), i - 1);
    }
}

/// Each expression's size is bounded by its sequence's total size.
pub proof fn lemma_esizes_index(es: Seq<ExprV>, i: int)
    requires
        0 <= i < es.len(),
    ensures
        esize(es[i]) <= esizes(es),
    decreases i,
{
    if i > 0 {
        lemma_esizes_index(es.drop_first(), i - 1);
    }
}

/// Evaluates a program under `env`, with the default call-depth budget.
/// The statements run in order; the result is the last statement's value,
/// null for an empty program, the stripped inner value of the first
/// `return`, or the first evaluation error. Under an environment whose
/// values hold no nested return wrapper — a fresh environment does, and
/// evaluation keeps it so — a successful result is never the internal
/// return wrapper.
pub fn eval(program: Program, env: &mut Environment) -> (r: Result<Rc<Object>, EvalError>)
    ensures
        ({
            let (rv, envv) = ev_program(program@, old(env)@, CALL_DEPTH_LIMIT as nat);
            final(env)@ == envv && (match (r, rv) {
                (Ok(o), Ok(v)) => o@ == v,
                (Err(e), Err(ev)) => e@ == ev,
                _ => false,
            })
        }),
        env_no_nested(old(env)@) ==> env_no_nested(final(env)@) && (r matches Ok(o) ==> !(o@
            is ReturnValue) && no_nested_return(o@)),
{
    proof {
        if env_no_nested(env@) {
            lemma_no_return_leak(program@, env@, CALL_DEPTH_LIMIT as nat);
        }
    }
    eval_statements(&program.statements, env, CALL_DEPTH_LIMIT)
}

/// Runs a program's statements in order, stripping a return wrapper.
fn eval_statements(statements: &Vec<Statement>, env: &mut Environment, fuel: u64) -> (r: Result<
    Rc<Object>,
    EvalError,
>)
    ensures
        ({
            let (rv, envv) = ev_program(stmts_view(statements@), old(env)@, fuel as nat);
            final(env)@ == envv && (match (r, rv) {
                (Ok(o), Ok(v)) => o@ == v,
                (Err(e), Err(ev)) => e@ == ev,
                _ => false,
            })
        }),
{
    let ghost svs = stmts_view(statements@);
    let ghost env0 = old(env)@;
    let mut result: Rc<Object> = Rc::new(Object::Null);
    let mut i: usize = 0;
    proof {
        crate::ast::lemma_stmts_view_len(statements@);
        assert(svs.skip(0) =~= svs);
    }
    while i < statements.len()
        invariant
            0 <= i <= statements@.len(),
            svs == stmts_view(statements@),
            env0 == old(env)@,
            svs.len() == statements@.len(),
            i < statements@.len() ==> ev_program(svs, env0, fuel as nat) == ev_program(
                svs.skip(i as int),
                env@,
                fuel as nat,
            ),
            i == statements@.len() ==> ev_program(svs, env0, fuel as nat) == (
                Ok::<ObjectV, ErrV>(obj_view(*result)),
                env@,
            ),
        decreases statements@.len() - i,
    {
        let ghost pre_env = env@;
        proof {
            lemma_stmts_view_index(statements@, i as int);
            lemma_ssizes_index(svs, i as int);
            assert(svs.skip(i as int)[0] == svs[i as int]);
            assert(svs.skip(i as int).drop_first() =~= svs.skip(i as int + 1));
            assert(svs.skip(i as int).len() == svs.len() - i);
        }
        match eval_statement(&statements[i], env, fuel) {
            Err(e) => {
                proof {
                    assert(ev_stmt(svs[i as int], pre_env, fuel as nat) == (
                        Err::<ObjectV, ErrV>(e@),
                        env@,
                    ));
                    assert(ev_program(svs.skip(i as int), pre_env, fuel as nat) == (
                        Err::<ObjectV, ErrV>(e@),
                        env@,
                    ));
                }
                return Err(e);
            },
            Ok(obj) => {
                proof {
                    assert(ev_stmt(svs[i as int], pre_env, fuel as nat) == (
                        Ok::<ObjectV, ErrV>(obj@),
                        env@,
                    ));
                }
                match rc_as_ref(&obj) {
                    Object::ReturnValue(value) => {
                        proof {
                            assert(ev_program(svs.skip(i as int), pre_env, fuel as nat) == (
                                Ok::<ObjectV, ErrV>(obj_view(**value)),
                                env@,
                            ));
                        }
                        return Ok(rc_clone(value));
                    },
                    _ => {
                        proof {
                            if i + 1 == statements@.len() {
                                assert(ev_program(svs.skip(i as int), pre_env, fuel as nat) == (
                                    Ok::<ObjectV, ErrV>(obj@),
                                    env@,
                                ));
                            } else {
                                assert(ev_program(svs.skip(i as int), pre_env, fuel as nat)
                                    == ev_program(svs.skip(i as int + 1), env@, fuel as nat));
                            }
                        }
                        result = obj;
                    },
                }
            },
        }
        i += 1;
    }
    Ok(result)
}

/// Runs a block's statements in order; a return wrapper propagates still
/// wrapped, so enclosing blocks also stop early.
fn eval_block_statement(statements: &Vec<Statement>, env: &mut Environment, fuel: u64) -> (r:
    Result<Rc<Object>, EvalError>)
    ensures
        ({
            let (rv, envv) = ev_block(stmts_view(statements@), old(env)@, fuel as nat);
            final(env)@ == envv && (match (r, rv) {
                (Ok(o), Ok(v)) => o@ == v,
                (Err(e), Err(ev)) => e@ == ev,
                _ => false,
            })
        }),
    decreases fuel, ssizes(stmts_view(statements@)), stmts_view(statements@).len(), 2nat,
{
    let ghost svs = stmts_view(statements@);
    let ghost env0 = old(env)@;
    let mut result: Rc<Object> = Rc::new(Object::Null);
    let mut i: usize = 0;
    proof {
        crate::ast::lemma_stmts_view_len(statements@);
        assert(svs.skip(0) =~= svs);
    }
    while i < statements.len()
        invariant
            0 <= i <= statements@.len(),
            svs == stmts_view(statements@),
            env0 == old(env)@,
            svs.len() == statements@.len(),
            i < statements@.len() ==> ev_block(svs, env0, fuel as nat) == ev_block(
                svs.skip(i as int),
                env@,
                fuel as nat,
            ),
            i == statements@.len() ==> ev_block(svs, env0, fuel as nat) == (
                Ok::<ObjectV, ErrV>(obj_view(*result)),
                env@,
            ),
        decreases statements@.len() - i,
    {
        let ghost pre_env = env@;
        proof {
            lemma_stmts_view_index(statements@, i as int);
            lemma_ssizes_index(svs, i as int);
            assert(svs.skip(i as int)[0] == svs[i as int]);
            assert(svs.skip(i as int).drop_first() =~= svs.skip(i as int + 1));
            assert(svs.skip(i as int).len() == svs.len() - i);
        }
        match eval_statement(&statements[i], env, fuel) {
            Err(e) => {
                proof {
                    assert(ev_stmt(svs[i as int], pre_env, fuel as nat) == (
                        Err::<ObjectV, ErrV>(e@),
                        env@,
                    ));
                    assert(ev_block(svs.skip(i as int), pre_env, fuel as nat) == (
                        Err::<ObjectV, ErrV>(e@),
                        env@,
                    ));
                }
                return Err(e);
            },
            Ok(obj) => {
                proof {
                    assert(ev_stmt(svs[i as int], pre_env, fuel as nat) == (
                        Ok::<ObjectV, ErrV>(obj@),
                        env@,
                    ));
                }
                let is_return = matches!(rc_as_ref(&obj), Object::ReturnValue(_));
                if is_return {
                    proof {
                        assert(ev_block(svs.skip(i as int), pre_env, fuel as nat) == (
                            Ok::<ObjectV, ErrV>(obj@),
                            env@,
                        ));
                    }
                    return Ok(obj);
                }
                proof {
                    if i + 1 == statements@.len() {
                        assert(ev_block(svs.skip(i as int), pre_env, fuel as nat) == (
                            Ok::<ObjectV, ErrV>(obj@),
                            env@,
                        ));
                    } else {
                        assert(ev_block(svs.skip(i as int), pre_env, fuel as nat) == ev_block(
                            svs.skip(i as int + 1),
                            env@,
                            fuel as nat,
                        ));
                    }
                }
                result = obj;
            },
        }
        i += 1;
    }
    Ok(result)
}

/// Evaluates one statement.
fn eval_statement(statement: &Statement, env: &mut Environment, fuel: u64) -> (r: Result<
    Rc<Object>,
    EvalError,
>)
    ensures
        ({
            let (rv, envv) = ev_stmt(statement@, old(env)@, fuel as nat);
            final(env)@ == envv && (match (r, rv) {
                (Ok(o), Ok(v)) => o@ == v,
                (Err(e), Err(ev)) => e@ == ev,
                _ => false,
            })
        }),
    decreases fuel, ssize(statement@), 0nat, 1nat,
{
    match statement {
        Statement::LetStatement { name, value } => {
            match eval_expression(value, env, fuel) {
                Err(e) => Err(e),
                Ok(obj) => {
                    env.set(name.as_str(), rc_clone(&obj));
                    Ok(obj)
                },
            }
        },
        Statement::ExpressionStatement(expression) => eval_expression(expression, env, fuel),
        Statement::BlockStatement(statements) => eval_block_statement(statements, env, fuel),
        Statement::ReturnStatement(value) => {
            match eval_expression(value, env, fuel) {
                Err(e) => Err(e),
                Ok(obj) => {
                    let already_wrapped = matches!(rc_as_ref(&obj), Object::ReturnValue(_));
                    if already_wrapped {
                        Ok(obj)
                    } else {
                        Ok(Rc::new(Object::ReturnValue(obj)))
                    }
                },
            }
        },
    }
}

/// Evaluates one expression.
fn eval_expression(expression: &Expression, env: &mut Environment, fuel: u64) -> (r: Result<
    Rc<Object>,
    EvalError,
>)
    ensures
        ({
            let (rv, envv) = ev_expr(expression@, old(env)@, fuel as nat);
            final(env)@ == envv && (match (r, rv) {
                (Ok(o), Ok(v)) => o@ == v,
                (Err(e), Err(ev)) => e@ == ev,
                _ => false,
            })
        }),
    decreases fuel, esize(expression@), 0nat, 1nat,
{
    match expression {
        Expression::IntegerLiteral(value) => Ok(Rc::new(Object::Integer(*value))),
        Expression::BooleanLiteral(value) => Ok(Rc::new(Object::Boolean(*value))),
        Expression::Prefix(operator, right) => {
            match eval_expression(right, env, fuel) {
                Err(e) => Err(e),
                Ok(right_val) => eval_prefix_expression(operator, right_val),
            }
        },
        Expression::Infix(operator, left, right) => {
            match eval_expression(left, env, fuel) {
                Err(e) => Err(e),
                Ok(left_val) => {
                    match eval_expression(right, env, fuel) {
                        Err(e) => Err(e),
                        Ok(right_val) => eval_infix_expression(
                            operator,
                            rc_as_ref(&left_val),
                            rc_as_ref(&right_val),
                        ),
                    }
                },
            }
        },
        Expression::If { condition, consequence, alternative } => {
            match eval_expression(condition, env, fuel) {
                Err(e) => Err(e),
                Ok(cond) => {
                    if rc_as_ref(&cond).is_truthy() {
                        eval_statement(consequence, env, fuel)
                    } else {
                        match alternative {
                            Some(alt) => eval_statement(alt, env, fuel),
                            None => Ok(Rc::new(Object::Null)),
                        }
                    }
                },
            }
        },
        Expression::Identifier(name) => {
            match env.get(name.as_str()) {
                Some(value) => Ok(value),
                None => Err(EvalError::IdentifierNotFound(name.clone())),
            }
        },
        Expression::FunctionLiteral { parameters, body } => {
            let func = Function {
                parameters: dup_params(parameters),
                body: body.dup(),
                env: env.duplicate(),
            };
            Ok(Rc::new(Object::Function(func)))
        },
        Expression::Call { function, arguments } => {
            match eval_expression(function, env, fuel) {
                Err(e) => Err(e),
                Ok(func) => {
                    match eval_expressions(arguments, env, fuel) {
                        Err(e) => Err(e),
                        Ok(args) => apply_function(func, args, fuel),
                    }
                },
            }
        },
    }
}

/// Evaluates an argument list left to right; the first error stops
/// evaluation.
fn eval_expressions(expressions: &Vec<Expression>, env: &mut Environment, fuel: u64) -> (r: Result<
    Vec<Rc<Object>>,
    EvalError,
>)
    ensures
        ({
            let (rv, envv) = ev_exprs(exprs_view(expressions@), old(env)@, fuel as nat);
            final(env)@ == envv && (match (r, rv) {
                (Ok(vs), Ok(ovs)) => objs_view(vs@) == ovs,
                (Err(e), Err(ev)) => e@ == ev,
                _ => false,
            })
        }),
    decreases fuel, esizes(exprs_view(expressions@)), exprs_view(expressions@).len(), 2nat,
{
    let ghost evs = exprs_view(expressions@);
    let ghost env0 = old(env)@;
    let mut result: Vec<Rc<Object>> = Vec::new();
    let mut i: usize = 0;
    proof {
        crate::ast::lemma_exprs_view_len(expressions@);
        assert(evs.skip(0) =~= evs);
        assert(objs_view(result@) =~= Seq::<ObjectV>::empty());
    }
    while i < expressions.len()
        invariant
            0 <= i <= expressions@.len(),
            evs == exprs_view(expressions@),
            env0 == old(env)@,
            evs.len() == expressions@.len(),
            result@.len() == i,
            ({
                let (rv, envv) = ev_exprs(evs, env0, fuel as nat);
                let (rrest, renv) = ev_exprs(evs.skip(i as int), env@, fuel as nat);
                match rrest {
                    Ok(rest) => rv == Ok::<Seq<ObjectV>, ErrV>(objs_view(result@) + rest) && envv
                        == renv,
                    Err(e) => rv == Err::<Seq<ObjectV>, ErrV>(e) && envv == renv,
                }
            }),
        decreases expressions@.len() - i,
    {
        proof {
            lemma_exprs_view_index(expressions@, i as int);
            lemma_esizes_index(evs, i as int);
            assert(evs.skip(i as int)[0] == evs[i as int]);
            assert(evs.skip(i as int).drop_first() =~= evs.skip(i as int + 1));
            assert(evs.skip(i as int).len() == evs.len() - i);
        }
        let ghost pre_env = env@;
        match eval_expression(&expressions[i], env, fuel) {
            Err(e) => {
                proof {
                    assert(ev_expr(evs[i as int], pre_env, fuel as nat) == (
                        Err::<ObjectV, ErrV>(e@),
                        env@,
                    ));
                    assert(ev_exprs(evs.skip(i as int), pre_env, fuel as nat) == (
                        Err::<Seq<ObjectV>, ErrV>(e@),
                        env@,
                    ));
                }
                return Err(e);
            },
            Ok(evaluated) => {
                proof {
                    assert(ev_expr(evs[i as int], pre_env, fuel as nat) == (
                        Ok::<ObjectV, ErrV>(evaluated@),
                        env@,
                    ));
                }
                let ghost prefix = result@;
                result.push(evaluated);
                proof {
                    assert(result@.drop_last() =~= prefix);
                    assert(objs_view(result@) =~= objs_view(prefix).push(obj_view(*result@.last())));
                    assert(forall|rest: Seq<ObjectV>|
                        objs_view(result@) + rest =~= objs_view(prefix) + (seq![
                            obj_view(*result@.last()),
                        ] + rest));
                }
            },
        }
        i += 1;
    }
    proof {
        assert(evs.skip(evs.len() as int) =~= Seq::<ExprV>::empty());
        assert(objs_view(result@) + Seq::<ObjectV>::empty() =~= objs_view(result@));
    }
    Ok(result)
}

/// Applies a function value to arguments: one unit of call depth is
/// consumed, the body runs in a fresh frame over the function's captured
/// environment with parameters bound positionally, and a return wrapper
/// on the result is stripped. A non-function callee is an error.
fn apply_function(func: Rc<Object>, args: Vec<Rc<Object>>, fuel: u64) -> (r: Result<
    Rc<Object>,
    EvalError,
>)
    ensures
        match (r, ev_apply(func@, objs_view(args@), fuel as nat)) {
            (Ok(o), Ok(v)) => o@ == v,
            (Err(e), Err(ev)) => e@ == ev,
            _ => false,
        },
    decreases fuel, 0nat, 0nat, 0nat,
{
    if fuel == 0 {
        return Err(EvalError::CallDepthExceeded);
    }
    match rc_as_ref(&func) {
        Object::Function(function) => {
            let mut extended_env = Environment::new_enclosed(Rc::new(function.env.duplicate()));
            let ghost pviews = params_view(function.parameters@);
            let ghost aviews = objs_view(args@);
            proof {
                assert(pviews.skip(0) =~= pviews);
                assert(aviews.skip(0) =~= aviews);
            }
            let mut i: usize = 0;
            while i < function.parameters.len() && i < args.len()
                invariant
                    0 <= i <= pviews.len(),
                    0 <= i <= aviews.len(),
                    pviews == params_view(function.parameters@),
                    aviews == objs_view(args@),
                    pviews.len() == function.parameters@.len(),
                    aviews.len() == args@.len(),
                    extended_env@.outer == Some(Box::new(function.env@)),
                    bind_params(pviews, aviews, Map::empty()) == bind_params(
                        pviews.skip(i as int),
                        aviews.skip(i as int),
                        extended_env@.bindings,
                    ),
                decreases pviews.len() - i,
            {
                proof {
                    assert(pviews.skip(i as int)[0] == pviews[i as int]);
                    assert(aviews.skip(i as int)[0] == aviews[i as int]);
                    assert(pviews.skip(i as int).drop_first() =~= pviews.skip(i as int + 1));
                    assert(aviews.skip(i as int).drop_first() =~= aviews.skip(i as int + 1));
                    assert(pviews[i as int] == function.parameters@[i as int]@);
                    assert(aviews[i as int] == obj_view(*args@[i as int]));
                }
                extended_env.set(function.parameters[i].as_str(), rc_clone(&args[i]));
                i += 1;
            }
            proof {
                if i < pviews.len() {
                    assert(aviews.skip(i as int).len() == 0);
                } else {
                    assert(pviews.skip(i as int).len() == 0);
                }
            }
            match eval_statement(&function.body, &mut extended_env, fuel - 1) {
                Err(e) => Err(e),
                Ok(evaluated) => {
                    match rc_as_ref(&evaluated) {
                        Object::ReturnValue(value) => Ok(rc_clone(value)),
                        _ => Ok(rc_clone(&evaluated)),
                    }
                },
            }
        },
        _ => Err(EvalError::NotAFunction(rc_clone(&func))),
    }
}

/// Applies a prefix operator to a value.
fn eval_prefix_expression(operator: &Prefix, right: Rc<Object>) -> (r: Result<
    Rc<Object>,
    EvalError,
>)
    ensures
        match (r, ev_prefix(*operator, right@)) {
            (Ok(o), Ok(v)) => o@ == v,
            (Err(e), Err(ev)) => e@ == ev,
            _ => false,
        },
{
    match operator {
        Prefix::BANG => Ok(eval_bang_operator_expression(right)),
        Prefix::MINUS => eval_minus_prefix_operator_expression(right),
    }
}

/// The `!` operator always yields a boolean: the negation of the
/// operand's truthiness.
fn eval_bang_operator_expression(right: Rc<Object>) -> (r: Rc<Object>)
    ensures
        r@ == ObjectV::Boolean(bang_v(right@)),
        r@ == ObjectV::Boolean(!truthy(right@)),
{
    match rc_as_ref(&right) {
        Object::Boolean(value) => Rc::new(Object::Boolean(!*value)),
        Object::Null => Rc::new(Object::Boolean(true)),
        _ => Rc::new(Object::Boolean(false)),
    }
}

/// The `-` operator: negates an integer, wrapping on the most negative
/// value; any other operand is an error.
fn eval_minus_prefix_operator_expression(right: Rc<Object>) -> (r: Result<Rc<Object>, EvalError>)
    ensures
        match (r, ev_prefix(Prefix::MINUS, right@)) {
            (Ok(o), Ok(v)) => o@ == v,
            (Err(e), Err(ev)) => e@ == ev,
            _ => false,
        },
{
    match rc_as_ref(&right) {
        Object::Integer(value) => {
            let negated: isize = if *value == isize::MIN {
                isize::MIN
            } else {
                -*value
            };
            Ok(Rc::new(Object::Integer(negated)))
        },
        _ => Err(EvalError::UnknownPrefixOperator {
            prefix: Prefix::MINUS,
            right: rc_as_ref(&right).type_of(),
        }),
    }
}

/// Applies an infix operator to two values. On two integers or two
/// booleans, `==` and `!=` agree with structural equality of the values.
fn eval_infix_expression(operator: &Infix, left: &Object, right: &Object) -> (r: Result<
    Rc<Object>,
    EvalError,
>)
    ensures
        match (r, ev_infix(*operator, left@, right@)) {
            (Ok(o), Ok(v)) => o@ == v,
            (Err(e), Err(ev)) => e@ == ev,
            _ => false,
        },
        ((left@ is Integer && right@ is Integer) || (left@ is Boolean && right@ is Boolean))
            ==> (*operator == Infix::EQ ==> (r matches Ok(o) && o@ == ObjectV::Boolean(
            left@ == right@,
        ))) && (*operator == Infix::NOT_EQ ==> (r matches Ok(o) && o@ == ObjectV::Boolean(
            left@ != right@,
        ))),
{
    proof {
        if (left@ is Integer && right@ is Integer) || (left@ is Boolean && right@ is Boolean) {
            if *operator == Infix::EQ || *operator == Infix::NOT_EQ {
                lemma_equality_structural(*operator, left@, right@);
            }
        }
    }
    let left_type = left.type_of();
    let right_type = right.type_of();
    if left_type != right_type {
        return Err(EvalError::TypeMismatch { left: left_type, op: *operator, right: right_type });
    }
    match (left, right) {
        (Object::Integer(x), Object::Integer(y)) => eval_integer_infix_expression(
            operator,
            *x,
            *y,
        ),
        _ => match operator {
            Infix::EQ => Ok(Rc::new(Object::Boolean(obj_eq(left, right)))),
            Infix::NOT_EQ => Ok(Rc::new(Object::Boolean(!obj_eq(left, right)))),
            _ => Err(EvalError::UnknownInfixOperator {
                left: left_type,
                op: *operator,
                right: right_type,
            }),
        },
    }
}

/// Applies an infix operator to two integers: arithmetic wraps on
/// overflow, division by zero is an error, comparisons yield booleans.
fn eval_integer_infix_expression(operator: &Infix, left: isize, right: isize) -> (r: Result<
    Rc<Object>,
    EvalError,
>)
    ensures
        match (r, ev_int_infix(*operator, left, right)) {
            (Ok(o), Ok(v)) => o@ == v,
            (Err(e), Err(ev)) => e@ == ev,
            _ => false,
        },
{
    match operator {
        Infix::PLUS => Ok(Rc::new(Object::Integer(left.wrapping_add(right)))),
        Infix::MINUS => Ok(Rc::new(Object::Integer(left.wrapping_sub(right)))),
        Infix::ASTERISK => Ok(Rc::new(Object::Integer(left.wrapping_mul(right)))),
        Infix::SLASH => {
            if right == 0 {
                Err(EvalError::DivisionByZero)
            } else {
                let quotient: isize = match left.checked_div(right) {
                    Some(q) => q,
                    None => isize::MIN,
                };
                Ok(Rc::new(Object::Integer(quotient)))
            }
        },
        Infix::LT => Ok(Rc::new(Object::Boolean(left < right))),
        Infix::GT => Ok(Rc::new(Object::Boolean(left > right))),
        Infix::EQ => Ok(Rc::new(Object::Boolean(left == right))),
        Infix::NOT_EQ => Ok(Rc::new(Object::Boolean(left != right))),
    }
}

} // verus!
