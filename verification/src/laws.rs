//! General laws of the interpreter, stated over the models and proved
//! once for all inputs: evaluation laws, the shape invariant that keeps
//! the internal return wrapper from leaking, and the re-lexing identity
//! of rendered leaf tokens.

use vstd::arithmetic::div_mod::{lemma_mod_multiples_vanish, lemma_small_mod};
use vstd::prelude::*;

use crate::ast::{ExprV, Infix, Prefix, StmtV};
use crate::evaluator::{
    bang_v, bind_params, div_wrap, esize, esizes, ev_apply, ev_block, ev_expr, ev_exprs, ev_infix,
    ev_int_infix, ev_prefix, ev_program, ev_stmt, lemma_esizes_index, lemma_ssizes_index, neg_wrap,
    ssize, ssizes, wrap_return,
};
use crate::lexer::{
    digit_end, digits_value, ident_end, is_digit_char, is_letter_char, is_ws_char, lex_all_from,
    next_token_v, skip_ws,
};
use crate::object::{env_lookup, env_no_nested, no_nested_return, truthy, EnvV, ErrV, ObjectV};
use crate::text::{digit_char, int_text, nat_text};
use crate::token::{lookup_ident_v, TokenV};

verus! {

/// Applying `!` to any value yields a boolean, and applying it twice
/// yields the value's truthiness: `!!v` is `true` exactly on the values
/// an `if` condition accepts.
pub proof fn lemma_double_bang(v: ObjectV)
    ensures
        ev_prefix(Prefix::BANG, v) == Ok::<ObjectV, ErrV>(ObjectV::Boolean(bang_v(v))),
        ev_prefix(Prefix::BANG, ObjectV::Boolean(bang_v(v))) == Ok::<ObjectV, ErrV>(
            ObjectV::Boolean(truthy(v)),
        ),
{
}

/// On two integers or two booleans, `==` and `!=` agree with structural
/// equality of the values.
pub proof fn lemma_equality_structural(op: Infix, a: ObjectV, b: ObjectV)
    requires
        op == Infix::EQ || op == Infix::NOT_EQ,
        (a is Integer && b is Integer) || (a is Boolean && b is Boolean),
    ensures
        op == Infix::EQ ==> ev_infix(op, a, b) == Ok::<ObjectV, ErrV>(ObjectV::Boolean(a == b)),
        op == Infix::NOT_EQ ==> ev_infix(op, a, b) == Ok::<ObjectV, ErrV>(ObjectV::Boolean(a != b)),
{
}

/// An `if` whose condition evaluated selects its branch by the condition
/// value's truthiness: everything but `false` and `null` — the integer
/// zero included — runs the consequence, and without an alternative the
/// false case yields null.
pub proof fn lemma_if_selects_by_truthiness(
    cond: ExprV,
    cons: StmtV,
    alt: Option<Box<StmtV>>,
    env: EnvV,
    fuel: nat,
)
    ensures
        ({
            let e = ExprV::If {
                condition: Box::new(cond),
                consequence: Box::new(cons),
                alternative: alt,
            };
            let (rc, env1) = ev_expr(cond, env, fuel);
            match rc {
                Ok(cv) => ev_expr(e, env, fuel) == (if truthy(cv) {
                    ev_stmt(cons, env1, fuel)
                } else {
                    match alt {
                        Some(a) => ev_stmt(*a, env1, fuel),
                        None => (Ok::<ObjectV, ErrV>(ObjectV::Null), env1),
                    }
                }),
                Err(err) => ev_expr(e, env, fuel) == (Err::<ObjectV, ErrV>(err), env1),
            }
        }),
        truthy(ObjectV::Integer(0)),
{
    let e = ExprV::If {
        condition: Box::new(cond),
        consequence: Box::new(cons),
        alternative: alt,
    };
    assert(esize(e) > esize(cond));
}

/// The internal return wrapper never leaks: evaluating a program under
/// an environment whose values hold no nested wrapper yields, on
/// success, a value that is not a return wrapper and holds none inside,
/// and leaves the environment in the same shape — so the guarantee
/// carries from one evaluation to the next over a shared environment.
pub proof fn lemma_no_return_leak(ss: Seq<StmtV>, env: EnvV, fuel: nat)
    requires
        env_no_nested(env),
    ensures
        ({
            let (r, envv) = ev_program(ss, env, fuel);
            env_no_nested(envv) && (r matches Ok(v) ==> no_nested_return(v) && !(v
                is ReturnValue))
        }),
    decreases fuel, ssizes(ss), ss.len(), 2nat,
{
    if ss.len() > 0 {
        lemma_ssizes_index(ss, 0);
        lemma_wf_stmt(ss[0], env, fuel);
        let (r0, env0) = ev_stmt(ss[0], env, fuel);
        match r0 {
            Err(_) => {},
            Ok(v) => {
                if !(v is ReturnValue) && ss.len() > 1 {
                    lemma_no_return_leak(ss.drop_first(), env0, fuel);
                }
            },
        }
    }
}

/// A block's successful result under a well-shaped environment is well
/// shaped, and the environment stays well shaped.
proof fn lemma_wf_block(ss: Seq<StmtV>, env: EnvV, fuel: nat)
    requires
        env_no_nested(env),
    ensures
        ({
            let (r, envv) = ev_block(ss, env, fuel);
            env_no_nested(envv) && (r matches Ok(v) ==> no_nested_return(v))
        }),
    decreases fuel, ssizes(ss), ss.len(), 2nat,
{
    if ss.len() > 0 {
        lemma_ssizes_index(ss, 0);
        lemma_wf_stmt(ss[0], env, fuel);
        let (r0, env0) = ev_stmt(ss[0], env, fuel);
        match r0 {
            Err(_) => {},
            Ok(v) => {
                if !(v is ReturnValue) && ss.len() > 1 {
                    lemma_wf_block(ss.drop_first(), env0, fuel);
                }
            },
        }
    }
}

/// A statement's successful result under a well-shaped environment is
/// well shaped, and the environment stays well shaped.
proof fn lemma_wf_stmt(s: StmtV, env: EnvV, fuel: nat)
    requires
        env_no_nested(env),
    ensures
        ({
            let (r, envv) = ev_stmt(s, env, fuel);
            env_no_nested(envv) && (r matches Ok(v) ==> no_nested_return(v))
        }),
    decreases fuel, ssize(s), 0nat, 2nat,
{
    match s {
        StmtV::Let { name, value } => {
            lemma_wf_expr(value, env, fuel);
            let (r, env1) = ev_expr(value, env, fuel);
            match r {
                Err(_) => {},
                Ok(v) => {
                    let env2 = EnvV { bindings: env1.bindings.insert(name, v), outer: env1.outer };
                    assert forall|k: Seq<char>| #[trigger]
                        env2.bindings.contains_key(k) implies no_nested_return(
                        env2.bindings[k],
                    ) by {
                        if k != name {
                            assert(env1.bindings.contains_key(k));
                        }
                    }
                    assert(env_no_nested(env2));
                },
            }
        },
        StmtV::Return(value) => {
            lemma_wf_expr(value, env, fuel);
            let (r, env1) = ev_expr(value, env, fuel);
            match r {
                Err(_) => {},
                Ok(v) => {
                    assert(no_nested_return(wrap_return(v)));
                },
            }
        },
        StmtV::Block(ss) => {
            lemma_wf_block(ss, env, fuel);
        },
        StmtV::Expr(e) => {
            lemma_wf_expr(e, env, fuel);
        },
    }
}

/// A prefix application's successful result is an integer or a boolean,
/// which holds no wrapper.
proof fn lemma_wf_prefix_result(op: Prefix, v: ObjectV)
    ensures
        ev_prefix(op, v) matches Ok(w) ==> no_nested_return(w),
{
}

/// An infix application's successful result is an integer or a boolean,
/// which holds no wrapper.
proof fn lemma_wf_infix_result(op: Infix, l: ObjectV, r: ObjectV)
    ensures
        ev_infix(op, l, r) matches Ok(w) ==> no_nested_return(w),
{
    match ev_infix(op, l, r) {
        Ok(w) => {
            assert(w is Integer || w is Boolean);
        },
        Err(_) => {},
    }
}

/// A value looked up anywhere in a well-shaped frame chain is well
/// shaped.
proof fn lemma_wf_lookup(e: EnvV, name: Seq<char>)
    requires
        env_no_nested(e),
    ensures
        env_lookup(e, name) matches Some(v) ==> no_nested_return(v),
    decreases e,
{
    if e.bindings.contains_key(name) {
    } else {
        match e.outer {
            Some(o) => lemma_wf_lookup(*o, name),
            None => {},
        }
    }
}

/// An expression's successful result under a well-shaped environment is
/// well shaped, and the environment stays well shaped.
proof fn lemma_wf_expr(e: ExprV, env: EnvV, fuel: nat)
    requires
        env_no_nested(env),
    ensures
        ({
            let (r, envv) = ev_expr(e, env, fuel);
            env_no_nested(envv) && (r matches Ok(v) ==> no_nested_return(v))
        }),
    decreases fuel, esize(e), 0nat, 2nat,
{
    match e {
        ExprV::Ident(name) => {
            lemma_wf_lookup(env, name);
        },
        ExprV::Int(_) => {},
        ExprV::Bool(_) => {},
        ExprV::Prefix(op, right) => {
            lemma_wf_expr(*right, env, fuel);
            let (r, _) = ev_expr(*right, env, fuel);
            match r {
                Ok(v) => lemma_wf_prefix_result(op, v),
                Err(_) => {},
            }
        },
        ExprV::Infix(op, left, right) => {
            lemma_wf_expr(*left, env, fuel);
            let (rl, env1) = ev_expr(*left, env, fuel);
            match rl {
                Err(_) => {},
                Ok(lv) => {
                    lemma_wf_expr(*right, env1, fuel);
                    let (rr, _) = ev_expr(*right, env1, fuel);
                    match rr {
                        Err(_) => {},
                        Ok(rv) => lemma_wf_infix_result(op, lv, rv),
                    }
                },
            }
        },
        ExprV::If { condition, consequence, alternative } => {
            lemma_wf_expr(*condition, env, fuel);
            let (rc, env1) = ev_expr(*condition, env, fuel);
            match rc {
                Err(_) => {},
                Ok(cv) => {
                    if truthy(cv) {
                        lemma_wf_stmt(*consequence, env1, fuel);
                    } else {
                        match alternative {
                            Some(a) => lemma_wf_stmt(*a, env1, fuel),
                            None => {},
                        }
                    }
                },
            }
        },
        ExprV::Function { parameters, body } => {
            assert(no_nested_return(
                ObjectV::Function { parameters, body: *body, env: Box::new(env) },
            ));
        },
        ExprV::Call { function, arguments } => {
            lemma_wf_expr(*function, env, fuel);
            let (rf, env1) = ev_expr(*function, env, fuel);
            match rf {
                Err(_) => {},
                Ok(fv) => {
                    lemma_wf_exprs(arguments, env1, fuel);
                    let (ra, _) = ev_exprs(arguments, env1, fuel);
                    match ra {
                        Err(_) => {},
                        Ok(avs) => {
                            lemma_wf_apply(fv, avs, fuel);
                        },
                    }
                },
            }
        },
    }
}

/// The values of a successfully evaluated argument list under a
/// well-shaped environment are all well shaped, and the environment
/// stays well shaped.
proof fn lemma_wf_exprs(es: Seq<ExprV>, env: EnvV, fuel: nat)
    requires
        env_no_nested(env),
    ensures
        ({
            let (r, envv) = ev_exprs(es, env, fuel);
            env_no_nested(envv) && (r matches Ok(vs) ==> forall|i: int|
                0 <= i < vs.len() ==> no_nested_return(#[trigger] vs[i]))
        }),
    decreases fuel, esizes(es), es.len(), 2nat,
{
    if es.len() > 0 {
        lemma_esizes_index(es, 0);
        lemma_wf_expr(es[0], env, fuel);
        let (r, env1) = ev_expr(es[0], env, fuel);
        match r {
            Err(_) => {},
            Ok(v) => {
                lemma_wf_exprs(es.drop_first(), env1, fuel);
                let (rest, _) = ev_exprs(es.drop_first(), env1, fuel);
                match rest {
                    Err(_) => {},
                    Ok(vs) => {
                        assert forall|i: int|
                            0 <= i < (seq![v] + vs).len() implies no_nested_return(
                            #[trigger] (seq![v] + vs)[i],
                        ) by {
                            if i > 0 {
                                assert((seq![v] + vs)[i] == vs[i - 1]);
                            }
                        }
                    },
                }
            },
        }
    }
}

/// Binding well-shaped arguments over well-shaped bindings keeps every
/// binding well shaped.
proof fn lemma_wf_bind_params(ps: Seq<Seq<char>>, args: Seq<ObjectV>, m: Map<Seq<char>, ObjectV>)
    requires
        forall|i: int| 0 <= i < args.len() ==> no_nested_return(#[trigger] args[i]),
        forall|k: Seq<char>| #[trigger] m.contains_key(k) ==> no_nested_return(m[k]),
    ensures
        forall|k: Seq<char>| #[trigger]
            bind_params(ps, args, m).contains_key(k) ==> no_nested_return(
                bind_params(ps, args, m)[k],
            ),
    decreases ps.len(),
{
    if ps.len() == 0 || args.len() == 0 {
    } else {
        let m2 = m.insert(ps[0], args[0]);
        assert(no_nested_return(args[0]));
        assert forall|k: Seq<char>| #[trigger] m2.contains_key(k) implies no_nested_return(
            m2[k],
        ) by {
            if k != ps[0] {
                assert(m.contains_key(k));
            }
        }
        assert forall|i: int| 0 <= i < args.drop_first().len() implies no_nested_return(
            #[trigger] args.drop_first()[i],
        ) by {
            assert(args.drop_first()[i] == args[i + 1]);
        }
        lemma_wf_bind_params(ps.drop_first(), args.drop_first(), m2);
        assert(bind_params(ps, args, m) == bind_params(ps.drop_first(), args.drop_first(), m2));
    }
}

/// Applying a well-shaped function value to well-shaped arguments never
/// hands the caller a return wrapper: the body runs under a well-shaped
/// frame, and the one strip at the function boundary removes the only
/// wrapper a body result can carry.
proof fn lemma_wf_apply(f: ObjectV, args: Seq<ObjectV>, fuel: nat)
    requires
        no_nested_return(f),
        forall|i: int| 0 <= i < args.len() ==> no_nested_return(#[trigger] args[i]),
    ensures
        ev_apply(f, args, fuel) matches Ok(v) ==> no_nested_return(v) && !(v is ReturnValue),
    decreases fuel, 0nat, 0nat, 0nat,
{
    if fuel == 0 {
    } else {
        match f {
            ObjectV::Function { parameters, body, env } => {
                assert(env_no_nested(*env));
                let base = Map::<Seq<char>, ObjectV>::empty();
                assert(forall|k: Seq<char>| !(#[trigger] base.contains_key(k)));
                lemma_wf_bind_params(parameters, args, base);
                let callee_env = EnvV {
                    bindings: bind_params(parameters, args, base),
                    outer: Some(env),
                };
                assert(env_no_nested(callee_env));
                lemma_wf_stmt(body, callee_env, (fuel - 1) as nat);
            },
            _ => {},
        }
    }
}

/// Truncating division toward zero, as the machine division instruction
/// computes it.
pub open spec fn tdiv(x: int, d: int) -> int
    recommends
        d != 0,
{
    if x == 0 {
        0
    } else if x > 0 && d > 0 {
        x / d
    } else if x < 0 && d < 0 {
        ((x * -1) / (d * -1))
    } else if x < 0 {
        ((x * -1) / d) * -1
    } else {
        (x / (d * -1)) * -1
    }
}

/// True of a pure integer arithmetic expression: integer literals,
/// unary minus, and the four arithmetic operators.
pub open spec fn is_arith(e: ExprV) -> bool
    decreases e,
{
    match e {
        ExprV::Int(_) => true,
        ExprV::Prefix(op, r) => op == Prefix::MINUS && is_arith(*r),
        ExprV::Infix(op, l, r) => (op == Infix::PLUS || op == Infix::MINUS || op
            == Infix::ASTERISK || op == Infix::SLASH) && is_arith(*l) && is_arith(*r),
        _ => false,
    }
}

/// The mathematical value of a pure arithmetic expression, with `/` as
/// truncating division.
pub open spec fn arith_value(e: ExprV) -> int
    decreases e,
{
    match e {
        ExprV::Int(i) => i as int,
        ExprV::Prefix(_, r) => -arith_value(*r),
        ExprV::Infix(op, l, r) => {
            let x = arith_value(*l);
            let y = arith_value(*r);
            match op {
                Infix::PLUS => x + y,
                Infix::MINUS => x - y,
                Infix::ASTERISK => x * y,
                _ => tdiv(x, y),
            }
        },
        _ => 0,
    }
}

/// True when no node of a pure arithmetic expression overflows the
/// machine integer range and no division has a zero divisor.
pub open spec fn arith_in_range(e: ExprV) -> bool
    decreases e,
{
    isize::MIN <= arith_value(e) <= isize::MAX && (match e {
        ExprV::Int(_) => true,
        ExprV::Prefix(_, r) => arith_in_range(*r),
        ExprV::Infix(op, l, r) => arith_in_range(*l) && arith_in_range(*r) && (op == Infix::SLASH
            ==> arith_value(*r) != 0),
        _ => true,
    })
}

/// Evaluating a pure arithmetic expression that stays in range yields
/// exactly its mathematical value, computed with truncating division and
/// the precedence the tree records — and leaves the environment alone.
pub proof fn lemma_arith_eval(e: ExprV, env: EnvV, fuel: nat)
    requires
        is_arith(e),
        arith_in_range(e),
    ensures
        ev_expr(e, env, fuel) == (
            Ok::<ObjectV, ErrV>(ObjectV::Integer(arith_value(e) as isize)),
            env,
        ),
    decreases e,
{
    match e {
        ExprV::Int(i) => {},
        ExprV::Prefix(op, r) => {
            lemma_arith_eval(*r, env, fuel);
            let rvi = arith_value(*r);
            let rv = rvi as isize;
            assert(arith_in_range(*r));
            assert(isize::MIN <= arith_value(*r) <= isize::MAX);
            assert(arith_value(e) == -rvi);
            assert(isize::MIN <= -rvi <= isize::MAX);
            assert(rv != isize::MIN);
            assert(neg_wrap(rv) == (-rvi) as isize);
            assert(ev_prefix(Prefix::MINUS, ObjectV::Integer(rv)) == Ok::<ObjectV, ErrV>(
                ObjectV::Integer(arith_value(e) as isize),
            ));
        },
        ExprV::Infix(op, l, r) => {
            lemma_arith_eval(*l, env, fuel);
            lemma_arith_eval(*r, env, fuel);
            let xi = arith_value(*l);
            let yi = arith_value(*r);
            let x = xi as isize;
            let y = yi as isize;
            let v = arith_value(e);
            assert(arith_in_range(*l) && arith_in_range(*r));
            assert(isize::MIN <= arith_value(*l) <= isize::MAX);
            assert(isize::MIN <= arith_value(*r) <= isize::MAX);
            assert(x as int == xi && y as int == yi);
            assert(isize::MIN <= v <= isize::MAX);
            match op {
                Infix::PLUS => {
                    assert(x.wrapping_add(y) == v as isize);
                },
                Infix::MINUS => {
                    assert(x.wrapping_sub(y) == v as isize);
                },
                Infix::ASTERISK => {
                    lemma_signed_crop_in_range(xi * yi);
                    assert(x.wrapping_mul(y) == v as isize);
                },
                Infix::SLASH => {
                    assert(yi != 0 && y != 0);
                    assert(tdiv(xi, yi) == v);
                    assert(x.checked_div(y) == Some(v as isize));
                    assert(div_wrap(x, y) == v as isize);
                },
                _ => {
                    assert(false);
                },
            }
            assert(ev_int_infix(op, x, y) == Ok::<ObjectV, ErrV>(
                ObjectV::Integer(arith_value(e) as isize),
            ));
        },
        _ => {},
    }
}

/// Cropping to the machine integer range leaves an in-range value alone.
proof fn lemma_signed_crop_in_range(v: int)
    requires
        isize::MIN <= v <= isize::MAX,
    ensures
        vstd::wrapping::isize_specs::signed_crop(v) == v as isize,
{
    let range = (usize::MAX - usize::MIN + 1) as int;
    assert(range == usize::MAX + 1);
    assert(usize::MAX as int == 2 * (isize::MAX as int) + 1);
    assert(isize::MIN as int == -(isize::MAX as int) - 1);
    if v >= 0 {
        lemma_small_mod(v as nat, range as nat);
        assert(v % range == v);
    } else {
        lemma_mod_multiples_vanish(1, v, range);
        assert((range * 1 + v) % range == v % range);
        lemma_small_mod((range + v) as nat, range as nat);
        assert(v % range == v + range);
        assert(v % range > isize::MAX as int);
    }
}

/// Every character of a non-negative number's rendering is a digit, and
/// there is at least one.
proof fn lemma_nat_text_digits(n: int)
    requires
        0 <= n,
    ensures
        nat_text(n).len() >= 1,
        forall|k: int| 0 <= k < nat_text(n).len() ==> is_digit_char(#[trigger] nat_text(n)[k]),
    decreases n,
{
    if n < 10 {
        assert(nat_text(n) == seq![digit_char(n)]);
        assert(is_digit_char(digit_char(n)));
    } else {
        lemma_nat_text_digits(n / 10);
        assert(nat_text(n) == nat_text(n / 10).push(digit_char(n % 10)));
        assert(is_digit_char(digit_char(n % 10)));
        assert forall|k: int| 0 <= k < nat_text(n).len() implies is_digit_char(
            #[trigger] nat_text(n)[k],
        ) by {
            if k < nat_text(n / 10).len() {
                assert(nat_text(n)[k] == nat_text(n / 10)[k]);
            } else {
                assert(nat_text(n)[k] == digit_char(n % 10));
            }
        }
    }
}

/// Reading a non-negative number's rendering back as a digit run yields
/// the number.
proof fn lemma_nat_text_value(n: int)
    requires
        0 <= n,
    ensures
        digits_value(nat_text(n)) == n,
    decreases n,
{
    if n < 10 {
        let s = nat_text(n);
        assert(s == seq![digit_char(n)]);
        assert(s.drop_last() =~= Seq::<char>::empty());
        assert(digits_value(Seq::<char>::empty()) == 0);
        assert(crate::lexer::digit_value(digit_char(n)) == n);
    } else {
        lemma_nat_text_value(n / 10);
        let s = nat_text(n);
        assert(s == nat_text(n / 10).push(digit_char(n % 10)));
        assert(s.drop_last() =~= nat_text(n / 10));
        assert(s.last() == digit_char(n % 10));
        assert(crate::lexer::digit_value(digit_char(n % 10)) == n % 10);
        assert(n / 10 * 10 + n % 10 == n);
    }
}

/// A scan over all-digit text runs to its end.
proof fn lemma_digit_end_all(s: Seq<char>, i: int)
    requires
        0 <= i <= s.len(),
        forall|k: int| 0 <= k < s.len() ==> is_digit_char(#[trigger] s[k]),
    ensures
        digit_end(s, i) == s.len(),
    decreases s.len() - i,
{
    if i < s.len() {
        lemma_digit_end_all(s, i + 1);
    }
}

/// A scan over all-letter text runs to its end.
proof fn lemma_ident_end_all(s: Seq<char>, i: int)
    requires
        0 <= i <= s.len(),
        forall|k: int| 0 <= k < s.len() ==> is_letter_char(#[trigger] s[k]),
    ensures
        ident_end(s, i) == s.len(),
    decreases s.len() - i,
{
    if i < s.len() {
        lemma_ident_end_all(s, i + 1);
    }
}

/// Printing then re-reading an integer literal is the identity: the
/// rendering of a non-negative integer lexes back to exactly that
/// integer token followed by the end of the input.
pub proof fn lemma_int_text_relexes(i: isize)
    requires
        0 <= i,
    ensures
        next_token_v(int_text(i as int), 0) == (TokenV::INT(i), int_text(i as int).len() as int),
        lex_all_from(int_text(i as int), 0) =~= seq![TokenV::INT(i), TokenV::EOF],
{
    let s = int_text(i as int);
    assert(s == nat_text(i as int));
    lemma_nat_text_digits(i as int);
    lemma_nat_text_value(i as int);
    assert(is_digit_char(s[0]));
    assert(!is_ws_char(s[0]));
    assert(skip_ws(s, 0) == 0);
    assert(!is_letter_char(s[0]));
    lemma_digit_end_all(s, 0);
    assert(s.subrange(0, s.len() as int) =~= s);
    assert(digits_value(s) == i as int && i as int <= isize::MAX as int);
    assert(next_token_v(s, 0) == (TokenV::INT(i), s.len() as int));
    assert(skip_ws(s, s.len() as int) == s.len());
    assert(next_token_v(s, s.len() as int).0 is EOF);
    assert(lex_all_from(s, s.len() as int) =~= seq![TokenV::EOF]);
}

/// Printing then re-reading an identifier is the identity: a nonempty
/// run of letters that is none of the seven keywords lexes back to
/// exactly that identifier token followed by the end of the input.
pub proof fn lemma_ident_text_relexes(name: Seq<char>)
    requires
        name.len() >= 1,
        forall|k: int| 0 <= k < name.len() ==> is_letter_char(#[trigger] name[k]),
        name != "fn"@,
        name != "let"@,
        name != "if"@,
        name != "else"@,
        name != "true"@,
        name != "false"@,
        name != "return"@,
    ensures
        next_token_v(name, 0) == (TokenV::IDENT(name), name.len() as int),
        lex_all_from(name, 0) =~= seq![TokenV::IDENT(name), TokenV::EOF],
{
    assert(is_letter_char(name[0]));
    assert(!is_ws_char(name[0]));
    assert(skip_ws(name, 0) == 0);
    lemma_ident_end_all(name, 0);
    assert(name.subrange(0, name.len() as int) =~= name);
    assert(lookup_ident_v(name) == TokenV::IDENT(name));
    assert(next_token_v(name, 0) == (TokenV::IDENT(name), name.len() as int));
    assert(skip_ws(name, name.len() as int) == name.len());
    assert(next_token_v(name, name.len() as int).0 is EOF);
    assert(lex_all_from(name, name.len() as int) =~= seq![TokenV::EOF]);
}

} // verus!
