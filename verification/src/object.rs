//! Runtime values of the evaluator: objects, closures, lexically scoped
//! environments, and evaluation errors.
//!
//! Environments form a chain: lookup walks outward until a binding is
//! found, new bindings always land in the innermost frame. A closure
//! snapshots the bindings of the frame it was created in and shares the
//! outer frames by reference counting; an outer frame lives as long as
//! any closure that captured it.

use std::rc::Rc;

use vstd::prelude::*;
use vstd::string::*;

use crate::ast::{
    infix_text, join_params, params_text, params_view, prefix_text, stmt_text, stmt_view, Infix,
    Prefix, Statement, StmtV,
};
use crate::text::{int_text, int_to_string, str_eq};

verus! {

/// Relies on std's `Rc::clone`: the returned handle is the same shared
/// value.
#[verifier::external_body]
pub(crate) fn rc_clone<T>(rc: &Rc<T>) -> (r: Rc<T>)
    ensures
        r == *rc,
{
    Rc::clone(rc)
}

/// Relies on std's `Rc::as_ref`: borrows the shared value.
#[verifier::external_body]
pub(crate) fn rc_as_ref<T>(rc: &Rc<T>) -> (r: &T)
    ensures
        *r == **rc,
{
    Rc::as_ref(rc)
}

/// A runtime value.
#[derive(Debug)]
pub enum Object {
    Integer(isize),
    Boolean(bool),
    /// The control-flow marker a `return` statement produces. It never
    /// nests — a `return` of a value that already carries the marker
    /// passes it on unchanged — and it is stripped at the nearest
    /// function or program boundary, so it never reaches the caller of a
    /// top-level evaluation.
    ReturnValue(Rc<Object>),
    Function(Function),
    Null,
}

/// A function value: parameter names, a body block, and the environment
/// captured where the function literal was evaluated. Capture snapshots
/// the bindings of the frame where the literal stands and shares its
/// outer frames, so every binding visible at that point stays visible in
/// the body; a name bound afterwards — the name the literal is being
/// bound to included — is not in scope inside the body.
#[derive(Debug)]
pub struct Function {
    pub parameters: Vec<String>,
    pub body: Statement,
    pub env: Environment,
}

/// A binding frame with an optional outer frame.
#[derive(Debug)]
pub struct Environment {
    store: Vec<(String, Rc<Object>)>,
    outer: Option<Rc<Environment>>,
}

/// The type tag of a runtime value, as error messages name it.
#[allow(non_camel_case_types)]
#[derive(Debug, Clone, Copy, PartialEq, Eq, Structural)]
pub enum ObjType {
    INTEGER,
    BOOLEAN,
    FUNCTION,
    NULL,
}

/// The mathematical view of a runtime value.
pub enum ObjectV {
    Integer(isize),
    Boolean(bool),
    ReturnValue(Box<ObjectV>),
    Function { parameters: Seq<Seq<char>>, body: StmtV, env: Box<EnvV> },
    Null,
}

/// The mathematical view of an environment: a map of bindings and an
/// optional outer frame.
pub struct EnvV {
    pub bindings: Map<Seq<char>, ObjectV>,
    pub outer: Option<Box<EnvV>>,
}

/// The view of a runtime value.
pub open spec fn obj_view(o: Object) -> ObjectV
    decreases o,
{
    match o {
        Object::Integer(i) => ObjectV::Integer(i),
        Object::Boolean(b) => ObjectV::Boolean(b),
        Object::ReturnValue(inner) => ObjectV::ReturnValue(Box::new(obj_view(*inner))),
        Object::Function(f) => ObjectV::Function {
            parameters: params_view(f.parameters@),
            body: stmt_view(f.body),
            env: Box::new(env_view(f.env)),
        },
        Object::Null => ObjectV::Null,
    }
}

/// The view of a function value.
#[verifier::inline]
pub open spec fn func_view(f: Function) -> ObjectV {
    obj_view(Object::Function(f))
}

/// The bindings of a frame's store: a later entry for a name shadows an
/// earlier one.
pub closed spec fn store_view(entries: Seq<(String, Rc<Object>)>) -> Map<Seq<char>, ObjectV>
    decreases entries,
{
    if entries.len() == 0 {
        Map::empty()
    } else {
        store_view(entries.drop_last()).insert(entries.last().0@, obj_view(*entries.last().1))
    }
}

/// The view of an environment.
pub closed spec fn env_view(e: Environment) -> EnvV
    decreases e,
{
    EnvV {
        bindings: store_view(e.store@),
        outer: match e.outer {
            Some(o) => Some(Box::new(env_view(*o))),
            None => None,
        },
    }
}

impl View for Object {
    type V = ObjectV;

    open spec fn view(&self) -> ObjectV {
        obj_view(*self)
    }
}

impl View for Environment {
    type V = EnvV;

    open spec fn view(&self) -> EnvV {
        env_view(*self)
    }
}

/// Looks a name up through the frame chain: the innermost binding wins.
pub open spec fn env_lookup(e: EnvV, name: Seq<char>) -> Option<ObjectV>
    decreases e,
{
    if e.bindings.contains_key(name) {
        Some(e.bindings[name])
    } else {
        match e.outer {
            Some(o) => env_lookup(*o, name),
            None => None,
        }
    }
}

/// No return wrapper inside this value is nested: a wrapper's inner
/// value is never itself a wrapper, down through the environments that
/// function values capture. Evaluation preserves this shape, which is
/// what lets the program boundary strip a surfacing wrapper completely
/// in one step.
pub open spec fn no_nested_return(v: ObjectV) -> bool
    decreases v,
{
    match v {
        ObjectV::ReturnValue(inner) => !(*inner is ReturnValue) && no_nested_return(*inner),
        ObjectV::Function { env, .. } => env_no_nested(*env),
        _ => true,
    }
}

/// No value bound anywhere in the frame chain holds a nested return
/// wrapper.
pub open spec fn env_no_nested(e: EnvV) -> bool
    decreases e,
{
    (forall|name: Seq<char>|
        #[trigger] e.bindings.contains_key(name) ==> no_nested_return(e.bindings[name])) && (
    match e.outer {
        Some(o) => env_no_nested(*o),
        None => true,
    })
}

/// Truthiness of a condition value: `null` and `false` are falsy,
/// everything else is truthy.
pub open spec fn truthy(o: ObjectV) -> bool {
    match o {
        ObjectV::Null => false,
        ObjectV::Boolean(b) => b,
        _ => true,
    }
}

/// The type tag of a value; a return wrapper carries its inner value's
/// tag.
pub open spec fn type_of_v(o: ObjectV) -> ObjType
    decreases o,
{
    match o {
        ObjectV::Integer(_) => ObjType::INTEGER,
        ObjectV::Boolean(_) => ObjType::BOOLEAN,
        ObjectV::ReturnValue(v) => type_of_v(*v),
        ObjectV::Function { .. } => ObjType::FUNCTION,
        ObjectV::Null => ObjType::NULL,
    }
}

/// The display text of a type tag.
pub open spec fn obj_type_text(t: ObjType) -> Seq<char> {
    match t {
        ObjType::INTEGER => "INTEGER"@,
        ObjType::BOOLEAN => "BOOLEAN"@,
        ObjType::FUNCTION => "FUNCTION"@,
        ObjType::NULL => "NULL"@,
    }
}

/// Structural equality of values: integers, booleans and nulls compare
/// by content, return wrappers by their inner value; function values
/// never compare equal.
pub open spec fn obj_eq_v(a: ObjectV, b: ObjectV) -> bool
    decreases a,
{
    match (a, b) {
        (ObjectV::Integer(x), ObjectV::Integer(y)) => x == y,
        (ObjectV::Boolean(x), ObjectV::Boolean(y)) => x == y,
        (ObjectV::Null, ObjectV::Null) => true,
        (ObjectV::ReturnValue(x), ObjectV::ReturnValue(y)) => obj_eq_v(*x, *y),
        _ => false,
    }
}

/// The display text of a value: integers in decimal, booleans as
/// `true`/`false`, null as `null`, a return wrapper as its inner value,
/// and a function as its source-like rendering.
pub open spec fn obj_text(o: ObjectV) -> Seq<char>
    decreases o,
{
    match o {
        ObjectV::Integer(i) => int_text(i as int),
        ObjectV::Boolean(b) => if b {
            "true"@
        } else {
            "false"@
        },
        ObjectV::Null => "null"@,
        ObjectV::ReturnValue(v) => obj_text(*v),
        ObjectV::Function { parameters, body, .. } => "fn("@ + params_text(parameters) + ") {\n"@
            + stmt_text(body) + "\n}"@,
    }
}

impl Object {
    /// True when this value satisfies an `if` condition.
    pub fn is_truthy(&self) -> (b: bool)
        ensures
            b == truthy(self@),
    {
        match self {
            Object::Null => false,
            Object::Boolean(value) => *value,
            _ => true,
        }
    }

    /// The type tag of this value.
    pub fn type_of(&self) -> (t: ObjType)
        ensures
            t == type_of_v(self@),
        decreases *self,
    {
        match self {
            Object::Integer(_) => ObjType::INTEGER,
            Object::Boolean(_) => ObjType::BOOLEAN,
            Object::ReturnValue(v) => rc_as_ref(v).type_of(),
            Object::Function(_) => ObjType::FUNCTION,
            Object::Null => ObjType::NULL,
        }
    }

    /// The display text of this value.
    pub fn to_string(&self) -> (r: String)
        ensures
            r@ == obj_text(self@),
        decreases *self,
    {
        match self {
            Object::Integer(i) => int_to_string(*i),
            Object::Boolean(b) => {
                if *b {
                    "true".to_owned()
                } else {
                    "false".to_owned()
                }
            },
            Object::Null => "null".to_owned(),
            Object::ReturnValue(v) => rc_as_ref(v).to_string(),
            Object::Function(f) => f.to_string(),
        }
    }
}

/// Structural equality of two values, as `==` and `!=` compare them.
pub fn obj_eq(a: &Object, b: &Object) -> (r: bool)
    ensures
        r == obj_eq_v(a@, b@),
    decreases *a,
{
    match (a, b) {
        (Object::Integer(x), Object::Integer(y)) => *x == *y,
        (Object::Boolean(x), Object::Boolean(y)) => *x == *y,
        (Object::Null, Object::Null) => true,
        (Object::ReturnValue(x), Object::ReturnValue(y)) => obj_eq(rc_as_ref(x), rc_as_ref(y)),
        _ => false,
    }
}

impl ObjType {
    /// The display text of this type tag.
    pub fn to_string(&self) -> (r: String)
        ensures
            r@ == obj_type_text(*self),
    {
        match self {
            ObjType::INTEGER => "INTEGER".to_owned(),
            ObjType::BOOLEAN => "BOOLEAN".to_owned(),
            ObjType::FUNCTION => "FUNCTION".to_owned(),
            ObjType::NULL => "NULL".to_owned(),
        }
    }
}

impl Function {
    /// The source-like rendering of this function value.
    pub fn to_string(&self) -> (r: String)
        ensures
            r@ == obj_text(func_view(*self)),
    {
        let mut r = "fn(".to_owned();
        let params_str = join_params(&self.parameters);
        r.append(params_str.as_str());
        r.append(") {\n");
        let body_str = self.body.to_string();
        r.append(body_str.as_str());
        r.append("\n}");
        r
    }
}

impl Environment {
    /// An environment with no bindings and no outer frame; its values
    /// trivially hold no nested return wrapper.
    pub fn new() -> (e: Environment)
        ensures
            e@ == (EnvV { bindings: Map::<Seq<char>, ObjectV>::empty(), outer: None }),
            env_no_nested(e@),
    {
        let e = Environment { store: Vec::new(), outer: None };
        proof {
            assert(e.store@.len() == 0);
            assert(store_view(e.store@) =~= Map::<Seq<char>, ObjectV>::empty());
        }
        e
    }

    /// An empty frame whose lookups continue in `outer`.
    pub fn new_enclosed(outer: Rc<Environment>) -> (e: Environment)
        ensures
            e@ == (EnvV {
                bindings: Map::<Seq<char>, ObjectV>::empty(),
                outer: Some(Box::new(outer@)),
            }),
    {
        let e = Environment { store: Vec::new(), outer: Some(outer) };
        proof {
            assert(e.store@.len() == 0);
            assert(store_view(e.store@) =~= Map::<Seq<char>, ObjectV>::empty());
        }
        e
    }

    /// Looks `name` up, walking outward through the frame chain.
    pub fn get(&self, name: &str) -> (r: Option<Rc<Object>>)
        ensures
            match r {
                Some(o) => env_lookup(self@, name@) == Some(obj_view(*o)),
                None => env_lookup(self@, name@) is None,
            },
        decreases *self,
    {
        let mut i: usize = self.store.len();
        while i > 0
            invariant
                i <= self.store@.len(),
                forall|k: int| i <= k < self.store@.len() ==> self.store@[k].0@ != name@,
            decreases i,
        {
            i -= 1;
            if str_eq(self.store[i].0.as_str(), name) {
                proof {
                    lemma_store_view_match(self.store@, name@, i as int);
                }
                return Some(rc_clone(&self.store[i].1));
            }
        }
        proof {
            lemma_store_view_no_match(self.store@, name@);
        }
        match &self.outer {
            Some(o) => rc_as_ref(o).get(name),
            None => None,
        }
    }

    /// Binds `name` to `value` in this innermost frame, shadowing any
    /// previous binding of the name.
    pub fn set(&mut self, name: &str, value: Rc<Object>)
        ensures
            final(self)@ == (EnvV {
                bindings: old(self)@.bindings.insert(name@, obj_view(*value)),
                outer: old(self)@.outer,
            }),
    {
        let ghost entries = self.store@;
        self.store.push((name.to_owned(), value));
        proof {
            assert(self.store@.drop_last() =~= entries);
            assert(store_view(self.store@) == store_view(entries).insert(name@, obj_view(*value)));
        }
    }

    /// A frame with the same bindings and the same shared outer frame.
    pub fn duplicate(&self) -> (e: Environment)
        ensures
            e@ == self@,
    {
        let mut store: Vec<(String, Rc<Object>)> = Vec::new();
        let mut i: usize = 0;
        while i < self.store.len()
            invariant
                i <= self.store@.len(),
                store@.len() == i,
                forall|k: int| 0 <= k < i ==> store@[k] == self.store@[k],
            decreases self.store@.len() - i,
        {
            let name = self.store[i].0.clone();
            let value = rc_clone(&self.store[i].1);
            store.push((name, value));
            i += 1;
        }
        let outer = match &self.outer {
            Some(o) => Some(rc_clone(o)),
            None => None,
        };
        let e = Environment { store, outer };
        proof {
            assert(e.store@ =~= self.store@);
        }
        e
    }
}

/// When no entry of the store is named `name`, the store's bindings do
/// not contain `name`.
proof fn lemma_store_view_no_match(entries: Seq<(String, Rc<Object>)>, name: Seq<char>)
    requires
        forall|k: int| 0 <= k < entries.len() ==> entries[k].0@ != name,
    ensures
        !store_view(entries).contains_key(name),
    decreases entries.len(),
{
    if entries.len() > 0 {
        lemma_store_view_no_match(entries.drop_last(), name);
    }
}

/// When entry `j` is the last entry of the store named `name`, the
/// store's bindings map `name` to that entry's value.
proof fn lemma_store_view_match(entries: Seq<(String, Rc<Object>)>, name: Seq<char>, j: int)
    requires
        0 <= j < entries.len(),
        entries[j].0@ == name,
        forall|k: int| j < k < entries.len() ==> entries[k].0@ != name,
    ensures
        store_view(entries).contains_key(name),
        store_view(entries)[name] == obj_view(*entries[j].1),
    decreases entries.len(),
{
    if j == entries.len() - 1 {
    } else {
        lemma_store_view_match(entries.drop_last(), name, j);
    }
}

/// An evaluation error: fatal to the current top-level evaluation.
#[derive(Debug)]
pub enum EvalError {
    /// An identifier with no binding in scope was referenced.
    IdentifierNotFound(String),
    /// An infix operator was applied to values of two different types.
    TypeMismatch { left: ObjType, op: Infix, right: ObjType },
    /// An infix operator was applied to same-typed values it does not
    /// accept.
    UnknownInfixOperator { left: ObjType, op: Infix, right: ObjType },
    /// A prefix operator was applied to a value it does not accept.
    UnknownPrefixOperator { prefix: Prefix, right: ObjType },
    /// A call's callee evaluated to a value that is not a function.
    NotAFunction(Rc<Object>),
    /// An integer was divided by zero.
    DivisionByZero,
    /// Nested calls exceeded the evaluator's depth bound.
    CallDepthExceeded,
}

/// The mathematical view of an evaluation error.
pub enum ErrV {
    IdentifierNotFound(Seq<char>),
    TypeMismatch { left: ObjType, op: Infix, right: ObjType },
    UnknownInfixOperator { left: ObjType, op: Infix, right: ObjType },
    UnknownPrefixOperator { prefix: Prefix, right: ObjType },
    NotAFunction(ObjectV),
    DivisionByZero,
    CallDepthExceeded,
}

impl View for EvalError {
    type V = ErrV;

    open spec fn view(&self) -> ErrV {
        match self {
            EvalError::IdentifierNotFound(name) => ErrV::IdentifierNotFound(name@),
            EvalError::TypeMismatch { left, op, right } => ErrV::TypeMismatch {
                left: *left,
                op: *op,
                right: *right,
            },
            EvalError::UnknownInfixOperator { left, op, right } => ErrV::UnknownInfixOperator {
                left: *left,
                op: *op,
                right: *right,
            },
            EvalError::UnknownPrefixOperator { prefix, right } => ErrV::UnknownPrefixOperator {
                prefix: *prefix,
                right: *right,
            },
            EvalError::NotAFunction(o) => ErrV::NotAFunction(obj_view(**o)),
            EvalError::DivisionByZero => ErrV::DivisionByZero,
            EvalError::CallDepthExceeded => ErrV::CallDepthExceeded,
        }
    }
}

/// The message text of an evaluation error.
pub open spec fn err_text(e: ErrV) -> Seq<char> {
    match e {
        ErrV::IdentifierNotFound(name) => "identifier not found: "@ + name,
        ErrV::TypeMismatch { left, op, right } => "type mismatch: "@ + obj_type_text(left) + " "@
            + infix_text(op) + " "@ + obj_type_text(right),
        ErrV::UnknownInfixOperator { left, op, right } => "unknown operator: "@ + obj_type_text(
            left,
        ) + " "@ + infix_text(op) + " "@ + obj_type_text(right),
        ErrV::UnknownPrefixOperator { prefix, right } => "unknown operator: "@ + prefix_text(
            prefix,
        ) + obj_type_text(right),
        ErrV::NotAFunction(o) => "not a function: "@ + obj_text(o),
        ErrV::DivisionByZero => "division by zero"@,
        ErrV::CallDepthExceeded => "call depth limit exceeded"@,
    }
}

impl EvalError {
    /// The message of this error, as the host prints it.
    pub fn message(&self) -> (r: String)
        ensures
            r@ == err_text(self@),
    {
        match self {
            EvalError::IdentifierNotFound(name) => {
                let mut r = "identifier not found: ".to_owned();
                r.append(name.as_str());
                r
            },
            EvalError::TypeMismatch { left, op, right } => {
                let mut r = "type mismatch: ".to_owned();
                let left_str = left.to_string();
                r.append(left_str.as_str());
                r.append(" ");
                let op_str = infix_str(*op);
                r.append(op_str);
                r.append(" ");
                let right_str = right.to_string();
                r.append(right_str.as_str());
                r
            },
            EvalError::UnknownInfixOperator { left, op, right } => {
                let mut r = "unknown operator: ".to_owned();
                let left_str = left.to_string();
                r.append(left_str.as_str());
                r.append(" ");
                let op_str = infix_str(*op);
                r.append(op_str);
                r.append(" ");
                let right_str = right.to_string();
                r.append(right_str.as_str());
                r
            },
            EvalError::UnknownPrefixOperator { prefix, right } => {
                let mut r = "unknown operator: ".to_owned();
                let op_str: &'static str = match prefix {
                    Prefix::BANG => "!",
                    Prefix::MINUS => "-",
                };
                r.append(op_str);
                let right_str = right.to_string();
                r.append(right_str.as_str());
                r
            },
            EvalError::NotAFunction(o) => {
                let mut r = "not a function: ".to_owned();
                let obj_str = rc_as_ref(o).to_string();
                r.append(obj_str.as_str());
                r
            },
            EvalError::DivisionByZero => "division by zero".to_owned(),
            EvalError::CallDepthExceeded => "call depth limit exceeded".to_owned(),
        }
    }
}

/// The source characters of an infix operator.
fn infix_str(op: Infix) -> (r: &'static str)
    ensures
        r@ == infix_text(op),
{
    match op {
        Infix::PLUS => "+",
        Infix::MINUS => "-",
        Infix::ASTERISK => "*",
        Infix::SLASH => "/",
        Infix::EQ => "==",
        Infix::NOT_EQ => "!=",
        Infix::LT => "<",
        Infix::GT => ">",
    }
}

} // verus!

