//! What evaluation means, stated over values and maps.

use vstd::prelude::*;
use crate::error::{EvalError, Form, TypeFault};
use crate::expr::{Sexp, Value};

verus! {

/// What an environment binds: a map from symbol names to values.
pub type Bindings = Map<Seq<char>, Value>;

/// Where an evaluation ends: the ambient bindings it leaves, and its result.
pub struct Outcome {
    pub env: Bindings,
    pub result: Result<Value, EvalError>,
}

/// A closure: parameter names, a body, and the name by which the body may
/// refer to the closure itself.
pub struct Closure {
    pub params: Seq<Seq<char>>,
    pub body: Value,
    pub name: Option<Seq<char>>,
}

/// The atom `t`, the true value.
pub open spec fn truth() -> Value {
    Sexp::Atom("t"@)
}

/// `t` where `b` holds, the empty list where it does not.
pub open spec fn truth_value(b: bool) -> Value {
    if b {
        truth()
    } else {
        Sexp::nil()
    }
}

/// Whether `e` is the atom called `name`.
pub open spec fn is_sym(name: Seq<char>, e: Value) -> bool {
    e == Sexp::<Seq<char>>::Atom(name)
}

pub open spec fn succeed(env: Bindings, v: Value) -> Outcome {
    Outcome { env, result: Ok(v) }
}

pub open spec fn fail(env: Bindings, e: EvalError) -> Outcome {
    Outcome { env, result: Err(e) }
}

/// Whether a value passes the test of `atom`: it is an atom or the empty list.
pub open spec fn atom_test(v: Value) -> bool {
    v is Atom || v.is_nil()
}

/// Whether two values pass the test of `eq`: both are the empty list, or both
/// are atoms of the same name.
pub open spec fn eq_test(a: Value, b: Value) -> bool {
    (a.is_nil() && b.is_nil()) || (a is Atom && b is Atom && a->Atom_0 == b->Atom_0)
}

/// The first element of a list that has one; the empty list otherwise.
pub open spec fn first_of(v: Value) -> Value {
    match v {
        Sexp::List(items) if items.len() > 0 => items[0],
        _ => Sexp::nil(),
    }
}

/// What follows the first element of a list that has one; the empty list
/// otherwise.
pub open spec fn rest_of(v: Value) -> Value {
    match v {
        Sexp::List(items) if items.len() > 0 => Sexp::List(items.drop_first()),
        _ => Sexp::nil(),
    }
}

/// Whether every item is an atom.
pub open spec fn all_atoms(items: Seq<Value>) -> bool {
    forall|i: int| 0 <= i < items.len() ==> (#[trigger] items[i]) is Atom
}

/// The names of a sequence of atoms.
pub open spec fn atom_names(items: Seq<Value>) -> Seq<Seq<char>> {
    Seq::new(items.len(), |i: int| items[i]->Atom_0)
}

/// The closure that `(lambda (p1 ...) body)` denotes; `None` for any other
/// shape.
pub open spec fn lambda_of(e: Value) -> Option<Closure> {
    match e {
        Sexp::List(v) => if v.len() == 3 && is_sym("lambda"@, v[0]) && v[1] is List && all_atoms(
            v[1]->List_0,
        ) {
            Some(Closure { params: atom_names(v[1]->List_0), body: v[2], name: None })
        } else {
            None
        },
        _ => None,
    }
}

/// The closure that `(label name (lambda (p1 ...) body))` denotes; `None` for
/// any other shape.
pub open spec fn label_of(e: Value) -> Option<Closure> {
    match e {
        Sexp::List(v) => if v.len() == 3 && is_sym("label"@, v[0]) && v[1] is Atom {
            match lambda_of(v[2]) {
                Some(f) => Some(
                    Closure { params: f.params, body: f.body, name: Some(v[1]->Atom_0) },
                ),
                None => None,
            }
        } else {
            None
        },
        _ => None,
    }
}

/// The closure that a closure literal of either shape denotes.
pub open spec fn closure_of(e: Value) -> Option<Closure> {
    match lambda_of(e) {
        Some(f) => Some(f),
        None => label_of(e),
    }
}

/// `env` with each parameter bound to the argument at its place. Of two
/// parameters of one name the later one counts.
pub open spec fn bind_params(env: Bindings, params: Seq<Seq<char>>, args: Seq<Value>) -> Bindings
    decreases params.len(),
{
    if params.len() == 0 || args.len() != params.len() {
        env
    } else {
        bind_params(env, params.drop_last(), args.drop_last()).insert(params.last(), args.last())
    }
}

/// The scope in which a closure's body is evaluated: the scope of the
/// caller, then the closure's own name bound to its literal, then the
/// parameters.
pub open spec fn child_env(
    env: Bindings,
    name: Option<Seq<char>>,
    literal: Value,
    params: Seq<Seq<char>>,
    args: Seq<Value>,
) -> Bindings {
    let base = match name {
        Some(n) => env.insert(n, literal),
        None => env,
    };
    bind_params(base, params, args)
}

/// The literal under which `defun` installs a function.
pub open spec fn label_literal(name: Value, params: Value, body: Value) -> Value {
    Sexp::List(seq![Sexp::Atom("label"@), name, Sexp::List(seq![Sexp::Atom("lambda"@), params, body])])
}

/// What a name stands for: what the scope of the call binds it to, else what
/// the ambient bindings bind it to.
pub open spec fn lookup(env: Bindings, scope: Bindings, name: Seq<char>) -> Option<Value> {
    if scope.contains_key(name) {
        Some(scope[name])
    } else if env.contains_key(name) {
        Some(env[name])
    } else {
        None
    }
}

/// `(quote e)` is `e`, unevaluated.
pub open spec fn quote_spec(env: Bindings, items: Seq<Value>) -> Outcome {
    if items.len() != 2 {
        fail(env, EvalError::ArityError { form: Form::Quote, expected: 1 })
    } else {
        succeed(env, items[1])
    }
}

/// What a form of one operand makes of the value of its operand.
pub open spec fn unary_value(form: Form, v: Value) -> Value {
    match form {
        Form::Atom => truth_value(atom_test(v)),
        Form::Car => first_of(v),
        Form::Cdr => rest_of(v),
        _ => v,
    }
}

/// The outcome of a form of one operand: the operand is evaluated within
/// `depth`, and the form is applied to its value.
pub open spec fn unary_spec(
    env: Bindings,
    scope: Bindings,
    items: Seq<Value>,
    depth: nat,
    form: Form,
) -> Outcome
    decreases depth, 1nat, 0nat,
{
    if items.len() != 2 {
        fail(env, EvalError::ArityError { form, expected: 1 })
    } else {
        let o = eval_spec(env, scope, items[1], depth);
        match o.result {
            Ok(v) => succeed(o.env, unary_value(form, v)),
            Err(_) => o,
        }
    }
}

/// `(atom e)`: `t` where the value of `e` is an atom or the empty list, else
/// the empty list.
pub open spec fn atom_spec(env: Bindings, scope: Bindings, items: Seq<Value>, depth: nat) -> Outcome
    decreases depth, 2nat, 0nat,
{
    unary_spec(env, scope, items, depth, Form::Atom)
}

/// `(car e)`: the first element of the value of `e`.
pub open spec fn car_spec(env: Bindings, scope: Bindings, items: Seq<Value>, depth: nat) -> Outcome
    decreases depth, 2nat, 0nat,
{
    unary_spec(env, scope, items, depth, Form::Car)
}

/// `(cdr e)`: what follows the first element of the value of `e`.
pub open spec fn cdr_spec(env: Bindings, scope: Bindings, items: Seq<Value>, depth: nat) -> Outcome
    decreases depth, 2nat, 0nat,
{
    unary_spec(env, scope, items, depth, Form::Cdr)
}

/// `(eq a b)`: both operands are evaluated, the first one first.
pub open spec fn eq_spec(env: Bindings, scope: Bindings, items: Seq<Value>, depth: nat) -> Outcome
    decreases depth, 2nat, 0nat,
{
    if items.len() != 3 {
        fail(env, EvalError::ArityError { form: Form::Eq, expected: 2 })
    } else {
        let o1 = eval_spec(env, scope, items[1], depth);
        match o1.result {
            Err(_) => o1,
            Ok(a) => {
                let o2 = eval_spec(o1.env, scope, items[2], depth);
                match o2.result {
                    Err(_) => o2,
                    Ok(b) => succeed(o2.env, truth_value(eq_test(a, b))),
                }
            },
        }
    }
}

/// `(cons a b)`: both operands are evaluated, the first one first; the second
/// value has to be a list.
pub open spec fn cons_spec(env: Bindings, scope: Bindings, items: Seq<Value>, depth: nat) -> Outcome
    decreases depth, 2nat, 0nat,
{
    if items.len() != 3 {
        fail(env, EvalError::ArityError { form: Form::Cons, expected: 2 })
    } else {
        let o1 = eval_spec(env, scope, items[1], depth);
        match o1.result {
            Err(_) => o1,
            Ok(a) => {
                let o2 = eval_spec(o1.env, scope, items[2], depth);
                match o2.result {
                    Err(_) => o2,
                    Ok(b) => match b {
                        Sexp::List(tail) => succeed(o2.env, Sexp::List(seq![a] + tail)),
                        _ => fail(o2.env, EvalError::TypeError(TypeFault::ConsTail)),
                    },
                }
            },
        }
    }
}

/// `(cond (test result) ...)`, from the clause at `from` on: the result of the
/// first clause whose test gives `t`; the empty list where there is none.
pub open spec fn cond_spec(
    env: Bindings,
    scope: Bindings,
    items: Seq<Value>,
    from: nat,
    depth: nat,
) -> Outcome
    decreases depth, 2nat, items.len() - from,
{
    if from >= items.len() {
        succeed(env, Sexp::nil())
    } else {
        match items[from as int] {
            Sexp::List(clause) if clause.len() == 2 => {
                let o = eval_spec(env, scope, clause[0], depth);
                match o.result {
                    Err(_) => o,
                    Ok(v) => if v == truth() {
                        eval_spec(o.env, scope, clause[1], depth)
                    } else {
                        cond_spec(o.env, scope, items, from + 1, depth)
                    },
                }
            },
            _ => fail(env, EvalError::MalformedCond),
        }
    }
}

/// `(defun name params body)` binds `name`, in the ambient bindings, to a
/// closure literal that refers to itself by that name, and gives the empty
/// list. It does so inside the body of a call as well.
pub open spec fn defun_spec(env: Bindings, items: Seq<Value>) -> Outcome {
    if items.len() != 4 {
        fail(env, EvalError::ArityError { form: Form::Defun, expected: 3 })
    } else if !(items[1] is Atom) {
        fail(env, EvalError::TypeError(TypeFault::DefunName))
    } else if !(items[2] is List && all_atoms(items[2]->List_0)) {
        fail(env, EvalError::TypeError(TypeFault::DefunParams))
    } else {
        succeed(
            env.insert(items[1]->Atom_0, label_literal(items[1], items[2], items[3])),
            Sexp::nil(),
        )
    }
}

/// Where the evaluation of a sequence of arguments ends: the ambient bindings
/// it leaves, and the values in order.
pub struct ArgsOutcome {
    pub env: Bindings,
    pub result: Result<Seq<Value>, EvalError>,
}

/// The items from `from` on, evaluated from left to right, their values
/// appended to `done`. The first failure ends it.
pub open spec fn args_spec(
    env: Bindings,
    scope: Bindings,
    items: Seq<Value>,
    from: nat,
    done: Seq<Value>,
    depth: nat,
) -> ArgsOutcome
    decreases depth, 2nat, items.len() - from,
{
    if from >= items.len() {
        ArgsOutcome { env, result: Ok(done) }
    } else {
        let o = eval_spec(env, scope, items[from as int], depth);
        match o.result {
            Err(e) => ArgsOutcome { env: o.env, result: Err(e) },
            Ok(v) => args_spec(o.env, scope, items, from + 1, done.push(v), depth),
        }
    }
}

/// The application of the closure `f`, written as `literal`, to the operands
/// that follow the operator in `items`. The operands are evaluated in the
/// scope of the caller. The body is evaluated in a scope of its own, which
/// ends with the call; what a `defun` in the body binds is bound in the
/// ambient bindings and stays.
pub open spec fn call_spec(
    env: Bindings,
    scope: Bindings,
    f: Closure,
    literal: Value,
    items: Seq<Value>,
    depth: nat,
) -> Outcome
    decreases depth, 3nat, 0nat,
{
    if f.params.len() != items.len() - 1 {
        fail(env, EvalError::ArityError { form: Form::Closure, expected: f.params.len() as usize })
    } else {
        let a = args_spec(env, scope, items, 1, Seq::empty(), depth);
        match a.result {
            Err(e) => fail(a.env, e),
            Ok(args) => eval_spec(
                a.env,
                child_env(scope, f.name, literal, f.params, args),
                f.body,
                depth,
            ),
        }
    }
}

/// A call: the operator is a closure literal as it stands, or becomes one by
/// one evaluation.
pub open spec fn apply_spec(
    env: Bindings,
    scope: Bindings,
    items: Seq<Value>,
    depth: nat,
) -> Outcome
    recommends
        items.len() > 0,
    decreases depth, 4nat, 0nat,
{
    match closure_of(items[0]) {
        Some(f) => call_spec(env, scope, f, items[0], items, depth),
        None => {
            let o = eval_spec(env, scope, items[0], depth);
            match o.result {
                Err(_) => o,
                Ok(v) => match closure_of(v) {
                    Some(f) => call_spec(o.env, scope, f, v, items, depth),
                    None => fail(o.env, EvalError::NotCallable),
                },
            }
        },
    }
}

/// The outcome of evaluating `e` with at most `depth` evaluations nested in
/// one another. `env` holds the ambient bindings, which `defun` changes;
/// `scope` holds what the call binds in whose body `e` stands, and hides
/// ambient bindings of the same names. Outside any call `scope` is empty.
pub open spec fn eval_spec(env: Bindings, scope: Bindings, e: Value, depth: nat) -> Outcome
    decreases depth, 0nat, 0nat,
{
    if depth == 0 {
        fail(env, EvalError::DepthExceeded)
    } else {
        let inner = (depth - 1) as nat;
        match e {
            Sexp::Atom(name) => match lookup(env, scope, name) {
                Some(v) => succeed(env, v),
                None => fail(env, EvalError::UnboundSymbol),
            },
            Sexp::List(items) => if items.len() == 0 {
                fail(env, EvalError::NoProcedure)
            } else if is_sym("quote"@, items[0]) {
                quote_spec(env, items)
            } else if is_sym("atom"@, items[0]) {
                atom_spec(env, scope, items, inner)
            } else if is_sym("eq"@, items[0]) {
                eq_spec(env, scope, items, inner)
            } else if is_sym("car"@, items[0]) {
                car_spec(env, scope, items, inner)
            } else if is_sym("cdr"@, items[0]) {
                cdr_spec(env, scope, items, inner)
            } else if is_sym("cons"@, items[0]) {
                cons_spec(env, scope, items, inner)
            } else if is_sym("cond"@, items[0]) {
                cond_spec(env, scope, items, 1, inner)
            } else if is_sym("defun"@, items[0]) {
                defun_spec(env, items)
            } else {
                apply_spec(env, scope, items, inner)
            },
        }
    }
}

/// The outcome of evaluating `e` outside any call.
pub open spec fn eval_top(env: Bindings, e: Value, depth: nat) -> Outcome {
    eval_spec(env, Map::empty(), e, depth)
}

} // verus!
