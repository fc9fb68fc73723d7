//! The evaluator.
//!
//! `eval` and `eval_within` evaluate an expression. Each form has a function
//! of its own, which takes the ambient environment, the scope of the call in
//! whose body the form stands, the whole form, its name included, and the
//! depth that is left for the evaluation of its operands. All of them leave
//! in the ambient environment what `defun` bound up to the end of the
//! evaluation or its failure.

use vstd::prelude::*;
use crate::closure::{is_symbol, parse_func_literal, Func};
use crate::env::Env;
use crate::error::{EvalError, Form, TypeFault};
use crate::expr::{
    lemma_empty_list_value, lemma_list_value, lemma_string_clone_keeps_view, values_of, Expr,
    Sexp, Value, E,
};
use crate::model::{
    apply_spec, args_spec, atom_spec, bind_params, call_spec, car_spec, cdr_spec, child_env,
    cond_spec, cons_spec, defun_spec, eq_spec, eval_spec, eval_top, truth_value, Outcome,
};
use crate::text::texts_of;

verus! {

/// What an evaluation gives: an expression, or the reason why there is none.
pub type EvalResult = Result<E, EvalError>;

/// The value of a result.
pub open spec fn result_value(r: EvalResult) -> Result<Value, EvalError> {
    match r {
        Ok(e) => Ok(e@),
        Err(x) => Err(x),
    }
}

/// The outcome that an environment and a result stand for.
pub open spec fn outcome(env: Env, r: EvalResult) -> Outcome {
    Outcome { env: env@, result: result_value(r) }
}

/// The atom `t` where `b` holds, the empty list where it does not.
pub fn truth_expr(b: bool) -> (r: E)
    ensures
        r@ == truth_value(b),
{
    if b {
        Expr::Atom("t".to_owned())
    } else {
        let r = Expr::empty_list();
        proof {
            lemma_empty_list_value(r);
        }
        r
    }
}

/// Evaluates `expr` in the ambient environment `env`, outside any call. The
/// limit on nested evaluations is the largest there is, so it is the stack
/// that ends a program which calls itself without end; `eval_within` takes a
/// limit that ends it with a failure.
pub fn eval(env: &mut Env, expr: E) -> (r: EvalResult)
    ensures
        outcome(*final(env), r) == eval_top(old(env)@, expr@, usize::MAX as nat),
{
    let scope = Env::new();
    eval_within(env, &scope, &expr, usize::MAX)
}

/// Evaluates `expr` with at most `depth` evaluations nested in one another:
/// one that would need more fails with `DepthExceeded`. `env` is the ambient
/// environment, in which `defun` binds; `scope` holds what the call binds in
/// whose body `expr` stands, and is empty outside any call. A name is looked
/// up in `scope` first.
pub fn eval_within(env: &mut Env, scope: &Env, expr: &E, depth: usize) -> (r: EvalResult)
    ensures
        outcome(*final(env), r) == eval_spec(old(env)@, scope@, expr@, depth as nat),
    decreases depth, 0nat, 0nat,
{
    if depth == 0 {
        return Err(EvalError::DepthExceeded);
    }
    let inner: usize = depth - 1;
    match expr {
        Expr::Atom(v) => {
            match scope.find(v.as_str()) {
                Some(e) => Ok(e),
                None => match env.find(v.as_str()) {
                    Some(e) => Ok(e),
                    None => Err(EvalError::UnboundSymbol),
                },
            }
        },
        Expr::List(vec) => {
            proof {
                lemma_list_value(*vec);
            }
            if vec.len() == 0 {
                Err(EvalError::NoProcedure)
            } else if is_symbol("quote", &vec[0]) {
                eval_quote(vec)
            } else if is_symbol("atom", &vec[0]) {
                eval_atom(env, scope, vec, inner)
            } else if is_symbol("eq", &vec[0]) {
                eval_eq(env, scope, vec, inner)
            } else if is_symbol("car", &vec[0]) {
                eval_car(env, scope, vec, inner)
            } else if is_symbol("cdr", &vec[0]) {
                eval_cdr(env, scope, vec, inner)
            } else if is_symbol("cons", &vec[0]) {
                eval_cons(env, scope, vec, inner)
            } else if is_symbol("cond", &vec[0]) {
                eval_cond(env, scope, vec, inner)
            } else if is_symbol("defun", &vec[0]) {
                eval_defun(env, vec)
            } else {
                eval_func_call(env, scope, vec, inner)
            }
        },
    }
}

/// `(quote e)`: gives `e` as it stands.
pub fn eval_quote(vec: &Vec<E>) -> (r: EvalResult)
    ensures
        match r {
            Ok(e) => vec.len() == 2 && e@ == vec[1]@,
            Err(x) => vec.len() != 2 && x == (EvalError::ArityError {
                form: Form::Quote,
                expected: 1,
            }),
        },
{
    if vec.len() != 2 {
        Err(EvalError::ArityError { form: Form::Quote, expected: 1 })
    } else {
        proof {
            lemma_string_clone_keeps_view();
        }
        Ok(vec[1].clone())
    }
}

/// `(atom e)`: `t` where the value of `e` is an atom or the empty list.
pub fn eval_atom(env: &mut Env, scope: &Env, vec: &Vec<E>, depth: usize) -> (r: EvalResult)
    ensures
        outcome(*final(env), r) == atom_spec(old(env)@, scope@, values_of(vec@), depth as nat),
    decreases depth, 2nat, 0nat,
{
    if vec.len() != 2 {
        Err(EvalError::ArityError { form: Form::Atom, expected: 1 })
    } else {
        match eval_within(env, scope, &vec[1], depth) {
            Err(e) => Err(e),
            Ok(val) => {
                proof {
                    lemma_empty_list_value(val);
                }
                Ok(truth_expr(val.is_atom() || val.is_empty_list()))
            },
        }
    }
}

/// `(eq a b)`: `t` where both values are the empty list, or both are atoms of
/// one name.
pub fn eval_eq(env: &mut Env, scope: &Env, vec: &Vec<E>, depth: usize) -> (r: EvalResult)
    ensures
        outcome(*final(env), r) == eq_spec(old(env)@, scope@, values_of(vec@), depth as nat),
    decreases depth, 2nat, 0nat,
{
    if vec.len() != 3 {
        Err(EvalError::ArityError { form: Form::Eq, expected: 2 })
    } else {
        match eval_within(env, scope, &vec[1], depth) {
            Err(e) => Err(e),
            Ok(val1) => match eval_within(env, scope, &vec[2], depth) {
                Err(e) => Err(e),
                Ok(val2) => {
                    proof {
                        lemma_empty_list_value(val1);
                        lemma_empty_list_value(val2);
                    }
                    let same = (val1.is_empty_list() && val2.is_empty_list()) || (val1.is_atom()
                        && val2.is_atom() && *val1.get_ref_atom() == *val2.get_ref_atom());
                    Ok(truth_expr(same))
                },
            },
        }
    }
}

/// `(car e)`: the first element of a list that has one, else the empty list.
pub fn eval_car(env: &mut Env, scope: &Env, vec: &Vec<E>, depth: usize) -> (r: EvalResult)
    ensures
        outcome(*final(env), r) == car_spec(old(env)@, scope@, values_of(vec@), depth as nat),
    decreases depth, 2nat, 0nat,
{
    if vec.len() != 2 {
        Err(EvalError::ArityError { form: Form::Car, expected: 1 })
    } else {
        match eval_within(env, scope, &vec[1], depth) {
            Err(e) => Err(e),
            Ok(val) => {
                if val.is_list() && !val.is_empty_list() {
                    let list = val.unwrap_list();
                    proof {
                        lemma_list_value(list);
                        lemma_string_clone_keeps_view();
                    }
                    Ok(list[0].clone())
                } else {
                    proof {
                        lemma_empty_list_value(val);
                    }
                    Ok(truth_expr(false))
                }
            },
        }
    }
}

/// `(cdr e)`: what follows the first element of a list that has one, else the
/// empty list.
pub fn eval_cdr(env: &mut Env, scope: &Env, vec: &Vec<E>, depth: usize) -> (r: EvalResult)
    ensures
        outcome(*final(env), r) == cdr_spec(old(env)@, scope@, values_of(vec@), depth as nat),
    decreases depth, 2nat, 0nat,
{
    if vec.len() != 2 {
        Err(EvalError::ArityError { form: Form::Cdr, expected: 1 })
    } else {
        match eval_within(env, scope, &vec[1], depth) {
            Err(e) => Err(e),
            Ok(val) => {
                if val.is_list() && !val.is_empty_list() {
                    let mut list = val.unwrap_list();
                    let ghost before = list;
                    list.remove(0);
                    proof {
                        lemma_list_value(before);
                        lemma_list_value(list);
                        assert(values_of(list@) =~= values_of(before@).drop_first());
                    }
                    Ok(Expr::List(list))
                } else {
                    proof {
                        lemma_empty_list_value(val);
                    }
                    Ok(truth_expr(false))
                }
            },
        }
    }
}

/// `(cons a b)`: the value of `a` put in front of the list that `b` gives.
pub fn eval_cons(env: &mut Env, scope: &Env, vec: &Vec<E>, depth: usize) -> (r: EvalResult)
    ensures
        outcome(*final(env), r) == cons_spec(old(env)@, scope@, values_of(vec@), depth as nat),
    decreases depth, 2nat, 0nat,
{
    if vec.len() != 3 {
        Err(EvalError::ArityError { form: Form::Cons, expected: 2 })
    } else {
        match eval_within(env, scope, &vec[1], depth) {
            Err(e) => Err(e),
            Ok(val1) => match eval_within(env, scope, &vec[2], depth) {
                Err(e) => Err(e),
                Ok(val2) => match val2 {
                    Expr::List(list) => {
                        let mut list = list;
                        let ghost before = list;
                        list.insert(0, val1);
                        proof {
                            lemma_list_value(before);
                            lemma_list_value(list);
                            assert(values_of(list@) =~= seq![val1@] + values_of(before@));
                        }
                        Ok(Expr::List(list))
                    },
                    _ => Err(EvalError::TypeError(TypeFault::ConsTail)),
                },
            },
        }
    }
}

/// `(cond (test result) ...)`: the result of the first clause whose test
/// gives `t`; later clauses are not looked at.
#[verifier::loop_isolation(false)]
pub fn eval_cond(env: &mut Env, scope: &Env, vec: &Vec<E>, depth: usize) -> (r: EvalResult)
    ensures
        outcome(*final(env), r) == cond_spec(old(env)@, scope@, values_of(vec@), 1, depth as nat),
    decreases depth, 2nat, 0nat,
{
    let ghost start = env@;
    let ghost items = values_of(vec@);
    let mut i: usize = 1;
    while i < vec.len()
        invariant
            1 <= i,
            cond_spec(start, scope@, items, 1, depth as nat) == cond_spec(
                env@,
                scope@,
                items,
                i as nat,
                depth as nat,
            ),
        decreases vec.len() - i,
    {
        match &vec[i] {
            Expr::List(list) => {
                proof {
                    lemma_list_value(*list);
                }
                if list.len() != 2 {
                    return Err(EvalError::MalformedCond);
                } else {
                    match eval_within(env, scope, &list[0], depth) {
                        Err(e) => {
                            return Err(e);
                        },
                        Ok(val) => {
                            if is_symbol("t", &val) {
                                return eval_within(env, scope, &list[1], depth);
                            }
                        },
                    }
                }
            },
            _ => {
                return Err(EvalError::MalformedCond);
            },
        }
        i += 1;
    }
    Ok(truth_expr(false))
}

/// `(defun name params body)`: binds `name` in `env` to the closure literal
/// `(label name (lambda params body))` and gives the empty list.
pub fn eval_defun(env: &mut Env, vec: &Vec<E>) -> (r: EvalResult)
    ensures
        outcome(*final(env), r) == defun_spec(old(env)@, values_of(vec@)),
{
    if vec.len() != 4 {
        Err(EvalError::ArityError { form: Form::Defun, expected: 3 })
    } else {
        if !vec[1].is_atom() {
            return Err(EvalError::TypeError(TypeFault::DefunName));
        }
        if !vec[2].is_list() {
            return Err(EvalError::TypeError(TypeFault::DefunParams));
        }
        let params = vec[2].get_ref_list();
        proof {
            lemma_list_value(*params);
        }
        let mut i: usize = 0;
        while i < params.len()
            invariant
                i <= params.len(),
                forall|j: int| 0 <= j < i ==> (#[trigger] params[j]) is Atom,
                vec.len() == 4,
                vec[1] is Atom,
                vec[2] is List,
                *params == vec[2]->List_0,
                *env == *old(env),
                vec[2]@ == Sexp::List(values_of(params@)),
            decreases params.len() - i,
        {
            if !params[i].is_atom() {
                assert(!(values_of(params@)[i as int] is Atom));
                return Err(EvalError::TypeError(TypeFault::DefunParams));
            }
            i += 1;
        }
        assert forall|j: int| 0 <= j < params.len() implies (#[trigger] values_of(
            params@,
        )[j]) is Atom by {
            assert(params[j] is Atom);
        }
        proof {
            lemma_string_clone_keeps_view();
        }
        let func_name = vec[1].clone();
        let params = vec[2].clone();
        let body = vec[3].clone();
        let inner: Vec<E> = vec![Expr::Atom("lambda".to_owned()), params, body];
        let lambda_expr = Expr::List(inner);
        let outer: Vec<E> = vec![Expr::Atom("label".to_owned()), func_name, lambda_expr];
        let label_expr = Expr::List(outer);
        proof {
            lemma_list_value(inner);
            lemma_list_value(outer);
            assert(values_of(inner@) =~= seq![Sexp::Atom("lambda"@), vec[2]@, vec[3]@]);
            assert(values_of(outer@) =~= seq![Sexp::Atom("label"@), vec[1]@, lambda_expr@]);
        }
        env.bind(vec[1].get_ref_atom().clone(), label_expr);
        Ok(truth_expr(false))
    }
}

/// The scope for the body of a call: a copy of the caller's scope in which
/// the closure's own name, if it has one, is bound to `literal`, and then
/// each parameter to the argument at its place. The caller's scope stays as
/// it is.
pub fn call_scope(
    caller: &Env,
    params: &Vec<String>,
    sym: Option<String>,
    literal: E,
    args: &Vec<E>,
) -> (scope: Env)
    requires
        params.len() == args.len(),
    ensures
        scope@ == child_env(
            caller@,
            match sym {
                Some(s) => Some(s@),
                None => None,
            },
            literal@,
            texts_of(params@),
            values_of(args@),
        ),
{
    let mut scope = caller.clone();
    match sym {
        Some(s) => {
            scope.bind(s, literal);
        },
        None => {},
    }
    let ghost base = scope@;
    let ghost names = texts_of(params@);
    let ghost values = values_of(args@);
    let mut j: usize = 0;
    while j < params.len()
        invariant
            j <= params.len(),
            params.len() == args.len(),
            names == texts_of(params@),
            values == values_of(args@),
            scope@ == bind_params(base, names.take(j as int), values.take(j as int)),
        decreases params.len() - j,
    {
        proof {
            lemma_string_clone_keeps_view();
            assert(names.take(j + 1).drop_last() =~= names.take(j as int));
            assert(values.take(j + 1).drop_last() =~= values.take(j as int));
        }
        scope.bind(params[j].clone(), args[j].clone());
        j += 1;
    }
    proof {
        assert(names.take(j as int) =~= names);
        assert(values.take(j as int) =~= values);
    }
    scope
}

/// Applies the closure `func`, written as `literal`, to the operands that
/// follow the operator in `vec`.
#[verifier::loop_isolation(false)]
pub fn eval_closure_call(
    env: &mut Env,
    scope: &Env,
    func: Func,
    literal: E,
    vec: &Vec<E>,
    depth: usize,
) -> (r: EvalResult)
    requires
        vec.len() > 0,
    ensures
        outcome(*final(env), r) == call_spec(
            old(env)@,
            scope@,
            func@,
            literal@,
            values_of(vec@),
            depth as nat,
        ),
    decreases depth, 3nat, 0nat,
{
    let ghost start = env@;
    let ghost items = values_of(vec@);
    let Func { params, body, sym } = func;
    if params.len() != vec.len() - 1 {
        return Err(EvalError::ArityError { form: Form::Closure, expected: params.len() });
    }
    let mut args: Vec<E> = Vec::new();
    let mut i: usize = 1;
    assert(values_of(args@) =~= Seq::empty());
    while i < vec.len()
        invariant
            1 <= i <= vec.len(),
            args.len() == i - 1,
            args_spec(start, scope@, items, 1, Seq::empty(), depth as nat) == args_spec(
                env@,
                scope@,
                items,
                i as nat,
                values_of(args@),
                depth as nat,
            ),
        decreases vec.len() - i,
    {
        match eval_within(env, scope, &vec[i], depth) {
            Err(e) => {
                return Err(e);
            },
            Ok(v) => {
                proof {
                    assert(values_of(args@.push(v)) =~= values_of(args@).push(v@));
                }
                args.push(v);
            },
        }
        i += 1;
    }
    let inner = call_scope(scope, &params, sym, literal, &args);
    eval_within(env, &inner, &body, depth)
}

/// A call: the operator, `vec[0]`, is a closure literal, or an expression
/// whose value is one; the closure is applied to the operands after it.
pub fn eval_func_call(env: &mut Env, scope: &Env, vec: &Vec<E>, depth: usize) -> (r: EvalResult)
    requires
        vec.len() > 0,
    ensures
        outcome(*final(env), r) == apply_spec(old(env)@, scope@, values_of(vec@), depth as nat),
    decreases depth, 4nat, 0nat,
{
    match parse_func_literal(&vec[0]) {
        Some(f) => {
            proof {
                lemma_string_clone_keeps_view();
            }
            eval_closure_call(env, scope, f, vec[0].clone(), vec, depth)
        },
        None => match eval_within(env, scope, &vec[0], depth) {
            Err(e) => Err(e),
            Ok(op) => match parse_func_literal(&op) {
                Some(f) => eval_closure_call(env, scope, f, op, vec, depth),
                None => Err(EvalError::NotCallable),
            },
        },
    }
}

} // verus!
