//! The depth limit is no part of a result: an evaluation that ends within
//! one limit ends in the same way within every larger one.

use vstd::prelude::*;
use crate::error::{EvalError, Form};
use crate::expr::{Sexp, Value};
use crate::model::{
    apply_spec, args_spec, call_spec, child_env, closure_of, cond_spec, cons_spec, eq_spec,
    eval_spec, is_sym, truth, unary_spec, Bindings, Closure,
};

verus! {

/// Whether a result is anything but the failure at the depth limit.
pub open spec fn within_limit<T>(r: Result<T, EvalError>) -> bool {
    r != Err::<T, EvalError>(EvalError::DepthExceeded)
}

/// An evaluation that ends within the limit `low` has the same outcome
/// within every limit that is no smaller.
pub proof fn law_depth(env: Bindings, scope: Bindings, e: Value, low: nat, high: nat)
    requires
        low <= high,
        within_limit(eval_spec(env, scope, e, low).result),
    ensures
        eval_spec(env, scope, e, high) == eval_spec(env, scope, e, low),
    decreases low, 0nat, 0nat,
{
    let a = (low - 1) as nat;
    let b = (high - 1) as nat;
    match e {
        Sexp::Atom(_) => {},
        Sexp::List(items) => {
            if items.len() == 0 {
            } else if is_sym("quote"@, items[0]) {
            } else if is_sym("atom"@, items[0]) {
                lemma_unary_depth(env, scope, items, a, b, Form::Atom);
            } else if is_sym("eq"@, items[0]) {
                lemma_eq_depth(env, scope, items, a, b);
            } else if is_sym("car"@, items[0]) {
                lemma_unary_depth(env, scope, items, a, b, Form::Car);
            } else if is_sym("cdr"@, items[0]) {
                lemma_unary_depth(env, scope, items, a, b, Form::Cdr);
            } else if is_sym("cons"@, items[0]) {
                lemma_cons_depth(env, scope, items, a, b);
            } else if is_sym("cond"@, items[0]) {
                lemma_cond_depth(env, scope, items, 1, a, b);
            } else if is_sym("defun"@, items[0]) {
            } else {
                lemma_apply_depth(env, scope, items, a, b);
            }
        },
    }
}

proof fn lemma_unary_depth(
    env: Bindings,
    scope: Bindings,
    items: Seq<Value>,
    low: nat,
    high: nat,
    form: Form,
)
    requires
        low <= high,
        within_limit(unary_spec(env, scope, items, low, form).result),
    ensures
        unary_spec(env, scope, items, high, form) == unary_spec(env, scope, items, low, form),
    decreases low, 1nat, 0nat,
{
    if items.len() == 2 {
        law_depth(env, scope, items[1], low, high);
    }
}

proof fn lemma_eq_depth(env: Bindings, scope: Bindings, items: Seq<Value>, low: nat, high: nat)
    requires
        low <= high,
        within_limit(eq_spec(env, scope, items, low).result),
    ensures
        eq_spec(env, scope, items, high) == eq_spec(env, scope, items, low),
    decreases low, 2nat, 0nat,
{
    if items.len() == 3 {
        law_depth(env, scope, items[1], low, high);
        let first = eval_spec(env, scope, items[1], low);
        if first.result is Ok {
            law_depth(first.env, scope, items[2], low, high);
        }
    }
}

proof fn lemma_cons_depth(env: Bindings, scope: Bindings, items: Seq<Value>, low: nat, high: nat)
    requires
        low <= high,
        within_limit(cons_spec(env, scope, items, low).result),
    ensures
        cons_spec(env, scope, items, high) == cons_spec(env, scope, items, low),
    decreases low, 2nat, 0nat,
{
    if items.len() == 3 {
        law_depth(env, scope, items[1], low, high);
        let first = eval_spec(env, scope, items[1], low);
        if first.result is Ok {
            law_depth(first.env, scope, items[2], low, high);
        }
    }
}

proof fn lemma_cond_depth(
    env: Bindings,
    scope: Bindings,
    items: Seq<Value>,
    from: nat,
    low: nat,
    high: nat,
)
    requires
        low <= high,
        within_limit(cond_spec(env, scope, items, from, low).result),
    ensures
        cond_spec(env, scope, items, from, high) == cond_spec(env, scope, items, from, low),
    decreases low, 2nat, items.len() - from,
{
    if from < items.len() {
        match items[from as int] {
            Sexp::List(clause) => {
                if clause.len() == 2 {
                    law_depth(env, scope, clause[0], low, high);
                    let test = eval_spec(env, scope, clause[0], low);
                    match test.result {
                        Err(_) => {},
                        Ok(v) => {
                            if v == truth() {
                                law_depth(test.env, scope, clause[1], low, high);
                            } else {
                                lemma_cond_depth(test.env, scope, items, from + 1, low, high);
                            }
                        },
                    }
                }
            },
            _ => {},
        }
    }
}

proof fn lemma_args_depth(
    env: Bindings,
    scope: Bindings,
    items: Seq<Value>,
    from: nat,
    done: Seq<Value>,
    low: nat,
    high: nat,
)
    requires
        low <= high,
        within_limit(args_spec(env, scope, items, from, done, low).result),
    ensures
        args_spec(env, scope, items, from, done, high) == args_spec(
            env,
            scope,
            items,
            from,
            done,
            low,
        ),
    decreases low, 2nat, items.len() - from,
{
    if from < items.len() {
        law_depth(env, scope, items[from as int], low, high);
        let o = eval_spec(env, scope, items[from as int], low);
        match o.result {
            Err(_) => {},
            Ok(v) => {
                lemma_args_depth(o.env, scope, items, from + 1, done.push(v), low, high);
            },
        }
    }
}

proof fn lemma_call_depth(
    env: Bindings,
    scope: Bindings,
    f: Closure,
    literal: Value,
    items: Seq<Value>,
    low: nat,
    high: nat,
)
    requires
        low <= high,
        within_limit(call_spec(env, scope, f, literal, items, low).result),
    ensures
        call_spec(env, scope, f, literal, items, high) == call_spec(
            env,
            scope,
            f,
            literal,
            items,
            low,
        ),
    decreases low, 3nat, 0nat,
{
    if f.params.len() == items.len() - 1 {
        lemma_args_depth(env, scope, items, 1, Seq::empty(), low, high);
        let a = args_spec(env, scope, items, 1, Seq::empty(), low);
        match a.result {
            Err(_) => {},
            Ok(args) => {
                law_depth(
                    a.env,
                    child_env(scope, f.name, literal, f.params, args),
                    f.body,
                    low,
                    high,
                );
            },
        }
    }
}

proof fn lemma_apply_depth(env: Bindings, scope: Bindings, items: Seq<Value>, low: nat, high: nat)
    requires
        low <= high,
        within_limit(apply_spec(env, scope, items, low).result),
    ensures
        apply_spec(env, scope, items, high) == apply_spec(env, scope, items, low),
    decreases low, 4nat, 0nat,
{
    match closure_of(items[0]) {
        Some(f) => {
            lemma_call_depth(env, scope, f, items[0], items, low, high);
        },
        None => {
            law_depth(env, scope, items[0], low, high);
            let o = eval_spec(env, scope, items[0], low);
            match o.result {
                Err(_) => {},
                Ok(v) => match closure_of(v) {
                    Some(f) => {
                        lemma_call_depth(o.env, scope, f, v, items, low, high);
                    },
                    None => {},
                },
            }
        },
    }
}

} // verus!
