//! What an evaluation does to the ambient bindings: it unbinds nothing, and
//! what it binds anew are definitions, as `defun` installs them. No
//! parameter of a call and no value of an argument gets there.

use vstd::prelude::*;
use crate::error::Form;
use crate::expr::{Sexp, Value};
use crate::model::{
    all_atoms, apply_spec, args_spec, call_spec, child_env, closure_of, cond_spec, cons_spec,
    defun_spec, eq_spec, eval_spec, is_sym, label_literal, label_of, lambda_of, truth,
    unary_spec, Bindings, Closure,
};

verus! {

/// Whether `v` is a definition of `name`: a closure literal of the shape
/// `(label name (lambda (p1 ...) body))`.
pub open spec fn defines(name: Seq<char>, v: Value) -> bool {
    label_of(v) matches Some(f) && f.name == Some(name)
}

/// Whether `after` is `before` with definitions added or put in the place of
/// what was bound: every name that `before` binds is bound in `after`, and
/// what `after` binds a name to is what `before` bound it to or a definition
/// of that name.
pub open spec fn grows_by_definitions(before: Bindings, after: Bindings) -> bool {
    forall|name: Seq<char>|
        #![trigger after.contains_key(name)]
        {
            &&& before.contains_key(name) ==> after.contains_key(name)
            &&& after.contains_key(name) ==> (before.contains_key(name) && after[name]
                == before[name]) || defines(name, after[name])
        }
}

/// The ambient bindings after an evaluation are those before it with
/// definitions added or put in the place of what was bound, whether the
/// evaluation succeeds or fails and whatever the scope of the call binds.
pub proof fn law_ambient_bindings(env: Bindings, scope: Bindings, e: Value, depth: nat)
    ensures
        grows_by_definitions(env, eval_spec(env, scope, e, depth).env),
    decreases depth, 0nat, 0nat,
{
    if depth > 0 {
        let d = (depth - 1) as nat;
        match e {
            Sexp::Atom(_) => {},
            Sexp::List(items) => {
                if items.len() == 0 {
                } else if is_sym("quote"@, items[0]) {
                } else if is_sym("atom"@, items[0]) {
                    lemma_unary_keeps(env, scope, items, d, Form::Atom);
                } else if is_sym("eq"@, items[0]) {
                    lemma_eq_keeps(env, scope, items, d);
                } else if is_sym("car"@, items[0]) {
                    lemma_unary_keeps(env, scope, items, d, Form::Car);
                } else if is_sym("cdr"@, items[0]) {
                    lemma_unary_keeps(env, scope, items, d, Form::Cdr);
                } else if is_sym("cons"@, items[0]) {
                    lemma_cons_keeps(env, scope, items, d);
                } else if is_sym("cond"@, items[0]) {
                    lemma_cond_keeps(env, scope, items, 1, d);
                } else if is_sym("defun"@, items[0]) {
                    lemma_defun_keeps(env, items);
                } else {
                    lemma_apply_keeps(env, scope, items, d);
                }
            },
        }
    }
}

proof fn lemma_defun_keeps(env: Bindings, items: Seq<Value>)
    ensures
        grows_by_definitions(env, defun_spec(env, items).env),
{
    if items.len() == 4 && items[1] is Atom && items[2] is List && all_atoms(items[2]->List_0) {
        let name = items[1]->Atom_0;
        let literal = label_literal(items[1], items[2], items[3]);
        assert(lambda_of(literal->List_0[2]) is Some);
        assert(defines(name, literal));
    }
}

proof fn lemma_unary_keeps(
    env: Bindings,
    scope: Bindings,
    items: Seq<Value>,
    depth: nat,
    form: Form,
)
    ensures
        grows_by_definitions(env, unary_spec(env, scope, items, depth, form).env),
    decreases depth, 1nat, 0nat,
{
    if items.len() == 2 {
        law_ambient_bindings(env, scope, items[1], depth);
    }
}

proof fn lemma_eq_keeps(env: Bindings, scope: Bindings, items: Seq<Value>, depth: nat)
    ensures
        grows_by_definitions(env, eq_spec(env, scope, items, depth).env),
    decreases depth, 2nat, 0nat,
{
    if items.len() == 3 {
        law_ambient_bindings(env, scope, items[1], depth);
        let first = eval_spec(env, scope, items[1], depth);
        law_ambient_bindings(first.env, scope, items[2], depth);
    }
}

proof fn lemma_cons_keeps(env: Bindings, scope: Bindings, items: Seq<Value>, depth: nat)
    ensures
        grows_by_definitions(env, cons_spec(env, scope, items, depth).env),
    decreases depth, 2nat, 0nat,
{
    if items.len() == 3 {
        law_ambient_bindings(env, scope, items[1], depth);
        let first = eval_spec(env, scope, items[1], depth);
        law_ambient_bindings(first.env, scope, items[2], depth);
    }
}

proof fn lemma_cond_keeps(env: Bindings, scope: Bindings, items: Seq<Value>, from: nat, depth: nat)
    ensures
        grows_by_definitions(env, cond_spec(env, scope, items, from, depth).env),
    decreases depth, 2nat, items.len() - from,
{
    if from < items.len() {
        match items[from as int] {
            Sexp::List(clause) => {
                if clause.len() == 2 {
                    law_ambient_bindings(env, scope, clause[0], depth);
                    let test = eval_spec(env, scope, clause[0], depth);
                    match test.result {
                        Err(_) => {},
                        Ok(v) => {
                            if v == truth() {
                                law_ambient_bindings(test.env, scope, clause[1], depth);
                            } else {
                                lemma_cond_keeps(test.env, scope, items, from + 1, depth);
                            }
                        },
                    }
                }
            },
            _ => {},
        }
    }
}

proof fn lemma_args_keep(
    env: Bindings,
    scope: Bindings,
    items: Seq<Value>,
    from: nat,
    done: Seq<Value>,
    depth: nat,
)
    ensures
        grows_by_definitions(env, args_spec(env, scope, items, from, done, depth).env),
    decreases depth, 2nat, items.len() - from,
{
    if from < items.len() {
        law_ambient_bindings(env, scope, items[from as int], depth);
        let o = eval_spec(env, scope, items[from as int], depth);
        match o.result {
            Err(_) => {},
            Ok(v) => {
                lemma_args_keep(o.env, scope, items, from + 1, done.push(v), depth);
            },
        }
    }
}

proof fn lemma_call_keeps(
    env: Bindings,
    scope: Bindings,
    f: Closure,
    literal: Value,
    items: Seq<Value>,
    depth: nat,
)
    ensures
        grows_by_definitions(env, call_spec(env, scope, f, literal, items, depth).env),
    decreases depth, 3nat, 0nat,
{
    if f.params.len() == items.len() - 1 {
        lemma_args_keep(env, scope, items, 1, Seq::empty(), depth);
        let a = args_spec(env, scope, items, 1, Seq::empty(), depth);
        match a.result {
            Err(_) => {},
            Ok(args) => {
                law_ambient_bindings(
                    a.env,
                    child_env(scope, f.name, literal, f.params, args),
                    f.body,
                    depth,
                );
            },
        }
    }
}

proof fn lemma_apply_keeps(env: Bindings, scope: Bindings, items: Seq<Value>, depth: nat)
    ensures
        grows_by_definitions(env, apply_spec(env, scope, items, depth).env),
    decreases depth, 4nat, 0nat,
{
    match closure_of(items[0]) {
        Some(f) => {
            lemma_call_keeps(env, scope, f, items[0], items, depth);
        },
        None => {
            law_ambient_bindings(env, scope, items[0], depth);
            let o = eval_spec(env, scope, items[0], depth);
            match o.result {
                Err(_) => {},
                Ok(v) => match closure_of(v) {
                    Some(f) => {
                        lemma_call_keeps(o.env, scope, f, v, items, depth);
                    },
                    None => {},
                },
            }
        },
    }
}

} // verus!
