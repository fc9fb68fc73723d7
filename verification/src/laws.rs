//! Laws of evaluation, proved from its definition.

use vstd::prelude::*;
use crate::error::{EvalError, Form, TypeFault};
use crate::expr::{Sexp, Value};
use crate::model::{
    all_atoms, apply_spec, args_spec, atom_spec, bind_params, call_spec, car_spec, cdr_spec,
    child_env, closure_of, cond_spec, cons_spec, defun_spec, eq_spec, eval_spec, fail, is_sym,
    label_literal, quote_spec, succeed, truth, unary_spec, Bindings, Closure, Outcome,
};

verus! {

/// The form that a name stands for, with the number of operands it takes.
/// `cond` takes any number of clauses and is not among them.
pub open spec fn fixed_form(name: Seq<char>) -> Option<(Form, nat)> {
    if name == "quote"@ {
        Some((Form::Quote, 1nat))
    } else if name == "atom"@ {
        Some((Form::Atom, 1nat))
    } else if name == "eq"@ {
        Some((Form::Eq, 2nat))
    } else if name == "car"@ {
        Some((Form::Car, 1nat))
    } else if name == "cdr"@ {
        Some((Form::Cdr, 1nat))
    } else if name == "cons"@ {
        Some((Form::Cons, 2nat))
    } else if name == "defun"@ {
        Some((Form::Defun, 3nat))
    } else {
        None
    }
}

/// Whether `name` is the name of a form that the evaluator treats itself.
pub open spec fn is_form_name(name: Seq<char>) -> bool {
    fixed_form(name) is Some || name == "cond"@
}

/// The names of the forms differ from one another, and from `lambda` and
/// `label`.
pub proof fn lemma_names_differ()
    ensures
        fixed_form("quote"@) == Some((Form::Quote, 1nat)),
        fixed_form("atom"@) == Some((Form::Atom, 1nat)),
        fixed_form("eq"@) == Some((Form::Eq, 2nat)),
        fixed_form("car"@) == Some((Form::Car, 1nat)),
        fixed_form("cdr"@) == Some((Form::Cdr, 1nat)),
        fixed_form("cons"@) == Some((Form::Cons, 2nat)),
        fixed_form("defun"@) == Some((Form::Defun, 3nat)),
        fixed_form("cond"@) is None,
        !is_form_name("lambda"@),
        !is_form_name("label"@),
        !is_form_name("t"@),
{
    reveal_strlit("quote");
    reveal_strlit("atom");
    reveal_strlit("eq");
    reveal_strlit("car");
    reveal_strlit("cdr");
    reveal_strlit("cons");
    reveal_strlit("cond");
    reveal_strlit("defun");
    reveal_strlit("lambda");
    reveal_strlit("label");
    reveal_strlit("t");
    assert("quote"@.len() == 5 && "quote"@[0] == 'q');
    assert("atom"@.len() == 4 && "atom"@[0] == 'a');
    assert("eq"@.len() == 2);
    assert("car"@.len() == 3 && "car"@[1] == 'a');
    assert("cdr"@.len() == 3 && "cdr"@[1] == 'd');
    assert("cons"@.len() == 4 && "cons"@[0] == 'c' && "cons"@[3] == 's');
    assert("cond"@.len() == 4 && "cond"@[0] == 'c' && "cond"@[3] == 'd');
    assert("defun"@.len() == 5 && "defun"@[0] == 'd');
    assert("lambda"@.len() == 6);
    assert("label"@.len() == 5 && "label"@[0] == 'l');
    assert("t"@.len() == 1);
}

/// The outcome of `b`, evaluated in what the evaluation of `a` left bound.
pub open spec fn second_value(
    env: Bindings,
    scope: Bindings,
    a: Value,
    b: Value,
    depth: nat,
) -> Outcome {
    eval_spec(eval_spec(env, scope, a, depth).env, scope, b, depth)
}

/// Quoting gives the quoted expression as it stands, whatever the
/// environment binds, and leaves the environment as it was.
pub proof fn law_quote(env: Bindings, scope: Bindings, e: Value, depth: nat)
    requires
        depth > 0,
    ensures
        eval_spec(env, scope, Sexp::List(seq![Sexp::Atom("quote"@), e]), depth) == succeed(env, e),
{
}

/// A form that takes a fixed number of operands and gets another number fails
/// with an arity error that names the form and the number it takes; nothing
/// is evaluated and the environment stays as it was.
pub proof fn law_form_arity(
    env: Bindings,
    scope: Bindings,
    items: Seq<Value>,
    depth: nat,
    form: Form,
    takes: nat,
)
    requires
        depth > 0,
        items.len() > 0,
        items[0] is Atom,
        fixed_form(items[0]->Atom_0) == Some((form, takes)),
        items.len() - 1 != takes,
    ensures
        eval_spec(env, scope, Sexp::List(items), depth) == fail(
            env,
            EvalError::ArityError { form, expected: takes as usize },
        ),
{
    lemma_names_differ();
    let name = items[0]->Atom_0;
    let inner = (depth - 1) as nat;
    assert(is_sym(name, items[0]));
    if name == "quote"@ {
        assert(eval_spec(env, scope, Sexp::List(items), depth) == quote_spec(env, items));
    } else if name == "atom"@ {
        assert(eval_spec(env, scope, Sexp::List(items), depth) == atom_spec(
            env,
            scope,
            items,
            inner,
        ));
    } else if name == "eq"@ {
        assert(eval_spec(env, scope, Sexp::List(items), depth) == eq_spec(
            env,
            scope,
            items,
            inner,
        ));
    } else if name == "car"@ {
        assert(eval_spec(env, scope, Sexp::List(items), depth) == car_spec(
            env,
            scope,
            items,
            inner,
        ));
    } else if name == "cdr"@ {
        assert(eval_spec(env, scope, Sexp::List(items), depth) == cdr_spec(
            env,
            scope,
            items,
            inner,
        ));
    } else if name == "cons"@ {
        assert(eval_spec(env, scope, Sexp::List(items), depth) == cons_spec(
            env,
            scope,
            items,
            inner,
        ));
    } else {
        assert(eval_spec(env, scope, Sexp::List(items), depth) == defun_spec(env, items));
    }
}

/// A closure literal applied to another number of operands than it has
/// parameters fails with an arity error that gives the number of parameters;
/// no operand is evaluated.
pub proof fn law_closure_arity(
    env: Bindings,
    scope: Bindings,
    items: Seq<Value>,
    depth: nat,
    f: Closure,
)
    requires
        depth > 0,
        items.len() > 0,
        closure_of(items[0]) == Some(f),
        f.params.len() != items.len() - 1,
    ensures
        eval_spec(env, scope, Sexp::List(items), depth) == fail(
            env,
            EvalError::ArityError { form: Form::Closure, expected: f.params.len() as usize },
        ),
{
    assert(items[0] is List);
    let inner = (depth - 1) as nat;
    assert(eval_spec(env, scope, Sexp::List(items), depth) == apply_spec(env, scope, items, inner));
    assert(apply_spec(env, scope, items, inner) == call_spec(
        env,
        scope,
        f,
        items[0],
        items,
        inner,
    ));
}

/// `cons` fails with a type error where its operands have values and the
/// second value is no list.
pub proof fn law_cons_type(env: Bindings, scope: Bindings, a: Value, b: Value, depth: nat)
    requires
        depth > 1,
        eval_spec(env, scope, a, (depth - 1) as nat).result is Ok,
        second_value(env, scope, a, b, (depth - 1) as nat).result is Ok,
        !(second_value(env, scope, a, b, (depth - 1) as nat).result->Ok_0 is List),
    ensures
        eval_spec(env, scope, Sexp::List(seq![Sexp::Atom("cons"@), a, b]), depth).result == Err::<
            Value,
            EvalError,
        >(EvalError::TypeError(TypeFault::ConsTail)),
{
    lemma_names_differ();
}

/// `defun` fails with a type error where the name is no atom, and where the
/// parameters are not a list of atoms; it then binds nothing.
pub proof fn law_defun_type(
    env: Bindings,
    scope: Bindings,
    name: Value,
    params: Value,
    body: Value,
    depth: nat,
)
    requires
        depth > 0,
    ensures
        !(name is Atom) ==> eval_spec(env, scope,
            Sexp::List(seq![Sexp::Atom("defun"@), name, params, body]),
            depth,
        ) == fail(env, EvalError::TypeError(TypeFault::DefunName)),
        name is Atom && !(params is List && all_atoms(params->List_0)) ==> eval_spec(env, scope,
            Sexp::List(seq![Sexp::Atom("defun"@), name, params, body]),
            depth,
        ) == fail(env, EvalError::TypeError(TypeFault::DefunParams)),
        name is Atom && params is List && all_atoms(params->List_0) ==> eval_spec(env, scope,
            Sexp::List(seq![Sexp::Atom("defun"@), name, params, body]),
            depth,
        ) == succeed(
            env.insert(name->Atom_0, label_literal(name, params, body)),
            Sexp::<Seq<char>>::nil(),
        ),
{
    lemma_names_differ();
}

/// A clause of `cond` that is reached and is not a list of two expressions
/// makes the form fail, and nothing of it is evaluated.
pub proof fn law_cond_malformed_clause(
    env: Bindings,
    scope: Bindings,
    items: Seq<Value>,
    from: nat,
    depth: nat,
)
    requires
        from < items.len(),
        !(items[from as int] is List && items[from as int]->List_0.len() == 2),
    ensures
        cond_spec(env, scope, items, from, depth) == fail(env, EvalError::MalformedCond),
{
}

/// `cond` goes through its clauses from the first one after its name, and
/// gives the empty list where there is none.
pub proof fn law_cond_clauses(env: Bindings, scope: Bindings, items: Seq<Value>, depth: nat)
    requires
        depth > 0,
        items.len() > 0,
        is_sym("cond"@, items[0]),
    ensures
        eval_spec(env, scope, Sexp::List(items), depth) == cond_spec(
            env,
            scope,
            items,
            1,
            (depth - 1) as nat,
        ),
        items.len() == 1 ==> eval_spec(env, scope, Sexp::List(items), depth) == succeed(
            env,
            Sexp::<Seq<char>>::nil(),
        ),
{
    lemma_names_differ();
}

/// The first clause of `cond` whose test gives `t` decides: the outcome is
/// that of its result, evaluated in what the test left bound, whatever
/// follows the clause.
pub proof fn law_cond_true_clause(
    env: Bindings,
    scope: Bindings,
    items: Seq<Value>,
    from: nat,
    test: Value,
    result: Value,
    depth: nat,
)
    requires
        from < items.len(),
        items[from as int] == Sexp::List(seq![test, result]),
        eval_spec(env, scope, test, depth).result == Ok::<Value, EvalError>(truth()),
    ensures
        cond_spec(env, scope, items, from, depth) == eval_spec(
            eval_spec(env, scope, test, depth,
        ).env, scope,
            result,
            depth,
        ),
{
}

/// A clause of `cond` whose test gives anything but `t` is passed over: the
/// outcome is that of the clauses after it, in what the test left bound.
pub proof fn law_cond_false_clause(
    env: Bindings,
    scope: Bindings,
    items: Seq<Value>,
    from: nat,
    test: Value,
    result: Value,
    depth: nat,
)
    requires
        from < items.len(),
        items[from as int] == Sexp::List(seq![test, result]),
        eval_spec(env, scope, test, depth).result is Ok,
        eval_spec(env, scope, test, depth).result != Ok::<Value, EvalError>(truth()),
    ensures
        cond_spec(env, scope, items, from, depth) == cond_spec(
            eval_spec(env, scope, test, depth).env,
            scope,
            items,
            from + 1,
            depth,
        ),
{
}

/// A call whose operands have values ends as the evaluation of the body
/// ends, in the scope of the call: what a `defun` in the body binds stays
/// bound in the ambient bindings after the call.
pub proof fn law_call_is_body(
    env: Bindings,
    scope: Bindings,
    f: Closure,
    literal: Value,
    items: Seq<Value>,
    depth: nat,
)
    requires
        items.len() > 0,
        f.params.len() == items.len() - 1,
        args_spec(env, scope, items, 1, Seq::empty(), depth).result is Ok,
    ensures
        call_spec(env, scope, f, literal, items, depth) == eval_spec(
            args_spec(env, scope, items, 1, Seq::empty(), depth).env,
            child_env(
                scope,
                f.name,
                literal,
                f.params,
                args_spec(env, scope, items, 1, Seq::empty(), depth).result->Ok_0,
            ),
            f.body,
            depth,
        ),
{
}

/// `defun` binds in the ambient bindings, whatever the scope of a call
/// binds: a call without operands whose body is a `defun` leaves the name
/// bound to its definition, and gives the empty list.
pub proof fn law_defun_in_call(
    env: Bindings,
    scope: Bindings,
    f: Closure,
    literal: Value,
    name: Seq<char>,
    params: Seq<Value>,
    body: Value,
    depth: nat,
)
    requires
        depth > 0,
        f.params.len() == 0,
        f.body == Sexp::List(
            seq![Sexp::Atom("defun"@), Sexp::Atom(name), Sexp::List(params), body],
        ),
        all_atoms(params),
    ensures
        call_spec(env, scope, f, literal, seq![literal], depth) == succeed(
            env.insert(name, label_literal(Sexp::Atom(name), Sexp::List(params), body)),
            Sexp::<Seq<char>>::nil(),
        ),
{
    lemma_names_differ();
    let items = seq![literal];
    assert(args_spec(env, scope, items, 1, Seq::empty(), depth).result == Ok::<
        Seq<Value>,
        EvalError,
    >(Seq::empty()));
    let inner = child_env(scope, f.name, literal, f.params, Seq::empty());
    let form = f.body->List_0;
    assert(eval_spec(env, inner, f.body, depth) == defun_spec(env, form));
}

/// A name stands for what the scope of the call binds it to; for what the
/// ambient bindings bind it to where the scope does not bind it; and for
/// nothing where neither binds it. To look a name up changes nothing.
pub proof fn law_lookup(env: Bindings, scope: Bindings, name: Seq<char>, depth: nat)
    requires
        depth > 0,
    ensures
        scope.contains_key(name) ==> eval_spec(env, scope, Sexp::Atom(name), depth) == succeed(
            env,
            scope[name],
        ),
        !scope.contains_key(name) && env.contains_key(name) ==> eval_spec(
            env,
            scope,
            Sexp::Atom(name),
            depth,
        ) == succeed(env, env[name]),
        !scope.contains_key(name) && !env.contains_key(name) ==> eval_spec(
            env,
            scope,
            Sexp::Atom(name),
            depth,
        ) == fail(env, EvalError::UnboundSymbol),
{
}

/// The failure of the operand of `atom`, `car` or `cdr` is the failure of the
/// form, unchanged.
pub proof fn law_operand_failure(
    env: Bindings,
    scope: Bindings,
    items: Seq<Value>,
    depth: nat,
    form: Form,
)
    requires
        items.len() == 2,
        eval_spec(env, scope, items[1], depth).result is Err,
    ensures
        unary_spec(env, scope, items, depth, form) == eval_spec(env, scope, items[1], depth),
{
}

/// The failure of the first operand of `eq` or `cons` is the failure of the
/// form, unchanged, and the second operand is not evaluated; the failure of
/// the second is the failure of the form where the first has a value.
pub proof fn law_operands_failure(env: Bindings, scope: Bindings, items: Seq<Value>, depth: nat)
    requires
        items.len() == 3,
    ensures
        eval_spec(env, scope, items[1], depth).result is Err ==> {
            &&& eq_spec(env, scope, items, depth) == eval_spec(env, scope, items[1], depth)
            &&& cons_spec(env, scope, items, depth) == eval_spec(env, scope, items[1], depth)
        },
        eval_spec(env, scope, items[1], depth).result is Ok && second_value(
            env,
            scope,
            items[1],
            items[2],
            depth,
        ).result is Err ==> {
            &&& eq_spec(env, scope, items, depth) == second_value(
                env,
                scope,
                items[1],
                items[2],
                depth,
            )
            &&& cons_spec(env, scope, items, depth) == second_value(
                env,
                scope,
                items[1],
                items[2],
                depth,
            )
        },
{
}

/// What binding parameters to arguments changes: a name that is no parameter
/// keeps what it had, and a parameter has the argument at the last place
/// where its name stands.
pub proof fn law_bind_params(env: Bindings, params: Seq<Seq<char>>, args: Seq<Value>)
    requires
        params.len() == args.len(),
    ensures
        forall|name: Seq<char>|
            !params.contains(name) ==> {
                &&& #[trigger] bind_params(env, params, args).contains_key(name)
                    == env.contains_key(name)
                &&& bind_params(env, params, args)[name] == env[name]
            },
        forall|i: int|
            0 <= i < params.len() && (forall|j: int| i < j < params.len() ==> params[j] != params[i])
                ==> {
                &&& bind_params(env, params, args).contains_key(#[trigger] params[i])
                &&& bind_params(env, params, args)[params[i]] == args[i]
            },
    decreases params.len(),
{
    if params.len() > 0 {
        let front = params.drop_last();
        law_bind_params(env, front, args.drop_last());
        let inner = bind_params(env, front, args.drop_last());
        assert forall|name: Seq<char>| !params.contains(name) implies {
            &&& #[trigger] bind_params(env, params, args).contains_key(name) == env.contains_key(
                name,
            )
            &&& bind_params(env, params, args)[name] == env[name]
        } by {
            assert(params.last() != name);
            assert(!front.contains(name)) by {
                if front.contains(name) {
                    let k = choose|k: int| 0 <= k < front.len() && front[k] == name;
                    assert(params[k] == name);
                }
            }
            assert(inner.contains_key(name) == env.contains_key(name));
        }
        assert forall|i: int|
            0 <= i < params.len() && (forall|j: int|
                i < j < params.len() ==> params[j] != params[i]) implies {
            &&& bind_params(env, params, args).contains_key(#[trigger] params[i])
            &&& bind_params(env, params, args)[params[i]] == args[i]
        } by {
            if i < params.len() - 1 {
                assert(front[i] == params[i]);
                assert(params[params.len() - 1] != params[i]);
                assert forall|j: int| i < j < front.len() implies front[j] != front[i] by {
                    assert(params[j] != params[i]);
                }
                assert(inner.contains_key(front[i]) && inner[front[i]] == args.drop_last()[i]);
            }
        }
    }
}

/// The scope of a call is the scope of the caller overlaid: a name that is
/// neither a parameter nor the closure's own name keeps what the caller's
/// scope had for it; the closure's own name, where no parameter bears it, is bound to
/// the literal; each parameter is bound to its argument.
pub proof fn law_call_scope_bindings(
    scope: Bindings,
    name: Option<Seq<char>>,
    literal: Value,
    params: Seq<Seq<char>>,
    args: Seq<Value>,
)
    requires
        params.len() == args.len(),
    ensures
        forall|other: Seq<char>|
            !params.contains(other) && name != Some(other) ==> {
                &&& #[trigger] child_env(scope, name, literal, params, args).contains_key(other)
                    == scope.contains_key(other)
                &&& child_env(scope, name, literal, params, args)[other] == scope[other]
            },
        name is Some && !params.contains(name->Some_0) ==> {
            &&& child_env(scope, name, literal, params, args).contains_key(name->Some_0)
            &&& child_env(scope, name, literal, params, args)[name->Some_0] == literal
        },
        forall|i: int|
            0 <= i < params.len() && (forall|j: int| i < j < params.len() ==> params[j] != params[i])
                ==> {
                &&& child_env(scope, name, literal, params, args).contains_key(#[trigger] params[i])
                &&& child_env(scope, name, literal, params, args)[params[i]] == args[i]
            },
{
    let base = match name {
        Some(own) => scope.insert(own, literal),
        None => scope,
    };
    law_bind_params(base, params, args);
    assert forall|other: Seq<char>| !params.contains(other) && name != Some(other) implies {
        &&& #[trigger] child_env(scope, name, literal, params, args).contains_key(other)
            == scope.contains_key(other)
        &&& child_env(scope, name, literal, params, args)[other] == scope[other]
    } by {
        assert(bind_params(base, params, args).contains_key(other) == base.contains_key(other));
    }
    if let Some(own) = name {
        if !params.contains(own) {
            assert(bind_params(base, params, args).contains_key(own) == base.contains_key(own));
        }
    }
}

} // verus!
