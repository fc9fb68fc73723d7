use lisp_core::closure::{
    atoms_of, is_symbol, parse_func_literal, parse_label_literal, parse_lambda_literal,
};
use lisp_core::env::Env;
use lisp_core::error::{EvalError, Form, TypeFault};
use lisp_core::eval::{
    call_scope, eval_atom, eval_car, eval_cdr, eval_closure_call, eval_cond, eval_cons,
    eval_defun, eval_eq, eval_func_call, eval_quote, truth_expr,
};
use lisp_core::expr::{Expr, E};

fn a(name: &str) -> E {
    Expr::Atom(name.to_string())
}

fn l(items: Vec<E>) -> E {
    Expr::List(items)
}

fn q(e: E) -> E {
    l(vec![a("quote"), e])
}

#[test]
fn atom_and_list_exclude_each_other() {
    let samples = vec![a("x"), a(""), l(vec![]), l(vec![a("x")]), l(vec![l(vec![])])];
    for e in samples {
        assert_ne!(e.is_atom(), e.is_list());
    }
    assert!(a("x").is_atom());
    assert!(l(vec![]).is_list());
    assert!(l(vec![a("x")]).is_list());
}

#[test]
fn only_the_list_of_nothing_is_the_empty_list() {
    assert!(l(vec![]).is_empty_list());
    assert!(E::empty_list().is_empty_list());
    assert!(!l(vec![l(vec![])]).is_empty_list());
    assert!(!a("").is_empty_list());
    assert!(!a("nil").is_empty_list());
    assert_eq!(E::empty_list(), l(vec![]));
}

#[test]
fn accessors_give_what_the_variant_holds() {
    let atom = a("name");
    assert_eq!(atom.get_ref_atom(), "name");
    assert_eq!(atom.unwrap_atom(), "name".to_string());
    let list = l(vec![a("x"), l(vec![])]);
    assert_eq!(list.get_ref_list(), &vec![a("x"), l(vec![])]);
    assert_eq!(list.unwrap_list(), vec![a("x"), l(vec![])]);
}

#[test]
fn equality_is_structural() {
    let one = l(vec![a("a"), l(vec![a("b"), l(vec![])])]);
    let same = l(vec![a("a"), l(vec![a("b"), l(vec![])])]);
    assert!(one.same_as(&same));
    assert_eq!(one, same);
    let shorter = l(vec![a("a")]);
    let other_atom = l(vec![a("a"), l(vec![a("c"), l(vec![])])]);
    let other_shape = l(vec![a("a"), l(vec![a("b"), a("x")])]);
    for e in vec![shorter, other_atom, other_shape, a("a"), l(vec![])] {
        assert!(!one.same_as(&e));
        assert!(!e.same_as(&one));
        assert_ne!(one, e);
    }
    assert!(a("x").same_as(&a("x")));
    assert!(!a("x").same_as(&a("y")));
    assert!(!a("x").same_as(&l(vec![a("x")])));
    assert!(l(vec![]).same_as(&l(vec![])));
}

#[test]
fn a_clone_is_equal_and_independent() {
    let one = l(vec![a("a"), l(vec![a("b")])]);
    let mut copy = one.clone();
    assert_eq!(copy, one);
    if let Expr::List(items) = &mut copy {
        items.push(a("c"));
    }
    assert_eq!(one, l(vec![a("a"), l(vec![a("b")])]));
    assert_ne!(copy, one);
}

#[test]
fn truth_values() {
    assert_eq!(truth_expr(true), a("t"));
    assert_eq!(truth_expr(false), l(vec![]));
}

#[test]
fn new_environment_binds_nothing() {
    let env = Env::new();
    assert_eq!(env.find("x"), None);
    assert_eq!(env.find(""), None);
}

#[test]
fn find_gives_what_was_bound_last() {
    let mut env = Env::new();
    env.bind("x".to_string(), a("one"));
    env.bind("y".to_string(), a("two"));
    assert_eq!(env.find("x"), Some(a("one")));
    assert_eq!(env.find("y"), Some(a("two")));
    assert_eq!(env.find("z"), None);
    env.bind("x".to_string(), l(vec![a("three")]));
    assert_eq!(env.find("x"), Some(l(vec![a("three")])));
    assert_eq!(env.find("y"), Some(a("two")));
}

#[test]
fn a_cloned_environment_is_independent() {
    let mut env = Env::new();
    env.bind("x".to_string(), a("one"));
    let mut copy = env.clone();
    copy.bind("x".to_string(), a("changed"));
    copy.bind("y".to_string(), a("new"));
    assert_eq!(env.find("x"), Some(a("one")));
    assert_eq!(env.find("y"), None);
    assert_eq!(copy.find("x"), Some(a("changed")));
    assert_eq!(copy.find("y"), Some(a("new")));
}

#[test]
fn entries_hold_one_pair_for_each_name() {
    let mut env = Env::new();
    assert_eq!(env.entries(), vec![]);
    env.bind("x".to_string(), a("one"));
    env.bind("y".to_string(), a("two"));
    env.bind("x".to_string(), a("three"));
    assert_eq!(
        env.entries(),
        vec![("x".to_string(), a("three")), ("y".to_string(), a("two"))]
    );
}

#[test]
fn is_symbol_compares_the_name() {
    assert!(is_symbol("quote", &a("quote")));
    assert!(!is_symbol("quote", &a("quot")));
    assert!(!is_symbol("quote", &a("quotes")));
    assert!(!is_symbol("quote", &a("atom")));
    assert!(!is_symbol("quote", &l(vec![a("quote")])));
    assert!(!is_symbol("", &l(vec![])));
    assert!(is_symbol("", &a("")));
}

#[test]
fn atoms_of_gives_the_names() {
    assert_eq!(atoms_of(&vec![a("x"), a("y")]), Some(vec!["x".to_string(), "y".to_string()]));
    assert_eq!(atoms_of(&vec![]), Some(vec![]));
    assert_eq!(atoms_of(&vec![a("x"), l(vec![])]), None);
}

#[test]
fn lambda_literal() {
    let body = l(vec![a("car"), a("x")]);
    let f = parse_lambda_literal(&l(vec![a("lambda"), l(vec![a("x"), a("y")]), body.clone()]))
        .unwrap();
    assert_eq!(f.params, vec!["x".to_string(), "y".to_string()]);
    assert_eq!(f.body, body);
    assert_eq!(f.sym, None);
}

#[test]
fn lambda_literal_of_another_shape() {
    assert!(parse_lambda_literal(&a("lambda")).is_none());
    assert!(parse_lambda_literal(&l(vec![])).is_none());
    assert!(parse_lambda_literal(&l(vec![a("lambda"), l(vec![])])).is_none());
    assert!(parse_lambda_literal(&l(vec![a("lambda"), l(vec![]), a("x"), a("y")])).is_none());
    assert!(parse_lambda_literal(&l(vec![a("lambda"), a("x"), a("x")])).is_none());
    assert!(parse_lambda_literal(&l(vec![a("lambda"), l(vec![l(vec![])]), a("x")])).is_none());
    assert!(parse_lambda_literal(&l(vec![a("lamda"), l(vec![]), a("x")])).is_none());
    assert!(parse_lambda_literal(&l(vec![l(vec![]), l(vec![]), a("x")])).is_none());
}

#[test]
fn label_literal() {
    let lambda = l(vec![a("lambda"), l(vec![a("x")]), a("x")]);
    let f = parse_label_literal(&l(vec![a("label"), a("me"), lambda.clone()])).unwrap();
    assert_eq!(f.params, vec!["x".to_string()]);
    assert_eq!(f.body, a("x"));
    assert_eq!(f.sym, Some("me".to_string()));
    assert!(parse_label_literal(&lambda).is_none());
    assert!(parse_label_literal(&l(vec![a("label"), l(vec![]), lambda.clone()])).is_none());
    assert!(parse_label_literal(&l(vec![a("label"), a("me"), a("x")])).is_none());
    assert!(parse_label_literal(&l(vec![a("label"), a("me")])).is_none());
    assert!(parse_label_literal(&l(vec![a("lambda"), a("me"), lambda])).is_none());
    assert!(parse_label_literal(&a("label")).is_none());
}

#[test]
fn func_literal_is_either_of_the_two() {
    let lambda = l(vec![a("lambda"), l(vec![]), a("x")]);
    let label = l(vec![a("label"), a("me"), lambda.clone()]);
    assert_eq!(parse_func_literal(&lambda).unwrap().sym, None);
    assert_eq!(parse_func_literal(&label).unwrap().sym, Some("me".to_string()));
    assert!(parse_func_literal(&a("f")).is_none());
    assert!(parse_func_literal(&l(vec![a("quote"), lambda])).is_none());
}

#[test]
fn call_scope_overlays_the_callers_scope() {
    let mut env = Env::new();
    env.bind("kept".to_string(), a("old"));
    env.bind("x".to_string(), a("hidden"));
    let params = vec!["x".to_string(), "y".to_string()];
    let args = vec![a("one"), a("two")];
    let scope = call_scope(&env, &params, Some("me".to_string()), a("literal"), &args);
    assert_eq!(scope.find("kept"), Some(a("old")));
    assert_eq!(scope.find("x"), Some(a("one")));
    assert_eq!(scope.find("y"), Some(a("two")));
    assert_eq!(scope.find("me"), Some(a("literal")));
    assert_eq!(env.find("x"), Some(a("hidden")));
    assert_eq!(env.find("y"), None);
    assert_eq!(env.find("me"), None);
    let plain = call_scope(&env, &vec![], None, a("literal"), &vec![]);
    assert_eq!(plain.find("kept"), Some(a("old")));
    assert_eq!(plain.find("me"), None);
}

#[test]
fn forms_called_by_themselves() {
    let mut env = Env::new();
    let abc = q(l(vec![a("a"), a("b"), a("c")]));
    assert_eq!(eval_quote(&vec![a("quote"), a("x")]), Ok(a("x")));
    assert_eq!(eval_atom(&mut env, &Env::new(), &vec![a("atom"), abc.clone()], 5), Ok(l(vec![])));
    assert_eq!(eval_eq(&mut env, &Env::new(), &vec![a("eq"), q(a("a")), q(a("a"))], 5), Ok(a("t")));
    assert_eq!(eval_car(&mut env, &Env::new(), &vec![a("car"), abc.clone()], 5), Ok(a("a")));
    assert_eq!(eval_cdr(&mut env, &Env::new(), &vec![a("cdr"), abc.clone()], 5), Ok(l(vec![a("b"), a("c")])));
    assert_eq!(
        eval_cons(&mut env, &Env::new(), &vec![a("cons"), q(a("z")), abc.clone()], 5),
        Ok(l(vec![a("z"), a("a"), a("b"), a("c")]))
    );
    assert_eq!(
        eval_cond(&mut env, &Env::new(), &vec![a("cond"), l(vec![q(a("t")), q(a("yes"))])], 5),
        Ok(a("yes"))
    );
    assert_eq!(
        eval_defun(&mut env, &vec![a("defun"), a("id"), l(vec![a("x")]), a("x")]),
        Ok(l(vec![]))
    );
    assert_eq!(eval_func_call(&mut env, &Env::new(), &vec![a("id"), q(a("v"))], 5), Ok(a("v")));
}

#[test]
fn forms_called_by_themselves_with_no_depth_left() {
    let mut env = Env::new();
    let abc = q(l(vec![a("a")]));
    assert_eq!(eval_car(&mut env, &Env::new(), &vec![a("car"), abc.clone()], 0), Err(EvalError::DepthExceeded));
    assert_eq!(
        eval_car(&mut env, &Env::new(), &vec![a("car")], 0),
        Err(EvalError::ArityError { form: Form::Car, expected: 1 })
    );
    assert_eq!(eval_cond(&mut env, &Env::new(), &vec![a("cond")], 0), Ok(l(vec![])));
}

#[test]
fn closure_call_with_a_closure_that_was_read_before() {
    let mut env = Env::new();
    let literal = l(vec![a("lambda"), l(vec![a("x")]), l(vec![a("cons"), a("x"), q(l(vec![]))])]);
    let f = parse_func_literal(&literal).unwrap();
    let call = vec![a("anything"), q(a("v"))];
    assert_eq!(eval_closure_call(&mut env, &Env::new(), f, literal.clone(), &call, 5), Ok(l(vec![a("v")])));
    let f = parse_func_literal(&literal).unwrap();
    assert_eq!(
        eval_closure_call(&mut env, &Env::new(), f, literal, &vec![a("anything")], 5),
        Err(EvalError::ArityError { form: Form::Closure, expected: 1 })
    );
}

#[test]
fn every_failure_has_its_message() {
    let arity = |form| EvalError::ArityError { form, expected: 1 };
    assert_eq!(arity(Form::Quote).message(), "`quote` expects exactly one argument.");
    assert_eq!(arity(Form::Atom).message(), "`atom` expects exactly one argument.");
    assert_eq!(arity(Form::Car).message(), "`car` expects exactly one argument.");
    assert_eq!(arity(Form::Cdr).message(), "`cdr` expects exactly one argument.");
    assert_eq!(arity(Form::Cons).message(), "`cons` expects exactly two argument.");
    assert_eq!(arity(Form::Defun).message(), "`defun` expects exactly three arguments.");
    assert_eq!(
        arity(Form::Closure).message(),
        "mismatch between number of procedure args and number of args called with."
    );
    assert_eq!(
        EvalError::TypeError(TypeFault::DefunName).message(),
        "First argument to `defun` must be a symbol"
    );
    assert_eq!(
        EvalError::TypeError(TypeFault::DefunParams).message(),
        "Second argument to `defun` must be a list of params"
    );
    assert_eq!(EvalError::DepthExceeded.message(), "Evaluation is nested too deeply.");
}
