//! Closure literals: `lambda` and `label` forms, read from expressions.

use vstd::prelude::*;
use crate::expr::{lemma_list_value, lemma_string_clone_keeps_view, values_of, E};
use crate::model::{all_atoms, atom_names, closure_of, is_sym, label_of, lambda_of, Closure};
use crate::text::texts_of;

verus! {

/// A closure read from a literal: parameter names, the body, and the name
/// under which the body may call the closure itself.
#[derive(Debug)]
pub struct Func {
    pub params: Vec<String>,
    pub body: E,
    pub sym: Option<String>,
}

impl View for Func {
    type V = Closure;

    open spec fn view(&self) -> Closure {
        Closure {
            params: texts_of(self.params@),
            body: self.body@,
            name: match self.sym {
                Some(s) => Some(s@),
                None => None,
            },
        }
    }
}

/// Whether `r` is the closure `c`, or both are absent.
pub open spec fn is_closure(r: Option<Func>, c: Option<Closure>) -> bool {
    match r {
        Some(f) => c == Some(f@),
        None => c is None,
    }
}

/// Whether `expr` is the atom called `op`.
pub fn is_symbol(op: &str, expr: &E) -> (r: bool)
    ensures
        r == is_sym(op@, expr@),
{
    if expr.is_atom() {
        let expr_op = expr.get_ref_atom();
        op.to_owned() == *expr_op
    } else {
        false
    }
}

/// The names of the atoms in `items`; `None` where one of them is no atom.
pub fn atoms_of(items: &Vec<E>) -> (r: Option<Vec<String>>)
    ensures
        match r {
            Some(names) => all_atoms(values_of(items@)) && texts_of(names@)
                == atom_names(values_of(items@)),
            None => !all_atoms(values_of(items@)),
        },
{
    let ghost values = values_of(items@);
    let mut names: Vec<String> = Vec::new();
    let mut i: usize = 0;
    while i < items.len()
        invariant
            i <= items.len(),
            names.len() == i,
            values == values_of(items@),
            forall|j: int| 0 <= j < i ==> (#[trigger] values[j]) is Atom,
            forall|j: int| 0 <= j < i ==> (#[trigger] names[j])@ == values[j]->Atom_0,
        decreases items.len() - i,
    {
        let p = &items[i];
        if !p.is_atom() {
            assert(!(values[i as int] is Atom));
            return None;
        }
        names.push(p.get_ref_atom().clone());
        i += 1;
    }
    assert(texts_of(names@) =~= atom_names(values));
    Some(names)
}

/// Reads `(lambda (p1 ...) body)`; any other shape gives `None`.
pub fn parse_lambda_literal(expr: &E) -> (r: Option<Func>)
    ensures
        is_closure(r, lambda_of(expr@)),
{
    if !expr.is_list() {
        None
    } else {
        let vec = expr.get_ref_list();
        proof {
            lemma_list_value(*vec);
        }
        if vec.len() != 3 || !vec[1].is_list() || !is_symbol("lambda", &vec[0]) {
            None
        } else {
            let params = vec[1].get_ref_list();
            proof {
                lemma_list_value(*params);
                lemma_string_clone_keeps_view();
            }
            match atoms_of(params) {
                None => None,
                Some(plist) => Some(Func { params: plist, body: vec[2].clone(), sym: None }),
            }
        }
    }
}

/// Reads `(label name (lambda (p1 ...) body))`; any other shape gives `None`.
pub fn parse_label_literal(expr: &E) -> (r: Option<Func>)
    ensures
        is_closure(r, label_of(expr@)),
{
    if !expr.is_list() {
        return None;
    }
    let vec = expr.get_ref_list();
    proof {
        lemma_list_value(*vec);
    }
    if vec.len() != 3 || !vec[1].is_atom() || !is_symbol("label", &vec[0]) {
        return None;
    }
    let lit = parse_lambda_literal(&vec[2]);
    match lit {
        None => None,
        Some(func) => {
            let Func { params, body, sym: _ } = func;
            Some(Func { params, body, sym: Some(vec[1].get_ref_atom().clone()) })
        },
    }
}

/// Reads a closure literal of either shape.
pub fn parse_func_literal(expr: &E) -> (r: Option<Func>)
    ensures
        is_closure(r, closure_of(expr@)),
{
    match parse_lambda_literal(expr) {
        None => parse_label_literal(expr),
        Some(lambda) => Some(lambda),
    }
}

} // verus!
