//! The written form of an expression.

use vstd::prelude::*;
use vstd::string::StringExecFns;
use crate::expr::{lemma_list_value, values_of, Expr, Sexp, Value, E};

verus! {

/// The written form of a value: an atom is its name; a list is its items'
/// written forms with one space between each two, in round brackets.
pub open spec fn render_spec(v: Value) -> Seq<char>
    decreases v, 0nat,
{
    match v {
        Sexp::Atom(name) => name,
        Sexp::List(items) => seq!['('] + render_items(items, items.len()) + seq![')'],
    }
}

/// The written forms of the first `n` items, with one space between each two.
pub open spec fn render_items(items: Seq<Value>, n: nat) -> Seq<char>
    decreases items, n,
{
    if n == 0 || n > items.len() {
        Seq::empty()
    } else if n == 1 {
        render_spec(items[0])
    } else {
        render_items(items, (n - 1) as nat) + seq![' '] + render_spec(items[n - 1])
    }
}

/// Appends the written form of `e` to `out`.
#[verifier::loop_isolation(false)]
pub fn render_into(e: &E, out: &mut String)
    ensures
        final(out)@ == old(out)@ + render_spec(e@),
    decreases e,
{
    match e {
        Expr::Atom(name) => {
            out.append(name.as_str());
        },
        Expr::List(items) => {
            proof {
                lemma_list_value(*items);
                reveal_strlit("(");
                reveal_strlit(")");
                reveal_strlit(" ");
            }
            let ghost start = out@;
            let ghost values = values_of(items@);
            out.append("(");
            assert("("@ =~= seq!['(']);
            let mut i: usize = 0;
            while i < items.len()
                invariant
                    i <= items.len(),
                    out@ == start + seq!['('] + render_items(values, i as nat),
                decreases items.len() - i,
            {
                if i > 0 {
                    out.append(" ");
                    assert(" "@ =~= seq![' ']);
                }
                let ghost before = out@;
                render_into(&items[i], out);
                proof {
                    assert(out@ == before + render_spec(values[i as int]));
                    assert(out@ =~= start + seq!['('] + render_items(values, (i + 1) as nat));
                }
                i += 1;
            }
            out.append(")");
            assert(")"@ =~= seq![')']);
            assert(out@ =~= start + render_spec(e@));
        },
    }
}

/// The written form of `e`.
pub fn render(e: &E) -> (r: String)
    ensures
        r@ == render_spec(e@),
{
    let mut out = String::new();
    render_into(e, &mut out);
    assert(out@ =~= render_spec(e@));
    out
}

} // verus!
