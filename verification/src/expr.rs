//! The expression tree: atoms and lists of expressions.

use vstd::prelude::*;

verus! {

/// The mathematical value of an expression: an atom carrying a payload, or a
/// finite sequence of such values.
pub enum Sexp<A> {
    Atom(A),
    List(Seq<Sexp<A>>),
}

impl<A> Sexp<A> {
    /// The empty list, which is also the false value.
    pub open spec fn nil() -> Sexp<A> {
        Sexp::List(Seq::empty())
    }

    /// Whether this is the empty list.
    pub open spec fn is_nil(self) -> bool {
        self matches Sexp::List(items) && items.len() == 0
    }
}

/// A symbolic expression over the symbol representation `T`.
#[derive(Debug, PartialEq)]
pub enum Expr<T> {
    Atom(T),
    List(Vec<Expr<T>>),
}

/// The value that an expression stands for.
pub open spec fn sexp_of<T: View>(e: Expr<T>) -> Sexp<T::V>
    decreases e,
{
    match e {
        Expr::Atom(a) => Sexp::Atom(a@),
        Expr::List(items) => Sexp::List(
            Seq::new(
                items.len() as nat,
                |i: int|
                    if 0 <= i < items.len() {
                        sexp_of(items[i])
                    } else {
                        arbitrary()
                    },
            ),
        ),
    }
}

impl<T: View> View for Expr<T> {
    type V = Sexp<T::V>;

    open spec fn view(&self) -> Sexp<T::V> {
        sexp_of(*self)
    }
}

/// A symbolic expression whose symbols are strings.
pub type E = Expr<String>;

/// The value of a symbolic expression whose symbols are strings.
pub type Value = Sexp<Seq<char>>;

/// The values of a sequence of expressions, in order.
pub open spec fn values_of<T: View>(items: Seq<Expr<T>>) -> Seq<Sexp<T::V>> {
    Seq::new(items.len(), |i: int| items[i]@)
}

/// The value of a list is the list of its items' values.
pub proof fn lemma_list_value<T: View>(items: Vec<Expr<T>>)
    ensures
        Expr::List(items)@ == Sexp::List(values_of(items@)),
{
    assert(Expr::List(items)@->List_0 =~= values_of(items@));
}

/// An expression is the empty list exactly where its value is.
pub proof fn lemma_empty_list_value<T: View>(e: Expr<T>)
    ensures
        e.spec_is_empty_list() == e@.is_nil(),
        e.spec_is_empty_list() ==> e@ == Sexp::<T::V>::nil(),
{
    if e.spec_is_empty_list() {
        assert(e@->List_0 =~= Seq::empty());
    }
}

/// Whether every clone of a `T` has the view of what it was cloned from.
pub open spec fn clone_keeps_view<T: Clone + View>() -> bool {
    forall|a: T, b: T| #[trigger] cloned::<T>(a, b) ==> a@ == b@
}

impl<T: Clone + View> Clone for Expr<T> {
    /// A copy of the whole tree. It has the value of `self` where the clones
    /// of the payloads have the values of the payloads.
    #[verifier::loop_isolation(false)]
    fn clone(&self) -> (r: Self)
        ensures
            clone_keeps_view::<T>() ==> r@ == self@,
        decreases self,
    {
        match self {
            Expr::Atom(a) => {
                let b = a.clone();
                assert(cloned::<T>(*a, b));
                Expr::Atom(b)
            },
            Expr::List(items) => {
                let mut out: Vec<Expr<T>> = Vec::new();
                let mut i: usize = 0;
                while i < items.len()
                    invariant
                        i <= items.len(),
                        out.len() == i,
                        clone_keeps_view::<T>() ==> forall|j: int|
                            0 <= j < i ==> (#[trigger] out[j])@ == items[j]@,
                    decreases items.len() - i,
                {
                    let item = items[i].clone();
                    out.push(item);
                    i += 1;
                }
                let r = Expr::List(out);
                assert(clone_keeps_view::<T>() ==> r@ == self@) by {
                    if clone_keeps_view::<T>() {
                        assert forall|j: int| 0 <= j < items.len() implies r@->List_0[j]
                            == self@->List_0[j] by {
                            assert(out[j]@ == items[j]@);
                        }
                        assert(r@->List_0 =~= self@->List_0);
                    }
                }
                r
            },
        }
    }
}

/// A clone of a string has the characters of the string.
pub proof fn lemma_string_clone_keeps_view()
    ensures
        clone_keeps_view::<String>(),
{
}

impl<T> Expr<T> {
    /// Whether this is the list of no elements.
    pub open spec fn spec_is_empty_list(&self) -> bool {
        self matches Expr::List(items) && items.len() == 0
    }

    /// The empty list, which doubles as the false value.
    pub fn empty_list() -> (r: Expr<T>)
        ensures
            r.spec_is_empty_list(),
    {
        Expr::List(Vec::new())
    }

    /// Whether this is the list of no elements.
    #[verifier::when_used_as_spec(spec_is_empty_list)]
    pub fn is_empty_list(&self) -> (r: bool)
        ensures
            r == self.spec_is_empty_list(),
    {
        match self {
            Expr::List(items) => items.len() == 0,
            _ => false,
        }
    }

    /// Whether this is an atom.
    pub open spec fn spec_is_atom(&self) -> bool {
        self is Atom
    }

    /// Whether this is a list.
    pub open spec fn spec_is_list(&self) -> bool {
        self is List
    }

    /// Whether this is a list.
    #[verifier::when_used_as_spec(spec_is_list)]
    pub fn is_list(&self) -> (r: bool)
        ensures
            r == (self is List),
    {
        !self.is_atom()
    }

    /// Whether this is an atom.
    #[verifier::when_used_as_spec(spec_is_atom)]
    pub fn is_atom(&self) -> (r: bool)
        ensures
            r == (self is Atom),
    {
        match self {
            Expr::Atom(_) => true,
            _ => false,
        }
    }

    /// The payload of an atom.
    pub fn get_ref_atom(&self) -> (r: &T)
        requires
            self is Atom,
        ensures
            *r == self->Atom_0,
    {
        match self {
            Expr::Atom(v) => v,
            _ => unreached(),
        }
    }

    /// The elements of a list.
    pub fn get_ref_list(&self) -> (r: &Vec<Expr<T>>)
        requires
            self is List,
        ensures
            *r == self->List_0,
    {
        match self {
            Expr::List(v) => v,
            _ => unreached(),
        }
    }

    /// Takes the payload out of an atom.
    pub fn unwrap_atom(self) -> (r: T)
        requires
            self is Atom,
        ensures
            r == self->Atom_0,
    {
        match self {
            Expr::Atom(v) => v,
            _ => unreached(),
        }
    }

    /// Takes the elements out of a list.
    pub fn unwrap_list(self) -> (r: Vec<Expr<T>>)
        requires
            self is List,
        ensures
            r == self->List_0,
    {
        match self {
            Expr::List(v) => v,
            _ => unreached(),
        }
    }
}

/// Every expression is an atom or a list, and not both.
pub proof fn law_atom_or_list<T>(e: Expr<T>)
    ensures
        e.spec_is_atom() != e.spec_is_list(),
        e.spec_is_empty_list() ==> e.spec_is_list(),
{
}

/// Equality of values is structural: two atoms are equal exactly where their
/// payloads are; two lists are equal exactly where they have the same length
/// and equal items at each place; an atom is never equal to a list.
pub proof fn law_structural_equality<A>(a: A, b: A, x: Seq<Sexp<A>>, y: Seq<Sexp<A>>)
    ensures
        (Sexp::Atom(a) == Sexp::Atom(b)) == (a == b),
        (Sexp::List(x) == Sexp::List(y)) == (x.len() == y.len() && forall|i: int|
            0 <= i < x.len() ==> x[i] == y[i]),
        Sexp::Atom(a) != Sexp::List(x),
{
    if x.len() == y.len() && (forall|i: int| 0 <= i < x.len() ==> x[i] == y[i]) {
        assert(x =~= y);
    }
}

impl Expr<String> {
    /// Whether `self` and `other` are equal in structure.
    pub fn same_as(&self, other: &Self) -> (r: bool)
        ensures
            r == (self@ == other@),
        decreases self,
    {
        match (self, other) {
            (Expr::Atom(a), Expr::Atom(b)) => *a == *b,
            (Expr::List(x), Expr::List(y)) => {
                proof {
                    lemma_list_value(*x);
                    lemma_list_value(*y);
                }
                if x.len() != y.len() {
                    assert(values_of(x@).len() != values_of(y@).len());
                    return false;
                }
                let mut i: usize = 0;
                while i < x.len()
                    invariant
                        i <= x.len(),
                        x.len() == y.len(),
                        *self == Expr::List(*x),
                        self@ == Sexp::List(values_of(x@)),
                        other@ == Sexp::List(values_of(y@)),
                        forall|j: int| 0 <= j < i ==> (#[trigger] x[j])@ == y[j]@,
                    decreases x.len() - i,
                {
                    if !x[i].same_as(&y[i]) {
                        assert(values_of(x@)[i as int] != values_of(y@)[i as int]);
                        return false;
                    }
                    i += 1;
                }
                assert(values_of(x@) =~= values_of(y@));
                true
            },
            _ => false,
        }
    }
}

} // verus!
