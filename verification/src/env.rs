//! The environment: which expression each symbol name is bound to.

use vstd::prelude::*;
use crate::expr::{lemma_string_clone_keeps_view, Value, E};

verus! {

/// The map that a sequence of bindings stands for: a later binding of a name
/// hides an earlier one.
pub open spec fn bindings_map(s: Seq<(String, E)>) -> Map<Seq<char>, Value>
    decreases s.len(),
{
    if s.len() == 0 {
        Map::empty()
    } else {
        bindings_map(s.drop_last()).insert(s.last().0@, s.last().1@)
    }
}

/// A name that no binding holds is not in the map.
proof fn lemma_absent(s: Seq<(String, E)>, key: Seq<char>)
    requires
        forall|j: int| 0 <= j < s.len() ==> (#[trigger] s[j]).0@ != key,
    ensures
        !bindings_map(s).contains_key(key),
    decreases s.len(),
{
    if s.len() > 0 {
        lemma_absent(s.drop_last(), key);
    }
}

/// The last binding of a name gives its value in the map.
proof fn lemma_last_binding(s: Seq<(String, E)>, key: Seq<char>, i: int)
    requires
        0 <= i < s.len(),
        s[i].0@ == key,
        forall|j: int| i < j < s.len() ==> (#[trigger] s[j]).0@ != key,
    ensures
        bindings_map(s).contains_key(key),
        bindings_map(s)[key] == s[i].1@,
    decreases s.len(),
{
    if i < s.len() - 1 {
        lemma_last_binding(s.drop_last(), key, i);
    }
}

/// Replacing the last binding of a name has the effect of an insertion.
proof fn lemma_replace_binding(s: Seq<(String, E)>, i: int, entry: (String, E))
    requires
        0 <= i < s.len(),
        s[i].0@ == entry.0@,
        forall|j: int| i < j < s.len() ==> (#[trigger] s[j]).0@ != entry.0@,
    ensures
        bindings_map(s.update(i, entry)) == bindings_map(s).insert(entry.0@, entry.1@),
    decreases s.len(),
{
    let t = s.update(i, entry);
    if i == s.len() - 1 {
        assert(t.drop_last() =~= s.drop_last());
        assert(bindings_map(t) =~= bindings_map(s).insert(entry.0@, entry.1@));
    } else {
        lemma_replace_binding(s.drop_last(), i, entry);
        assert(t.drop_last() =~= s.drop_last().update(i, entry));
        assert(bindings_map(t) =~= bindings_map(s).insert(entry.0@, entry.1@));
    }
}

/// Whether no two bindings are of one name.
pub open spec fn distinct_names(s: Seq<(String, E)>) -> bool {
    forall|i: int, j: int| 0 <= i < j < s.len() ==> (#[trigger] s[i]).0@ != (#[trigger] s[j]).0@
}

/// A mapping from symbol names to the expressions bound to them. It holds
/// one binding for each name that is bound.
#[derive(Debug)]
pub struct Env {
    bindings: Vec<(String, E)>,
}

impl Env {
    #[verifier::type_invariant]
    closed spec fn one_binding_per_name(self) -> bool {
        distinct_names(self.bindings@)
    }
}

impl View for Env {
    type V = Map<Seq<char>, Value>;

    closed spec fn view(&self) -> Map<Seq<char>, Value> {
        bindings_map(self.bindings@)
    }
}

impl Clone for Env {
    /// An independent copy with the same bindings.
    fn clone(&self) -> (r: Self)
        ensures
            r@ == self@,
    {
        proof {
            use_type_invariant(self);
        }
        let mut out: Vec<(String, E)> = Vec::new();
        let mut i: usize = 0;
        while i < self.bindings.len()
            invariant
                i <= self.bindings.len(),
                out.len() == i,
                distinct_names(self.bindings@),
                forall|j: int| 0 <= j < i ==> (#[trigger] out[j]).0@ == self.bindings[j].0@,
                bindings_map(out@) == bindings_map(self.bindings@.take(i as int)),
            decreases self.bindings.len() - i,
        {
            let name = self.bindings[i].0.clone();
            let value = self.bindings[i].1.clone();
            proof {
                lemma_string_clone_keeps_view();
                let ghost next = self.bindings@.take(i + 1);
                assert(next.drop_last() =~= self.bindings@.take(i as int));
                assert(out@.push((name, value)).drop_last() =~= out@);
            }
            out.push((name, value));
            i += 1;
        }
        proof {
            assert(self.bindings@.take(i as int) =~= self.bindings@);
        }
        Env { bindings: out }
    }
}

impl Env {
    /// The environment that binds nothing.
    pub fn new() -> (r: Env)
        ensures
            r@ == Map::<Seq<char>, Value>::empty(),
    {
        Env { bindings: Vec::new() }
    }

    /// The index of the last binding of `key`, if it is bound.
    fn position(&self, key: &str) -> (r: Option<usize>)
        ensures
            match r {
                Some(i) => {
                    &&& i < self.bindings.len()
                    &&& self.bindings[i as int].0@ == key@
                    &&& forall|j: int|
                        i < j < self.bindings.len() ==> (#[trigger] self.bindings[j]).0@ != key@
                },
                None => forall|j: int|
                    0 <= j < self.bindings.len() ==> (#[trigger] self.bindings[j]).0@ != key@,
            },
    {
        let name = key.to_owned();
        let mut i: usize = self.bindings.len();
        while i > 0
            invariant
                i <= self.bindings.len(),
                name@ == key@,
                forall|j: int|
                    i <= j < self.bindings.len() ==> (#[trigger] self.bindings[j]).0@ != key@,
            decreases i,
        {
            i -= 1;
            if self.bindings[i].0 == name {
                return Some(i);
            }
        }
        None
    }

    /// The expression bound to `key`, if there is one.
    pub fn find(&self, key: &str) -> (r: Option<E>)
        ensures
            match r {
                Some(e) => self@.contains_key(key@) && e@ == self@[key@],
                None => !self@.contains_key(key@),
            },
    {
        match self.position(key) {
            Some(i) => {
                proof {
                    lemma_string_clone_keeps_view();
                    lemma_last_binding(self.bindings@, key@, i as int);
                }
                Some(self.bindings[i].1.clone())
            },
            None => {
                proof {
                    lemma_absent(self.bindings@, key@);
                }
                None
            },
        }
    }

    /// The bindings, one pair for each name that is bound, in the order in
    /// which the names were first bound.
    pub fn entries(&self) -> (r: Vec<(String, E)>)
        ensures
            distinct_names(r@),
            bindings_map(r@) == self@,
    {
        let copy = self.clone();
        proof {
            use_type_invariant(&copy);
        }
        copy.bindings
    }

    /// Binds `name` to `value`, in place of what `name` was bound to before.
    pub fn bind(&mut self, name: String, value: E)
        ensures
            final(self)@ == old(self)@.insert(name@, value@),
    {
        proof {
            use_type_invariant(&*self);
        }
        let found = self.position(name.as_str());
        let mut taken = Env::new();
        core::mem::swap(self, &mut taken);
        let Env { bindings } = taken;
        let mut bindings = bindings;
        match found {
            Some(i) => {
                proof {
                    lemma_replace_binding(bindings@, i as int, (name, value));
                }
                bindings.set(i, (name, value));
            },
            None => {
                proof {
                    assert(bindings@.push((name, value)).drop_last() =~= bindings@);
                }
                bindings.push((name, value));
            },
        }
        *self = Env { bindings };
    }
}

} // verus!
