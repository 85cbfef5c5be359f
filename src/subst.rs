//! Substitutions: what a successful match binds each pattern variable to.

use vstd::prelude::*;

use crate::operands::{Id, IdMultiset};

verus! {

/// The mathematical value of a binding.
pub enum Binding {
    /// A single expression handle.
    Atom(Id),
    /// A sub-multiset of operands, as canonical entries.
    Rest(Seq<(Id, usize)>),
}

/// Bindings in the order they were made, each a name with its value.
pub type Bindings = Seq<(Seq<char>, Binding)>;

/// What a pattern variable is bound to.
#[derive(Debug, PartialEq, Eq)]
pub enum SubstValue {
    /// A single expression handle.
    Atom(Id),
    /// What remained of an AC operand multiset.
    Rest(IdMultiset),
}

impl View for SubstValue {
    type V = Binding;

    open spec fn view(&self) -> Binding {
        match self {
            SubstValue::Atom(id) => Binding::Atom(*id),
            SubstValue::Rest(m) => Binding::Rest(m@),
        }
    }
}

/// No name is bound twice.
pub open spec fn names_unique(s: Bindings) -> bool {
    forall|i: int, j: int| 0 <= i < s.len() && 0 <= j < s.len() && i != j ==> s[i].0 != s[j].0
}

/// Whether `name` is bound in `s`.
pub open spec fn is_bound(s: Bindings, name: Seq<char>) -> bool {
    exists|i: int| 0 <= i < s.len() && s[i].0 == name
}

/// The value bound to `name` in `s`, if any.
pub open spec fn lookup(s: Bindings, name: Seq<char>) -> Option<Binding> {
    if is_bound(s, name) {
        Some(s[choose|i: int| 0 <= i < s.len() && s[i].0 == name].1)
    } else {
        None
    }
}

/// The names bound in `s`.
pub open spec fn bound_names(s: Bindings) -> Set<Seq<char>> {
    Set::new(|name: Seq<char>| is_bound(s, name))
}

/// In bindings with unique names, the value of a name is that of its entry.
pub proof fn lemma_lookup_at(s: Bindings, i: int)
    requires
        names_unique(s),
        0 <= i < s.len(),
    ensures
        lookup(s, s[i].0) == Some(s[i].1),
{
    assert(is_bound(s, s[i].0));
}

/// A substitution: pattern-variable names with the values bound to them.
pub struct Subst {
    entries: Vec<(String, SubstValue)>,
}

impl View for Subst {
    type V = Bindings;

    closed spec fn view(&self) -> Bindings {
        self.entries@.map_values(|e: (String, SubstValue)| (e.0@, e.1@))
    }
}

impl Subst {
    #[verifier::type_invariant]
    spec fn unique(self) -> bool {
        names_unique(self@)
    }

    /// The empty substitution.
    pub fn new() -> (r: Subst)
        ensures
            r@.len() == 0,
    {
        let r = Subst { entries: Vec::new() };
        assert(r@ =~= Seq::empty());
        r
    }

    /// Number of bindings; no name is bound twice.
    pub fn len(&self) -> (r: usize)
        ensures
            r == self@.len(),
            names_unique(self@),
    {
        proof {
            use_type_invariant(self);
        }
        self.entries.len()
    }

    /// The `i`-th binding made.
    pub fn binding(&self, i: usize) -> (r: (&String, &SubstValue))
        requires
            i < self@.len(),
        ensures
            (r.0@, r.1@) == self@[i as int],
    {
        (&self.entries[i].0, &self.entries[i].1)
    }

    /// The value bound to `name`, if any.
    pub fn get(&self, name: &String) -> (r: Option<&SubstValue>)
        ensures
            r is Some <==> is_bound(self@, name@),
            r is Some ==> lookup(self@, name@) == Some(r->0@),
    {
        match self.position(name) {
            Some(i) => Some(&self.entries[i].1),
            None => None,
        }
    }

    /// Where `name` is bound, if it is.
    pub fn position(&self, name: &String) -> (r: Option<usize>)
        ensures
            r is Some <==> is_bound(self@, name@),
            r is Some ==> r->0 < self@.len() && self@[r->0 as int].0 == name@,
            r is Some ==> lookup(self@, name@) == Some(self@[r->0 as int].1),
    {
        proof {
            use_type_invariant(self);
        }
        let mut i: usize = 0;
        while i < self.entries.len()
            invariant
                i <= self@.len(),
                self@.len() == self.entries@.len(),
                names_unique(self@),
                forall|k: int| 0 <= k < i ==> self@[k].0 != name@,
            decreases self@.len() - i,
        {
            if self.entries[i].0 == *name {
                proof {
                    lemma_lookup_at(self@, i as int);
                }
                return Some(i);
            }
            i = i + 1;
        }
        None
    }

    /// Binds a name that is not yet bound.
    pub(crate) fn bind(&mut self, name: String, value: SubstValue)
        requires
            !is_bound(old(self)@, name@),
        ensures
            final(self)@ == old(self)@.push((name@, value@)),
    {
        proof {
            use_type_invariant(&*self);
        }
        let ghost s = self@;
        let mut v: Vec<(String, SubstValue)> = Vec::new();
        std::mem::swap(&mut v, &mut self.entries);
        let ghost e = (name@, value@);
        v.push((name, value));
        let ghost t = v@.map_values(|e: (String, SubstValue)| (e.0@, e.1@));
        assert(t =~= s.push(e));
        assert(names_unique(t)) by {
            assert forall|i: int, j: int|
                0 <= i < t.len() && 0 <= j < t.len() && i != j implies t[i].0 != t[j].0 by {
                if i == s.len() {
                    assert(s[j].0 != e.0);
                } else if j == s.len() {
                    assert(s[i].0 != e.0);
                } else {
                    assert(t[i] == s[i] && t[j] == s[j]);
                }
            }
        }
        self.entries = v;
    }

    /// Drops the bindings made after the first `n`.
    pub(crate) fn rollback(&mut self, n: usize)
        requires
            n <= old(self)@.len(),
        ensures
            final(self)@ == old(self)@.subrange(0, n as int),
    {
        proof {
            use_type_invariant(&*self);
        }
        let ghost s = self@;
        let mut v: Vec<(String, SubstValue)> = Vec::new();
        std::mem::swap(&mut v, &mut self.entries);
        v.truncate(n);
        let ghost t = v@.map_values(|e: (String, SubstValue)| (e.0@, e.1@));
        assert(t =~= s.subrange(0, n as int));
        self.entries = v;
    }
}

} // verus!
