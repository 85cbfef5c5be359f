//! Properties of matching, stated over `outcome`, the model that the
//! matcher's contract follows.

use vstd::prelude::*;

use crate::expr::MathAC;
use crate::matcher::{ac_outcome, bind_to, first_fit, outcome, sub_count, Outcome, Pick};
use crate::operands::Id;
use crate::pattern::Pattern;
use crate::subst::{bound_names, is_bound, lookup, names_unique, Binding, Bindings};

verus! {

/// The names of the `Var` and `Rest` patterns in `p`.
pub open spec fn pattern_vars(p: Pattern) -> Set<Seq<char>>
    decreases p, 1int, 0int,
{
    match p {
        Pattern::Const(_) => Set::empty(),
        Pattern::Var(x) => set![x@],
        Pattern::Rest(x) => set![x@],
        Pattern::Op(_, _) => vars_from(p, 0),
    }
}

/// The variable names of the sub-patterns of `p` from the `i`-th on.
pub open spec fn vars_from(p: Pattern, i: int) -> Set<Seq<char>>
    decreases p, 0int, sub_count(p) - i,
{
    match p {
        Pattern::Op(_, pats) => if 0 <= i < pats.len() {
            pattern_vars(pats[i]).union(vars_from(p, i + 1))
        } else {
            Set::empty()
        },
        _ => Set::empty(),
    }
}

/// Every `Rest` pattern inside `p` is the last of its list.
pub open spec fn rest_last(p: Pattern) -> bool
    decreases p, 1int, 0int,
{
    match p {
        Pattern::Op(_, _) => rest_last_from(p, 0),
        _ => true,
    }
}

/// `rest_last` for the sub-patterns of `p` from the `i`-th on.
pub open spec fn rest_last_from(p: Pattern, i: int) -> bool
    decreases p, 0int, sub_count(p) - i,
{
    match p {
        Pattern::Op(_, pats) => if 0 <= i < pats.len() {
            &&& (pats[i] is Rest ==> i == pats.len() - 1)
            &&& rest_last(pats[i])
            &&& rest_last_from(p, i + 1)
        } else {
            true
        },
        _ => true,
    }
}

/// Matching is a function of the node, the pattern and the arena: two
/// attempts that start from empty substitutions give the same outcome,
/// bindings included.
pub proof fn lemma_deterministic(e: Id, p: Pattern, a: Seq<MathAC>, s1: Bindings, s2: Bindings)
    requires
        s1.len() == 0,
        s2.len() == 0,
    ensures
        outcome(e, p, a, s1) == outcome(e, p, a, s2),
{
    assert(s1 =~= s2);
}

/// A variable bound by a match is consistent afterwards: matching it again
/// against the same handle succeeds and changes nothing, and matching it
/// against any other handle fails.
pub proof fn lemma_var_consistent(x: String, e: Id, other: Id, a: Seq<MathAC>, s: Bindings)
    requires
        e < a.len(),
        other < a.len(),
        other != e,
    ensures
        match outcome(e, Pattern::Var(x), a, s) {
            Outcome::Match(s1) => {
                &&& outcome(e, Pattern::Var(x), a, s1) == Outcome::Match(s1)
                &&& outcome(other, Pattern::Var(x), a, s1) == Outcome::NoMatch
            },
            _ => true,
        },
{
    if lookup(s, x@) is None {
        let s1 = s.push((x@, Binding::Atom(e)));
        let k = s.len() as int;
        assert(s1[k].0 == x@);
        assert(is_bound(s1, x@));
        let c = choose|i: int| 0 <= i < s1.len() && s1[i].0 == x@;
        if c < k {
            assert(s[c].0 == x@);
            assert(is_bound(s, x@));
        }
        assert(lookup(s1, x@) == Some(Binding::Atom(e)));
    }
}

/// Binding one name keeps names unique and adds that name.
proof fn lemma_bind_names(name: Seq<char>, b: Binding, s: Bindings)
    requires
        names_unique(s),
    ensures
        match bind_to(name, b, s) {
            Outcome::Match(s2) => names_unique(s2) && bound_names(s2) == bound_names(s).insert(name),
            _ => true,
        },
{
    if lookup(s, name) is Some {
        assert(bound_names(s).insert(name) =~= bound_names(s));
    } else {
        let s2 = s.push((name, b));
        assert(bound_names(s2) =~= bound_names(s).insert(name)) by {
            assert forall|n: Seq<char>| is_bound(s2, n) <==> is_bound(s, n) || n == name by {
                if is_bound(s, n) {
                    let i = choose|i: int| 0 <= i < s.len() && s[i].0 == n;
                    assert(s2[i] == s[i]);
                }
                if n == name {
                    assert(s2[s.len() as int].0 == name);
                }
                if is_bound(s2, n) && n != name {
                    let i = choose|i: int| 0 <= i < s2.len() && s2[i].0 == n;
                    assert(i < s.len());
                    assert(s[i] == s2[i]);
                }
            }
        }
        assert(names_unique(s2)) by {
            assert forall|i: int, j: int|
                0 <= i < s2.len() && 0 <= j < s2.len() && i != j implies s2[i].0 != s2[j].0 by {
                if i == s.len() {
                    assert(s2[j] == s[j]);
                } else if j == s.len() {
                    assert(s2[i] == s[i]);
                } else {
                    assert(s2[i] == s[i] && s2[j] == s[j]);
                }
            }
        }
    }
}

/// A successful match keeps names unique and adds exactly the names of the
/// pattern's `Var` and `Rest` patterns to those already bound, provided every
/// `Rest` pattern ends its list.
pub proof fn lemma_outcome_names(e: Id, p: Pattern, a: Seq<MathAC>, s: Bindings)
    requires
        rest_last(p),
        names_unique(s),
    ensures
        match outcome(e, p, a, s) {
            Outcome::Match(s2) => names_unique(s2) && bound_names(s2) == bound_names(s).union(
                pattern_vars(p),
            ),
            _ => true,
        },
    decreases p, 2int, 0int,
{
    if e < a.len() {
        match p {
            Pattern::Const(_) => {
                assert(bound_names(s).union(Set::empty()) =~= bound_names(s));
            },
            Pattern::Var(x) => {
                lemma_bind_names(x@, Binding::Atom(e), s);
                assert(bound_names(s).insert(x@) =~= bound_names(s).union(set![x@]));
            },
            Pattern::Rest(_) => {},
            Pattern::Op(pop, pats) => {
                match a[e as int] {
                    MathAC::Op(eop, args) => {
                        if eop == pop && pats.len() == 2 {
                            assert(decreases_to!(p => pats[0]));
                            assert(decreases_to!(p => pats[1]));
                            assert(rest_last_from(p, 0));
                            assert(rest_last_from(p, 1));
                            lemma_outcome_names(args@[0], pats[0], a, s);
                            if let Outcome::Match(s1) = outcome(args@[0], pats[0], a, s) {
                                lemma_outcome_names(args@[1], pats[1], a, s1);
                            }
                            assert(vars_from(p, 2) =~= Set::empty());
                            assert(vars_from(p, 1) =~= pattern_vars(pats[1]));
                            assert(vars_from(p, 0) =~= pattern_vars(pats[0]).union(
                                pattern_vars(pats[1]),
                            ));
                            if let Outcome::Match(s2) = outcome(e, p, a, s) {
                                assert(bound_names(s2) =~= bound_names(s).union(pattern_vars(p)));
                            }
                        }
                    },
                    MathAC::OpAC(eop, m) => {
                        if eop == pop {
                            lemma_ac_names(p, 0, m@, a, s);
                        }
                    },
                    _ => {},
                }
            },
        }
    }
}

proof fn lemma_ac_names(p: Pattern, i: int, rest: Seq<(Id, usize)>, a: Seq<MathAC>, s: Bindings)
    requires
        p is Op,
        0 <= i,
        rest_last_from(p, i),
        names_unique(s),
    ensures
        match ac_outcome(p, i, rest, a, s) {
            Outcome::Match(s2) => names_unique(s2) && bound_names(s2) == bound_names(s).union(
                vars_from(p, i),
            ),
            _ => true,
        },
    decreases p, 1int, sub_count(p) - i,
{
    if let Pattern::Op(_, pats) = p {
        if i >= pats.len() {
            assert(bound_names(s).union(Set::empty()) =~= bound_names(s));
        } else {
            match pats[i] {
                Pattern::Rest(xs) => {
                    lemma_bind_names(xs@, Binding::Rest(rest), s);
                    assert(i == pats.len() - 1);
                    assert(vars_from(p, i + 1) =~= Set::empty());
                    assert(pattern_vars(pats[i]) == set![xs@]);
                    assert(vars_from(p, i) =~= set![xs@]);
                    assert(bound_names(s).insert(xs@) =~= bound_names(s).union(vars_from(p, i)));
                },
                _ => {
                    lemma_fit_names(p, i, rest, 0, a, s);
                    if let Pick::Fits(j, s1) = first_fit(p, i, rest, 0, a, s) {
                        lemma_ac_names(p, i + 1, crate::operands::take_one(rest, j), a, s1);
                        if let Outcome::Match(s2) = ac_outcome(p, i, rest, a, s) {
                            assert(bound_names(s2) =~= bound_names(s).union(vars_from(p, i)));
                        }
                    }
                },
            }
        }
    }
}

proof fn lemma_fit_names(p: Pattern, i: int, rest: Seq<(Id, usize)>, j: int, a: Seq<MathAC>, s: Bindings)
    requires
        p is Op,
        0 <= i < sub_count(p),
        rest_last_from(p, i),
        names_unique(s),
    ensures
        match first_fit(p, i, rest, j, a, s) {
            Pick::Fits(_, s2) => names_unique(s2) && bound_names(s2) == bound_names(s).union(
                pattern_vars(p->Op_1[i]),
            ),
            _ => true,
        },
    decreases p, 0int, rest.len() - j,
{
    if let Pattern::Op(_, pats) = p {
        if 0 <= j < rest.len() {
            assert(decreases_to!(p => pats[i]));
            lemma_outcome_names(rest[j].0, pats[i], a, s);
            lemma_fit_names(p, i, rest, j + 1, a, s);
        }
    }
}

/// After a successful match from an empty substitution, the names bound are
/// exactly those of the pattern's `Var` and `Rest` patterns, each bound once.
/// This needs every `Rest` pattern to end its list: the sub-patterns after a
/// `Rest` are never looked at.
pub proof fn lemma_binds_pattern_vars(e: Id, p: Pattern, a: Seq<MathAC>, s: Bindings)
    requires
        rest_last(p),
        s.len() == 0,
    ensures
        match outcome(e, p, a, s) {
            Outcome::Match(s2) => names_unique(s2) && bound_names(s2) == pattern_vars(p),
            _ => true,
        },
{
    lemma_outcome_names(e, p, a, s);
    assert(bound_names(s) =~= Set::empty());
    assert(Set::<Seq<char>>::empty().union(pattern_vars(p)) =~= pattern_vars(p));
}

} // verus!
