//! The AC-aware matcher.
//!
//! `outcome` states what matching a pattern against a node yields. Operands
//! of an AC node are tried in ascending handle order, and each sub-pattern
//! keeps the first operand that matches it: the search is greedy and never
//! revisits an earlier sub-pattern's choice, so a split that needs another
//! choice is not found.

use vstd::prelude::*;

use crate::expr::{Arena, MathAC};
use crate::operands::{take_one, Id};
use crate::pattern::Pattern;
use crate::subst::{lookup, names_unique, Binding, Bindings, Subst, SubstValue};

verus! {

/// Misuse that ends a matching session, as opposed to a mere mismatch.
#[derive(Debug, Clone, Copy, PartialEq, Eq, Structural)]
pub enum MatchError {
    /// A `Rest` pattern reached outside an `Op` pattern's list over an AC node.
    RestOutsideOp,
    /// An `Op` pattern met a binary node with other than two sub-patterns.
    BinaryArity,
    /// A handle that the arena does not hold.
    UnknownHandle,
}

/// What matching yields.
pub enum Outcome {
    /// The session is aborted.
    Abort(MatchError),
    /// The pattern does not match here.
    NoMatch,
    /// The pattern matches, with these bindings.
    Match(Bindings),
}

/// What the search for an operand of one sub-pattern yields.
pub enum Pick {
    /// The session is aborted.
    Abort(MatchError),
    /// No remaining operand matches.
    NoneFits,
    /// The operand at this entry matches, with these bindings.
    Fits(int, Bindings),
}

/// Binds `name` to `b`, or checks an existing binding against it.
pub open spec fn bind_to(name: Seq<char>, b: Binding, s: Bindings) -> Outcome {
    match lookup(s, name) {
        Some(old_b) => if old_b == b {
            Outcome::Match(s)
        } else {
            Outcome::NoMatch
        },
        None => Outcome::Match(s.push((name, b))),
    }
}

/// Number of sub-patterns of an `Op` pattern.
pub open spec fn sub_count(p: Pattern) -> int {
    match p {
        Pattern::Op(_, pats) => pats.len() as int,
        _ => 0,
    }
}

/// Matching `p` against the node with handle `e` of arena `a`, starting from bindings `s`.
pub open spec fn outcome(e: Id, p: Pattern, a: Seq<MathAC>, s: Bindings) -> Outcome
    decreases p, 2int, 0int,
{
    if e >= a.len() {
        Outcome::Abort(MatchError::UnknownHandle)
    } else {
        match p {
            Pattern::Rest(_) => Outcome::Abort(MatchError::RestOutsideOp),
            Pattern::Const(c) => match a[e as int] {
                MathAC::Const(b) => if b == c {
                    Outcome::Match(s)
                } else {
                    Outcome::NoMatch
                },
                _ => Outcome::NoMatch,
            },
            Pattern::Var(x) => bind_to(x@, Binding::Atom(e), s),
            Pattern::Op(pop, pats) => match a[e as int] {
                MathAC::Op(eop, args) => if eop != pop {
                    Outcome::NoMatch
                } else if pats.len() != 2 {
                    Outcome::Abort(MatchError::BinaryArity)
                } else {
                    match outcome(args@[0], pats[0], a, s) {
                        Outcome::Match(s1) => outcome(args@[1], pats[1], a, s1),
                        other => other,
                    }
                },
                MathAC::OpAC(eop, m) => if eop != pop {
                    Outcome::NoMatch
                } else {
                    ac_outcome(p, 0, m@, a, s)
                },
                _ => Outcome::NoMatch,
            },
        }
    }
}

/// Matching the sub-patterns of `Op` pattern `p` from the `i`-th on against
/// the operands `rest` that earlier sub-patterns left.
pub open spec fn ac_outcome(p: Pattern, i: int, rest: Seq<(Id, usize)>, a: Seq<MathAC>, s: Bindings) -> Outcome
    decreases p, 1int, sub_count(p) - i,
{
    match p {
        Pattern::Op(_, pats) => if i < 0 || i >= pats.len() {
            Outcome::Match(s)
        } else {
            match pats[i] {
                Pattern::Rest(xs) => bind_to(xs@, Binding::Rest(rest), s),
                _ => match first_fit(p, i, rest, 0, a, s) {
                    Pick::Fits(j, s1) => ac_outcome(p, i + 1, take_one(rest, j), a, s1),
                    Pick::NoneFits => Outcome::NoMatch,
                    Pick::Abort(err) => Outcome::Abort(err),
                },
            }
        },
        _ => Outcome::Match(s),
    }
}

/// The first entry of `rest`, from the `j`-th on, whose handle the `i`-th
/// sub-pattern of `p` matches.
pub open spec fn first_fit(p: Pattern, i: int, rest: Seq<(Id, usize)>, j: int, a: Seq<MathAC>, s: Bindings) -> Pick
    decreases p, 0int, rest.len() - j,
{
    match p {
        Pattern::Op(_, pats) => if 0 <= i < pats.len() && 0 <= j < rest.len() {
            match outcome(rest[j].0, pats[i], a, s) {
                Outcome::Match(s1) => Pick::Fits(j, s1),
                Outcome::NoMatch => first_fit(p, i, rest, j + 1, a, s),
                Outcome::Abort(err) => Pick::Abort(err),
            }
        } else {
            Pick::NoneFits
        },
        _ => Pick::NoneFits,
    }
}

/// `t` extends `s`: `s` is a prefix of it.
pub open spec fn extends(t: Bindings, s: Bindings) -> bool {
    t.len() >= s.len() && forall|k: int| 0 <= k < s.len() ==> t[k] == s[k]
}

/// Matches `pattern` against the node `expr` of `arena`, extending `subst`
/// with the bindings of a match. On a mismatch or an abort, `subst` is left
/// as it was.
pub fn try_ac_match(expr: Id, pattern: &Pattern, arena: &Arena, subst: &mut Subst) -> (r: Result<bool, MatchError>)
    ensures
        match outcome(expr, *pattern, arena@, old(subst)@) {
            Outcome::Match(s) => r == Ok::<bool, MatchError>(true) && final(subst)@ == s,
            Outcome::NoMatch => r == Ok::<bool, MatchError>(false) && final(subst)@ == old(subst)@,
            Outcome::Abort(err) => r == Err::<bool, MatchError>(err) && final(subst)@ == old(subst)@,
        },
        extends(final(subst)@, old(subst)@),
        names_unique(final(subst)@),
{
    let r = match_node(expr, pattern, arena, subst);
    // `len` states that names stay unique
    let _ = subst.len();
    r
}

/// The recursion behind `try_ac_match`.
fn match_node(expr: Id, pattern: &Pattern, arena: &Arena, subst: &mut Subst) -> (r: Result<bool, MatchError>)
    ensures
        match outcome(expr, *pattern, arena@, old(subst)@) {
            Outcome::Match(s) => r == Ok::<bool, MatchError>(true) && final(subst)@ == s,
            Outcome::NoMatch => r == Ok::<bool, MatchError>(false) && final(subst)@ == old(subst)@,
            Outcome::Abort(err) => r == Err::<bool, MatchError>(err) && final(subst)@ == old(subst)@,
        },
        extends(final(subst)@, old(subst)@),
    decreases pattern,
{
    let ghost s0 = subst@;
    if expr >= arena.len() {
        return Err(MatchError::UnknownHandle);
    }
    let node = arena.index(expr);
    match pattern {
        Pattern::Rest(_) => Err(MatchError::RestOutsideOp),
        Pattern::Const(c) => match node {
            MathAC::Const(b) => Ok(*b == *c),
            _ => Ok(false),
        },
        Pattern::Var(x) => match subst.position(x) {
            Some(k) => {
                let (_, v) = subst.binding(k);
                match v {
                    SubstValue::Atom(h) => Ok(*h == expr),
                    _ => Ok(false),
                }
            },
            None => {
                subst.bind(x.clone(), SubstValue::Atom(expr));
                Ok(true)
            },
        },
        Pattern::Op(pop, pats) => match node {
            MathAC::Op(eop, args) => {
                if *eop != *pop {
                    return Ok(false);
                }
                if pats.len() != 2 {
                    return Err(MatchError::BinaryArity);
                }
                let mark = subst.len();
                assert(decreases_to!(*pattern => pats[0]));
                let first = match_node(args[0], &pats[0], arena, subst);
                match first {
                    Ok(true) => {},
                    _ => {
                        return first;
                    },
                }
                let ghost s1 = subst@;
                assert(decreases_to!(*pattern => pats[1]));
                let second = match_node(args[1], &pats[1], arena, subst);
                match second {
                    Ok(true) => {
                        Ok(true)
                    },
                    _ => {
                        subst.rollback(mark);
                        assert(subst@ =~= s0);
                        second
                    },
                }
            },
            MathAC::OpAC(eop, m) => {
                if *eop != *pop {
                    return Ok(false);
                }
                let mark = subst.len();
                let mut remaining = m.duplicate();
                let mut i: usize = 0;
                while i < pats.len()
                    invariant
                        *pattern == Pattern::Op(*pop, *pats),
                        mark == s0.len(),
                        s0 == old(subst)@,
                        i <= pats@.len(),
                        extends(subst@, s0),
                        ac_outcome(*pattern, i as int, remaining@, arena@, subst@)
                            == outcome(expr, *pattern, arena@, s0),
                    decreases pats@.len() - i,
                {
                    let ghost si = subst@;
                    match &pats[i] {
                        Pattern::Rest(xs) => {
                            match subst.position(xs) {
                                Some(k) => {
                                    let (_, v) = subst.binding(k);
                                    let same = match v {
                                        SubstValue::Rest(b) => b.same_as(&remaining),
                                        _ => false,
                                    };
                                    if same {
                                        return Ok(true);
                                    }
                                    subst.rollback(mark);
                                    assert(subst@ =~= s0);
                                    return Ok(false);
                                },
                                None => {
                                    subst.bind(xs.clone(), SubstValue::Rest(remaining));
                                    return Ok(true);
                                },
                            }
                        },
                        _ => {
                            let mut j: usize = 0;
                            let mut found = false;
                            while j < remaining.len() && !found
                                invariant
                                    *pattern == Pattern::Op(*pop, *pats),
                                    i < pats@.len(),
                                    !(pats@[i as int] is Rest),
                                    mark == s0.len(),
                                    s0 == old(subst)@,
                                    ac_outcome(*pattern, i as int, remaining@, arena@, si)
                                        == outcome(expr, *pattern, arena@, s0),
                                    j <= remaining@.len(),
                                    extends(subst@, s0),
                                    extends(si, s0),
                                    !found ==> subst@ == si && first_fit(*pattern, i as int, remaining@, 0, arena@, si)
                                        == first_fit(*pattern, i as int, remaining@, j as int, arena@, si),
                                    found ==> j < remaining@.len() && first_fit(*pattern, i as int, remaining@, 0, arena@, si)
                                        == Pick::Fits(j as int, subst@),
                                decreases remaining@.len() - j + if found { 0int } else { 1int },
                            {
                                let (h, _) = remaining.entry(j);
                                assert(decreases_to!(*pattern => pats[i as int]));
                                let res = match_node(h, &pats[i], arena, subst);
                                match res {
                                    Ok(true) => {
                                        found = true;
                                    },
                                    Ok(false) => {
                                        j = j + 1;
                                    },
                                    Err(err) => {
                                        subst.rollback(mark);
                                        assert(subst@ =~= s0);
                                        return Err(err);
                                    },
                                }
                            }
                            if !found {
                                subst.rollback(mark);
                                assert(subst@ =~= s0);
                                return Ok(false);
                            }
                            remaining.take_at(j);
                            i = i + 1;
                        },
                    }
                }
                Ok(true)
            },
            _ => Ok(false),
        },
    }
}

/// Matches `pattern` against the node `expr` of `arena`: `true` with the
/// bindings of the match added to `subst`, or `false` with `subst` left as
/// it was. Inputs on which the session would abort are excluded.
pub fn ac_match(expr: Id, pattern: &Pattern, arena: &Arena, subst: &mut Subst) -> (r: bool)
    requires
        !(outcome(expr, *pattern, arena@, old(subst)@) is Abort),
    ensures
        match outcome(expr, *pattern, arena@, old(subst)@) {
            Outcome::Match(s) => r && final(subst)@ == s,
            _ => !r && final(subst)@ == old(subst)@,
        },
        names_unique(final(subst)@),
{
    match try_ac_match(expr, pattern, arena, subst) {
        Ok(b) => b,
        Err(_) => false,
    }
}

} // verus!
