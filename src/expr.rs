//! Expression nodes and the arena that owns them.

use vstd::prelude::*;

use crate::operands::{Id, IdMultiset};

verus! {

/// Operators of the expression language.
#[derive(Debug, Clone, Copy, PartialEq, Eq, Structural)]
pub enum Op {
    Add,
    Sub,
    Mul,
    Div,
}

/// An expression node.
#[derive(Debug)]
pub enum MathAC {
    /// A literal value.
    Const(i64),
    /// A symbolic variable of the expression language.
    Var(String),
    /// An order-sensitive binary application.
    Op(Op, [Id; 2]),
    /// An associative-commutative application over a multiset of operands.
    OpAC(Op, IdMultiset),
}

/// Every handle that `e` refers to is below `n`.
pub open spec fn refs_below(e: MathAC, n: nat) -> bool {
    match e {
        MathAC::Op(_, args) => args@[0] < n && args@[1] < n,
        MathAC::OpAC(_, m) => forall|k: int| 0 <= k < m@.len() ==> #[trigger] m@[k].0 < n,
        _ => true,
    }
}

/// Append-only store of expression nodes; a node's handle is its position.
pub struct Arena(Vec<MathAC>);

impl View for Arena {
    type V = Seq<MathAC>;

    closed spec fn view(&self) -> Seq<MathAC> {
        self.0@
    }
}

impl Arena {
    /// Each node refers only to nodes inserted before it.
    #[verifier::type_invariant]
    spec fn bottom_up(self) -> bool {
        forall|i: int| 0 <= i < self.0@.len() ==> refs_below(#[trigger] self.0@[i], i as nat)
    }

    /// An empty arena.
    pub fn new() -> (r: Arena)
        ensures
            r@.len() == 0,
    {
        Arena(Vec::new())
    }

    /// Number of nodes.
    pub fn len(&self) -> (r: usize)
        ensures
            r == self@.len(),
    {
        self.0.len()
    }

    /// Appends `expr` and returns its handle, the number of nodes before it.
    pub fn insert(&mut self, expr: MathAC) -> (r: Id)
        requires
            refs_below(expr, old(self)@.len()),
        ensures
            r == old(self)@.len(),
            final(self)@ == old(self)@.push(expr),
    {
        proof {
            use_type_invariant(&*self);
        }
        let mut v: Vec<MathAC> = Vec::new();
        std::mem::swap(&mut v, &mut self.0);
        let ghost s = v@;
        let id = v.len();
        v.push(expr);
        assert forall|i: int| 0 <= i < v@.len() implies refs_below(#[trigger] v@[i], i as nat) by {
            if i < id {
                assert(v@[i] == s[i]);
            }
        }
        self.0 = v;
        id
    }

    /// The node with handle `id`, whose own references lie below `id`.
    pub fn index(&self, id: Id) -> (r: &MathAC)
        requires
            id < self@.len(),
        ensures
            *r == self@[id as int],
            refs_below(*r, id as nat),
    {
        proof {
            use_type_invariant(self);
        }
        &self.0[id]
    }
}

} // verus!
