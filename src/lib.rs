//! Structural matching of patterns against expression trees whose
//! associative-commutative operators hold their operands as multisets.

pub mod expr;
pub mod laws;
pub mod matcher;
pub mod operands;
pub mod pattern;
pub mod subst;

pub use expr::{Arena, MathAC, Op};
pub use matcher::{ac_match, try_ac_match, MatchError};
pub use operands::{multiset, Id, IdMultiset};
pub use pattern::Pattern;
pub use subst::{Subst, SubstValue};
