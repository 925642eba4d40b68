//! The commitment group of the argument system.
//!
//! The scheme only needs an additive group with a scalar action; this
//! instantiation uses the additive group of the scalar field, so group
//! elements are canonical representatives and the spec-level operations are
//! `fadd` and `fmul` from the field module.

use vstd::prelude::*;
use crate::field::{fadd, fmul, in_field, Scalar, MODULUS};

verus! {

/// An element of the commitment group.
#[derive(Debug, Clone, Copy, PartialEq, Eq, Structural)]
pub struct Group {
    pub v: u64,
}

impl View for Group {
    type V = int;

    open spec fn view(&self) -> int {
        self.v as int
    }
}

impl Group {
    /// Canonicity: the representative is reduced.
    pub open spec fn wf(self) -> bool {
        self.v < MODULUS
    }

    /// The distinguished identity element.
    pub fn identity() -> (r: Group)
        ensures
            r.wf(),
            r@ == 0,
    {
        Group { v: 0 }
    }

    /// Group addition.
    pub fn add(self, other: Group) -> (r: Group)
        requires
            self.wf(),
            other.wf(),
        ensures
            r.wf(),
            r@ == fadd(self@, other@),
    {
        let s = Scalar { v: self.v }.add(Scalar { v: other.v });
        Group { v: s.v }
    }

    /// The scalar action on the group.
    pub fn mul(self, s: Scalar) -> (r: Group)
        requires
            self.wf(),
            s.wf(),
        ensures
            r.wf(),
            r@ == fmul(s@, self@),
    {
        let p = s.mul(Scalar { v: self.v });
        Group { v: p.v }
    }
}

} // verus!
