//! The relational-operator value used throughout the comparison interface.

use vstd::prelude::*;

verus! {

/// A relational operator.  `compare` only ever returns one of `Lt`, `Eq`,
/// `Gt`; the other three appear as inputs to `compare_to`.
#[derive(Clone, Copy, Debug, PartialEq, Eq, Structural)]
pub enum CompOp {
    Eq,
    Ne,
    Lt,
    Le,
    Ge,
    Gt,
}

/// Mirror of a three-way comparison result: the result of comparing the same
/// two operands in the opposite order.
pub open spec fn flip_cmp(c: CompOp) -> CompOp {
    match c {
        CompOp::Lt => CompOp::Gt,
        CompOp::Gt => CompOp::Lt,
        other => other,
    }
}

/// The three-way comparison of two integers.
pub open spec fn int_cmp(x: int, y: int) -> CompOp {
    if x < y {
        CompOp::Lt
    } else if x > y {
        CompOp::Gt
    } else {
        CompOp::Eq
    }
}

/// Whether a three-way comparison result satisfies a requested relational
/// operator: `Eq` satisfies {Eq, Le, Ge}, `Lt` satisfies {Ne, Lt, Le}, and
/// `Gt` satisfies {Ne, Gt, Ge}.
pub open spec fn op_matches(result: CompOp, operator: CompOp) -> bool {
    match result {
        CompOp::Eq => operator == CompOp::Eq || operator == CompOp::Le || operator == CompOp::Ge,
        CompOp::Lt => operator == CompOp::Ne || operator == CompOp::Lt || operator == CompOp::Le,
        CompOp::Gt => operator == CompOp::Ne || operator == CompOp::Gt || operator == CompOp::Ge,
        _ => false,
    }
}

impl CompOp {
    /// The logical negation of this operator.
    pub open spec fn invert_spec(self) -> CompOp {
        match self {
            CompOp::Eq => CompOp::Ne,
            CompOp::Ne => CompOp::Eq,
            CompOp::Lt => CompOp::Ge,
            CompOp::Le => CompOp::Gt,
            CompOp::Ge => CompOp::Lt,
            CompOp::Gt => CompOp::Le,
        }
    }

    /// Logical negation: a comparison result satisfies `self` exactly when it
    /// does not satisfy `self.invert()`.
    pub fn invert(&self) -> (r: CompOp)
        ensures
            r == self.invert_spec(),
    {
        match self {
            CompOp::Eq => CompOp::Ne,
            CompOp::Ne => CompOp::Eq,
            CompOp::Lt => CompOp::Ge,
            CompOp::Le => CompOp::Gt,
            CompOp::Ge => CompOp::Lt,
            CompOp::Gt => CompOp::Le,
        }
    }

    /// The mirror of this operator across equality.
    pub open spec fn opposite_spec(self) -> CompOp {
        match self {
            CompOp::Eq => CompOp::Ne,
            CompOp::Ne => CompOp::Eq,
            CompOp::Lt => CompOp::Gt,
            CompOp::Le => CompOp::Ge,
            CompOp::Ge => CompOp::Le,
            CompOp::Gt => CompOp::Lt,
        }
    }

    /// Mirror across equality: swapping the operands of a satisfied strict
    /// comparison satisfies the opposite operator.
    pub fn opposite(&self) -> (r: CompOp)
        ensures
            r == self.opposite_spec(),
    {
        match self {
            CompOp::Eq => CompOp::Ne,
            CompOp::Ne => CompOp::Eq,
            CompOp::Lt => CompOp::Gt,
            CompOp::Le => CompOp::Ge,
            CompOp::Ge => CompOp::Le,
            CompOp::Gt => CompOp::Lt,
        }
    }

    /// The mirror of a three-way comparison result: what comparing the same
    /// operands in the opposite order yields.
    pub fn flip(&self) -> (r: CompOp)
        ensures
            r == flip_cmp(*self),
    {
        match self {
            CompOp::Lt => CompOp::Gt,
            CompOp::Gt => CompOp::Lt,
            CompOp::Eq => CompOp::Eq,
            CompOp::Ne => CompOp::Ne,
            CompOp::Le => CompOp::Le,
            CompOp::Ge => CompOp::Ge,
        }
    }

    /// The `core::cmp::Ordering` this operator corresponds to, for the three
    /// operators that are three-way comparison results.
    pub fn ord(&self) -> (r: Option<core::cmp::Ordering>)
        ensures
            r == match *self {
                CompOp::Lt => Some(core::cmp::Ordering::Less),
                CompOp::Eq => Some(core::cmp::Ordering::Equal),
                CompOp::Gt => Some(core::cmp::Ordering::Greater),
                _ => None::<core::cmp::Ordering>,
            },
    {
        match self {
            CompOp::Lt => Some(core::cmp::Ordering::Less),
            CompOp::Eq => Some(core::cmp::Ordering::Equal),
            CompOp::Gt => Some(core::cmp::Ordering::Greater),
            _ => None,
        }
    }
}

} // verus!
