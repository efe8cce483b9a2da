//! The sequence comparator: the total three-way order on component
//! sequences.
//!
//! Epochs — implicitly zero when absent — decide first; otherwise the
//! sequences are walked position by position, the exhausted side padded with
//! the placeholder component, so that sequences of different lengths and
//! different component kinds at the same position always compare.

use vstd::prelude::*;

use crate::comp_op::{flip_cmp, int_cmp, CompOp};
use crate::version_part::{lemma_subs_compose, lemma_subs_flip, lemma_subs_refl, part_cmp,
    part_key, tail_or_empty, PartV};

verus! {

/// The first component of a sequence, or the placeholder if it is empty.
pub open spec fn head_or_empty(s: Seq<PartV>) -> PartV {
    if s.len() > 0 {
        s[0]
    } else {
        PartV::Empty
    }
}

/// Three-way order on component sequences, position by position with
/// placeholder padding.
pub open spec fn parts_cmp(a: Seq<PartV>, b: Seq<PartV>) -> CompOp
    decreases a.len() + b.len(),
{
    if a.len() == 0 && b.len() == 0 {
        CompOp::Eq
    } else {
        let c = part_cmp(head_or_empty(a), head_or_empty(b));
        if c != CompOp::Eq {
            c
        } else {
            parts_cmp(tail_or_empty(a), tail_or_empty(b))
        }
    }
}

/// Whether a component sequence carries an explicit epoch.
pub open spec fn has_epoch(s: Seq<PartV>) -> bool {
    s.len() > 0 && s[0] matches PartV::Epoch { .. }
}

/// The epoch a component sequence compares under: its explicit epoch, or
/// zero when it has none.
pub open spec fn epoch_of(s: Seq<PartV>) -> int {
    if has_epoch(s) {
        match s[0] {
            PartV::Epoch { val } => val,
            _ => 0,
        }
    } else {
        0
    }
}

/// The components after the epoch, if any.
pub open spec fn body_of(s: Seq<PartV>) -> Seq<PartV> {
    if has_epoch(s) {
        s.skip(1)
    } else {
        s
    }
}

/// The three-way order on parsed versions: differing epochs decide the
/// outcome immediately, independent of the rest; equal epochs fall through
/// to the positional comparison of the remaining components.
pub open spec fn version_cmp(a: Seq<PartV>, b: Seq<PartV>) -> CompOp {
    if epoch_of(a) != epoch_of(b) {
        int_cmp(epoch_of(a), epoch_of(b))
    } else {
        parts_cmp(body_of(a), body_of(b))
    }
}

pub proof fn lemma_parts_refl(a: Seq<PartV>)
    ensures
        parts_cmp(a, a) == CompOp::Eq,
    decreases a.len(),
{
    if a.len() > 0 {
        lemma_subs_refl(part_key(head_or_empty(a)));
        lemma_parts_refl(tail_or_empty(a));
    }
}

pub proof fn lemma_parts_flip(a: Seq<PartV>, b: Seq<PartV>)
    ensures
        parts_cmp(b, a) == flip_cmp(parts_cmp(a, b)),
    decreases a.len() + b.len(),
{
    if a.len() > 0 || b.len() > 0 {
        lemma_subs_flip(part_key(head_or_empty(a)), part_key(head_or_empty(b)));
        if part_cmp(head_or_empty(a), head_or_empty(b)) == CompOp::Eq {
            lemma_parts_flip(tail_or_empty(a), tail_or_empty(b));
        }
    }
}

pub proof fn lemma_parts_trans_lt(a: Seq<PartV>, b: Seq<PartV>, c: Seq<PartV>)
    requires
        parts_cmp(a, b) == CompOp::Lt,
        parts_cmp(b, c) == CompOp::Lt,
    ensures
        parts_cmp(a, c) == CompOp::Lt,
    decreases a.len() + b.len() + c.len(),
{
    assert(a.len() > 0 || b.len() > 0);
    let x = head_or_empty(a);
    let y = head_or_empty(b);
    let z = head_or_empty(c);
    lemma_subs_compose(part_key(x), part_key(y), part_key(z));
    if part_cmp(x, y) == CompOp::Eq && part_cmp(y, z) == CompOp::Eq {
        lemma_parts_trans_lt(tail_or_empty(a), tail_or_empty(b), tail_or_empty(c));
    }
}

pub proof fn lemma_version_refl(a: Seq<PartV>)
    ensures
        version_cmp(a, a) == CompOp::Eq,
{
    lemma_parts_refl(body_of(a));
}

pub proof fn lemma_version_flip(a: Seq<PartV>, b: Seq<PartV>)
    ensures
        version_cmp(b, a) == flip_cmp(version_cmp(a, b)),
{
    lemma_parts_flip(body_of(a), body_of(b));
}

pub proof fn lemma_version_trans_lt(a: Seq<PartV>, b: Seq<PartV>, c: Seq<PartV>)
    requires
        version_cmp(a, b) == CompOp::Lt,
        version_cmp(b, c) == CompOp::Lt,
    ensures
        version_cmp(a, c) == CompOp::Lt,
{
    if epoch_of(a) == epoch_of(b) && epoch_of(b) == epoch_of(c) {
        lemma_parts_trans_lt(body_of(a), body_of(b), body_of(c));
    }
}

/// The comparison yields only the three-way results.
pub proof fn lemma_version_cmp_three_way(a: Seq<PartV>, b: Seq<PartV>)
    ensures
        version_cmp(a, b) == CompOp::Lt || version_cmp(a, b) == CompOp::Eq || version_cmp(a, b)
            == CompOp::Gt,
{
    lemma_parts_three_way(body_of(a), body_of(b));
}

proof fn lemma_parts_three_way(a: Seq<PartV>, b: Seq<PartV>)
    ensures
        parts_cmp(a, b) == CompOp::Lt || parts_cmp(a, b) == CompOp::Eq || parts_cmp(a, b)
            == CompOp::Gt,
    decreases a.len() + b.len(),
{
    if a.len() > 0 || b.len() > 0 {
        crate::version_part::lemma_subs_three_way(
            part_key(head_or_empty(a)),
            part_key(head_or_empty(b)),
        );
        if part_cmp(head_or_empty(a), head_or_empty(b)) == CompOp::Eq {
            lemma_parts_three_way(tail_or_empty(a), tail_or_empty(b));
        }
    }
}

} // verus!
