//! The order-theoretic laws of version comparison, stated over the
//! component sequences that `Version::compare` is specified against.

use vstd::prelude::*;

use crate::comp_op::{flip_cmp, op_matches, CompOp};
use crate::conda::tokenize_spec;
use crate::ordering::{lemma_version_cmp_three_way, lemma_version_flip, lemma_version_refl,
    lemma_version_trans_lt, version_cmp};
use crate::version_part::PartV;

verus! {

/// Reflexivity: every version compares equal to itself.
pub proof fn law_compare_reflexive(x: Seq<PartV>)
    ensures
        version_cmp(x, x) == CompOp::Eq,
{
    lemma_version_refl(x);
}

/// Antisymmetry: comparing in the opposite order mirrors the result, so
/// `Lt` and `Gt` trade places and `Eq` stays.
pub proof fn law_compare_mirror(x: Seq<PartV>, y: Seq<PartV>)
    ensures
        version_cmp(y, x) == flip_cmp(version_cmp(x, y)),
{
    lemma_version_flip(x, y);
}

/// Transitivity of the strict order.
pub proof fn law_compare_transitive(x: Seq<PartV>, y: Seq<PartV>, z: Seq<PartV>)
    requires
        version_cmp(x, y) == CompOp::Lt,
        version_cmp(y, z) == CompOp::Lt,
    ensures
        version_cmp(x, z) == CompOp::Lt,
{
    lemma_version_trans_lt(x, y, z);
}

/// The comparison is total: it always yields one of the three-way results.
pub proof fn law_compare_three_way(x: Seq<PartV>, y: Seq<PartV>)
    ensures
        version_cmp(x, y) == CompOp::Lt || version_cmp(x, y) == CompOp::Eq || version_cmp(x, y)
            == CompOp::Gt,
{
    lemma_version_cmp_three_way(x, y);
}

/// Operator satisfaction: a strictly smaller version satisfies exactly
/// `Ne`, `Lt` and `Le`, and fails `Eq`, `Gt` and `Ge`.
pub proof fn law_operator_satisfaction(x: Seq<PartV>, y: Seq<PartV>)
    ensures
        version_cmp(x, y) == CompOp::Lt ==> {
            &&& op_matches(version_cmp(x, y), CompOp::Ne)
            &&& op_matches(version_cmp(x, y), CompOp::Lt)
            &&& op_matches(version_cmp(x, y), CompOp::Le)
            &&& !op_matches(version_cmp(x, y), CompOp::Gt)
            &&& !op_matches(version_cmp(x, y), CompOp::Ge)
            &&& !op_matches(version_cmp(x, y), CompOp::Eq)
        },
{
}

/// Reflexivity, over the raw strings: every string the tokenizer accepts
/// compares equal to itself.
pub proof fn law_compare_reflexive_strings(x: Seq<char>)
    ensures
        tokenize_spec(x) matches Some(ps) ==> version_cmp(ps, ps) == CompOp::Eq,
{
    match tokenize_spec(x) {
        Some(ps) => lemma_version_refl(ps),
        None => {},
    }
}

/// Antisymmetry, over the raw strings: for accepted strings, comparing in
/// the opposite order mirrors the result.
pub proof fn law_compare_mirror_strings(x: Seq<char>, y: Seq<char>)
    ensures
        (tokenize_spec(x) matches Some(px) && tokenize_spec(y) matches Some(py)) ==> version_cmp(
            tokenize_spec(y).unwrap(),
            tokenize_spec(x).unwrap(),
        ) == flip_cmp(version_cmp(tokenize_spec(x).unwrap(), tokenize_spec(y).unwrap())),
{
    match (tokenize_spec(x), tokenize_spec(y)) {
        (Some(px), Some(py)) => lemma_version_flip(px, py),
        _ => {},
    }
}

/// Transitivity of the strict order, over the raw strings.
pub proof fn law_compare_transitive_strings(x: Seq<char>, y: Seq<char>, z: Seq<char>)
    requires
        tokenize_spec(x) is Some,
        tokenize_spec(y) is Some,
        tokenize_spec(z) is Some,
        version_cmp(tokenize_spec(x).unwrap(), tokenize_spec(y).unwrap()) == CompOp::Lt,
        version_cmp(tokenize_spec(y).unwrap(), tokenize_spec(z).unwrap()) == CompOp::Lt,
    ensures
        version_cmp(tokenize_spec(x).unwrap(), tokenize_spec(z).unwrap()) == CompOp::Lt,
{
    lemma_version_trans_lt(
        tokenize_spec(x).unwrap(),
        tokenize_spec(y).unwrap(),
        tokenize_spec(z).unwrap(),
    );
}

} // verus!
