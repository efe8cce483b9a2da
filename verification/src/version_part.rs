//! The component value model and the sub-token ranking model.
//!
//! A version string is tokenized into a sequence of [`VersionPart`]s.  An
//! identifier part is further decomposed into alternating numeric and textual
//! sub-tokens; textual sub-tokens carry a precedence class, in ascending
//! order: `dev`, then `a`/`alpha`, then `b`/`beta`, then `rc`/`c`, then
//! unrecognized words (ranked lexicographically among themselves), then the
//! implicit final release (a padding zero), then `post`/`rev`.

use vstd::prelude::*;

use crate::comp_op::{flip_cmp, int_cmp, CompOp};
use crate::digits::{digits_val, lemma_digits_val_lower, lemma_digits_val_nonneg, lemma_pow10_pos,
    norm_digits};

verus! {

/// Precedence class of the `dev` marker, the lowest.
pub const CLASS_DEV: u8 = 0;

/// Precedence class of the `a` / `alpha` markers.
pub const CLASS_ALPHA: u8 = 1;

/// Precedence class of the `b` / `beta` markers.
pub const CLASS_BETA: u8 = 2;

/// Precedence class of the `rc` / `c` markers.
pub const CLASS_RC: u8 = 3;

/// Precedence class of unrecognized words, ranked below numbers.
pub const CLASS_OTHER: u8 = 4;

/// Precedence class of the `post` / `rev` markers, above everything else.
pub const CLASS_POST: u8 = 5;

/// Mathematical value of a sub-token: a number, or a classified word.
pub enum SubTokV {
    Num { val: int },
    Txt { class: int, text: Seq<char> },
}

/// One sub-token of an identifier.  A numeric run is kept as its normalized
/// digit characters; a textual run is kept as its precedence class together
/// with its case-folded text (empty for recognized marker words, whose class
/// alone decides their rank).
#[derive(Debug, PartialEq)]
pub enum SubToken {
    Num(Vec<char>),
    Txt(u8, Vec<char>),
}

impl View for SubToken {
    type V = SubTokV;

    open spec fn view(&self) -> SubTokV {
        match self {
            SubToken::Num(d) => SubTokV::Num { val: digits_val(d@) },
            SubToken::Txt(c, t) => SubTokV::Txt { class: *c as int, text: t@ },
        }
    }
}

impl SubToken {
    /// A numeric sub-token stores its digits normalized.
    pub open spec fn wf(self) -> bool {
        match self {
            SubToken::Num(d) => norm_digits(d@),
            SubToken::Txt(c, t) => true,
        }
    }
}

/// Mathematical value of a version component.
pub enum PartV {
    Epoch { val: int },
    Integer { val: int },
    Identifier { text: Seq<char>, subs: Seq<SubTokV> },
    Empty,
}

/// One component of a parsed version string: a leading epoch, a numeric
/// segment, an identifier segment (with its raw text and its derived
/// sub-token ranking), or the synthetic placeholder a comparison substitutes
/// for a missing component.
#[derive(Debug, PartialEq)]
pub enum VersionPart {
    Epoch(i32),
    Integer(i32),
    Identifier(Vec<char>, Vec<SubToken>),
    Empty,
}

/// The values of a sequence of sub-tokens.
pub open spec fn subs_view(s: Seq<SubToken>) -> Seq<SubTokV> {
    s.map_values(|t: SubToken| t@)
}

/// The values of a sequence of components.
pub open spec fn parts_vview(s: Seq<VersionPart>) -> Seq<PartV> {
    s.map_values(|p: VersionPart| p@)
}

/// All components of a sequence are well-formed.
pub open spec fn all_parts_wf(s: Seq<VersionPart>) -> bool {
    forall|i: int| 0 <= i < s.len() ==> (#[trigger] s[i]).wf()
}

impl View for VersionPart {
    type V = PartV;

    open spec fn view(&self) -> PartV {
        match self {
            VersionPart::Epoch(v) => PartV::Epoch { val: *v as int },
            VersionPart::Integer(v) => PartV::Integer { val: *v as int },
            VersionPart::Identifier(t, s) => PartV::Identifier {
                text: t@,
                subs: subs_view(s@),
            },
            VersionPart::Empty => PartV::Empty,
        }
    }
}

impl VersionPart {
    /// Every sub-token of an identifier is well-formed.
    pub open spec fn wf(self) -> bool {
        match self {
            VersionPart::Identifier(t, s) => forall|i: int| 0 <= i < s.len() ==> (#[trigger] s[i]).wf(),
            _ => true,
        }
    }
}

/// Plain lexicographic order on character sequences, by code point; a proper
/// prefix ranks below its extensions.
pub open spec fn lex_cmp(a: Seq<char>, b: Seq<char>) -> CompOp
    decreases a.len() + b.len(),
{
    if a.len() == 0 && b.len() == 0 {
        CompOp::Eq
    } else if a.len() == 0 {
        CompOp::Lt
    } else if b.len() == 0 {
        CompOp::Gt
    } else if (a[0] as u32) < (b[0] as u32) {
        CompOp::Lt
    } else if (b[0] as u32) < (a[0] as u32) {
        CompOp::Gt
    } else {
        lex_cmp(a.skip(1), b.skip(1))
    }
}

/// Three-way order on sub-token values.  Numbers compare numerically; words
/// compare by class and then lexicographically; a word compares with a number
/// according to its class: `post`/`rev` rank above every number, every other
/// word below.
pub open spec fn sub_cmp(a: SubTokV, b: SubTokV) -> CompOp {
    match (a, b) {
        (SubTokV::Num { val: x }, SubTokV::Num { val: y }) => int_cmp(x, y),
        (SubTokV::Txt { class: c1, text: t1 }, SubTokV::Txt { class: c2, text: t2 }) => if c1 != c2 {
            int_cmp(c1, c2)
        } else {
            lex_cmp(t1, t2)
        },
        (SubTokV::Txt { class: c, .. }, SubTokV::Num { .. }) => if c >= CLASS_POST as int {
            CompOp::Gt
        } else {
            CompOp::Lt
        },
        (SubTokV::Num { .. }, SubTokV::Txt { class: c, .. }) => if c >= CLASS_POST as int {
            CompOp::Lt
        } else {
            CompOp::Gt
        },
    }
}

/// The padding value a comparison substitutes for an exhausted sub-token
/// sequence: the number zero, which is also how the implicit final release
/// ranks against marker words.
pub open spec fn pad_sub() -> SubTokV {
    SubTokV::Num { val: 0 }
}

/// The tail of a sequence, or the (empty) sequence itself if it is empty.
pub open spec fn tail_or_empty<A>(s: Seq<A>) -> Seq<A> {
    if s.len() > 0 {
        s.skip(1)
    } else {
        s
    }
}

/// Three-way order on sub-token sequences: position by position, padding the
/// shorter sequence with zeros, so that trailing zeros are insignificant.
pub open spec fn subs_cmp(a: Seq<SubTokV>, b: Seq<SubTokV>) -> CompOp
    decreases a.len() + b.len(),
{
    if a.len() == 0 && b.len() == 0 {
        CompOp::Eq
    } else {
        let x = if a.len() > 0 { a[0] } else { pad_sub() };
        let y = if b.len() > 0 { b[0] } else { pad_sub() };
        let c = sub_cmp(x, y);
        if c != CompOp::Eq {
            c
        } else {
            subs_cmp(tail_or_empty(a), tail_or_empty(b))
        }
    }
}

/// The sub-token sequence a component ranks as: a number is a single numeric
/// sub-token, an identifier is its derived sub-tokens, and the placeholder is
/// the empty sequence (all padding, so it equals zero).
pub open spec fn part_key(p: PartV) -> Seq<SubTokV> {
    match p {
        PartV::Epoch { val } => seq![SubTokV::Num { val }],
        PartV::Integer { val } => seq![SubTokV::Num { val }],
        PartV::Identifier { subs, .. } => subs,
        PartV::Empty => Seq::empty(),
    }
}

/// Three-way order on single components: sub-token-wise on their keys.
pub open spec fn part_cmp(a: PartV, b: PartV) -> CompOp {
    subs_cmp(part_key(a), part_key(b))
}

/// The first element of a sequence, or the padding zero if it is empty.
pub open spec fn head_or_pad(s: Seq<SubTokV>) -> SubTokV {
    if s.len() > 0 {
        s[0]
    } else {
        pad_sub()
    }
}

pub proof fn lemma_lex_refl(a: Seq<char>)
    ensures
        lex_cmp(a, a) == CompOp::Eq,
    decreases a.len(),
{
    if a.len() > 0 {
        lemma_lex_refl(a.skip(1));
    }
}

/// Lexicographic equality is equality.
pub proof fn lemma_lex_eq(a: Seq<char>, b: Seq<char>)
    requires
        lex_cmp(a, b) == CompOp::Eq,
    ensures
        a == b,
    decreases a.len() + b.len(),
{
    if a.len() > 0 && b.len() > 0 {
        vstd::utf8::char_u32_cast(a[0], a[0] as u32);
        vstd::utf8::char_u32_cast(b[0], b[0] as u32);
        assert(a[0] == b[0]);
        lemma_lex_eq(a.skip(1), b.skip(1));
        assert(a.len() == b.len());
        assert forall|i: int| 0 <= i < a.len() implies a[i] == b[i] by {
            if i > 0 {
                assert(a[i] == a.skip(1)[i - 1]);
                assert(b[i] == b.skip(1)[i - 1]);
            }
        }
        assert(a =~= b);
    }
}

pub proof fn lemma_lex_flip(a: Seq<char>, b: Seq<char>)
    ensures
        lex_cmp(b, a) == flip_cmp(lex_cmp(a, b)),
    decreases a.len() + b.len(),
{
    if a.len() > 0 && b.len() > 0 {
        lemma_lex_flip(a.skip(1), b.skip(1));
    }
}

pub proof fn lemma_lex_trans(a: Seq<char>, b: Seq<char>, c: Seq<char>)
    requires
        lex_cmp(a, b) == CompOp::Lt,
        lex_cmp(b, c) == CompOp::Lt,
    ensures
        lex_cmp(a, c) == CompOp::Lt,
    decreases a.len() + b.len() + c.len(),
{
    if a.len() > 0 && b.len() > 0 && c.len() > 0 {
        if a[0] as u32 == b[0] as u32 && b[0] as u32 == c[0] as u32 {
            lemma_lex_trans(a.skip(1), b.skip(1), c.skip(1));
        }
    }
}

/// Equal-ranking sub-tokens are the same value.
pub proof fn lemma_sub_eq(a: SubTokV, b: SubTokV)
    requires
        sub_cmp(a, b) == CompOp::Eq,
    ensures
        a == b,
{
    match (a, b) {
        (SubTokV::Txt { class: c1, text: t1 }, SubTokV::Txt { class: c2, text: t2 }) => {
            lemma_lex_eq(t1, t2);
        },
        _ => {},
    }
}

pub proof fn lemma_sub_refl(a: SubTokV)
    ensures
        sub_cmp(a, a) == CompOp::Eq,
{
    match a {
        SubTokV::Txt { class, text } => {
            lemma_lex_refl(text);
        },
        _ => {},
    }
}

pub proof fn lemma_sub_flip(a: SubTokV, b: SubTokV)
    ensures
        sub_cmp(b, a) == flip_cmp(sub_cmp(a, b)),
{
    match (a, b) {
        (SubTokV::Txt { class: c1, text: t1 }, SubTokV::Txt { class: c2, text: t2 }) => {
            if c1 == c2 {
                lemma_lex_flip(t1, t2);
            }
        },
        _ => {},
    }
}

pub proof fn lemma_sub_trans_lt(a: SubTokV, b: SubTokV, c: SubTokV)
    requires
        sub_cmp(a, b) == CompOp::Lt,
        sub_cmp(b, c) == CompOp::Lt,
    ensures
        sub_cmp(a, c) == CompOp::Lt,
{
    match (a, b, c) {
        (
            SubTokV::Txt { class: c1, text: t1 },
            SubTokV::Txt { class: c2, text: t2 },
            SubTokV::Txt { class: c3, text: t3 },
        ) => {
            if c1 == c2 && c2 == c3 {
                lemma_lex_trans(t1, t2, t3);
            }
        },
        _ => {},
    }
}

pub proof fn lemma_subs_refl(a: Seq<SubTokV>)
    ensures
        subs_cmp(a, a) == CompOp::Eq,
    decreases a.len(),
{
    if a.len() > 0 {
        lemma_sub_refl(a[0]);
        lemma_subs_refl(tail_or_empty(a));
    }
}

pub proof fn lemma_subs_flip(a: Seq<SubTokV>, b: Seq<SubTokV>)
    ensures
        subs_cmp(b, a) == flip_cmp(subs_cmp(a, b)),
    decreases a.len() + b.len(),
{
    if a.len() > 0 || b.len() > 0 {
        lemma_sub_flip(head_or_pad(a), head_or_pad(b));
        if sub_cmp(head_or_pad(a), head_or_pad(b)) == CompOp::Eq {
            lemma_subs_flip(tail_or_empty(a), tail_or_empty(b));
        }
    }
}

pub proof fn lemma_subs_trans_lt(a: Seq<SubTokV>, b: Seq<SubTokV>, c: Seq<SubTokV>)
    requires
        subs_cmp(a, b) == CompOp::Lt,
        subs_cmp(b, c) == CompOp::Lt,
    ensures
        subs_cmp(a, c) == CompOp::Lt,
    decreases a.len() + b.len() + c.len(),
{
    assert(a.len() > 0 || b.len() > 0);
    let x = head_or_pad(a);
    let y = head_or_pad(b);
    let z = head_or_pad(c);
    let hab = sub_cmp(x, y);
    let hbc = sub_cmp(y, z);
    if hab == CompOp::Eq {
        lemma_sub_eq(x, y);
        if hbc == CompOp::Eq {
            lemma_sub_eq(y, z);
            lemma_subs_trans_lt(tail_or_empty(a), tail_or_empty(b), tail_or_empty(c));
        }
    } else {
        if hbc == CompOp::Eq {
            lemma_sub_eq(y, z);
        } else {
            lemma_sub_trans_lt(x, y, z);
        }
    }
}

/// A sub-token sequence that ranks equal to another can replace it in any
/// comparison.
pub proof fn lemma_subs_congr(a: Seq<SubTokV>, b: Seq<SubTokV>, c: Seq<SubTokV>)
    ensures
        subs_cmp(a, b) == CompOp::Eq ==> subs_cmp(a, c) == subs_cmp(b, c),
        subs_cmp(b, c) == CompOp::Eq ==> subs_cmp(a, c) == subs_cmp(a, b),
    decreases a.len() + b.len() + c.len(),
{
    if a.len() > 0 || b.len() > 0 || c.len() > 0 {
        let x = head_or_pad(a);
        let y = head_or_pad(b);
        let z = head_or_pad(c);
        if sub_cmp(x, y) == CompOp::Eq {
            lemma_sub_eq(x, y);
        }
        if sub_cmp(y, z) == CompOp::Eq {
            lemma_sub_eq(y, z);
        }
        lemma_subs_congr(tail_or_empty(a), tail_or_empty(b), tail_or_empty(c));
    }
}

/// Composition facts for the sub-token sequence order: substituting an
/// equally-ranked sequence preserves the result, and strict order composes.
pub proof fn lemma_subs_compose(a: Seq<SubTokV>, b: Seq<SubTokV>, c: Seq<SubTokV>)
    ensures
        subs_cmp(a, b) == CompOp::Eq ==> subs_cmp(a, c) == subs_cmp(b, c),
        subs_cmp(b, c) == CompOp::Eq ==> subs_cmp(a, c) == subs_cmp(a, b),
        subs_cmp(a, b) == CompOp::Lt && subs_cmp(b, c) == CompOp::Lt ==> subs_cmp(a, c)
            == CompOp::Lt,
        subs_cmp(a, b) == CompOp::Gt && subs_cmp(b, c) == CompOp::Gt ==> subs_cmp(a, c)
            == CompOp::Gt,
{
    lemma_subs_congr(a, b, c);
    if subs_cmp(a, b) == CompOp::Lt && subs_cmp(b, c) == CompOp::Lt {
        lemma_subs_trans_lt(a, b, c);
    }
    if subs_cmp(a, b) == CompOp::Gt && subs_cmp(b, c) == CompOp::Gt {
        lemma_subs_flip(a, b);
        lemma_subs_flip(b, c);
        lemma_subs_flip(a, c);
        lemma_subs_trans_lt(c, b, a);
    }
}

pub proof fn lemma_lex_three_way(a: Seq<char>, b: Seq<char>)
    ensures
        lex_cmp(a, b) == CompOp::Lt || lex_cmp(a, b) == CompOp::Eq || lex_cmp(a, b) == CompOp::Gt,
    decreases a.len() + b.len(),
{
    if a.len() > 0 && b.len() > 0 {
        lemma_lex_three_way(a.skip(1), b.skip(1));
    }
}

pub proof fn lemma_sub_three_way(a: SubTokV, b: SubTokV)
    ensures
        sub_cmp(a, b) == CompOp::Lt || sub_cmp(a, b) == CompOp::Eq || sub_cmp(a, b) == CompOp::Gt,
{
    match (a, b) {
        (SubTokV::Txt { class: c1, text: t1 }, SubTokV::Txt { class: c2, text: t2 }) => {
            if c1 == c2 {
                lemma_lex_three_way(t1, t2);
            }
        },
        _ => {},
    }
}

pub proof fn lemma_subs_three_way(a: Seq<SubTokV>, b: Seq<SubTokV>)
    ensures
        subs_cmp(a, b) == CompOp::Lt || subs_cmp(a, b) == CompOp::Eq || subs_cmp(a, b)
            == CompOp::Gt,
    decreases a.len() + b.len(),
{
    if a.len() > 0 || b.len() > 0 {
        lemma_sub_three_way(head_or_pad(a), head_or_pad(b));
        if sub_cmp(head_or_pad(a), head_or_pad(b)) == CompOp::Eq {
            lemma_subs_three_way(tail_or_empty(a), tail_or_empty(b));
        }
    }
}

/// The ranking value of an optional sub-token; a missing one is padding.
pub open spec fn opt_sub_key(x: Option<&SubToken>) -> SubTokV {
    match x {
        Some(s) => s@,
        None => pad_sub(),
    }
}

/// Well-formedness of an optional sub-token.
pub open spec fn opt_sub_wf(x: Option<&SubToken>) -> bool {
    match x {
        Some(s) => s.wf(),
        None => true,
    }
}

/// Compare two character sequences lexicographically by code point.
pub fn cmp_text(a: &Vec<char>, b: &Vec<char>) -> (r: CompOp)
    ensures
        r == lex_cmp(a@, b@),
{
    let alen = a.len();
    let blen = b.len();
    let mut i: usize = 0;
    proof {
        assert(a@.skip(0) =~= a@);
        assert(b@.skip(0) =~= b@);
    }
    while i < alen && i < blen
        invariant
            alen == a@.len(),
            blen == b@.len(),
            i <= alen,
            i <= blen,
            lex_cmp(a@, b@) == lex_cmp(a@.skip(i as int), b@.skip(i as int)),
        decreases alen - i,
    {
        let ca = a[i];
        let cb = b[i];
        proof {
            assert(a@.skip(i as int)[0] == a@[i as int]);
            assert(b@.skip(i as int)[0] == b@[i as int]);
        }
        if (ca as u32) < (cb as u32) {
            return CompOp::Lt;
        }
        if (cb as u32) < (ca as u32) {
            return CompOp::Gt;
        }
        proof {
            assert(a@.skip(i as int).skip(1) =~= a@.skip(i + 1 as int));
            assert(b@.skip(i as int).skip(1) =~= b@.skip(i + 1 as int));
        }
        i = i + 1;
    }
    if alen == blen {
        CompOp::Eq
    } else if i == alen {
        CompOp::Lt
    } else {
        CompOp::Gt
    }
}

/// Compare two optional sub-tokens, substituting a zero for a missing one.
pub fn cmp_sub(x: Option<&SubToken>, y: Option<&SubToken>) -> (r: CompOp)
    requires
        opt_sub_wf(x),
        opt_sub_wf(y),
    ensures
        r == sub_cmp(opt_sub_key(x), opt_sub_key(y)),
{
    match (x, y) {
        (None, None) => CompOp::Eq,
        (Some(SubToken::Num(d)), None) => {
            proof {
                lemma_digits_val_nonneg(d@);
                if d@.len() > 0 {
                    lemma_digits_val_lower(d@);
                    lemma_pow10_pos((d@.len() - 1) as nat);
                }
            }
            if d.len() == 0 {
                CompOp::Eq
            } else {
                CompOp::Gt
            }
        },
        (None, Some(SubToken::Num(d))) => {
            proof {
                lemma_digits_val_nonneg(d@);
                if d@.len() > 0 {
                    lemma_digits_val_lower(d@);
                    lemma_pow10_pos((d@.len() - 1) as nat);
                }
            }
            if d.len() == 0 {
                CompOp::Eq
            } else {
                CompOp::Lt
            }
        },
        (Some(SubToken::Txt(c, _)), None) => {
            if *c >= CLASS_POST {
                CompOp::Gt
            } else {
                CompOp::Lt
            }
        },
        (None, Some(SubToken::Txt(c, _))) => {
            if *c >= CLASS_POST {
                CompOp::Lt
            } else {
                CompOp::Gt
            }
        },
        (Some(SubToken::Num(d)), Some(SubToken::Num(e))) => crate::digits::cmp_digits(d, e),
        (Some(SubToken::Txt(c1, t1)), Some(SubToken::Txt(c2, t2))) => {
            if *c1 < *c2 {
                CompOp::Lt
            } else if *c2 < *c1 {
                CompOp::Gt
            } else {
                cmp_text(t1, t2)
            }
        },
        (Some(SubToken::Txt(c, _)), Some(SubToken::Num(_))) => {
            if *c >= CLASS_POST {
                CompOp::Gt
            } else {
                CompOp::Lt
            }
        },
        (Some(SubToken::Num(_)), Some(SubToken::Txt(c, _))) => {
            if *c >= CLASS_POST {
                CompOp::Lt
            } else {
                CompOp::Gt
            }
        },
    }
}

/// Compare a machine integer with an optional sub-token.
pub fn cmp_i32_sub(n: i32, y: Option<&SubToken>) -> (r: CompOp)
    requires
        opt_sub_wf(y),
    ensures
        r == sub_cmp(SubTokV::Num { val: n as int }, opt_sub_key(y)),
{
    match y {
        None => {
            if n < 0 {
                CompOp::Lt
            } else if n > 0 {
                CompOp::Gt
            } else {
                CompOp::Eq
            }
        },
        Some(SubToken::Num(d)) => crate::digits::cmp_i32_digits(n, d),
        Some(SubToken::Txt(c, _)) => {
            if *c >= CLASS_POST {
                CompOp::Lt
            } else {
                CompOp::Gt
            }
        },
    }
}

/// All sub-tokens of a sequence are well-formed.
pub open spec fn all_subs_wf(s: Seq<SubToken>) -> bool {
    forall|i: int| 0 <= i < s.len() ==> (#[trigger] s[i]).wf()
}

/// Compare two sub-token sequences position by position with zero padding.
pub fn cmp_subs(a: &Vec<SubToken>, b: &Vec<SubToken>) -> (r: CompOp)
    requires
        all_subs_wf(a@),
        all_subs_wf(b@),
    ensures
        r == subs_cmp(subs_view(a@), subs_view(b@)),
{
    let ghost av = subs_view(a@);
    let ghost bv = subs_view(b@);
    let alen = a.len();
    let blen = b.len();
    let mut i: usize = 0;
    proof {
        assert(av.skip(0) =~= av);
        assert(bv.skip(0) =~= bv);
    }
    while i < alen || i < blen
        invariant
            alen == a@.len(),
            blen == b@.len(),
            av == subs_view(a@),
            bv == subs_view(b@),
            all_subs_wf(a@),
            all_subs_wf(b@),
            i <= alen || i <= blen,
            subs_cmp(av, bv) == subs_cmp(
                av.skip(if i < alen { i as int } else { alen as int }),
                bv.skip(if i < blen { i as int } else { blen as int }),
            ),
        decreases (if i < alen { alen - i } else { 0 }) + (if i < blen { blen - i } else { 0 }),
    {
        let ghost ia: int = if i < alen { i as int } else { alen as int };
        let ghost ib: int = if i < blen { i as int } else { blen as int };
        let x = if i < alen { Some(&a[i]) } else { None };
        let y = if i < blen { Some(&b[i]) } else { None };
        proof {
            assert(opt_sub_key(x) == head_or_pad(av.skip(ia)));
            assert(opt_sub_key(y) == head_or_pad(bv.skip(ib)));
        }
        let c = cmp_sub(x, y);
        if c != CompOp::Eq {
            return c;
        }
        proof {
            assert(tail_or_empty(av.skip(ia)) =~= av.skip(
                if i + 1 < alen {
                    i + 1 as int
                } else {
                    alen as int
                },
            ));
            assert(tail_or_empty(bv.skip(ib)) =~= bv.skip(
                if i + 1 < blen {
                    i + 1 as int
                } else {
                    blen as int
                },
            ));
        }
        i = i + 1;
    }
    proof {
        assert(av.skip(alen as int).len() == 0);
        assert(bv.skip(blen as int).len() == 0);
    }
    CompOp::Eq
}

/// Compare the empty sequence (all padding) with the suffix of a sub-token
/// sequence starting at `from`.
pub fn cmp_empty_subs(b: &Vec<SubToken>, from: usize) -> (r: CompOp)
    requires
        all_subs_wf(b@),
        from <= b@.len(),
    ensures
        r == subs_cmp(Seq::<SubTokV>::empty(), subs_view(b@).skip(from as int)),
{
    let ghost bv = subs_view(b@);
    let blen = b.len();
    let mut j: usize = from;
    while j < blen
        invariant
            blen == b@.len(),
            bv == subs_view(b@),
            all_subs_wf(b@),
            from <= j <= blen,
            subs_cmp(Seq::<SubTokV>::empty(), bv.skip(from as int)) == subs_cmp(
                Seq::<SubTokV>::empty(),
                bv.skip(j as int),
            ),
        decreases blen - j,
    {
        let y = Some(&b[j]);
        proof {
            assert(opt_sub_key(y) == head_or_pad(bv.skip(j as int)));
        }
        let c = cmp_sub(None, y);
        if c != CompOp::Eq {
            return c;
        }
        proof {
            assert(tail_or_empty(bv.skip(j as int)) =~= bv.skip(j + 1 as int));
            assert(tail_or_empty(Seq::<SubTokV>::empty()) =~= Seq::<SubTokV>::empty());
        }
        j = j + 1;
    }
    proof {
        assert(bv.skip(blen as int).len() == 0);
    }
    CompOp::Eq
}

/// Compare a machine integer, as a one-element key, with an identifier's
/// sub-token sequence.
pub fn cmp_int_subs(n: i32, subs: &Vec<SubToken>) -> (r: CompOp)
    requires
        all_subs_wf(subs@),
    ensures
        r == subs_cmp(seq![SubTokV::Num { val: n as int }], subs_view(subs@)),
{
    let ghost k = seq![SubTokV::Num { val: n as int }];
    let ghost bv = subs_view(subs@);
    let y = if subs.len() > 0 {
        Some(&subs[0])
    } else {
        None
    };
    proof {
        assert(head_or_pad(k) == SubTokV::Num { val: n as int });
        assert(opt_sub_key(y) == head_or_pad(bv));
    }
    let c = cmp_i32_sub(n, y);
    if c != CompOp::Eq {
        return c;
    }
    let start = if subs.len() > 0 { 1 } else { 0 };
    proof {
        assert(tail_or_empty(k) =~= Seq::<SubTokV>::empty());
        assert(tail_or_empty(bv) =~= bv.skip(start as int));
    }
    cmp_empty_subs(subs, start)
}

/// `subs_cmp` on one-element sequences is the element comparison.
pub proof fn lemma_subs_single(x: SubTokV, y: SubTokV)
    ensures
        subs_cmp(seq![x], seq![y]) == sub_cmp(x, y),
{
    assert(tail_or_empty(seq![x]) =~= Seq::<SubTokV>::empty());
    assert(tail_or_empty(seq![y]) =~= Seq::<SubTokV>::empty());
    assert(subs_cmp(Seq::<SubTokV>::empty(), Seq::<SubTokV>::empty()) == CompOp::Eq);
}

/// Compare two single components under the kind-pairing rules.
pub fn cmp_parts_pair(a: &VersionPart, b: &VersionPart) -> (r: CompOp)
    requires
        a.wf(),
        b.wf(),
    ensures
        r == part_cmp(a@, b@),
{
    match (a, b) {
        (VersionPart::Empty, VersionPart::Empty) => CompOp::Eq,
        (VersionPart::Empty, VersionPart::Epoch(y)) => cmp_zero_int(*y),
        (VersionPart::Empty, VersionPart::Integer(y)) => cmp_zero_int(*y),
        (VersionPart::Epoch(x), VersionPart::Empty) => cmp_int_zero(*x),
        (VersionPart::Integer(x), VersionPart::Empty) => cmp_int_zero(*x),
        (VersionPart::Empty, VersionPart::Identifier(_, s)) => {
            proof {
                assert(subs_view(s@).skip(0) =~= subs_view(s@));
            }
            cmp_empty_subs(s, 0)
        },
        (VersionPart::Identifier(_, s), VersionPart::Empty) => {
            proof {
                assert(subs_view(s@).skip(0) =~= subs_view(s@));
                lemma_subs_flip(Seq::<SubTokV>::empty(), subs_view(s@));
            }
            let r = cmp_empty_subs(s, 0);
            r.flip()
        },
        (VersionPart::Epoch(x), VersionPart::Epoch(y)) => {
            proof {
                lemma_subs_single(SubTokV::Num { val: *x as int }, SubTokV::Num { val: *y as int });
            }
            cmp_i32_i32(*x, *y)
        },
        (VersionPart::Epoch(x), VersionPart::Integer(y)) => {
            proof {
                lemma_subs_single(SubTokV::Num { val: *x as int }, SubTokV::Num { val: *y as int });
            }
            cmp_i32_i32(*x, *y)
        },
        (VersionPart::Integer(x), VersionPart::Epoch(y)) => {
            proof {
                lemma_subs_single(SubTokV::Num { val: *x as int }, SubTokV::Num { val: *y as int });
            }
            cmp_i32_i32(*x, *y)
        },
        (VersionPart::Integer(x), VersionPart::Integer(y)) => {
            proof {
                lemma_subs_single(SubTokV::Num { val: *x as int }, SubTokV::Num { val: *y as int });
            }
            cmp_i32_i32(*x, *y)
        },
        (VersionPart::Identifier(_, s1), VersionPart::Identifier(_, s2)) => cmp_subs(s1, s2),
        (VersionPart::Epoch(x), VersionPart::Identifier(_, s)) => cmp_int_subs(*x, s),
        (VersionPart::Integer(x), VersionPart::Identifier(_, s)) => cmp_int_subs(*x, s),
        (VersionPart::Identifier(_, s), VersionPart::Epoch(y)) => {
            proof {
                lemma_subs_flip(seq![SubTokV::Num { val: *y as int }], subs_view(s@));
            }
            let r = cmp_int_subs(*y, s);
            r.flip()
        },
        (VersionPart::Identifier(_, s), VersionPart::Integer(y)) => {
            proof {
                lemma_subs_flip(seq![SubTokV::Num { val: *y as int }], subs_view(s@));
            }
            let r = cmp_int_subs(*y, s);
            r.flip()
        },
    }
}

/// Compare zero (a padding component) with a machine integer.
fn cmp_zero_int(y: i32) -> (r: CompOp)
    ensures
        r == subs_cmp(Seq::<SubTokV>::empty(), seq![SubTokV::Num { val: y as int }]),
{
    proof {
        assert(tail_or_empty(seq![SubTokV::Num { val: y as int }]) =~= Seq::<SubTokV>::empty());
        assert(tail_or_empty(Seq::<SubTokV>::empty()) =~= Seq::<SubTokV>::empty());
        assert(subs_cmp(Seq::<SubTokV>::empty(), Seq::<SubTokV>::empty()) == CompOp::Eq);
    }
    if y > 0 {
        CompOp::Lt
    } else if y < 0 {
        CompOp::Gt
    } else {
        CompOp::Eq
    }
}

/// Compare a machine integer with zero (a padding component).
fn cmp_int_zero(x: i32) -> (r: CompOp)
    ensures
        r == subs_cmp(seq![SubTokV::Num { val: x as int }], Seq::<SubTokV>::empty()),
{
    proof {
        assert(tail_or_empty(seq![SubTokV::Num { val: x as int }]) =~= Seq::<SubTokV>::empty());
        assert(tail_or_empty(Seq::<SubTokV>::empty()) =~= Seq::<SubTokV>::empty());
        assert(subs_cmp(Seq::<SubTokV>::empty(), Seq::<SubTokV>::empty()) == CompOp::Eq);
    }
    if x > 0 {
        CompOp::Gt
    } else if x < 0 {
        CompOp::Lt
    } else {
        CompOp::Eq
    }
}

/// Compare two machine integers.
fn cmp_i32_i32(x: i32, y: i32) -> (r: CompOp)
    ensures
        r == int_cmp(x as int, y as int),
{
    if x < y {
        CompOp::Lt
    } else if x > y {
        CompOp::Gt
    } else {
        CompOp::Eq
    }
}

} // verus!
