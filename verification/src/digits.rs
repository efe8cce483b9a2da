//! Unbounded decimal numerals.
//!
//! Numeric sub-tokens of an identifier may be arbitrarily long, so they are
//! kept as their digit characters, normalized to carry no leading zero, and
//! compared by their mathematical value.

use vstd::prelude::*;

use crate::comp_op::{int_cmp, CompOp};

verus! {

/// Whether `c` is a decimal digit.
pub open spec fn is_digit_char(c: char) -> bool {
    48 <= c as u32 <= 57
}

/// The value of a single decimal digit.
pub open spec fn digit_of(c: char) -> int {
    c as u32 - 48
}

/// Whether every character of `s` is a decimal digit.
pub open spec fn all_digits(s: Seq<char>) -> bool {
    forall|i: int| 0 <= i < s.len() ==> is_digit_char(#[trigger] s[i])
}

/// The value of a sequence of decimal digits, most significant first.
/// The empty sequence has value zero.
pub open spec fn digits_val(s: Seq<char>) -> int
    decreases s.len(),
{
    if s.len() == 0 {
        0
    } else {
        10 * digits_val(s.drop_last()) + digit_of(s.last())
    }
}

/// A normalized numeral: all digits, and no leading zero.  Zero itself is
/// the empty sequence.
pub open spec fn norm_digits(s: Seq<char>) -> bool {
    all_digits(s) && (s.len() > 0 ==> digit_of(s[0]) != 0)
}

pub open spec fn pow10(n: nat) -> int
    decreases n,
{
    if n == 0 {
        1
    } else {
        10 * pow10((n - 1) as nat)
    }
}

pub proof fn lemma_pow10_pos(n: nat)
    ensures
        pow10(n) >= 1,
    decreases n,
{
    if n > 0 {
        lemma_pow10_pos((n - 1) as nat);
    }
}

pub proof fn lemma_pow10_mono(a: nat, b: nat)
    requires
        a <= b,
    ensures
        pow10(a) <= pow10(b),
    decreases b,
{
    if a < b {
        lemma_pow10_mono(a, (b - 1) as nat);
        lemma_pow10_pos((b - 1) as nat);
    }
}

pub proof fn lemma_digits_val_nonneg(s: Seq<char>)
    requires
        all_digits(s),
    ensures
        digits_val(s) >= 0,
    decreases s.len(),
{
    if s.len() > 0 {
        lemma_digits_val_nonneg(s.drop_last());
    }
}

/// Appending one digit multiplies the value by ten and adds that digit.
pub proof fn lemma_digits_val_push(s: Seq<char>, c: char)
    ensures
        digits_val(s.push(c)) == 10 * digits_val(s) + digit_of(c),
{
    assert(s.push(c).drop_last() =~= s);
    assert(s.push(c).last() == c);
}

/// The value decomposed at the first digit instead of the last.
pub proof fn lemma_digits_val_front(s: Seq<char>)
    requires
        s.len() > 0,
        all_digits(s),
    ensures
        digits_val(s) == digit_of(s[0]) * pow10((s.len() - 1) as nat) + digits_val(s.skip(1)),
    decreases s.len(),
{
    if s.len() == 1 {
        assert(s.drop_last().len() == 0);
        assert(s.skip(1).len() == 0);
        assert(digits_val(s.drop_last()) == 0);
        assert(digits_val(s.skip(1)) == 0);
        assert(s.last() == s[0]);
        assert(digits_val(s) == digit_of(s[0]));
    } else {
        let b = s.drop_last();
        lemma_digits_val_front(b);
        assert(b.skip(1) =~= s.skip(1).drop_last());
        assert(s.skip(1).last() == s.last());
        let n = (s.len() - 2) as nat;
        assert(digits_val(b) == digit_of(s[0]) * pow10(n) + digits_val(s.skip(1).drop_last()));
        assert(digits_val(s) == 10 * digits_val(b) + digit_of(s.last()));
        assert(10 * (digit_of(s[0]) * pow10(n)) == digit_of(s[0]) * pow10(n + 1))
            by (nonlinear_arith);
        assert(digits_val(s.skip(1)) == 10 * digits_val(s.skip(1).drop_last()) + digit_of(
            s.skip(1).last(),
        ));
    }
}

/// The value of `n` digits is below `10^n`.
pub proof fn lemma_digits_val_upper(s: Seq<char>)
    requires
        all_digits(s),
    ensures
        digits_val(s) < pow10(s.len()),
    decreases s.len(),
{
    if s.len() == 0 {
    } else {
        lemma_digits_val_upper(s.drop_last());
        assert(digit_of(s.last()) <= 9);
    }
}

/// A normalized, non-empty numeral of `n` digits is at least `10^(n-1)`.
pub proof fn lemma_digits_val_lower(s: Seq<char>)
    requires
        s.len() > 0,
        all_digits(s),
        digit_of(s[0]) != 0,
    ensures
        digits_val(s) >= pow10((s.len() - 1) as nat),
{
    lemma_digits_val_front(s);
    lemma_digits_val_nonneg(s.skip(1));
    lemma_pow10_pos((s.len() - 1) as nat);
    assert(digit_of(s[0]) >= 1);
    assert(digit_of(s[0]) * pow10((s.len() - 1) as nat) >= pow10((s.len() - 1) as nat))
        by (nonlinear_arith)
        requires
            digit_of(s[0]) >= 1,
            pow10((s.len() - 1) as nat) >= 1,
    ;
}

/// A shorter normalized numeral has the smaller value.
pub proof fn lemma_digits_len_lt(a: Seq<char>, b: Seq<char>)
    requires
        norm_digits(a),
        norm_digits(b),
        a.len() < b.len(),
    ensures
        digits_val(a) < digits_val(b),
{
    lemma_digits_val_upper(a);
    lemma_digits_val_lower(b);
    lemma_pow10_mono(a.len(), (b.len() - 1) as nat);
}

/// Among equal-length numerals, the first differing digit decides.
pub proof fn lemma_digits_lex_lt(a: Seq<char>, b: Seq<char>, i: int)
    requires
        all_digits(a),
        all_digits(b),
        a.len() == b.len(),
        0 <= i < a.len(),
        forall|j: int| 0 <= j < i ==> a[j] == b[j],
        digit_of(a[i]) < digit_of(b[i]),
    ensures
        digits_val(a) < digits_val(b),
    decreases i,
{
    let p = pow10((a.len() - 1) as nat);
    lemma_pow10_pos((a.len() - 1) as nat);
    lemma_digits_val_front(a);
    lemma_digits_val_front(b);
    if i == 0 {
        lemma_digits_val_upper(a.skip(1));
        lemma_digits_val_nonneg(b.skip(1));
        assert(digits_val(a.skip(1)) < p);
        assert((digit_of(a[0]) + 1) * p <= digit_of(b[0]) * p) by (nonlinear_arith)
            requires
                digit_of(a[0]) + 1 <= digit_of(b[0]),
                p >= 0,
        ;
        assert((digit_of(a[0]) + 1) * p == digit_of(a[0]) * p + p) by (nonlinear_arith);
    } else {
        assert(a[0] == b[0]);
        let ta = a.skip(1);
        let tb = b.skip(1);
        assert(forall|j: int| 0 <= j < i - 1 ==> ta[j] == tb[j]);
        assert(ta[i - 1] == a[i] && tb[i - 1] == b[i]);
        lemma_digits_lex_lt(ta, tb, i - 1);
    }
}

/// Compare two normalized numerals by mathematical value.
pub fn cmp_digits(a: &Vec<char>, b: &Vec<char>) -> (r: CompOp)
    requires
        norm_digits(a@),
        norm_digits(b@),
    ensures
        r == int_cmp(digits_val(a@), digits_val(b@)),
{
    if a.len() < b.len() {
        proof {
            lemma_digits_len_lt(a@, b@);
        }
        return CompOp::Lt;
    }
    if b.len() < a.len() {
        proof {
            lemma_digits_len_lt(b@, a@);
        }
        return CompOp::Gt;
    }
    let n = a.len();
    let mut i: usize = 0;
    while i < n
        invariant
            0 <= i <= n,
            n == a@.len() == b@.len(),
            norm_digits(a@),
            norm_digits(b@),
            forall|j: int| 0 <= j < i ==> a@[j] == b@[j],
        decreases n - i,
    {
        let ca = a[i];
        let cb = b[i];
        if (ca as u32) < (cb as u32) {
            proof {
                lemma_digits_lex_lt(a@, b@, i as int);
            }
            return CompOp::Lt;
        }
        if (cb as u32) < (ca as u32) {
            proof {
                lemma_digits_lex_lt(b@, a@, i as int);
            }
            return CompOp::Gt;
        }
        proof {
            vstd::utf8::char_u32_cast(ca, ca as u32);
            vstd::utf8::char_u32_cast(cb, cb as u32);
            assert(ca == cb);
        }
        i = i + 1;
    }
    proof {
        assert(a@ =~= b@);
    }
    CompOp::Eq
}

/// Compare a signed machine integer with a normalized numeral.
pub fn cmp_i32_digits(n: i32, d: &Vec<char>) -> (r: CompOp)
    requires
        norm_digits(d@),
    ensures
        r == int_cmp(n as int, digits_val(d@)),
{
    proof {
        lemma_digits_val_nonneg(d@);
    }
    if n < 0 {
        return CompOp::Lt;
    }
    if d.len() > 10 {
        proof {
            lemma_digits_val_lower(d@);
            lemma_pow10_mono(10, (d@.len() - 1) as nat);
            reveal_with_fuel(pow10, 11);
            assert(pow10(10) == 10000000000);
        }
        return CompOp::Lt;
    }
    let mut v: u64 = 0;
    let mut i: usize = 0;
    let len = d.len();
    while i < len
        invariant
            0 <= i <= len,
            len == d@.len() <= 10,
            all_digits(d@),
            v == digits_val(d@.take(i as int)),
            v < pow10(i as nat),
        decreases len - i,
    {
        let c = d[i];
        proof {
            lemma_digits_val_push(d@.take(i as int), c);
            assert(d@.take(i as int).push(c) =~= d@.take(i + 1 as int));
            lemma_pow10_pos(i as nat);
            lemma_pow10_mono(i as nat, 10);
            reveal_with_fuel(pow10, 11);
            assert(pow10(10) == 10000000000);
        }
        v = v * 10 + ((c as u32) as u64 - 48);
        i = i + 1;
    }
    proof {
        assert(d@.take(len as int) =~= d@);
    }
    let nn = n as u64;
    if nn < v {
        CompOp::Lt
    } else if nn > v {
        CompOp::Gt
    } else {
        CompOp::Eq
    }
}


/// Dropping leading zeros keeps a numeral's value; what is left is
/// normalized.
pub open spec fn strip_zeros(s: Seq<char>) -> Seq<char>
    decreases s.len(),
{
    if s.len() > 0 && digit_of(s[0]) == 0 {
        strip_zeros(s.skip(1))
    } else {
        s
    }
}

pub proof fn lemma_strip_zeros(s: Seq<char>)
    requires
        all_digits(s),
    ensures
        norm_digits(strip_zeros(s)),
        digits_val(strip_zeros(s)) == digits_val(s),
        strip_zeros(s).len() <= s.len(),
    decreases s.len(),
{
    if s.len() > 0 && digit_of(s[0]) == 0 {
        lemma_digits_val_front(s);
        lemma_strip_zeros(s.skip(1));
    }
}

/// `strip_zeros` drops exactly the digits before the first non-zero one.
pub proof fn lemma_strip_zeros_at(s: Seq<char>, j: int)
    requires
        0 <= j <= s.len(),
        forall|k: int| 0 <= k < j ==> digit_of(s[k]) == 0,
        j < s.len() ==> digit_of(s[j]) != 0,
    ensures
        strip_zeros(s) == s.skip(j),
    decreases j,
{
    if j == 0 {
        if s.len() > 0 {
            assert(digit_of(s[0]) != 0);
        }
        assert(s.skip(0) =~= s);
    } else {
        assert(digit_of(s[0]) == 0);
        let t = s.skip(1);
        assert(forall|k: int| 0 <= k < j - 1 ==> digit_of(#[trigger] t[k]) == 0);
        assert(j - 1 < t.len() ==> digit_of(t[j - 1]) != 0);
        lemma_strip_zeros_at(t, j - 1);
        assert(t.skip(j - 1) =~= s.skip(j));
    }
}

/// Extending a prefix of a numeral cannot decrease its value.
pub proof fn lemma_digits_prefix_le(s: Seq<char>, i: int)
    requires
        all_digits(s),
        0 <= i <= s.len(),
    ensures
        digits_val(s.take(i)) <= digits_val(s),
    decreases s.len() - i,
{
    if i < s.len() {
        assert(s.take(i + 1).drop_last() =~= s.take(i));
        assert(s.take(i + 1).last() == s[i]);
        assert(forall|k: int| 0 <= k < i ==> s.take(i)[k] == s[k]);
        lemma_digits_val_nonneg(s.take(i));
        assert(digits_val(s.take(i + 1)) == 10 * digits_val(s.take(i)) + digit_of(s[i]));
        lemma_digits_prefix_le(s, i + 1);
    } else {
        assert(s.take(i) =~= s);
    }
}

} // verus!
