//! The tokenizer: it splits a raw version string into its ordered sequence
//! of components.
//!
//! The string is split at an optional epoch delimiter (`!` or `:`, at most one) and
//! an optional local-version delimiter (`+`, at most one); the main and local
//! texts are split at `.` and `_` into tokens, local tokens following the
//! main ones; each non-empty token becomes an integer component when it
//! parses as a signed 32-bit integer and an identifier component otherwise;
//! and a string with no components at all tokenizes to the single synthetic
//! placeholder.

use vstd::prelude::*;

use crate::digits::{all_digits, digit_of, digits_val, is_digit_char, lemma_digits_prefix_le,
    lemma_digits_val_lower, lemma_digits_val_push, lemma_pow10_pos, lemma_strip_zeros,
    lemma_strip_zeros_at};
use crate::version_part::{all_parts_wf, parts_vview};
use vstd::string::StrSliceExecFns;
use crate::errors::ParseError;
use crate::version_part::{PartV, SubTokV, SubToken, VersionPart, subs_view,
    CLASS_ALPHA, CLASS_BETA, CLASS_DEV, CLASS_OTHER, CLASS_POST, CLASS_RC};

verus! {

/// Whether `c` separates tokens.
pub open spec fn is_sep(c: char) -> bool {
    c == '.' || c == '_'
}

/// The pieces of `s` between separators: splitting the empty sequence gives
/// one empty piece, and every separator ends the piece before it.
pub open spec fn split_seps(s: Seq<char>) -> Seq<Seq<char>>
    decreases s.len(),
{
    if s.len() == 0 {
        seq![Seq::<char>::empty()]
    } else {
        let r = split_seps(s.drop_last());
        let c = s.last();
        if is_sep(c) {
            r.push(Seq::<char>::empty())
        } else {
            r.update(r.len() - 1, r.last().push(c))
        }
    }
}

pub proof fn lemma_split_seps_len(s: Seq<char>)
    ensures
        split_seps(s).len() >= 1,
    decreases s.len(),
{
    if s.len() > 0 {
        lemma_split_seps_len(s.drop_last());
    }
}

/// The maximal runs of `s`: adjacent characters belong to one run exactly
/// when both are digits or both are not.
pub open spec fn runs(s: Seq<char>) -> Seq<Seq<char>>
    decreases s.len(),
{
    if s.len() == 0 {
        Seq::<Seq<char>>::empty()
    } else {
        let r = runs(s.drop_last());
        let c = s.last();
        if r.len() > 0 && is_digit_char(r.last().last()) == is_digit_char(c) {
            r.update(r.len() - 1, r.last().push(c))
        } else {
            r.push(seq![c])
        }
    }
}

/// Each run is non-empty and homogeneous, and the last run ends with the
/// last character.
pub proof fn lemma_runs_shape(s: Seq<char>)
    ensures
        s.len() == 0 ==> runs(s).len() == 0,
        s.len() > 0 ==> runs(s).len() > 0 && runs(s).last().last() == s.last(),
        forall|k: int|
            0 <= k < runs(s).len() ==> (#[trigger] runs(s)[k]).len() > 0 && (forall|i: int|
                0 <= i < runs(s)[k].len() ==> is_digit_char(#[trigger] runs(s)[k][i])
                    == is_digit_char(runs(s)[k][0])),
    decreases s.len(),
{
    if s.len() > 0 {
        lemma_runs_shape(s.drop_last());
    }
}

/// Lower-casing of one character, for the ASCII letters.
pub open spec fn fold_char(c: char) -> char {
    if 65 <= c as u32 <= 90 {
        (((c as u32 + 32) as u8) as char)
    } else {
        c
    }
}

/// Case-folded text.
pub open spec fn fold_seq(s: Seq<char>) -> Seq<char> {
    s.map_values(|c: char| fold_char(c))
}

/// The precedence class of a case-folded word: the recognized marker words
/// carry fixed classes; everything else is an unrecognized word.
pub open spec fn classify(w: Seq<char>) -> int {
    if w == seq!['d', 'e', 'v'] {
        CLASS_DEV as int
    } else if w == seq!['a'] || w == seq!['a', 'l', 'p', 'h', 'a'] {
        CLASS_ALPHA as int
    } else if w == seq!['b'] || w == seq!['b', 'e', 't', 'a'] {
        CLASS_BETA as int
    } else if w == seq!['c'] || w == seq!['r', 'c'] {
        CLASS_RC as int
    } else if w == seq!['p', 'o', 's', 't'] || w == seq!['r', 'e', 'v'] {
        CLASS_POST as int
    } else {
        CLASS_OTHER as int
    }
}

/// The ranking value of one run: a digit run is its number; a letter run is
/// classified after case folding, and keeps its folded text only when it is
/// unrecognized, since a marker word's class alone decides its rank.
pub open spec fn run_subtok(r: Seq<char>) -> SubTokV {
    if r.len() > 0 && is_digit_char(r[0]) {
        SubTokV::Num { val: digits_val(r) }
    } else {
        let w = fold_seq(r);
        let cl = classify(w);
        SubTokV::Txt { class: cl, text: if cl == CLASS_OTHER as int { w } else { Seq::empty() } }
    }
}

/// The sub-token values of an identifier token: its runs' values, with a
/// leading zero-valued number dropped, so that a leading zero before a
/// letter is insignificant.
pub open spec fn ident_subs(tok: Seq<char>) -> Seq<SubTokV> {
    let rs = Seq::new(runs(tok).len(), |k: int| run_subtok(runs(tok)[k]));
    if rs.len() > 0 && rs[0] == (SubTokV::Num { val: 0 }) {
        rs.skip(1)
    } else {
        rs
    }
}

/// The value a token denotes when read as a signed decimal integer.
pub open spec fn int_token_val(t: Seq<char>) -> int {
    if t.len() > 0 && t[0] == '-' {
        -digits_val(t.skip(1))
    } else {
        digits_val(t)
    }
}

/// Whether a token parses as a signed 32-bit integer: an optional minus
/// sign, then at least one digit, with the value in range.
pub open spec fn is_int_token(t: Seq<char>) -> bool {
    let d = if t.len() > 0 && t[0] == '-' {
        t.skip(1)
    } else {
        t
    };
    &&& t.len() > 0
    &&& d.len() > 0
    &&& all_digits(d)
    &&& -2147483648 <= int_token_val(t) <= 2147483647
}

/// The component a non-empty token denotes.
pub open spec fn token_part(t: Seq<char>) -> PartV {
    if is_int_token(t) {
        PartV::Integer { val: int_token_val(t) }
    } else {
        PartV::Identifier { text: t, subs: ident_subs(t) }
    }
}

/// The components of a piece list, empty pieces dropped.
pub open spec fn tokens_parts(toks: Seq<Seq<char>>) -> Seq<PartV>
    decreases toks.len(),
{
    if toks.len() == 0 {
        Seq::<PartV>::empty()
    } else {
        let rest = tokens_parts(toks.drop_last());
        let t = toks.last();
        if t.len() > 0 {
            rest.push(token_part(t))
        } else {
            rest
        }
    }
}

/// Whether `c` delimits an epoch.
pub open spec fn is_epoch_sep(c: char) -> bool {
    c == '!' || c == ':'
}

/// How many epoch delimiters `s` holds.
pub open spec fn count_esep(s: Seq<char>) -> nat
    decreases s.len(),
{
    if s.len() == 0 {
        0
    } else {
        count_esep(s.drop_last()) + if is_epoch_sep(s.last()) {
            1nat
        } else {
            0nat
        }
    }
}

/// The index of the first epoch delimiter in `s`, or `s.len()` if none.
pub open spec fn find_esep(s: Seq<char>) -> int
    decreases s.len(),
{
    if s.len() == 0 {
        0
    } else if is_epoch_sep(s[0]) {
        0
    } else {
        1 + find_esep(s.skip(1))
    }
}

pub proof fn lemma_find_esep_props(s: Seq<char>)
    ensures
        0 <= find_esep(s) <= s.len(),
        find_esep(s) < s.len() ==> is_epoch_sep(s[find_esep(s)]),
        forall|j: int| 0 <= j < find_esep(s) ==> !is_epoch_sep(s[j]),
    decreases s.len(),
{
    if s.len() > 0 && !is_epoch_sep(s[0]) {
        lemma_find_esep_props(s.skip(1));
        assert forall|j: int| 0 <= j < find_esep(s) implies !is_epoch_sep(s[j]) by {
            if j > 0 {
                assert(s[j] == s.skip(1)[j - 1]);
            }
        }
    }
}

pub proof fn lemma_find_esep_at(s: Seq<char>, k: int)
    requires
        0 <= k <= s.len(),
        k < s.len() ==> is_epoch_sep(s[k]),
        forall|j: int| 0 <= j < k ==> !is_epoch_sep(s[j]),
    ensures
        find_esep(s) == k,
{
    lemma_find_esep_props(s);
    let f = find_esep(s);
    if f < k {
        assert(is_epoch_sep(s[f]));
        assert(!is_epoch_sep(s[f]));
    }
    if f > k {
        assert(k < s.len());
        assert(!is_epoch_sep(s[k]));
    }
}

pub proof fn lemma_count_esep_zero(s: Seq<char>)
    requires
        forall|j: int| 0 <= j < s.len() ==> !is_epoch_sep(s[j]),
    ensures
        count_esep(s) == 0,
    decreases s.len(),
{
    if s.len() > 0 {
        lemma_count_esep_zero(s.drop_last());
    }
}

/// How many times `c` occurs in `s`.
pub open spec fn count_char(s: Seq<char>, c: char) -> nat
    decreases s.len(),
{
    if s.len() == 0 {
        0
    } else {
        count_char(s.drop_last(), c) + if s.last() == c {
            1nat
        } else {
            0nat
        }
    }
}

/// The index of the first occurrence of `c` in `s`, or `s.len()` if none.
pub open spec fn find_char(s: Seq<char>, c: char) -> int
    decreases s.len(),
{
    if s.len() == 0 {
        0
    } else if s[0] == c {
        0
    } else {
        1 + find_char(s.skip(1), c)
    }
}

pub proof fn lemma_find_char_props(s: Seq<char>, c: char)
    ensures
        0 <= find_char(s, c) <= s.len(),
        find_char(s, c) < s.len() ==> s[find_char(s, c)] == c,
        forall|j: int| 0 <= j < find_char(s, c) ==> s[j] != c,
    decreases s.len(),
{
    if s.len() > 0 && s[0] != c {
        lemma_find_char_props(s.skip(1), c);
        assert forall|j: int| 0 <= j < find_char(s, c) implies s[j] != c by {
            if j > 0 {
                assert(s[j] == s.skip(1)[j - 1]);
            }
        }
    }
}

pub proof fn lemma_count_char_zero(s: Seq<char>, c: char)
    requires
        forall|j: int| 0 <= j < s.len() ==> s[j] != c,
    ensures
        count_char(s, c) == 0,
    decreases s.len(),
{
    if s.len() > 0 {
        lemma_count_char_zero(s.drop_last(), c);
    }
}

/// The first occurrence is determined by its defining properties.
pub proof fn lemma_find_char_at(s: Seq<char>, c: char, k: int)
    requires
        0 <= k <= s.len(),
        k < s.len() ==> s[k] == c,
        forall|j: int| 0 <= j < k ==> s[j] != c,
    ensures
        find_char(s, c) == k,
{
    lemma_find_char_props(s, c);
    let f = find_char(s, c);
    if f < k {
        assert(s[f] == c);
        assert(s[f] != c);
    }
    if f > k {
        assert(k < s.len());
        assert(s[k] != c);
    }
}

/// The components of the text after the epoch: split at an optional
/// local-version delimiter, then tokens of the main text followed by tokens
/// of the local text.
pub open spec fn rest_parts(rest: Seq<char>) -> Option<Seq<PartV>> {
    let np = count_char(rest, '+');
    if np > 1 {
        None
    } else if np == 1 {
        let i = find_char(rest, '+');
        Some(
            tokens_parts(split_seps(rest.take(i))) + tokens_parts(
                split_seps(rest.skip(i + 1)),
            ),
        )
    } else {
        Some(tokens_parts(split_seps(rest)))
    }
}

/// What a raw version string tokenizes to: `None` exactly when a delimiter
/// is duplicated or an epoch text is not an integer; otherwise the epoch
/// component, if any, followed by the remaining components, with the
/// single placeholder component standing in for an empty result.  An epoch
/// is delimited by `!` or `:`.
pub open spec fn tokenize_spec(s: Seq<char>) -> Option<Seq<PartV>> {
    let nb = count_esep(s);
    if nb > 1 {
        None
    } else if nb == 1 {
        let i = find_esep(s);
        if !is_int_token(s.take(i)) {
            None
        } else {
            match rest_parts(s.skip(i + 1)) {
                Some(ps) => Some(seq![PartV::Epoch { val: int_token_val(s.take(i)) }] + ps),
                None => None,
            }
        }
    } else {
        match rest_parts(s) {
            Some(ps) => Some(
                if ps.len() == 0 {
                    seq![PartV::Empty]
                } else {
                    ps
                },
            ),
            None => None,
        }
    }
}


/// The characters of a string slice, in order.
pub fn str_to_chars(s: &str) -> (r: Vec<char>)
    ensures
        r@ == s@,
{
    let n = s.unicode_len();
    let mut r: Vec<char> = Vec::new();
    let mut i: usize = 0;
    while i < n
        invariant
            n == s@.len(),
            i <= n,
            r@ == s@.take(i as int),
        decreases n - i,
    {
        let c = s.get_char(i);
        r.push(c);
        proof {
            assert(s@.take(i as int).push(s@[i as int]) =~= s@.take(i + 1 as int));
        }
        i = i + 1;
    }
    proof {
        assert(s@.take(n as int) =~= s@);
    }
    r
}

/// A copy of the characters between two positions.
fn subvec(v: &Vec<char>, from: usize, to: usize) -> (r: Vec<char>)
    requires
        from <= to <= v@.len(),
    ensures
        r@ == v@.subrange(from as int, to as int),
{
    let mut r: Vec<char> = Vec::new();
    let mut i: usize = from;
    while i < to
        invariant
            from <= i <= to <= v@.len(),
            r@ == v@.subrange(from as int, i as int),
        decreases to - i,
    {
        r.push(v[i]);
        proof {
            assert(v@.subrange(from as int, i as int).push(v@[i as int]) =~= v@.subrange(
                from as int,
                i + 1 as int,
            ));
        }
        i = i + 1;
    }
    r
}

/// How often `c` occurs, and where it occurs first.
fn count_and_find(v: &Vec<char>, c: char) -> (r: (usize, usize))
    ensures
        r.0 as nat == count_char(v@, c),
        r.1 as int == find_char(v@, c),
{
    let n = v.len();
    let mut cnt: usize = 0;
    let mut idx: usize = n;
    let mut found = false;
    let mut i: usize = 0;
    while i < n
        invariant
            n == v@.len(),
            i <= n,
            cnt <= i,
            cnt as nat == count_char(v@.take(i as int), c),
            !found ==> idx == n && (forall|j: int| 0 <= j < i ==> v@[j] != c),
            found ==> idx < i && v@[idx as int] == c && (forall|j: int|
                0 <= j < idx ==> v@[j] != c),
        decreases n - i,
    {
        proof {
            assert(v@.take(i + 1 as int).drop_last() =~= v@.take(i as int));
            assert(v@.take(i + 1 as int).last() == v@[i as int]);
        }
        if v[i] == c {
            cnt = cnt + 1;
            if !found {
                found = true;
                idx = i;
            }
        }
        i = i + 1;
    }
    proof {
        assert(v@.take(n as int) =~= v@);
        if found {
            lemma_find_char_at(v@, c, idx as int);
        } else {
            lemma_find_char_at(v@, c, n as int);
        }
    }
    (cnt, idx)
}

/// How often an epoch delimiter occurs, and where the first one stands.
fn count_and_find_esep(v: &Vec<char>) -> (r: (usize, usize))
    ensures
        r.0 as nat == count_esep(v@),
        r.1 as int == find_esep(v@),
{
    let n = v.len();
    let mut cnt: usize = 0;
    let mut idx: usize = n;
    let mut found = false;
    let mut i: usize = 0;
    while i < n
        invariant
            n == v@.len(),
            i <= n,
            cnt <= i,
            cnt as nat == count_esep(v@.take(i as int)),
            !found ==> idx == n && (forall|j: int| 0 <= j < i ==> !is_epoch_sep(v@[j])),
            found ==> idx < i && is_epoch_sep(v@[idx as int]) && (forall|j: int|
                0 <= j < idx ==> !is_epoch_sep(v@[j])),
        decreases n - i,
    {
        proof {
            assert(v@.take(i + 1 as int).drop_last() =~= v@.take(i as int));
            assert(v@.take(i + 1 as int).last() == v@[i as int]);
        }
        let c = v[i];
        if c == '!' || c == ':' {
            cnt = cnt + 1;
            if !found {
                found = true;
                idx = i;
            }
        }
        i = i + 1;
    }
    proof {
        assert(v@.take(n as int) =~= v@);
        if found {
            lemma_find_esep_at(v@, idx as int);
        } else {
            lemma_find_esep_at(v@, n as int);
        }
    }
    (cnt, idx)
}

/// Read a token as a signed 32-bit integer, exactly as wide as the
/// `is_int_token` predicate.
fn parse_int_token(t: &Vec<char>) -> (r: Option<i32>)
    ensures
        match r {
            Some(v) => is_int_token(t@) && v as int == int_token_val(t@),
            None => !is_int_token(t@),
        },
{
    let n = t.len();
    if n == 0 {
        return None;
    }
    let neg = t[0] == '-';
    let start: usize = if neg { 1 } else { 0 };
    if start >= n {
        return None;
    }
    let ghost d: Seq<char> = if neg { t@.skip(1) } else { t@ };
    proof {
        assert(d.len() == n - start);
        assert(forall|k: int| 0 <= k < d.len() ==> d[k] == t@[k + start]);
    }
    let mut acc: u64 = 0;
    let mut i: usize = start;
    while i < n
        invariant
            start <= i <= n,
            n == t@.len(),
            d == (if neg { t@.skip(1) } else { t@ }),
            d.len() == n - start,
            forall|k: int| 0 <= k < d.len() ==> d[k] == t@[k + start],
            neg ==> t@[0] == '-',
            !neg ==> (t@.len() == 0 || t@[0] != '-'),
            start == (if neg { 1int } else { 0int }),
            all_digits(d.take(i - start)),
            acc as int == digits_val(d.take(i - start)),
            acc <= 2147483648,
        decreases n - i,
    {
        let c = t[i];
        if (c as u32) < 48 || (c as u32) > 57 {
            proof {
                assert(d[i - start] == t@[i as int]);
                assert(!is_digit_char(d[i - start]));
            }
            return None;
        }
        proof {
            assert(d.take(i - start).push(d[i - start]) =~= d.take(i + 1 - start));
            lemma_digits_val_push(d.take(i - start), d[i - start]);
            assert(d[i - start] == t@[i as int]);
        }
        acc = acc * 10 + ((c as u32 - 48) as u64);
        if acc > 2147483648 {
            proof {
                if all_digits(d) {
                    lemma_digits_prefix_le(d, i + 1 - start);
                    assert(digits_val(d) >= acc as int);
                }
            }
            return None;
        }
        i = i + 1;
    }
    proof {
        assert(d.take(n - start) =~= d);
        assert(all_digits(d));
        assert(acc as int == digits_val(d));
    }
    if neg {
        if acc == 2147483648 {
            Some(i32::MIN)
        } else {
            Some(0i32 - (acc as i32))
        }
    } else {
        if acc > 2147483647 {
            None
        } else {
            Some(acc as i32)
        }
    }
}

/// Lower-case one character, for the ASCII letters.
fn fold_lower(c: char) -> (r: char)
    ensures
        r == fold_char(c),
{
    let u = c as u32;
    if 65 <= u && u <= 90 {
        ((u + 32) as u8) as char
    } else {
        c
    }
}

/// The precedence class of a case-folded word.
fn classify_word(w: &Vec<char>) -> (r: u8)
    ensures
        r as int == classify(w@),
{
    let n = w.len();
    if n == 3 && w[0] == 'd' && w[1] == 'e' && w[2] == 'v' {
        proof {
            assert(w@ =~= seq!['d', 'e', 'v']);
        }
        CLASS_DEV
    } else if (n == 1 && w[0] == 'a') || (n == 5 && w[0] == 'a' && w[1] == 'l' && w[2] == 'p'
        && w[3] == 'h' && w[4] == 'a') {
        proof {
            if n == 1 {
                assert(w@ =~= seq!['a']);
            } else {
                assert(w@ =~= seq!['a', 'l', 'p', 'h', 'a']);
            }
        }
        CLASS_ALPHA
    } else if (n == 1 && w[0] == 'b') || (n == 4 && w[0] == 'b' && w[1] == 'e' && w[2] == 't'
        && w[3] == 'a') {
        proof {
            if n == 1 {
                assert(w@ =~= seq!['b']);
            } else {
                assert(w@ =~= seq!['b', 'e', 't', 'a']);
            }
        }
        CLASS_BETA
    } else if (n == 1 && w[0] == 'c') || (n == 2 && w[0] == 'r' && w[1] == 'c') {
        proof {
            if n == 1 {
                assert(w@ =~= seq!['c']);
            } else {
                assert(w@ =~= seq!['r', 'c']);
            }
        }
        CLASS_RC
    } else if (n == 4 && w[0] == 'p' && w[1] == 'o' && w[2] == 's' && w[3] == 't') || (n == 3
        && w[0] == 'r' && w[1] == 'e' && w[2] == 'v') {
        proof {
            if n == 4 {
                assert(w@ =~= seq!['p', 'o', 's', 't']);
            } else {
                assert(w@ =~= seq!['r', 'e', 'v']);
            }
        }
        CLASS_POST
    } else {
        CLASS_OTHER
    }
}



proof fn lemma_view_push(s: Seq<SubToken>, t: SubToken)
    ensures
        subs_view(s.push(t)) =~= subs_view(s).push(t@),
{
    assert forall|k: int| 0 <= k < s.len() + 1 implies subs_view(s.push(t))[k] == subs_view(
        s,
    ).push(t@)[k] by {
        if k < s.len() {
            assert(s.push(t)[k] == s[k]);
        } else {
            assert(s.push(t)[k] == t);
        }
    }
}

/// Turn one finished run into its sub-token.
fn finish_run(run: Vec<char>, digit_kind: bool) -> (r: SubToken)
    requires
        run@.len() > 0,
        forall|k: int| 0 <= k < run@.len() ==> is_digit_char(#[trigger] run@[k]) == digit_kind,
    ensures
        r@ == run_subtok(run@),
        r.wf(),
{
    if digit_kind {
        let n = run.len();
        let mut j: usize = 0;
        while j < n && (run[j] as u32) == 48
            invariant
                j <= n,
                n == run@.len(),
                forall|k: int| 0 <= k < run@.len() ==> is_digit_char(#[trigger] run@[k]),
                forall|k: int| 0 <= k < j ==> digit_of(#[trigger] run@[k]) == 0,
            decreases n - j,
        {
            j = j + 1;
        }
        proof {
            lemma_strip_zeros_at(run@, j as int);
            lemma_strip_zeros(run@);
        }
        let digits = subvec(&run, j, n);
        proof {
            assert(digits@ =~= run@.skip(j as int));
        }
        SubToken::Num(digits)
    } else {
        let n = run.len();
        let mut w: Vec<char> = Vec::new();
        let mut i: usize = 0;
        while i < n
            invariant
                i <= n,
                n == run@.len(),
                w@ == fold_seq(run@.take(i as int)),
            decreases n - i,
        {
            let f = fold_lower(run[i]);
            w.push(f);
            proof {
                assert(fold_seq(run@.take(i + 1 as int)) =~= fold_seq(run@.take(i as int)).push(
                    fold_char(run@[i as int]),
                ));
            }
            i = i + 1;
        }
        proof {
            assert(run@.take(n as int) =~= run@);
        }
        let cl = classify_word(&w);
        if cl == CLASS_OTHER {
            SubToken::Txt(cl, w)
        } else {
            let e: Vec<char> = Vec::new();
            proof {
                assert(e@ =~= Seq::<char>::empty());
            }
            SubToken::Txt(cl, e)
        }
    }
}

/// The sub-tokens of an identifier token: alternating digit and letter runs,
/// with a leading zero-valued number dropped.
fn make_subs(t: &Vec<char>) -> (r: Vec<SubToken>)
    ensures
        subs_view(r@) == ident_subs(t@),
        forall|k: int| 0 <= k < r@.len() ==> (#[trigger] r@[k]).wf(),
{
    let n = t.len();
    let mut subs: Vec<SubToken> = Vec::new();
    let mut cur: Vec<char> = Vec::new();
    let mut ckind = false;
    let mut i: usize = 0;
    while i < n
        invariant
            i <= n,
            n == t@.len(),
            i == 0 ==> cur@.len() == 0 && subs@.len() == 0,
            i > 0 ==> {
                let rr = runs(t@.take(i as int));
                &&& cur@.len() > 0
                &&& rr.len() > 0
                &&& rr.last() == cur@
                &&& ckind == is_digit_char(cur@.last())
                &&& (forall|k: int|
                    0 <= k < cur@.len() ==> is_digit_char(#[trigger] cur@[k]) == ckind)
                &&& subs_view(subs@) == Seq::new((rr.len() - 1) as nat, |k: int| run_subtok(rr[k]))
            },
            forall|k: int| 0 <= k < subs@.len() ==> (#[trigger] subs@[k]).wf(),
        decreases n - i,
    {
        let c = t[i];
        let cd = (c as u32) >= 48 && (c as u32) <= 57;
        proof {
            assert(cd == is_digit_char(t@[i as int]));
            assert(t@.take(i + 1 as int).drop_last() =~= t@.take(i as int));
            assert(t@.take(i + 1 as int).last() == t@[i as int]);
        }
        if i > 0 && cd == ckind {
            cur.push(c);
            proof {
                let rr = runs(t@.take(i as int));
                let rr2 = runs(t@.take(i + 1 as int));
                assert(rr2 == rr.update(rr.len() - 1, rr.last().push(t@[i as int])));
                assert(rr2.last() == cur@);
                assert(Seq::new((rr2.len() - 1) as nat, |k: int| run_subtok(rr2[k])) =~= Seq::new(
                    (rr.len() - 1) as nat,
                    |k: int| run_subtok(rr[k]),
                ));
            }
        } else {
            if i > 0 {
                let ghost rr = runs(t@.take(i as int));
                let ghost old_subs = subs@;
                let st = finish_run(cur, ckind);
                subs.push(st);
                proof {
                    lemma_view_push(old_subs, st);
                    assert(subs_view(subs@) =~= Seq::new(rr.len(), |k: int| run_subtok(rr[k])));
                }
                cur = Vec::new();
            }
            proof {
                let rr = runs(t@.take(i as int));
                let rr2 = runs(t@.take(i + 1 as int));
                if i == 0 {
                    assert(t@.take(0int).len() == 0);
                    assert(rr.len() == 0);
                    assert(rr2 == rr.push(seq![t@[i as int]]));
                    assert(subs_view(subs@) =~= Seq::new(0, |k: int| run_subtok(rr2[k])));
                } else {
                    lemma_runs_shape(t@.take(i as int));
                    assert(rr.last().last() == t@[i as int - 1]);
                    assert(rr2 == rr.push(seq![t@[i as int]]));
                }
                assert(subs_view(subs@) =~= Seq::new((rr2.len() - 1) as nat, |k: int| run_subtok(rr2[k])));
            }
            cur.push(c);
            ckind = cd;
        }
        i = i + 1;
    }
    proof {
        assert(t@.take(n as int) =~= t@);
    }
    if n > 0 {
        let ghost rr = runs(t@);
        let ghost old_subs = subs@;
        let st = finish_run(cur, ckind);
        subs.push(st);
        proof {
            lemma_view_push(old_subs, st);
            assert(subs_view(subs@) =~= Seq::new(rr.len(), |k: int| run_subtok(rr[k])));
        }
    }
    proof {
        assert(subs_view(subs@) =~= Seq::new(runs(t@).len(), |k: int| run_subtok(runs(t@)[k])));
    }
    let drop_first = match subs.get(0) {
        Some(SubToken::Num(dv)) => dv.len() == 0,
        _ => false,
    };
    if drop_first {
        let ghost old_subs = subs@;
        let first = subs.remove(0);
        proof {
            assert(subs_view(old_subs)[0] == (SubTokV::Num { val: 0 }));
            assert(subs_view(subs@) =~= subs_view(old_subs).skip(1));
        }
    } else {
        proof {
            let rs = Seq::new(runs(t@).len(), |k: int| run_subtok(runs(t@)[k]));
            if rs.len() > 0 && rs[0] == (SubTokV::Num { val: 0 }) {
                assert(subs@[0]@ == (SubTokV::Num { val: 0 }));
                match subs@[0] {
                    SubToken::Num(dv) => {
                        if dv@.len() > 0 {
                            lemma_digits_val_lower(dv@);
                            lemma_pow10_pos((dv@.len() - 1) as nat);
                        }
                    },
                    SubToken::Txt(_, _) => {},
                }
            }
        }
    }
    subs
}


/// The component one non-empty token becomes.
fn token_to_part(tok: Vec<char>) -> (r: VersionPart)
    requires
        tok@.len() > 0,
    ensures
        r@ == token_part(tok@),
        r.wf(),
{
    match parse_int_token(&tok) {
        Some(v) => VersionPart::Integer(v),
        None => {
            let subs = make_subs(&tok);
            VersionPart::Identifier(tok, subs)
        },
    }
}

proof fn lemma_parts_view_push(s: Seq<VersionPart>, p: VersionPart)
    ensures
        parts_vview(s.push(p)) =~= parts_vview(s).push(p@),
{
    assert forall|k: int| 0 <= k < s.len() + 1 implies parts_vview(s.push(p))[k] == parts_vview(
        s,
    ).push(p@)[k] by {
        if k < s.len() {
            assert(s.push(p)[k] == s[k]);
        } else {
            assert(s.push(p)[k] == p);
        }
    }
}

/// Split a character range at separators and append the components its
/// non-empty tokens denote.
fn push_tokens(chars: &Vec<char>, from: usize, to: usize, parts: &mut Vec<VersionPart>)
    requires
        from <= to <= chars@.len(),
        all_parts_wf(old(parts)@),
    ensures
        all_parts_wf(final(parts)@),
        parts_vview(final(parts)@) == parts_vview(old(parts)@) + tokens_parts(
            split_seps(chars@.subrange(from as int, to as int)),
        ),
{
    let ghost t: Seq<char> = chars@.subrange(from as int, to as int);
    let mut cur: Vec<char> = Vec::new();
    let mut i: usize = from;
    proof {
        assert(t.take(0int) =~= Seq::<char>::empty());
        assert(split_seps(t.take(0int)) =~= seq![Seq::<char>::empty()]);
    }
    while i < to
        invariant
            from <= i <= to <= chars@.len(),
            t == chars@.subrange(from as int, to as int),
            all_parts_wf(parts@),
            split_seps(t.take(i - from)).len() >= 1,
            split_seps(t.take(i - from)).last() == cur@,
            parts_vview(parts@) == parts_vview(old(parts)@) + tokens_parts(
                split_seps(t.take(i - from)).drop_last(),
            ),
        decreases to - i,
    {
        let c = chars[i];
        let ghost sp = split_seps(t.take(i - from));
        proof {
            assert(t.take(i + 1 - from).drop_last() =~= t.take(i - from));
            assert(t.take(i + 1 - from).last() == t[i - from] == chars@[i as int]);
            lemma_split_seps_len(t.take(i + 1 - from));
        }
        if c == '.' || c == '_' {
            let ghost sp2 = split_seps(t.take(i + 1 - from));
            proof {
                assert(sp2 == sp.push(Seq::<char>::empty()));
                assert(sp2.drop_last() =~= sp);
            }
            if cur.len() > 0 {
                let ghost old_parts = parts@;
                let p = token_to_part(cur);
                parts.push(p);
                proof {
                    lemma_parts_view_push(old_parts, p);
                    assert(tokens_parts(sp) == tokens_parts(sp.drop_last()).push(
                        token_part(sp.last()),
                    ));
                    assert(parts_vview(parts@) =~= parts_vview(old(parts)@) + tokens_parts(sp));
                }
                cur = Vec::new();
            } else {
                proof {
                    assert(tokens_parts(sp) == tokens_parts(sp.drop_last()));
                }
            }
        } else {
            let ghost sp2 = split_seps(t.take(i + 1 - from));
            cur.push(c);
            proof {
                assert(sp2 == sp.update(sp.len() - 1, sp.last().push(chars@[i as int])));
                assert(sp2.last() == cur@);
                assert(sp2.drop_last() =~= sp.drop_last());
            }
        }
        i = i + 1;
    }
    proof {
        assert(t.take(to - from) =~= t);
    }
    let ghost sp = split_seps(t);
    if cur.len() > 0 {
        let ghost old_parts = parts@;
        let p = token_to_part(cur);
        parts.push(p);
        proof {
            lemma_parts_view_push(old_parts, p);
            assert(tokens_parts(sp) == tokens_parts(sp.drop_last()).push(token_part(sp.last())));
            assert(parts_vview(parts@) =~= parts_vview(old(parts)@) + tokens_parts(sp));
        }
    } else {
        proof {
            assert(tokens_parts(sp) == tokens_parts(sp.drop_last()));
            assert(parts_vview(parts@) =~= parts_vview(old(parts)@) + tokens_parts(sp));
        }
    }
}

/// Split the given version string into its version components.
///
/// This is the standard tokenizer; [`crate::version::Version::parse`]
/// accepts any other function of the same shape in its place.
pub fn conda_parser(version: &str) -> (r: Result<Vec<VersionPart>, ParseError>)
    ensures
        match tokenize_spec(version@) {
            Some(ps) => r matches Ok(v) && parts_vview(v@) == ps && all_parts_wf(v@),
            None => r matches Err(ParseError::MalformedVersion),
        },
{
    let chars = str_to_chars(version);
    let (nb, bi) = count_and_find_esep(&chars);
    if nb > 1 {
        return Err(ParseError::MalformedVersion);
    }
    let mut parts: Vec<VersionPart> = Vec::new();
    let rest_from: usize;
    if nb == 1 {
        proof {
            lemma_find_esep_props(chars@);
            if find_esep(chars@) == chars@.len() {
                lemma_count_esep_zero(chars@);
            }
            assert(bi < chars@.len());
        }
        let epoch_txt = subvec(&chars, 0, bi);
        proof {
            assert(epoch_txt@ =~= chars@.take(bi as int));
        }
        match parse_int_token(&epoch_txt) {
            None => {
                return Err(ParseError::MalformedVersion);
            },
            Some(v) => {
                parts.push(VersionPart::Epoch(v));
            },
        }
        let n_chars = chars.len();
        proof {
            assert(bi < n_chars);
        }
        rest_from = bi + 1;
    } else {
        rest_from = 0;
    }
    let rest = subvec(&chars, rest_from, chars.len());
    proof {
        assert(rest@ =~= chars@.skip(rest_from as int));
        if nb != 1 {
            assert(rest@ =~= chars@);
        }
    }
    let (np, pi) = count_and_find(&rest, '+');
    if np > 1 {
        return Err(ParseError::MalformedVersion);
    }
    let ghost parts_before = parts@;
    if np == 1 {
        proof {
            lemma_find_char_props(rest@, '+');
            if find_char(rest@, '+') == rest@.len() {
                lemma_count_char_zero(rest@, '+');
            }
            assert(pi < rest@.len());
            assert(rest@.subrange(0int, pi as int) =~= rest@.take(pi as int));
            assert(rest@.subrange(pi + 1 as int, rest@.len() as int) =~= rest@.skip(pi + 1));
        }
        push_tokens(&rest, 0, pi, &mut parts);
        push_tokens(&rest, pi + 1, rest.len(), &mut parts);
    } else {
        proof {
            assert(rest@.subrange(0int, rest@.len() as int) =~= rest@);
        }
        push_tokens(&rest, 0, rest.len(), &mut parts);
    }
    proof {
        assert(parts_vview(parts@).len() == parts@.len());
        if nb == 1 {
            assert(parts_vview(parts_before).len() == 1);
            assert(parts@.len() >= 1);
        }
    }
    let ghost parts_mid = parts@;
    if parts.len() == 0 {
        parts.push(VersionPart::Empty);
        proof {
            assert(parts_vview(parts@) =~= seq![PartV::Empty]);
        }
    }
    proof {
        let sv = version@;
        assert(chars@ == sv);
        assert(nb as nat == count_esep(sv));
        if nb == 1 {
            assert(parts_vview(parts_before) =~= seq![
                PartV::Epoch { val: int_token_val(chars@.take(bi as int)) },
            ]);
            assert(bi as int == find_esep(sv));
            assert(is_int_token(sv.take(bi as int)));
            assert(rest@ == sv.skip(bi + 1));
        } else {
            assert(parts_vview(parts_before) =~= Seq::<PartV>::empty());
            assert(rest@ == sv);
        }
        assert(np as nat == count_char(rest@, '+'));
        let rp = rest_parts(rest@);
        if np == 1 {
            assert(pi as int == find_char(rest@, '+'));
            assert(rp == Some(
                tokens_parts(split_seps(rest@.take(pi as int))) + tokens_parts(
                    split_seps(rest@.skip(pi + 1)),
                ),
            ));
        }
        assert(rp is Some);
        let ps0 = rp.unwrap();
        assert(parts_vview(parts_mid) =~= parts_vview(parts_before) + ps0);
        match tokenize_spec(sv) {
            Some(ps) => {
                if nb == 1 {
                    assert(ps == seq![PartV::Epoch { val: int_token_val(sv.take(bi as int)) }]
                        + ps0);
                    assert(parts_vview(parts@) =~= ps);
                } else {
                    assert(ps == if ps0.len() == 0 { seq![PartV::Empty] } else { ps0 });
                    assert(parts_vview(parts@) =~= ps);
                }
            },
            None => {
                assert(false);
            },
        }
    }
    Ok(parts)
}

} // verus!
