//! Artifact naming: one numbered artifact per commit of the series,
//! plus one summary artifact ahead of them when the series is long
//! enough, all named so that lexicographic path order is generation
//! order.
use vstd::prelude::*;

use crate::decimal::{dec_digits, push_dec};
use crate::order::{lemma_lex_le_common_prefix, lemma_lex_le_total, lex_le};
use crate::text::{digit_char, digit_to_char, is_digit, lemma_digit_char_code, push_char};
use vstd::multiset::Multiset;

verus! {

/// The four-digit, zero-padded sequence number of an artifact.
pub open spec fn dec4_digits(n: int) -> Seq<char> {
    seq![
        digit_char(n / 1000 % 10),
        digit_char(n / 100 % 10),
        digit_char(n / 10 % 10),
        digit_char(n % 10),
    ]
}

/// Append the four-digit sequence number of `n`.
pub fn push_dec4(out: &mut String, n: u32)
    requires
        n <= 9999,
    ensures
        final(out)@ == old(out)@ + dec4_digits(n as int),
{
    push_char(out, digit_to_char(n / 1000 % 10));
    push_char(out, digit_to_char(n / 100 % 10));
    push_char(out, digit_to_char(n / 10 % 10));
    push_char(out, digit_to_char(n % 10));
    proof {
        assert(out@ =~= old(out)@ + dec4_digits(n as int));
    }
}

/// Zero-padded sequence numbers sort like the numbers themselves.
pub proof fn lemma_dec4_le(i: int, j: int)
    requires
        0 <= i <= j <= 9999,
    ensures
        lex_le(dec4_digits(i), dec4_digits(j)),
{
    let a = dec4_digits(i);
    let b = dec4_digits(j);
    vstd::arithmetic::div_mod::lemma_div_is_ordered(i, j, 1000);
    vstd::arithmetic::div_mod::lemma_div_is_ordered(i, 9999, 1000);
    assert(i / 1000 % 10 == i / 1000);
    assert(j / 1000 % 10 == j / 1000);
    lemma_digit_char_code(i / 1000);
    lemma_digit_char_code(j / 1000);
    if i / 1000 < j / 1000 {
        assert((a[0] as int) < (b[0] as int));
        assert(lex_le(a, b));
    } else {
        assert(a[0] == b[0]);
        vstd::arithmetic::div_mod::lemma_div_is_ordered(i, j, 100);
        vstd::arithmetic::div_mod::lemma_div_denominator(i, 100, 10);
        vstd::arithmetic::div_mod::lemma_div_denominator(j, 100, 10);
        vstd::arithmetic::div_mod::lemma_fundamental_div_mod(i / 100, 10);
        vstd::arithmetic::div_mod::lemma_fundamental_div_mod(j / 100, 10);
        assert(i / 100 % 10 <= j / 100 % 10);
        lemma_digit_char_code(i / 100 % 10);
        lemma_digit_char_code(j / 100 % 10);
        if i / 100 % 10 < j / 100 % 10 {
            lemma_lex_le_common_prefix(a, b, 1);
            assert(a.skip(1) =~= seq![a[1], a[2], a[3]]);
            assert(b.skip(1) =~= seq![b[1], b[2], b[3]]);
            assert((a.skip(1)[0] as int) < (b.skip(1)[0] as int));
            assert(lex_le(a.skip(1), b.skip(1)));
        } else {
            assert(a[1] == b[1]);
            assert(i / 100 == j / 100);
            vstd::arithmetic::div_mod::lemma_div_is_ordered(i, j, 10);
            vstd::arithmetic::div_mod::lemma_div_denominator(i, 10, 10);
            vstd::arithmetic::div_mod::lemma_div_denominator(j, 10, 10);
            vstd::arithmetic::div_mod::lemma_fundamental_div_mod(i / 10, 10);
            vstd::arithmetic::div_mod::lemma_fundamental_div_mod(j / 10, 10);
            assert(i / 10 % 10 <= j / 10 % 10);
            lemma_digit_char_code(i / 10 % 10);
            lemma_digit_char_code(j / 10 % 10);
            if i / 10 % 10 < j / 10 % 10 {
                lemma_lex_le_common_prefix(a, b, 2);
                assert(a.skip(2) =~= seq![a[2], a[3]]);
                assert(b.skip(2) =~= seq![b[2], b[3]]);
                assert((a.skip(2)[0] as int) < (b.skip(2)[0] as int));
                assert(lex_le(a.skip(2), b.skip(2)));
            } else {
                assert(a[2] == b[2]);
                assert(i / 10 == j / 10);
                vstd::arithmetic::div_mod::lemma_fundamental_div_mod(i, 10);
                vstd::arithmetic::div_mod::lemma_fundamental_div_mod(j, 10);
                assert(i % 10 <= j % 10);
                lemma_digit_char_code(i % 10);
                lemma_digit_char_code(j % 10);
                if i % 10 < j % 10 {
                    lemma_lex_le_common_prefix(a, b, 3);
                    assert(a.skip(3) =~= seq![a[3]]);
                    assert(b.skip(3) =~= seq![b[3]]);
                    assert((a.skip(3)[0] as int) < (b.skip(3)[0] as int));
                    assert(lex_le(a.skip(3), b.skip(3)));
                } else {
                    assert(a =~= b);
                    lemma_lex_le_total(a, a);
                }
            }
        }
    }
}

/// A common prefix does not change the order.
pub proof fn lemma_lex_le_prefix(p: Seq<char>, x: Seq<char>, y: Seq<char>)
    ensures
        lex_le(p + x, p + y) == lex_le(x, y),
{
    assert(forall|j: int| 0 <= j < p.len() ==> (p + x)[j] == (p + y)[j]);
    lemma_lex_le_common_prefix(p + x, p + y, p.len() as int);
    assert((p + x).skip(p.len() as int) =~= x);
    assert((p + y).skip(p.len() as int) =~= y);
}

/// Appending behind equally long ordered heads keeps the order, the
/// tails deciding only where the heads are the same.
pub proof fn lemma_lex_le_append(a: Seq<char>, b: Seq<char>, s: Seq<char>, t: Seq<char>)
    requires
        a.len() == b.len(),
        lex_le(a, b),
        a == b ==> lex_le(s, t),
    ensures
        lex_le(a + s, b + t),
    decreases a.len(),
{
    if a.len() == 0 {
        assert(a =~= b);
        assert(a + s =~= s);
        assert(b + t =~= t);
    } else {
        if (a[0] as int) < (b[0] as int) {
            assert((a + s)[0] == a[0]);
            assert((b + t)[0] == b[0]);
            assert(lex_le(a + s, b + t));
        } else {
            assert(a[0] as int == b[0] as int);
            assert(a[0] == b[0]);
            if a.drop_first() == b.drop_first() {
                assert forall|i: int| 0 <= i < a.len() implies a[i] == b[i] by {
                    if i > 0 {
                        assert(a.drop_first()[i - 1] == a[i]);
                        assert(b.drop_first()[i - 1] == b[i]);
                    }
                }
                assert(a =~= b);
            }
            lemma_lex_le_append(a.drop_first(), b.drop_first(), s, t);
            assert((a + s).drop_first() =~= a.drop_first() + s);
            assert((b + t).drop_first() =~= b.drop_first() + t);
            assert((a + s)[0] == a[0]);
            assert((b + t)[0] == b[0]);
            assert(lex_le(a + s, b + t));
        }
    }
}

/// The version marker ahead of every artifact name of a resubmission.
pub open spec fn spec_version_prefix(version: nat) -> Seq<char> {
    if version > 1 {
        seq!['v'] + dec_digits(version) + seq!['-']
    } else {
        Seq::<char>::empty()
    }
}

/// The name of artifact `k` of a series at `version`: the sequence
/// number, zero for the summary artifact, version-prefixed from the
/// second version on.
pub open spec fn spec_artifact_name(k: int, version: nat) -> Seq<char> {
    spec_version_prefix(version) + dec4_digits(k) + seq!['-', 'p', 'a', 't', 'c', 'h']
}

/// Build the name of artifact `k`.
pub fn artifact_name(k: u32, version: u32) -> (r: String)
    requires
        k <= 9999,
        version >= 1,
    ensures
        r@ == spec_artifact_name(k as int, version as nat),
{
    let mut s = String::new();
    if version > 1 {
        push_char(&mut s, 'v');
        push_dec(&mut s, version);
        push_char(&mut s, '-');
    }
    push_dec4(&mut s, k);
    s.append("-patch");
    proof {
        reveal_strlit("-patch");
        assert(("-patch")@ =~= seq!['-', 'p', 'a', 't', 'c', 'h']);
        assert(s@ =~= spec_artifact_name(k as int, version as nat));
    }
    s
}

/// The first index at or past `i` that does not hold a digit.
pub open spec fn digits_end(s: Seq<char>, i: int) -> int
    decreases s.len() - i,
{
    if i < 0 || i >= s.len() {
        i
    } else if !is_digit(s[i]) {
        i
    } else {
        digits_end(s, i + 1)
    }
}

/// `digits_end` lands exactly behind a digit region.
pub proof fn lemma_digits_end_region(s: Seq<char>, i: int, j: int)
    requires
        0 <= i <= j <= s.len(),
        forall|k: int| i <= k < j ==> is_digit(#[trigger] s[k]),
        j < s.len() ==> !is_digit(s[j]),
    ensures
        digits_end(s, i) == j,
    decreases j - i,
{
    if i < j {
        assert(is_digit(s[i]));
        lemma_digits_end_region(s, i + 1, j);
    }
}

/// Whether a name starts with four zeros at offset `i`.
pub open spec fn zeros4_at(s: Seq<char>, i: int) -> bool {
    s.len() >= i + 4 && s[i] == '0' && s[i + 1] == '0' && s[i + 2] == '0' && s[i + 3] == '0'
}

/// Whether a name is the summary artifact's: an all-zero sequence
/// number, optionally behind a version marker.
pub open spec fn spec_is_summary_name(s: Seq<char>) -> bool {
    zeros4_at(s, 0) || (s.len() > 0 && s[0] == 'v' && {
        let j = digits_end(s, 1);
        j > 1 && j < s.len() && s[j] == '-' && zeros4_at(s, j + 1)
    })
}

/// Whether the character at `i` is a digit.
fn digit_at(name: &str, i: usize) -> (r: bool)
    requires
        i < name@.len(),
    ensures
        r == is_digit(name@[i as int]),
{
    let c = name.get_char(i);
    48 <= c as u32 && c as u32 <= 57
}

/// Whether four zeros stand at offset `i` of `name`.
fn zeros4_from(name: &str, i: usize) -> (r: bool)
    requires
        i <= name@.len(),
    ensures
        r == zeros4_at(name@, i as int),
{
    let n = name.unicode_len();
    if n - i < 4 {
        return false;
    }
    name.get_char(i) == '0' && name.get_char(i + 1) == '0' && name.get_char(i + 2) == '0'
        && name.get_char(i + 3) == '0'
}

/// Recognize the summary artifact by its name.
pub fn is_summary(name: &str) -> (r: bool)
    ensures
        r == spec_is_summary_name(name@),
{
    let n = name.unicode_len();
    if zeros4_from(name, 0) {
        return true;
    }
    if n == 0 || name.get_char(0) != 'v' {
        return false;
    }
    let mut i: usize = 1;
    while i < n && digit_at(name, i)
        invariant
            n == name@.len(),
            1 <= i <= n,
            forall|k: int| 1 <= k < i ==> is_digit(#[trigger] name@[k]),
        decreases n - i,
    {
        i = i + 1;
    }
    proof {
        lemma_digits_end_region(name@, 1, i as int);
    }
    if i <= 1 || i >= n {
        return false;
    }
    if name.get_char(i) != '-' {
        return false;
    }
    zeros4_from(name, i + 1)
}

/// Filtering a sequence keeps its order, and every kept element is one
/// of the sequence.
pub proof fn lemma_filter_keeps_order<A>(s: Seq<A>, p: spec_fn(A) -> bool, leq: spec_fn(A, A) -> bool)
    requires
        vstd::relations::sorted_by(s, leq),
    ensures
        vstd::relations::sorted_by(s.filter(p), leq),
        forall|i: int|
            0 <= i < s.filter(p).len() ==> exists|k: int|
                0 <= k < s.len() && s[k] == #[trigger] s.filter(p)[i],
    decreases s.len(),
{
    reveal(Seq::filter);
    if s.len() > 0 {
        let d = s.drop_last();
        let x = s.last();
        assert(forall|i: int| 0 <= i < d.len() ==> #[trigger] d[i] == s[i]);
        assert(vstd::relations::sorted_by(d, leq));
        lemma_filter_keeps_order(d, p, leq);
        let sub = d.filter(p);
        if p(x) {
            assert(s.filter(p) == sub.push(x));
            assert forall|i: int|
                0 <= i < s.filter(p).len() implies exists|k: int|
                0 <= k < s.len() && s[k] == #[trigger] s.filter(p)[i] by {
                if i < sub.len() {
                    assert(s.filter(p)[i] == sub[i]);
                    let k = choose|k: int| 0 <= k < d.len() && d[k] == sub[i];
                    assert(s[k] == s.filter(p)[i]);
                } else {
                    assert(s.filter(p)[i] == x);
                    assert(s[s.len() - 1] == x);
                }
            }
            assert forall|i: int, j: int| 0 <= i < j < s.filter(p).len() implies #[trigger] leq(
                s.filter(p)[i],
                s.filter(p)[j],
            ) by {
                if j < sub.len() {
                    assert(leq(sub[i], sub[j]));
                } else {
                    assert(s.filter(p)[j] == x);
                    let k = choose|k: int| 0 <= k < d.len() && d[k] == sub[i];
                    assert(leq(s[k], s[s.len() - 1]));
                }
            }
        } else {
            assert(s.filter(p) == sub);
            assert forall|i: int|
                0 <= i < s.filter(p).len() implies exists|k: int|
                0 <= k < s.len() && s[k] == #[trigger] s.filter(p)[i] by {
                let k = choose|k: int| 0 <= k < d.len() && d[k] == sub[i];
                assert(s[k] == s.filter(p)[i]);
            }
        }
    }
}

/// Filtering commutes with forgetting the order.
pub proof fn lemma_filter_to_multiset<A>(s: Seq<A>, p: spec_fn(A) -> bool)
    ensures
        s.filter(p).to_multiset() == s.to_multiset().filter(p),
    decreases s.len(),
{
    reveal(Seq::filter);
    broadcast use vstd::seq_lib::group_to_multiset_ensures, vstd::multiset::group_multiset_axioms;

    if s.len() == 0 {
        assert(s.filter(p) == s);
        assert(forall|v: A| !s.contains(v));
        assert(s.to_multiset() =~= Multiset::<A>::empty());
        assert(s.filter(p).to_multiset() =~= s.to_multiset().filter(p));
    } else {
        let d = s.drop_last();
        let x = s.last();
        lemma_filter_to_multiset(d, p);
        assert(s =~= d.push(x));
        assert(d.push(x).to_multiset() =~= d.to_multiset().insert(x));
        if p(x) {
            assert(s.filter(p) == d.filter(p).push(x));
            assert(d.filter(p).push(x).to_multiset() =~= d.filter(p).to_multiset().insert(x));
            assert(s.filter(p).to_multiset() =~= s.to_multiset().filter(p));
        } else {
            assert(s.filter(p) == d.filter(p));
            assert(s.filter(p).to_multiset() =~= s.to_multiset().filter(p));
        }
    }
}

/// The artifacts the rebuild reapplies: every artifact but the
/// summary, in ascending lexicographic path order.
pub fn patches_to_apply(files: Vec<String>) -> (r: Vec<String>)
    ensures
        vstd::relations::sorted_by(r@, |a: String, b: String| crate::order::name_le(a, b)),
        forall|i: int| 0 <= i < r@.len() ==> !spec_is_summary_name(#[trigger] r@[i]@),
        r@.to_multiset() == files@.to_multiset().filter(
            (|x: String| !spec_is_summary_name(x@)),
        ),
{
    let ghost p = |x: String| !spec_is_summary_name(x@);
    let ghost leq = |a: String, b: String| crate::order::name_le(a, b);
    let s = crate::order::sort_names(files);
    let mut r: Vec<String> = Vec::new();
    proof {
        reveal(Seq::filter);
        assert(s@.take(0int) =~= Seq::<String>::empty());
        assert(r@ =~= s@.take(0int).filter(p));
    }
    let mut i: usize = 0;
    while i < s.len()
        invariant
            0 <= i <= s@.len(),
            r@ == s@.take(i as int).filter(p),
            p == (|x: String| !spec_is_summary_name(x@)),
        decreases s@.len() - i,
    {
        let keep = !is_summary(s[i].as_str());
        proof {
            reveal(Seq::filter);
            assert(s@.take(i + 1).drop_last() =~= s@.take(i as int));
            assert(s@.take(i + 1).last() == s@[i as int]);
        }
        if keep {
            r.push(s[i].clone());
            proof {
                assert(s@.take(i + 1).filter(p) == s@.take(i as int).filter(p).push(s@[i as int]));
                assert(r@ == s@.take(i + 1).filter(p));
            }
        } else {
            proof {
                assert(s@.take(i + 1).filter(p) == s@.take(i as int).filter(p));
            }
        }
        i = i + 1;
    }
    proof {
        assert(s@.take(s@.len() as int) =~= s@);
        lemma_filter_keeps_order(s@, p, leq);
        lemma_filter_to_multiset(s@, p);
        broadcast use vstd::seq_lib::group_to_multiset_ensures;

        assert forall|j: int| 0 <= j < r@.len() implies !spec_is_summary_name(
            #[trigger] r@[j]@,
        ) by {
            s@.lemma_filter_pred(p, j);
        }
    }
    r
}

/// A zero-padded sequence number is all zeros exactly for zero.
pub proof fn lemma_dec4_zeros(k: int)
    requires
        0 <= k <= 9999,
    ensures
        k == 0 ==> dec4_digits(k) =~= seq!['0', '0', '0', '0'],
        k != 0 ==> !(dec4_digits(k)[0] == '0' && dec4_digits(k)[1] == '0' && dec4_digits(k)[2]
            == '0' && dec4_digits(k)[3] == '0'),
{
    let d = dec4_digits(k);
    lemma_digit_char_code(k / 1000 % 10);
    lemma_digit_char_code(k / 100 % 10);
    lemma_digit_char_code(k / 10 % 10);
    lemma_digit_char_code(k % 10);
    if k != 0 && d[0] == '0' && d[1] == '0' && d[2] == '0' && d[3] == '0' {
        assert(k / 1000 % 10 == 0 && k / 100 % 10 == 0 && k / 10 % 10 == 0 && k % 10 == 0);
        vstd::arithmetic::div_mod::lemma_div_is_ordered(k, 9999, 1000);
        assert(k / 1000 == 0);
        vstd::arithmetic::div_mod::lemma_div_denominator(k, 100, 10);
        vstd::arithmetic::div_mod::lemma_fundamental_div_mod(k / 100, 10);
        assert(k / 100 == 0);
        vstd::arithmetic::div_mod::lemma_div_denominator(k, 10, 10);
        vstd::arithmetic::div_mod::lemma_fundamental_div_mod(k / 10, 10);
        assert(k / 10 == 0);
        vstd::arithmetic::div_mod::lemma_fundamental_div_mod(k, 10);
        assert(k == 0);
    }
}

/// An artifact name marks the summary exactly when its sequence
/// number is the all-zero one.
pub proof fn lemma_artifact_name_summary(k: int, version: nat)
    requires
        0 <= k <= 9999,
        version >= 1,
    ensures
        spec_is_summary_name(spec_artifact_name(k, version)) == (k == 0),
{
    let name = spec_artifact_name(k, version);
    let p = spec_version_prefix(version);
    let four = dec4_digits(k);
    let suffix = seq!['-', 'p', 'a', 't', 'c', 'h'];
    lemma_dec4_zeros(k);
    lemma_digit_char_code(k / 1000 % 10);
    assert(name =~= p + four + suffix);
    assert(forall|t: int| 0 <= t < 4 ==> name[p.len() + t] == #[trigger] four[t]);
    if version > 1 {
        let dec = crate::decimal::dec_digits(version);
        crate::decimal::lemma_dec_digits_value(version);
        assert(p =~= seq!['v'] + dec + seq!['-']);
        let j = 1 + dec.len() as int;
        assert(name[0] == 'v');
        assert(forall|t: int| 1 <= t < j ==> name[t] == #[trigger] dec[t - 1]);
        assert(forall|t: int| 1 <= t < j ==> is_digit(#[trigger] name[t]));
        assert(name[j] == '-');
        assert(!is_digit('-'));
        lemma_digits_end_region(name, 1, j);
        assert(digits_end(name, 1) == j);
        assert(!zeros4_at(name, 0));
        if k == 0 {
            assert(zeros4_at(name, j + 1));
            assert(spec_is_summary_name(name));
        } else {
            assert(!zeros4_at(name, j + 1));
            assert(!spec_is_summary_name(name));
        }
    } else {
        assert(p =~= Seq::<char>::empty());
        assert(forall|t: int| 0 <= t < 4 ==> name[t] == #[trigger] four[t]);
        assert(name[0] == four[0]);
        assert(is_digit(name[0]));
        assert(name[0] != 'v');
        if k == 0 {
            assert(zeros4_at(name, 0));
            assert(spec_is_summary_name(name));
        } else {
            assert(!zeros4_at(name, 0));
            assert(!spec_is_summary_name(name));
        }
    }
}

/// Artifact names sort like their sequence numbers.
pub proof fn lemma_artifact_name_le(k1: int, k2: int, version: nat)
    requires
        0 <= k1 <= k2 <= 9999,
    ensures
        lex_le(spec_artifact_name(k1, version), spec_artifact_name(k2, version)),
{
    let p = spec_version_prefix(version);
    let suffix = seq!['-', 'p', 'a', 't', 'c', 'h'];
    lemma_dec4_le(k1, k2);
    lemma_lex_le_total(suffix, suffix);
    lemma_lex_le_append(dec4_digits(k1), dec4_digits(k2), suffix, suffix);
    lemma_lex_le_prefix(p, dec4_digits(k1) + suffix, dec4_digits(k2) + suffix);
    assert(p + (dec4_digits(k1) + suffix) =~= spec_artifact_name(k1, version));
    assert(p + (dec4_digits(k2) + suffix) =~= spec_artifact_name(k2, version));
}

} // verus!
