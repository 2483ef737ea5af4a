//! Decimal numerals: printing a version number and the tolerant parse
//! used when scanning existing version tags.
use vstd::prelude::*;

use crate::text::{char_digit, char_to_digit, digit_char, digit_to_char, is_digit, push_char};

verus! {

/// The decimal digits of `n`, most significant first.
pub open spec fn dec_digits(n: nat) -> Seq<char>
    decreases n,
{
    if n < 10 {
        seq![digit_char(n as int)]
    } else {
        dec_digits(n / 10).push(digit_char((n % 10) as int))
    }
}

/// Whether every character of `s` is a decimal digit.
pub open spec fn all_digits(s: Seq<char>) -> bool {
    forall|i: int| 0 <= i < s.len() ==> is_digit(#[trigger] s[i])
}

/// The value of a digit string, read left to right.
pub open spec fn dec_value(s: Seq<char>) -> int
    decreases s.len(),
{
    if s.len() == 0 {
        0
    } else {
        dec_value(s.drop_last()) * 10 + char_digit(s.last())
    }
}

/// What a numeral parses to: the value of a non-empty all-digit string
/// that fits the version type, and nothing else.
pub open spec fn parse_decimal(s: Seq<char>) -> Option<u32> {
    if s.len() > 0 && all_digits(s) && dec_value(s) <= u32::MAX {
        Some(dec_value(s) as u32)
    } else {
        None
    }
}

/// Printing a number yields a non-empty digit string with that value.
pub proof fn lemma_dec_digits_value(n: nat)
    ensures
        dec_digits(n).len() >= 1,
        all_digits(dec_digits(n)),
        dec_value(dec_digits(n)) == n,
    decreases n,
{
    if n < 10 {
        crate::text::lemma_digit_char_value(n as int);
        let s = dec_digits(n);
        assert(s == seq![digit_char(n as int)]);
        assert(s.len() == 1);
        assert(s.drop_last() =~= Seq::<char>::empty());
        assert(dec_value(s.drop_last()) == 0);
        assert(s.last() == digit_char(n as int));
        assert(dec_value(s) == 0 * 10 + char_digit(digit_char(n as int)));
    } else {
        lemma_dec_digits_value(n / 10);
        crate::text::lemma_digit_char_value((n % 10) as int);
        let s = dec_digits(n);
        assert(s == dec_digits(n / 10).push(digit_char((n % 10) as int)));
        assert(s.drop_last() =~= dec_digits(n / 10));
        assert(s.last() == digit_char((n % 10) as int));
        assert(dec_value(s) == dec_value(dec_digits(n / 10)) * 10 + (n % 10));
        vstd::arithmetic::div_mod::lemma_fundamental_div_mod(n as int, 10);
        assert(forall|i: int|
            0 <= i < s.len() ==> is_digit(#[trigger] s[i])) by {
            assert(forall|i: int|
                0 <= i < s.len() - 1 ==> #[trigger] s[i] == dec_digits(n / 10)[i]);
            assert(s[s.len() - 1] == digit_char((n % 10) as int));
        }
    }
}

/// The parse of a printed number gives the number back.
pub proof fn lemma_parse_of_dec_digits(n: nat)
    requires
        n <= u32::MAX,
    ensures
        parse_decimal(dec_digits(n)) == Some(n as u32),
{
    lemma_dec_digits_value(n);
}

/// The value of a digit string never sinks when the string grows on
/// the right.
pub proof fn lemma_dec_value_grows(s: Seq<char>, i: int)
    requires
        0 <= i <= s.len(),
        all_digits(s),
    ensures
        dec_value(s.take(i)) <= dec_value(s),
        dec_value(s) >= 0,
    decreases s.len() - i,
{
    if i == s.len() {
        assert(s.take(i) =~= s);
        lemma_dec_value_nonneg(s);
    } else {
        lemma_dec_value_grows(s, i + 1);
        let t = s.take(i + 1);
        assert(t.drop_last() =~= s.take(i));
        lemma_dec_value_nonneg(s.take(i));
        assert(is_digit(s[i]));
        assert(dec_value(t) == dec_value(s.take(i)) * 10 + char_digit(s[i]));
        assert(dec_value(s.take(i)) * 10 >= dec_value(s.take(i))) by (nonlinear_arith)
            requires
                dec_value(s.take(i)) >= 0,
        ;
    }
}

/// A digit string's value is never negative.
pub proof fn lemma_dec_value_nonneg(s: Seq<char>)
    requires
        all_digits(s),
    ensures
        dec_value(s) >= 0,
    decreases s.len(),
{
    if s.len() > 0 {
        assert(is_digit(s[s.len() - 1]));
        assert(all_digits(s.drop_last())) by {
            assert(forall|i: int|
                0 <= i < s.drop_last().len() ==> #[trigger] s.drop_last()[i] == s[i]);
        }
        lemma_dec_value_nonneg(s.drop_last());
        assert(dec_value(s.drop_last()) * 10 >= 0) by (nonlinear_arith)
            requires
                dec_value(s.drop_last()) >= 0,
        ;
    }
}

/// Print `n` in decimal.
pub fn dec_string(n: u32) -> (r: String)
    ensures
        r@ == dec_digits(n as nat),
    decreases n,
{
    if n < 10 {
        let mut s = String::new();
        push_char(&mut s, digit_to_char(n));
        proof {
            assert(s@ =~= dec_digits(n as nat));
        }
        s
    } else {
        let mut s = dec_string(n / 10);
        push_char(&mut s, digit_to_char(n % 10));
        proof {
            assert(s@ =~= dec_digits(n as nat));
        }
        s
    }
}

/// Append `n` in decimal to `out`.
pub fn push_dec(out: &mut String, n: u32)
    ensures
        final(out)@ == old(out)@ + dec_digits(n as nat),
{
    let d = dec_string(n);
    out.append(d.as_str());
}

/// Parse a numeral: `Some` exactly for a non-empty all-digit string
/// whose value fits, the value read left to right.
pub fn parse_dec(s: &str) -> (r: Option<u32>)
    ensures
        r == parse_decimal(s@),
{
    let n = s.unicode_len();
    if n == 0 {
        return None;
    }
    let mut acc: u64 = 0;
    let mut i: usize = 0;
    while i < n
        invariant
            0 < n == s@.len(),
            0 <= i <= n,
            all_digits(s@.take(i as int)),
            acc == dec_value(s@.take(i as int)),
            acc <= u32::MAX,
        decreases n - i,
    {
        let c = s.get_char(i);
        match char_to_digit(c) {
            None => {
                assert(!is_digit(s@[i as int]));
                return None;
            },
            Some(d) => {
                proof {
                    assert(s@.take(i + 1).drop_last() =~= s@.take(i as int));
                    assert(s@.take(i + 1).last() == s@[i as int]);
                    assert forall|j: int| 0 <= j < i + 1 implies is_digit(
                        #[trigger] s@.take(i + 1)[j],
                    ) by {
                        if j < i {
                            assert(is_digit(s@.take(i as int)[j]));
                        }
                        assert(s@.take(i + 1)[j] == s@[j]);
                    }
                    assert(all_digits(s@.take(i + 1)));
                }
                let next: u64 = acc * 10 + (d as u64);
                assert(next == dec_value(s@.take(i + 1)));
                if next > u32::MAX as u64 {
                    proof {
                        assert(all_digits(s@.take(i + 1)));
                        if all_digits(s@) {
                            lemma_dec_value_grows(s@, i + 1);
                            assert(dec_value(s@) >= dec_value(s@.take(i + 1)));
                            assert(dec_value(s@) > u32::MAX);
                        }
                    }
                    return None;
                }
                acc = next;
                i = i + 1;
            },
        }
    }
    proof {
        assert(s@.take(n as int) =~= s@);
    }
    Some(acc as u32)
}

} // verus!
