//! The stable artifact order: artifacts are handled in lexicographic
//! path order, so that editing, reapplication and transmission all
//! walk the set the same way.
use vstd::prelude::*;

use vstd::relations::sorted_by;
use vstd::seq_lib::group_to_multiset_ensures;

verus! {

/// Lexicographic order on character sequences, by code point.
pub open spec fn lex_le(a: Seq<char>, b: Seq<char>) -> bool
    decreases a.len(),
{
    if a.len() == 0 {
        true
    } else if b.len() == 0 {
        false
    } else if (a[0] as int) < (b[0] as int) {
        true
    } else if (a[0] as int) > (b[0] as int) {
        false
    } else {
        lex_le(a.drop_first(), b.drop_first())
    }
}

/// The order relation on names, as it applies to owned strings.
pub open spec fn name_le(a: String, b: String) -> bool {
    lex_le(a@, b@)
}

/// Any two names are comparable.
pub proof fn lemma_lex_le_total(a: Seq<char>, b: Seq<char>)
    ensures
        lex_le(a, b) || lex_le(b, a),
    decreases a.len(),
{
    if a.len() > 0 && b.len() > 0 && a[0] == b[0] {
        lemma_lex_le_total(a.drop_first(), b.drop_first());
    }
}

/// The order is transitive.
pub proof fn lemma_lex_le_trans(a: Seq<char>, b: Seq<char>, c: Seq<char>)
    requires
        lex_le(a, b),
        lex_le(b, c),
    ensures
        lex_le(a, c),
    decreases a.len(),
{
    if a.len() > 0 {
        if a[0] == b[0] && b[0] == c[0] {
            lemma_lex_le_trans(a.drop_first(), b.drop_first(), c.drop_first());
        }
    }
}

/// Equal prefixes do not decide the order: it is decided past them.
pub proof fn lemma_lex_le_common_prefix(a: Seq<char>, b: Seq<char>, i: int)
    requires
        0 <= i <= a.len(),
        i <= b.len(),
        forall|j: int| 0 <= j < i ==> a[j] == b[j],
    ensures
        lex_le(a, b) == lex_le(a.skip(i), b.skip(i)),
    decreases i,
{
    if i > 0 {
        assert(a[0] == b[0]);
        assert(a.len() > 0 && b.len() > 0);
        assert(forall|j: int|
            0 <= j < i - 1 ==> #[trigger] a.drop_first()[j] == b.drop_first()[j]);
        lemma_lex_le_common_prefix(a.drop_first(), b.drop_first(), i - 1);
        assert(a.drop_first().skip(i - 1) =~= a.skip(i));
        assert(b.drop_first().skip(i - 1) =~= b.skip(i));
    } else {
        assert(a.skip(0) =~= a);
        assert(b.skip(0) =~= b);
    }
}

/// Compare two names in lexicographic order.
pub fn names_le(a: &str, b: &str) -> (r: bool)
    ensures
        r == lex_le(a@, b@),
{
    let alen = a.unicode_len();
    let blen = b.unicode_len();
    let mut i: usize = 0;
    while i < alen && i < blen
        invariant
            alen == a@.len(),
            blen == b@.len(),
            0 <= i <= alen,
            i <= blen,
            forall|j: int| 0 <= j < i ==> a@[j] == b@[j],
        decreases alen - i,
    {
        let ca = a.get_char(i);
        let cb = b.get_char(i);
        if (ca as u32) < (cb as u32) {
            proof {
                lemma_lex_le_common_prefix(a@, b@, i as int);
                assert(a@.skip(i as int)[0] == ca);
                assert(b@.skip(i as int)[0] == cb);
            }
            return true;
        }
        if (ca as u32) > (cb as u32) {
            proof {
                lemma_lex_le_common_prefix(a@, b@, i as int);
                assert(a@.skip(i as int)[0] == ca);
                assert(b@.skip(i as int)[0] == cb);
            }
            return false;
        }
        proof {
            assert(ca as int == cb as int);
            assert(ca == cb);
        }
        i = i + 1;
    }
    proof {
        lemma_lex_le_common_prefix(a@, b@, i as int);
        if i == alen {
            assert(a@.skip(i as int).len() == 0);
        } else {
            assert(b@.skip(i as int).len() == 0);
            assert(a@.skip(i as int).len() > 0);
        }
    }
    alen <= blen
}

/// Sort names into lexicographic order. The result is ordered and
/// holds exactly the given names.
pub fn sort_names(v: Vec<String>) -> (r: Vec<String>)
    ensures
        sorted_by(r@, |a: String, b: String| name_le(a, b)),
        r@.to_multiset() == v@.to_multiset(),
        r@.len() == v@.len(),
{
    let ghost leq = |a: String, b: String| name_le(a, b);
    let ghost all = v@;
    let mut src = v;
    let mut out: Vec<String> = Vec::new();
    proof {
        broadcast use group_to_multiset_ensures;

        assert(out@.to_multiset().add(src@.to_multiset()) =~= all.to_multiset());
    }
    while src.len() > 0
        invariant
            out@.to_multiset().add(src@.to_multiset()) == all.to_multiset(),
            out@.len() + src@.len() == all.len(),
            sorted_by(out@, leq),
            leq == (|a: String, b: String| name_le(a, b)),
            forall|i: int, j: int|
                0 <= i < out@.len() && 0 <= j < src@.len() ==> #[trigger] lex_le(
                    out@[i]@,
                    src@[j]@,
                ),
        decreases src@.len(),
    {
        let mut m: usize = 0;
        let mut k: usize = 1;
        proof {
            lemma_lex_le_total(src@[0]@, src@[0]@);
        }
        while k < src.len()
            invariant
                0 <= m < k <= src@.len(),
                src@.len() > 0,
                forall|j: int| 0 <= j < k ==> lex_le(src@[m as int]@, #[trigger] src@[j]@),
            decreases src@.len() - k,
        {
            if !names_le(src[m].as_str(), src[k].as_str()) {
                proof {
                    lemma_lex_le_total(src@[m as int]@, src@[k as int]@);
                    assert forall|j: int| 0 <= j < k + 1 implies lex_le(
                        src@[k as int]@,
                        #[trigger] src@[j]@,
                    ) by {
                        if j < k {
                            lemma_lex_le_trans(src@[k as int]@, src@[m as int]@, src@[j]@);
                        } else {
                            lemma_lex_le_total(src@[k as int]@, src@[k as int]@);
                        }
                    }
                }
                m = k;
            }
            k = k + 1;
        }
        let ghost old_out = out@;
        let ghost old_src = src@;
        let x = src.remove(m);
        out.push(x);
        proof {
            broadcast use group_to_multiset_ensures;

            assert(old_src.contains(old_src[m as int]));
            assert(out@.to_multiset() =~= old_out.to_multiset().insert(x));
            assert(src@.to_multiset() =~= old_src.to_multiset().remove(x));
            assert(old_src.to_multiset().count(x) > 0);
            assert(out@.to_multiset().add(src@.to_multiset()) =~= all.to_multiset());
            assert forall|i: int, j: int|
                0 <= i < out@.len() && 0 <= j < src@.len() implies #[trigger] lex_le(
                out@[i]@,
                src@[j]@,
            ) by {
                let y = src@[j];
                assert(y == old_src[if j < m { j } else { j + 1 }]);
                if i < out@.len() - 1 {
                    assert(lex_le(old_out[i]@, y@));
                } else {
                    assert(out@[i] == x);
                    assert(lex_le(old_src[m as int]@, y@));
                }
            }
            assert(sorted_by(out@, leq)) by {
                assert(forall|i: int, j: int|
                    0 <= i < j < out@.len() - 1 ==> #[trigger] leq(out@[i], out@[j]));
                assert(forall|i: int|
                    0 <= i < out@.len() - 1 ==> lex_le(#[trigger] old_out[i]@, old_src[m as int]@));
            }
        }
    }
    out
}

} // verus!
