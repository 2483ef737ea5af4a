//! The version tracker: scans existing version tags of a branch and
//! derives the next version number.
//!
//! The scan is tolerant: a tag whose suffix does not parse as a number
//! is ignored, never an error, since tags outside the convention may
//! coexist in the store.
use vstd::prelude::*;

use crate::decimal::{lemma_dec_digits_value, lemma_parse_of_dec_digits, parse_dec, parse_decimal};
use crate::names::spec_tag_name;

verus! {

/// The version a tag of branch `b` records: `Some(v)` exactly when the
/// tag is `{b}-v{suffix}` with a suffix that parses to `v`.
pub open spec fn tag_version_value(tag: Seq<char>, b: Seq<char>) -> Option<u32> {
    if tag.len() >= b.len() + 2 && tag.take(b.len() as int + 2) == b + seq!['-', 'v'] {
        parse_decimal(tag.skip(b.len() as int + 2))
    } else {
        None
    }
}

/// The largest version any of `tags` records for branch `b`; zero when
/// none parses.
pub open spec fn spec_max_version(tags: Seq<Seq<char>>, b: Seq<char>) -> nat
    decreases tags.len(),
{
    if tags.len() == 0 {
        0
    } else {
        let rest = spec_max_version(tags.drop_last(), b);
        match tag_version_value(tags.last(), b) {
            Some(v) => if v as nat > rest {
                v as nat
            } else {
                rest
            },
            None => rest,
        }
    }
}

/// The next version of branch `b`: one more than the largest recorded
/// version, so `1` when no tag parses.
pub open spec fn spec_next_version(tags: Seq<Seq<char>>, b: Seq<char>) -> nat {
    1 + spec_max_version(tags, b)
}

/// Read the version a tag records for `branch`.
pub fn parse_tag_version(tag: &str, branch: &str) -> (r: Option<u32>)
    ensures
        r == tag_version_value(tag@, branch@),
{
    let tlen = tag.unicode_len();
    let blen = branch.unicode_len();
    if tlen < blen || tlen - blen < 2 {
        return None;
    }
    let mut i: usize = 0;
    while i < blen
        invariant
            blen == branch@.len(),
            tlen == tag@.len(),
            tlen >= blen + 2,
            0 <= i <= blen,
            forall|j: int| 0 <= j < i ==> tag@[j] == branch@[j],
        decreases blen - i,
    {
        if tag.get_char(i) != branch.get_char(i) {
            proof {
                assert(tag@.take(branch@.len() as int + 2)[i as int] != branch@[i as int]);
                assert((branch@ + seq!['-', 'v'])[i as int] == branch@[i as int]);
            }
            return None;
        }
        i = i + 1;
    }
    if tag.get_char(blen) != '-' {
        proof {
            assert(tag@.take(branch@.len() as int + 2)[blen as int] != '-');
            assert((branch@ + seq!['-', 'v'])[blen as int] == '-');
        }
        return None;
    }
    if tag.get_char(blen + 1) != 'v' {
        proof {
            assert(tag@.take(branch@.len() as int + 2)[blen + 1] != 'v');
            assert((branch@ + seq!['-', 'v'])[blen + 1] == 'v');
        }
        return None;
    }
    proof {
        assert(tag@.take(branch@.len() as int + 2) =~= branch@ + seq!['-', 'v']);
    }
    let suffix = tag.substring_char(blen + 2, tlen);
    proof {
        assert(suffix@ =~= tag@.skip(branch@.len() as int + 2));
    }
    parse_dec(suffix)
}

/// Compute the next version from the tag names the store handed back.
///
/// Returns exactly one more than the largest version any of the tags
/// records for `branch`, so `1` when no tag parses; saturates only
/// where the next version would not fit the version type.
pub fn next_version_from_tags(tags: &Vec<String>, branch: &str) -> (v: u32)
    ensures
        spec_next_version(tags.deep_view(), branch@) <= u32::MAX ==> v as nat
            == spec_next_version(tags.deep_view(), branch@),
        spec_next_version(tags.deep_view(), branch@) > u32::MAX ==> v == u32::MAX,
{
    let ghost dv = tags.deep_view();
    let mut best: u32 = 0;
    let mut i: usize = 0;
    while i < tags.len()
        invariant
            dv == tags.deep_view(),
            dv.len() == tags@.len(),
            forall|j: int| 0 <= j < dv.len() ==> dv[j] == tags@[j]@,
            0 <= i <= tags@.len(),
            best as nat == spec_max_version(dv.take(i as int), branch@),
        decreases tags@.len() - i,
    {
        let r = parse_tag_version(tags[i].as_str(), branch);
        proof {
            assert(dv.take(i + 1).drop_last() =~= dv.take(i as int));
            assert(dv.take(i + 1).last() == tags@[i as int]@);
        }
        match r {
            Some(x) => {
                if x > best {
                    best = x;
                }
            },
            None => {},
        }
        i = i + 1;
    }
    proof {
        assert(dv.take(tags@.len() as int) =~= dv);
    }
    if best == u32::MAX {
        u32::MAX
    } else {
        best + 1
    }
}

/// Every recorded version is at most the maximum, and a non-zero
/// maximum is itself recorded by one of the tags.
pub proof fn lemma_max_version_is_max(tags: Seq<Seq<char>>, b: Seq<char>)
    ensures
        forall|i: int| 0 <= i < tags.len() ==> match #[trigger] tag_version_value(tags[i], b) {
            Some(v) => v as nat <= spec_max_version(tags, b),
            None => true,
        },
        spec_max_version(tags, b) == 0 || exists|i: int|
            0 <= i < tags.len() && #[trigger] tag_version_value(tags[i], b) == Some(
                spec_max_version(tags, b) as u32,
            ),
    decreases tags.len(),
{
    if tags.len() > 0 {
        lemma_max_version_is_max(tags.drop_last(), b);
        assert(forall|i: int| 0 <= i < tags.len() - 1 ==> tags.drop_last()[i] == tags[i]);
        let m = spec_max_version(tags, b);
        let rest = spec_max_version(tags.drop_last(), b);
        if m != 0 {
            if rest != 0 || tag_version_value(tags.last(), b) is Some {
                if m == rest {
                    let i = choose|i: int|
                        0 <= i < tags.drop_last().len() && #[trigger] tag_version_value(
                            tags.drop_last()[i],
                            b,
                        ) == Some(rest as u32);
                    assert(tag_version_value(tags[i], b) == Some(m as u32));
                } else {
                    assert(tag_version_value(tags[tags.len() - 1], b) == Some(m as u32));
                }
            }
        }
    }
}

/// A scan over tags none of which records a version for `b` yields the
/// first version.
pub proof fn lemma_next_version_when_none_match(tags: Seq<Seq<char>>, b: Seq<char>)
    requires
        forall|i: int| 0 <= i < tags.len() ==> #[trigger] tag_version_value(tags[i], b) is None,
    ensures
        spec_next_version(tags, b) == 1,
    decreases tags.len(),
{
    if tags.len() > 0 {
        assert(forall|i: int| 0 <= i < tags.len() - 1 ==> tags.drop_last()[i] == tags[i]);
        lemma_next_version_when_none_match(tags.drop_last(), b);
        assert(tag_version_value(tags[tags.len() - 1], b) is None);
    }
}

/// The freshly produced tag records the version it names.
pub proof fn lemma_tag_name_records_version(b: Seq<char>, v: nat)
    requires
        v <= u32::MAX,
    ensures
        tag_version_value(spec_tag_name(b, v), b) == Some(v as u32),
{
    let t = spec_tag_name(b, v);
    lemma_dec_digits_value(v);
    assert(t.len() >= b.len() + 3);
    assert(t.take(b.len() as int + 2) =~= b + seq!['-', 'v']);
    assert(t.skip(b.len() as int + 2) =~= crate::decimal::dec_digits(v));
    lemma_parse_of_dec_digits(v);
}

/// Recording the next version and scanning again yields a version
/// larger by exactly one.
pub proof fn lemma_tag_then_next_version(tags: Seq<Seq<char>>, b: Seq<char>)
    requires
        spec_next_version(tags, b) <= u32::MAX,
    ensures
        spec_next_version(tags.push(spec_tag_name(b, spec_next_version(tags, b))), b)
            == spec_next_version(tags, b) + 1,
{
    let v = spec_next_version(tags, b);
    let t = spec_tag_name(b, v);
    lemma_tag_name_records_version(b, v);
    let grown = tags.push(t);
    assert(grown.drop_last() =~= tags);
    assert(grown.last() == t);
    assert(spec_max_version(grown, b) == v);
}

} // verus!
