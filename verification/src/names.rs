//! The names one submission works with: the version tag, the tag scan
//! pattern, the artifact output directory, and the revision
//! expressions handed to the external patch tools.
use vstd::prelude::*;

use crate::decimal::{dec_digits, push_dec};
use crate::text::push_char;

verus! {

/// A branch name made safe for a directory name: every path separator
/// becomes an underscore.
pub open spec fn spec_sanitize(s: Seq<char>) -> Seq<char> {
    Seq::new(s.len(), |i: int| if s[i] == '/' { '_' } else { s[i] })
}

/// The version tag of `version` of branch `b`: `{b}-v{version}`.
pub open spec fn spec_tag_name(b: Seq<char>, version: nat) -> Seq<char> {
    b + seq!['-', 'v'] + dec_digits(version)
}

/// The glob that collects the version tags of branch `b`: `{b}-v*`.
pub open spec fn spec_tag_pattern(b: Seq<char>) -> Seq<char> {
    b + seq!['-', 'v', '*']
}

/// The artifact directory of branch `b`: `output-{b}`, sanitized.
pub open spec fn spec_output_dir(b: Seq<char>) -> Seq<char> {
    seq!['o', 'u', 't', 'p', 'u', 't', '-'] + spec_sanitize(b)
}

/// The expression for the range from `oldest`'s parent up to `newest`.
pub open spec fn spec_range_expr(oldest: Seq<char>, newest: Seq<char>) -> Seq<char> {
    oldest + seq!['~', '.', '.'] + newest
}

/// The expression for the parent of `oldest`: the reset target of the
/// rebuild.
pub open spec fn spec_parent_expr(oldest: Seq<char>) -> Seq<char> {
    oldest + seq!['~']
}

/// The flag that passes the version to the patch generator: `-v{n}`.
pub open spec fn spec_version_flag(version: nat) -> Seq<char> {
    seq!['-', 'v'] + dec_digits(version)
}

pub fn sanitize(branch: &str) -> (r: String)
    ensures
        r@ == spec_sanitize(branch@),
{
    let len = branch.unicode_len();
    let mut out = String::new();
    let mut i: usize = 0;
    while i < len
        invariant
            len == branch@.len(),
            0 <= i <= len,
            out@ =~= spec_sanitize(branch@).take(i as int),
        decreases len - i,
    {
        let c = branch.get_char(i);
        if c == '/' {
            push_char(&mut out, '_');
        } else {
            push_char(&mut out, c);
        }
        proof {
            assert(out@ =~= spec_sanitize(branch@).take(i + 1));
        }
        i = i + 1;
    }
    proof {
        assert(out@ =~= spec_sanitize(branch@));
    }
    out
}

pub fn tag_name(branch: &str, version: u32) -> (r: String)
    ensures
        r@ == spec_tag_name(branch@, version as nat),
{
    let mut s = branch.to_owned();
    s.append("-v");
    push_dec(&mut s, version);
    proof {
        reveal_strlit("-v");
        assert(("-v")@ =~= seq!['-', 'v']);
        assert(s@ =~= spec_tag_name(branch@, version as nat));
    }
    s
}

pub fn tag_pattern(branch: &str) -> (r: String)
    ensures
        r@ == spec_tag_pattern(branch@),
{
    let mut s = branch.to_owned();
    s.append("-v*");
    proof {
        reveal_strlit("-v*");
        assert(("-v*")@ =~= seq!['-', 'v', '*']);
        assert(s@ =~= spec_tag_pattern(branch@));
    }
    s
}

pub fn output_dir(branch: &str) -> (r: String)
    ensures
        r@ == spec_output_dir(branch@),
{
    let mut s = "output-".to_owned();
    let tail = sanitize(branch);
    s.append(tail.as_str());
    proof {
        reveal_strlit("output-");
        assert(("output-")@ =~= seq!['o', 'u', 't', 'p', 'u', 't', '-']);
        assert(s@ =~= spec_output_dir(branch@));
    }
    s
}

pub fn range_expr(oldest: &str, newest: &str) -> (r: String)
    ensures
        r@ == spec_range_expr(oldest@, newest@),
{
    let mut s = oldest.to_owned();
    s.append("~..");
    s.append(newest);
    proof {
        reveal_strlit("~..");
        assert(("~..")@ =~= seq!['~', '.', '.']);
        assert(s@ =~= spec_range_expr(oldest@, newest@));
    }
    s
}

pub fn parent_expr(oldest: &str) -> (r: String)
    ensures
        r@ == spec_parent_expr(oldest@),
{
    let mut s = oldest.to_owned();
    push_char(&mut s, '~');
    proof {
        assert(s@ =~= spec_parent_expr(oldest@));
    }
    s
}

pub fn version_flag(version: u32) -> (r: String)
    ensures
        r@ == spec_version_flag(version as nat),
{
    let mut s = "-v".to_owned();
    push_dec(&mut s, version);
    proof {
        reveal_strlit("-v");
        assert(("-v")@ =~= seq!['-', 'v']);
        assert(s@ =~= spec_version_flag(version as nat));
    }
    s
}

} // verus!
