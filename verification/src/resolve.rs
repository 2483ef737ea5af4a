//! The series boundary resolver: the series is the longest prefix of
//! the history walk that has not yet reached the tip of any other
//! branch, and the walk stops at the first commit that is such a tip.
use vstd::prelude::*;

verus! {

/// The commits the walk yields before it first reaches one of `tips`,
/// in walk order (most recent first).
pub open spec fn series_prefix<A>(walk: Seq<A>, tips: Set<A>) -> Seq<A>
    decreases walk.len(),
{
    if walk.len() == 0 {
        Seq::empty()
    } else if tips.contains(walk[0]) {
        Seq::empty()
    } else {
        seq![walk[0]] + series_prefix(walk.drop_first(), tips)
    }
}

/// The prefix before the first excluded commit is the series: commits
/// up to an index below which none is excluded, and at which the walk
/// either ends or is excluded.
pub proof fn lemma_series_prefix_take<A>(walk: Seq<A>, tips: Set<A>, k: int)
    requires
        0 <= k <= walk.len(),
        forall|i: int| 0 <= i < k ==> !tips.contains(#[trigger] walk[i]),
        k < walk.len() ==> tips.contains(walk[k]),
    ensures
        series_prefix(walk, tips) == walk.take(k),
    decreases walk.len(),
{
    if walk.len() == 0 {
        assert(series_prefix(walk, tips) =~= walk.take(k));
    } else if k == 0 {
        assert(series_prefix(walk, tips) =~= walk.take(0));
    } else {
        assert(!tips.contains(walk[0]));
        let rest = walk.drop_first();
        assert(forall|i: int| 0 <= i < k - 1 ==> rest[i] == walk[i + 1]);
        lemma_series_prefix_take(rest, tips, k - 1);
        assert(series_prefix(walk, tips) =~= walk.take(k)) by {
            assert(series_prefix(walk, tips) == seq![walk[0]] + rest.take(k - 1));
        }
    }
}

/// No commit of the series is excluded, and the series is a prefix of
/// the walk.
pub proof fn lemma_series_prefix_sound<A>(walk: Seq<A>, tips: Set<A>)
    ensures
        series_prefix(walk, tips).len() <= walk.len(),
        series_prefix(walk, tips) == walk.take(series_prefix(walk, tips).len() as int),
        forall|i: int|
            0 <= i < series_prefix(walk, tips).len() ==> !tips.contains(#[trigger] walk[i]),
        series_prefix(walk, tips).len() < walk.len() ==> tips.contains(
            walk[series_prefix(walk, tips).len() as int],
        ),
    decreases walk.len(),
{
    if walk.len() == 0 || tips.contains(walk[0]) {
    } else {
        let rest = walk.drop_first();
        lemma_series_prefix_sound(rest, tips);
        let s = series_prefix(walk, tips);
        assert(s == seq![walk[0]] + series_prefix(rest, tips));
        assert(forall|i: int| 0 <= i < rest.len() ==> #[trigger] rest[i] == walk[i + 1]);
        assert(s =~= walk.take(s.len() as int));
        assert forall|i: int| 0 <= i < s.len() implies !tips.contains(#[trigger] walk[i]) by {
            if i > 0 {
                assert(!tips.contains(rest[i - 1]));
                assert(walk[i] == rest[i - 1]);
            }
        }
    }
}

/// With one foreign branch tip reachable at distance `k` from the
/// head, and the commits this side of it distinct from it and its
/// ancestors, resolution yields exactly the `k` commits before it,
/// none of which equals the tip or any commit beyond it in the walk.
pub proof fn lemma_series_at_distance<A>(walk: Seq<A>, k: int)
    requires
        0 <= k < walk.len(),
        forall|i: int, j: int| 0 <= i < k <= j < walk.len() ==> walk[i] != walk[j],
    ensures
        series_prefix(walk, set![walk[k]]) == walk.take(k),
        series_prefix(walk, set![walk[k]]).len() == k,
        forall|i: int, j: int|
            0 <= i < k <= j < walk.len() ==> series_prefix(walk, set![walk[k]])[i] != walk[j],
{
    let tips = set![walk[k]];
    assert(forall|i: int| 0 <= i < k ==> !tips.contains(#[trigger] walk[i]));
    lemma_series_prefix_take(walk, tips, k);
}

/// Whether `ids` holds `x`.
pub fn contains_id(ids: &Vec<u64>, x: u64) -> (b: bool)
    ensures
        b == ids@.contains(x),
{
    let mut i: usize = 0;
    while i < ids.len()
        invariant
            0 <= i <= ids@.len(),
            forall|j: int| 0 <= j < i ==> ids@[j] != x,
        decreases ids@.len() - i,
    {
        if ids[i] == x {
            return true;
        }
        i = i + 1;
    }
    false
}

/// Resolve the series: walk the history most recent first and keep
/// appending until the walk reaches the tip of another branch.
pub fn resolve_series(walk: &Vec<u64>, tips: &Vec<u64>) -> (r: Vec<u64>)
    ensures
        r@ == series_prefix(walk@, tips@.to_set()),
{
    let ghost tip_set = tips@.to_set();
    let mut r: Vec<u64> = Vec::new();
    let mut i: usize = 0;
    while i < walk.len()
        invariant
            0 <= i <= walk@.len(),
            r@ =~= walk@.take(i as int),
            forall|j: int| 0 <= j < i ==> !tip_set.contains(#[trigger] walk@[j]),
            tip_set == tips@.to_set(),
        decreases walk@.len() - i,
    {
        let c = walk[i];
        if contains_id(tips, c) {
            proof {
                lemma_series_prefix_take(walk@, tip_set, i as int);
            }
            return r;
        }
        r.push(c);
        proof {
            assert(r@ =~= walk@.take(i + 1));
        }
        i = i + 1;
    }
    proof {
        lemma_series_prefix_take(walk@, tip_set, walk@.len() as int);
        assert(r@ =~= walk@.take(walk@.len() as int));
    }
    r
}

} // verus!
