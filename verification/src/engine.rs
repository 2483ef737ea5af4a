//! The rebuild/rollback engine over the model of one repository.
//!
//! The model keeps exactly what the engine's decisions depend on: the
//! current branch's history (newest first), the tips of the other
//! branches, the tag names in the store, the artifact directory and
//! the working-tree cleanliness. The outcomes of the external tools
//! (patch generation, editing, reapplication, transmission) enter as
//! values, and the engine is verified for every value of them.
use vstd::prelude::*;

use crate::artifacts::{
    is_summary, lemma_artifact_name_le, spec_artifact_name, spec_is_summary_name,
};
use crate::error::SubmitError;

verus! {

/// One on-disk patch artifact: its file name, and the commit its text
/// would reconstruct when applied.
pub struct Artifact {
    pub name: String,
    pub payload: u64,
}

/// The model of the repository and the working directory.
pub struct World {
    /// The name of the current branch.
    pub branch: String,
    /// The commit ids of the current line of history, newest first.
    pub history: Vec<u64>,
    /// The tip commits of every other branch.
    pub foreign_tips: Vec<u64>,
    /// The tag names in the store.
    pub tags: Vec<String>,
    /// The artifact directory; empty between invocations.
    pub patches: Vec<Artifact>,
    /// Whether the working tree has no pending changes.
    pub clean: bool,
}

/// A sequence of commit ids, oldest swapped with newest.
pub open spec fn rev_ids(s: Seq<u64>) -> Seq<u64>
    decreases s.len(),
{
    if s.len() == 0 {
        Seq::empty()
    } else {
        seq![s.last()] + rev_ids(s.drop_last())
    }
}

/// Reversal, element by element.
pub proof fn lemma_rev_ids(s: Seq<u64>)
    ensures
        rev_ids(s).len() == s.len(),
        forall|i: int| 0 <= i < s.len() ==> #[trigger] rev_ids(s)[i] == s[s.len() - 1 - i],
    decreases s.len(),
{
    if s.len() > 0 {
        lemma_rev_ids(s.drop_last());
        assert forall|i: int| 0 <= i < s.len() implies #[trigger] rev_ids(s)[i] == s[s.len() - 1
            - i] by {
            if i > 0 {
                assert(rev_ids(s)[i] == rev_ids(s.drop_last())[i - 1]);
                assert(rev_ids(s.drop_last())[i - 1] == s.drop_last()[s.len() - 1 - i]);
                assert(s.drop_last()[s.len() - 1 - i] == s[s.len() - 1 - i]);
            }
        }
    }
}

/// The payloads the rebuild would apply out of the first `upto`
/// artifacts: everything but the summary, in stored order.
pub open spec fn spec_applied_payloads(arts: Seq<Artifact>, upto: int) -> Seq<u64>
    decreases upto,
{
    if upto <= 0 {
        Seq::empty()
    } else {
        let rest = spec_applied_payloads(arts, upto - 1);
        if spec_is_summary_name(arts[upto - 1].name@) {
            rest
        } else {
            rest.push(arts[upto - 1].payload)
        }
    }
}

/// Whether every reapplication the rebuild attempts succeeds.
pub open spec fn spec_all_applied_ok(arts: Seq<Artifact>, ok: Seq<bool>) -> bool {
    forall|i: int|
        0 <= i < arts.len() && !spec_is_summary_name(#[trigger] arts[i].name@) ==> ok[i]
}

/// How many artifacts a series of `n` commits materializes: one per
/// commit, plus the summary artifact from three commits on.
pub open spec fn spec_artifact_count(n: int) -> int {
    if n >= 3 {
        n + 1
    } else {
        n
    }
}

/// The position of the first numbered artifact: behind the summary
/// artifact where there is one.
pub open spec fn spec_numbered_base(n: int) -> int {
    if n >= 3 {
        1
    } else {
        0
    }
}

/// Materialize the series: one numbered artifact per commit, oldest
/// commit first, and a summary artifact ahead of them from three
/// commits on. Artifact `k` (numbered from one, oldest commit first)
/// reconstructs commit `revs[n - k]`, and the names stand already in
/// lexicographic order.
pub fn materialize(revs: &Vec<u64>, version: u32) -> (arts: Vec<Artifact>)
    requires
        1 <= revs@.len() <= 9999,
        version >= 1,
    ensures
        arts@.len() == spec_artifact_count(revs@.len() as int),
        forall|k: int|
            1 <= k <= revs@.len() ==> #[trigger] arts@[spec_numbered_base(revs@.len() as int) + k
                - 1].name@ == spec_artifact_name(k, version as nat),
        forall|k: int|
            1 <= k <= revs@.len() ==> #[trigger] arts@[spec_numbered_base(revs@.len() as int) + k
                - 1].payload == revs@[revs@.len() - k],
        revs@.len() >= 3 ==> arts@[0].name@ == spec_artifact_name(0, version as nat),
        forall|i: int, j: int|
            0 <= i < j < arts@.len() ==> crate::order::lex_le(
                #[trigger] arts@[i].name@,
                #[trigger] arts@[j].name@,
            ),
{
    let n = revs.len();
    let ghost base = spec_numbered_base(n as int);
    let mut arts: Vec<Artifact> = Vec::new();
    if n >= 3 {
        arts.push(
            Artifact { name: crate::artifacts::artifact_name(0, version), payload: 0 },
        );
    }
    let mut k: usize = 1;
    while k <= n
        invariant
            1 <= k <= n + 1,
            n == revs@.len(),
            1 <= n <= 9999,
            version >= 1,
            base == spec_numbered_base(n as int),
            arts@.len() == base + k - 1,
            n >= 3 ==> arts@[0].name@ == spec_artifact_name(0, version as nat),
            forall|m: int|
                1 <= m < k ==> #[trigger] arts@[base + m - 1].name@ == spec_artifact_name(
                    m,
                    version as nat,
                ),
            forall|m: int|
                1 <= m < k ==> #[trigger] arts@[base + m - 1].payload == revs@[n - m],
        decreases n + 1 - k,
    {
        arts.push(
            Artifact {
                name: crate::artifacts::artifact_name(k as u32, version),
                payload: revs[n - k],
            },
        );
        k = k + 1;
    }
    proof {
        assert forall|i: int, j: int| 0 <= i < j < arts@.len() implies crate::order::lex_le(
            #[trigger] arts@[i].name@,
            #[trigger] arts@[j].name@,
        ) by {
            assert(arts@.len() == base + n);
            let ki = i - base + 1;
            let kj = j - base + 1;
            assert(arts@[base + kj - 1].name@ == spec_artifact_name(kj, version as nat));
            if i == 0 && base == 1 {
                lemma_artifact_name_le(0, kj, version as nat);
            } else {
                assert(arts@[base + ki - 1].name@ == spec_artifact_name(ki, version as nat));
                lemma_artifact_name_le(ki, kj, version as nat);
            }
        }
    }
    arts
}

/// Run the edit session: with no editor configured the session fails
/// and the artifacts are removed; otherwise every artifact is handed
/// to the editor in stored (lexicographic) order, and its text
/// afterwards reconstructs whatever the edit left behind.
pub fn edit_all(w: &mut World, editor: &Option<String>, edited: &Vec<u64>) -> (r: Result<
    (),
    SubmitError,
>)
    requires
        edited@.len() >= old(w).patches@.len(),
    ensures
        final(w).branch == old(w).branch,
        final(w).history == old(w).history,
        final(w).foreign_tips == old(w).foreign_tips,
        final(w).tags == old(w).tags,
        final(w).clean == old(w).clean,
        editor is None ==> r == Err::<(), SubmitError>(SubmitError::EditorUnset)
            && final(w).patches@.len() == 0,
        editor is Some ==> r == Ok::<(), SubmitError>(())
            && final(w).patches@.len() == old(w).patches@.len(),
        editor is Some ==> (forall|i: int|
            0 <= i < old(w).patches@.len() ==> #[trigger] final(w).patches@[i].name
                == old(w).patches@[i].name && final(w).patches@[i].payload == edited@[i]),
{
    if editor.is_none() {
        w.patches = Vec::new();
        return Err(SubmitError::EditorUnset);
    }
    let mut out: Vec<Artifact> = Vec::new();
    let mut i: usize = 0;
    while i < w.patches.len()
        invariant
            0 <= i <= w.patches@.len(),
            edited@.len() >= w.patches@.len(),
            out@.len() == i,
            forall|j: int|
                0 <= j < i ==> #[trigger] out@[j].name == w.patches@[j].name && out@[j].payload
                    == edited@[j],
        decreases w.patches@.len() - i,
    {
        out.push(Artifact { name: w.patches[i].name.clone(), payload: edited[i] });
        i = i + 1;
    }
    w.patches = out;
    Ok(())
}

/// Copy a list of commit ids.
fn copy_ids(v: &Vec<u64>) -> (r: Vec<u64>)
    ensures
        r@ == v@,
{
    let mut r: Vec<u64> = Vec::new();
    let mut i: usize = 0;
    while i < v.len()
        invariant
            0 <= i <= v@.len(),
            r@ =~= v@.take(i as int),
        decreases v@.len() - i,
    {
        r.push(v[i]);
        proof {
            assert(r@ =~= v@.take(i + 1));
        }
        i = i + 1;
    }
    proof {
        assert(r@ =~= v@);
    }
    r
}

/// Rebuild the series from the artifacts, or roll everything back.
///
/// The working history is first reset to the commit below the oldest
/// commit of the series; the artifacts are then reapplied in stored
/// order, the summary artifact skipped. The first failed reapplication
/// rolls the history back to the head captured before the reset and
/// deletes the artifacts. A series that covers the whole history has
/// no commit to reset to and fails the same way, before any mutation.
pub fn rebuild(w: &mut World, revs: &Vec<u64>, apply_ok: &Vec<bool>) -> (r: Result<
    (),
    SubmitError,
>)
    requires
        revs@.len() >= 1,
        revs@ == old(w).history@.take(revs@.len() as int),
        apply_ok@.len() >= old(w).patches@.len(),
    ensures
        final(w).branch == old(w).branch,
        final(w).foreign_tips == old(w).foreign_tips,
        final(w).tags == old(w).tags,
        final(w).clean == old(w).clean,
        revs@.len() >= old(w).history@.len() ==> r == Err::<(), SubmitError>(SubmitError::NoParent)
            && final(w).history@ == old(w).history@ && final(w).patches@.len() == 0,
        revs@.len() < old(w).history@.len() && spec_all_applied_ok(old(w).patches@, apply_ok@)
            ==> r == Ok::<(), SubmitError>(()) && final(w).history@ == rev_ids(
            spec_applied_payloads(old(w).patches@, old(w).patches@.len() as int),
        ) + old(w).history@.skip(revs@.len() as int) && final(w).patches == old(w).patches,
        revs@.len() < old(w).history@.len() && !spec_all_applied_ok(old(w).patches@, apply_ok@)
            ==> r == Err::<(), SubmitError>(SubmitError::ApplyFailed)
            && final(w).history@ == old(w).history@ && final(w).patches@.len() == 0,
{
    let n = revs.len();
    if n >= w.history.len() {
        w.patches = Vec::new();
        return Err(SubmitError::NoParent);
    }
    let saved = copy_ids(&w.history);
    // Reset: discard every commit the series is about to regenerate.
    let mut hist: Vec<u64> = Vec::new();
    let mut i: usize = n;
    while i < saved.len()
        invariant
            n <= i <= saved@.len(),
            hist@ =~= saved@.subrange(n as int, i as int),
        decreases saved@.len() - i,
    {
        hist.push(saved[i]);
        proof {
            assert(hist@ =~= saved@.subrange(n as int, i + 1));
        }
        i = i + 1;
    }
    proof {
        assert(hist@ =~= saved@.skip(n as int));
    }
    w.history = hist;
    // Reapply, oldest first, in stored order.
    let mut k: usize = 0;
    while k < w.patches.len()
        invariant
            0 <= k <= w.patches@.len(),
            apply_ok@.len() >= w.patches@.len(),
            w.patches == old(w).patches,
            w.branch == old(w).branch,
            w.foreign_tips == old(w).foreign_tips,
            w.tags == old(w).tags,
            w.clean == old(w).clean,
            saved@ == old(w).history@,
            n == revs@.len(),
            n < saved@.len(),
            w.history@ == rev_ids(spec_applied_payloads(w.patches@, k as int)) + saved@.skip(
                n as int,
            ),
            forall|j: int|
                0 <= j < k && !spec_is_summary_name(#[trigger] w.patches@[j].name@) ==> apply_ok@[j],
        decreases w.patches@.len() - k,
    {
        let summary = is_summary(w.patches[k].name.as_str());
        if !summary {
            if !apply_ok[k] {
                // Roll back: restore the original head, delete the set.
                w.history = saved;
                w.patches = Vec::new();
                return Err(SubmitError::ApplyFailed);
            }
            let pay = w.patches[k].payload;
            w.history.insert(0, pay);
            proof {
                let applied = spec_applied_payloads(w.patches@, k as int);
                assert(spec_applied_payloads(w.patches@, k + 1) == applied.push(pay));
                assert(rev_ids(applied.push(pay)) == seq![pay] + rev_ids(
                    applied.push(pay).drop_last(),
                ));
                assert(applied.push(pay).drop_last() =~= applied);
                assert(applied.push(pay).last() == pay);
                assert(w.history@ =~= rev_ids(spec_applied_payloads(w.patches@, k + 1))
                    + saved@.skip(n as int));
            }
        } else {
            proof {
                assert(spec_applied_payloads(w.patches@, k + 1) == spec_applied_payloads(
                    w.patches@,
                    k as int,
                ));
            }
        }
        k = k + 1;
    }
    Ok(())
}

/// What one invocation was asked to do: the recipients given on the
/// command line, the thread to reply to, and the configured editor.
pub struct Request {
    pub to: Vec<String>,
    pub cc: Vec<String>,
    pub in_reply_to: Option<String>,
    pub editor: Option<String>,
}

/// What the external tools did: whether patch generation succeeded,
/// the commit each artifact reconstructs after the edit session, the
/// outcome of each reapplication, and whether tagging and transmission
/// succeeded.
pub struct Outcomes {
    pub generation_ok: bool,
    pub edited: Vec<u64>,
    pub apply_ok: Vec<bool>,
    pub tag_ok: bool,
    pub send_ok: bool,
}

/// The series the resolver yields for this repository.
pub open spec fn spec_resolved(w: World) -> Seq<u64> {
    crate::resolve::series_prefix(w.history@, w.foreign_tips@.to_set())
}

/// The version this invocation submits under.
pub open spec fn spec_version_of(w: World) -> nat {
    crate::version::spec_next_version(w.tags.deep_view(), w.branch@)
}

/// Whether every numbered artifact's reapplication succeeds.
pub open spec fn spec_apply_ok_all(n: int, base: int, ok: Seq<bool>) -> bool {
    forall|t: int| 0 <= t < n ==> #[trigger] ok[base + t]
}

/// The result of one invocation, decided stage by stage: the first
/// failing stage names the error.
pub open spec fn spec_submit_outcome(w: World, req: Request, ext: Outcomes) -> Result<
    u32,
    SubmitError,
> {
    let n = spec_resolved(w).len() as int;
    let vnum = spec_version_of(w);
    let base = spec_numbered_base(n);
    if !w.clean {
        Err(SubmitError::DirtyWorkTree)
    } else if n == 0 {
        Err(SubmitError::NothingToSubmit)
    } else if vnum > 1 && req.in_reply_to is None {
        Err(SubmitError::MissingReplyReference)
    } else if !ext.generation_ok {
        Err(SubmitError::GenerationFailed)
    } else if req.editor is None {
        Err(SubmitError::EditorUnset)
    } else if n >= w.history@.len() {
        Err(SubmitError::NoParent)
    } else if !spec_apply_ok_all(n, base, ext.apply_ok@) {
        Err(SubmitError::ApplyFailed)
    } else if !ext.tag_ok {
        Err(SubmitError::TagFailed)
    } else if req.to@.len() == 0 && req.cc@.len() == 0 {
        Err(SubmitError::NoAddresses)
    } else if !ext.send_ok {
        Err(SubmitError::SendFailed)
    } else {
        Ok(vnum as u32)
    }
}

/// Whether an outcome leaves the rebuilt series in place: from the
/// tagging stage on, history is no longer rolled back, only the tag
/// and the artifacts are compensated.
pub open spec fn spec_history_rebuilt(r: Result<u32, SubmitError>) -> bool {
    match r {
        Ok(_) => true,
        Err(e) => e == SubmitError::TagFailed || e == SubmitError::NoAddresses || e
            == SubmitError::SendFailed,
    }
}

/// The history after a successful rebuild: the commits the edited
/// artifacts reconstruct, newest first, on top of the untouched base.
pub open spec fn spec_rebuilt_history(w: World, edited: Seq<u64>) -> Seq<u64> {
    let n = spec_resolved(w).len() as int;
    let base = spec_numbered_base(n);
    rev_ids(Seq::new(n as nat, |t: int| edited[base + t])) + w.history@.skip(n)
}

/// Applying artifacts that are all summaries applies nothing.
proof fn lemma_applied_payloads_summary_prefix(arts: Seq<Artifact>, upto: int)
    requires
        0 <= upto <= arts.len(),
        forall|i: int| 0 <= i < upto ==> spec_is_summary_name(#[trigger] arts[i].name@),
    ensures
        spec_applied_payloads(arts, upto) == Seq::<u64>::empty(),
    decreases upto,
{
    if upto > 0 {
        lemma_applied_payloads_summary_prefix(arts, upto - 1);
    }
}

/// With the summary ahead and the numbered artifacts behind it, the
/// applied payloads are exactly the numbered artifacts' payloads.
proof fn lemma_applied_payloads_marked(arts: Seq<Artifact>, base: int, upto: int)
    requires
        0 <= base <= upto <= arts.len(),
        forall|i: int| 0 <= i < base ==> spec_is_summary_name(#[trigger] arts[i].name@),
        forall|i: int| base <= i < arts.len() ==> !spec_is_summary_name(#[trigger] arts[i].name@),
    ensures
        spec_applied_payloads(arts, upto) == Seq::new(
            (upto - base) as nat,
            |t: int| arts[base + t].payload,
        ),
    decreases upto,
{
    if upto == base {
        lemma_applied_payloads_summary_prefix(arts, upto);
        assert(spec_applied_payloads(arts, upto) =~= Seq::new(
            (upto - base) as nat,
            |t: int| arts[base + t].payload,
        ));
    } else {
        lemma_applied_payloads_marked(arts, base, upto - 1);
        assert(!spec_is_summary_name(arts[upto - 1].name@));
        assert(spec_applied_payloads(arts, upto) =~= Seq::new(
            (upto - base) as nat,
            |t: int| arts[base + t].payload,
        ));
    }
}

/// Run one whole submission over the model, the external outcomes
/// given. The result is the first failing stage's error, or the
/// version submitted; on every path the artifact directory ends
/// empty, history is either fully rebuilt or exactly restored, and
/// the version tag stands exactly when the run succeeded.
pub fn submit(w: &mut World, req: &Request, ext: &Outcomes) -> (r: Result<u32, SubmitError>)
    requires
        old(w).patches@.len() == 0,
        old(w).history@.len() <= 9999,
        ext.edited@.len() >= old(w).history@.len() + 1,
        ext.apply_ok@.len() >= old(w).history@.len() + 1,
        spec_version_of(*old(w)) <= u32::MAX,
    ensures
        r == spec_submit_outcome(*old(w), *req, *ext),
        final(w).patches@.len() == 0,
        final(w).branch == old(w).branch,
        final(w).foreign_tips == old(w).foreign_tips,
        final(w).clean == old(w).clean,
        spec_history_rebuilt(r) ==> final(w).history@ == spec_rebuilt_history(
            *old(w),
            ext.edited@,
        ),
        !spec_history_rebuilt(r) ==> final(w).history@ == old(w).history@,
        r is Ok ==> final(w).tags.deep_view() == old(w).tags.deep_view().push(
            crate::names::spec_tag_name(old(w).branch@, spec_version_of(*old(w))),
        ),
        !(r is Ok) ==> final(w).tags@ == old(w).tags@,
{
    let ghost w0 = *old(w);
    if !w.clean {
        return Err(SubmitError::DirtyWorkTree);
    }
    let revs = crate::resolve::resolve_series(&w.history, &w.foreign_tips);
    proof {
        crate::resolve::lemma_series_prefix_sound(w0.history@, w0.foreign_tips@.to_set());
        assert(revs@ == spec_resolved(w0));
    }
    let n = revs.len();
    if n == 0 {
        return Err(SubmitError::NothingToSubmit);
    }
    let version = crate::version::next_version_from_tags(&w.tags, w.branch.as_str());
    proof {
        assert(version as nat == spec_version_of(w0));
    }
    if version > 1 && req.in_reply_to.is_none() {
        return Err(SubmitError::MissingReplyReference);
    }
    if !ext.generation_ok {
        return Err(SubmitError::GenerationFailed);
    }
    let arts = materialize(&revs, version);
    let ghost base = spec_numbered_base(n as int);
    proof {
        assert forall|i: int| 0 <= i < arts@.len() implies spec_is_summary_name(
            #[trigger] arts@[i].name@,
        ) == (i < base) by {
            if i < base {
                crate::artifacts::lemma_artifact_name_summary(0, version as nat);
            } else {
                assert(arts@[base + (i - base + 1) - 1].name@ == spec_artifact_name(
                    i - base + 1,
                    version as nat,
                ));
                crate::artifacts::lemma_artifact_name_summary(i - base + 1, version as nat);
            }
        }
    }
    w.patches = arts;
    match edit_all(w, &req.editor, &ext.edited) {
        Err(e) => {
            return Err(e);
        },
        Ok(()) => {},
    }
    proof {
        assert forall|i: int| 0 <= i < w.patches@.len() implies spec_is_summary_name(
            #[trigger] w.patches@[i].name@,
        ) == (i < base) by {
            assert(w.patches@[i].name == arts@[i].name);
        }
        assert(spec_all_applied_ok(w.patches@, ext.apply_ok@) == spec_apply_ok_all(
            n as int,
            base,
            ext.apply_ok@,
        )) by {
            if spec_all_applied_ok(w.patches@, ext.apply_ok@) {
                assert forall|t: int| 0 <= t < n implies #[trigger] ext.apply_ok@[base + t] by {
                    assert(!spec_is_summary_name(w.patches@[base + t].name@));
                }
            }
            if spec_apply_ok_all(n as int, base, ext.apply_ok@) {
                assert forall|i: int|
                    0 <= i < w.patches@.len() && !spec_is_summary_name(
                        #[trigger] w.patches@[i].name@,
                    ) implies ext.apply_ok@[i] by {
                    assert(ext.apply_ok@[base + (i - base)]);
                }
            }
        }
    }
    let ghost patched = w.patches@;
    match rebuild(w, &revs, &ext.apply_ok) {
        Err(e) => {
            return Err(e);
        },
        Ok(()) => {},
    }
    proof {
        lemma_applied_payloads_marked(patched, base, patched.len() as int);
        assert(patched.len() == base + n);
        assert forall|t: int| 0 <= t < n implies #[trigger] patched[base + t].payload
            == ext.edited@[base + t] by {
            assert(patched[base + t].name == w.patches@[base + t].name);
        }
        assert(Seq::new((patched.len() - base) as nat, |t: int| patched[base + t].payload)
            =~= Seq::new(n as nat, |t: int| ext.edited@[base + t]));
        assert(w.history@ == spec_rebuilt_history(w0, ext.edited@));
    }
    if !ext.tag_ok {
        w.patches = Vec::new();
        return Err(SubmitError::TagFailed);
    }
    let t = crate::names::tag_name(w.branch.as_str(), version);
    let ghost tags0 = w.tags@;
    w.tags.push(t);
    proof {
        assert(w.tags.deep_view() =~= tags0.map(|i: int, s: String| s@).push(
            crate::names::spec_tag_name(w0.branch@, spec_version_of(w0)),
        ));
    }
    if req.to.len() == 0 && req.cc.len() == 0 {
        let _ = w.tags.pop();
        proof {
            assert(w.tags@ =~= tags0);
        }
        w.patches = Vec::new();
        return Err(SubmitError::NoAddresses);
    }
    if !ext.send_ok {
        let _ = w.tags.pop();
        proof {
            assert(w.tags@ =~= tags0);
        }
        w.patches = Vec::new();
        return Err(SubmitError::SendFailed);
    }
    w.patches = Vec::new();
    Ok(version)
}

/// The stage of the run a failure interrupted.
pub enum Stage {
    /// The upfront checks and the read-only queries: cleanliness,
    /// resolution, version and reply reference. Nothing was mutated.
    Preconditions,
    /// External patch generation.
    Generation,
    /// The edit session.
    Editing,
    /// Resetting history and reapplying the artifacts.
    Rebuilding,
    /// Writing the version tag.
    Tagging,
    /// Resolving recipients and transmitting.
    Dispatch,
}

/// The compensating actions a failure demands.
pub struct Compensation {
    /// Reset the head back to the pre-invocation commit.
    pub reset_history: bool,
    /// Remove the version tag written this run, best effort.
    pub remove_tag: bool,
    /// Remove the artifact directory.
    pub remove_patches: bool,
}

/// Which compensation each failing stage demands: nothing before any
/// mutation; artifact cleanup from generation on; the full history
/// rollback only for a reapplication failure; tag removal only once
/// the tag was written, which only a dispatch failure outlives.
pub fn compensation_for(stage: Stage) -> (c: Compensation)
    ensures
        c.reset_history == (stage is Rebuilding),
        c.remove_tag == (stage is Dispatch),
        c.remove_patches == !(stage is Preconditions),
{
    match stage {
        Stage::Preconditions => Compensation {
            reset_history: false,
            remove_tag: false,
            remove_patches: false,
        },
        Stage::Rebuilding => Compensation {
            reset_history: true,
            remove_tag: false,
            remove_patches: true,
        },
        Stage::Dispatch => Compensation {
            reset_history: false,
            remove_tag: true,
            remove_patches: true,
        },
        _ => Compensation { reset_history: false, remove_tag: false, remove_patches: true },
    }
}

/// The round trip: artifacts that still reconstruct the commits they
/// were generated from rebuild the history exactly as it was, the
/// head back at its original position.
pub proof fn lemma_unedited_rebuild_restores(w: World, edited: Seq<u64>)
    requires
        0 < spec_resolved(w).len(),
        edited.len() >= spec_numbered_base(spec_resolved(w).len() as int) + spec_resolved(
            w,
        ).len(),
        forall|t: int|
            0 <= t < spec_resolved(w).len() ==> #[trigger] edited[spec_numbered_base(
                spec_resolved(w).len() as int,
            ) + t] == w.history@[spec_resolved(w).len() - 1 - t],
    ensures
        spec_rebuilt_history(w, edited) == w.history@,
{
    let n = spec_resolved(w).len() as int;
    let base = spec_numbered_base(n);
    crate::resolve::lemma_series_prefix_sound(w.history@, w.foreign_tips@.to_set());
    let s = Seq::new(n as nat, |t: int| edited[base + t]);
    lemma_rev_ids(s);
    assert(rev_ids(s) =~= w.history@.take(n));
    assert(w.history@.take(n) + w.history@.skip(n) =~= w.history@);
}

} // verus!
