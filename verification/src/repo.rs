//! The repository accessors: the read and write operations the engine
//! needs from the object store, each behind a contract, with the
//! decisions around them verified.
use vstd::prelude::*;

use crate::error::SubmitError;
use crate::names::{tag_name, tag_pattern};

verus! {

/// The object store's handle, opaque to the contracts.
#[verifier::external_type_specification]
#[verifier::external_body]
pub struct ExRepository(git2::Repository);

/// The store's own error type; its message is read, nothing more.
#[verifier::external_type_specification]
#[verifier::external_body]
pub struct ExGitError(git2::Error);

/// A reverse-chronological history walk, consumed once.
#[verifier::external_type_specification]
#[verifier::external_body]
pub struct ExRevwalk<'a>(git2::Revwalk<'a>);

/// A commit identifier, carried only inside the walk.
#[verifier::external_type_specification]
#[verifier::external_body]
pub struct ExOid(git2::Oid);

/// A store object, carried from a revision lookup to the tag write.
#[verifier::external_type_specification]
#[verifier::external_body]
pub struct ExObject<'a>(git2::Object<'a>);

/// One reference of the store, as plain values.
pub struct RefEntry {
    /// The full reference name, where it is representable as text.
    pub name: Option<String>,
    /// The commit the reference points at directly, in hex.
    pub tip: Option<String>,
    /// Whether the reference is a local branch.
    pub is_branch: bool,
}

/// A foreign branch: its full reference name and its tip commit.
pub struct BranchRef {
    pub name: String,
    pub tip: String,
}

/// Relies on git2::Error::message: the store's description of what it
/// refused.
#[verifier::external_body]
fn error_message(e: &git2::Error) -> (m: String) {
    e.message().to_owned()
}

/// Map a store error to the library's error type.
fn store_err(e: git2::Error) -> (r: SubmitError)
    ensures
        r matches SubmitError::Store(_),
{
    SubmitError::Store(error_message(&e))
}

/// Relies on git2::Repository::revwalk: a fresh, empty history walk.
#[verifier::external_body]
fn repo_revwalk<'r>(repo: &'r git2::Repository) -> (r: Result<git2::Revwalk<'r>, git2::Error>) {
    repo.revwalk()
}

/// Relies on git2::Revwalk::push_head: the walk will start at the
/// commit the head points at.
#[verifier::external_body]
fn walk_push_head(walk: &mut git2::Revwalk<'_>) -> (r: Result<(), git2::Error>) {
    walk.push_head()
}

/// Relies on git2::Revwalk::next: the next commit of the reverse
/// chronological walk, if any, here as its hex id.
#[verifier::external_body]
fn walk_next(walk: &mut git2::Revwalk<'_>) -> (r: Option<Result<String, git2::Error>>) {
    walk.next().map(|x| x.map(|oid| format!("{}", oid)))
}

/// Relies on git2::Repository::references, git2::Reference::name,
/// target and is_branch: every reference of the store, as plain
/// values.
#[verifier::external_body]
fn list_references(repo: &git2::Repository) -> (r: Result<Vec<RefEntry>, git2::Error>) {
    let refs = repo.references()?;
    let mut out = Vec::new();
    for x in refs {
        let x = x?;
        out.push(RefEntry {
            name: x.name().ok().map(|n| n.to_owned()),
            tip: x.target().map(|oid| format!("{}", oid)),
            is_branch: x.is_branch(),
        });
    }
    Ok(out)
}

/// Relies on git2::Repository::head and git2::Reference::name: the
/// full name of the reference the head points at.
#[verifier::external_body]
fn head_name(repo: &git2::Repository) -> (r: Result<Option<String>, git2::Error>) {
    let head = repo.head()?;
    Ok(head.name().ok().map(|n| n.to_owned()))
}

/// Relies on git2::Repository::branches, git2::Branch::name and
/// is_head: each local branch's short name, and whether the head
/// points at it.
#[verifier::external_body]
fn local_branches(repo: &git2::Repository) -> (r: Result<
    Vec<(Option<String>, bool)>,
    git2::Error,
>) {
    let branches = repo.branches(Some(git2::BranchType::Local))?;
    let mut out = Vec::new();
    for b in branches {
        let (branch, _) = b?;
        let name = branch.name().ok().flatten().map(|n| n.to_owned());
        out.push((name, branch.is_head()));
    }
    Ok(out)
}

/// Relies on git2::Repository::tag_names: the tag names matching the
/// glob, non-text names left empty.
#[verifier::external_body]
fn tag_names_matching(repo: &git2::Repository, pattern: &str) -> (r: Result<
    Vec<Option<String>>,
    git2::Error,
>) {
    let tags = repo.tag_names(Some(pattern))?;
    Ok(tags.iter().map(|t| t.ok().flatten().map(|s| s.to_owned())).collect())
}

/// Relies on git2::Repository::revparse_single: the object a revision
/// expression names.
#[verifier::external_body]
fn revparse_single<'r>(repo: &'r git2::Repository, spec: &str) -> (r: Result<
    git2::Object<'r>,
    git2::Error,
>) {
    repo.revparse_single(spec)
}

/// Relies on git2::Repository::tag_lightweight: writes the tag,
/// replacing an existing one of the same name.
#[verifier::external_body]
fn tag_lightweight(repo: &git2::Repository, name: &str, target: &git2::Object<'_>) -> (r: Result<
    (),
    git2::Error,
>) {
    repo.tag_lightweight(name, target, true).map(|_| ())
}

/// Relies on git2::Repository::tag_delete: removes the tag by name.
#[verifier::external_body]
fn tag_delete(repo: &git2::Repository, name: &str) -> (r: Result<(), git2::Error>) {
    repo.tag_delete(name)
}

/// Relies on git2::Repository::statuses: how many entries the status
/// listing holds.
#[verifier::external_body]
fn statuses_len(repo: &git2::Repository) -> (r: Result<usize, git2::Error>) {
    let statuses = repo.statuses(Some(&mut git2::StatusOptions::new()))?;
    Ok(statuses.len())
}

/// Whether a reference listing entry counts as a foreign branch: a
/// local branch with a representable name that is not the head's, and
/// a direct target.
pub open spec fn spec_is_foreign(e: RefEntry, head: Option<String>) -> bool {
    &&& e.is_branch
    &&& e.name is Some
    &&& e.tip is Some
    &&& (head matches Some(h) ==> e.name->0@ != h@)
}

/// The foreign branches of a reference listing, as (name, tip) pairs,
/// in listing order.
pub open spec fn spec_foreign(es: Seq<RefEntry>, head: Option<String>) -> Seq<(String, String)>
    decreases es.len(),
{
    if es.len() == 0 {
        Seq::empty()
    } else {
        spec_foreign(es.drop_last(), head) + (if spec_is_foreign(es.last(), head) {
            seq![(es.last().name->0, es.last().tip->0)]
        } else {
            Seq::<(String, String)>::empty()
        })
    }
}

/// Pick the foreign branches out of a reference listing: every local
/// branch that the head does not point at and that points at a commit
/// directly.
pub fn select_foreign(entries: &Vec<RefEntry>, head: &Option<String>) -> (r: Vec<BranchRef>)
    ensures
        r@.map(|i: int, b: BranchRef| (b.name, b.tip)) == spec_foreign(entries@, *head),
{
    let mut out: Vec<BranchRef> = Vec::new();
    let mut i: usize = 0;
    while i < entries.len()
        invariant
            0 <= i <= entries@.len(),
            out@.map(|t: int, b: BranchRef| (b.name, b.tip)) =~= spec_foreign(
                entries@.take(i as int),
                *head,
            ),
        decreases entries@.len() - i,
    {
        proof {
            assert(entries@.take(i + 1).drop_last() =~= entries@.take(i as int));
            assert(entries@.take(i + 1).last() == entries@[i as int]);
        }
        let e = &entries[i];
        let mut keep = false;
        if e.is_branch {
            match (&e.name, &e.tip) {
                (Some(name), Some(tip)) => {
                    let same_as_head = match head {
                        Some(h) => name.eq(h),
                        None => false,
                    };
                    if !same_as_head {
                        keep = true;
                        out.push(BranchRef { name: name.clone(), tip: tip.clone() });
                    }
                },
                _ => {},
            }
        }
        proof {
            if keep {
                assert(spec_is_foreign(entries@[i as int], *head));
            } else {
                assert(!spec_is_foreign(entries@[i as int], *head));
            }
            assert(out@.map(|t: int, b: BranchRef| (b.name, b.tip)) =~= spec_foreign(
                entries@.take(i + 1),
                *head,
            ));
        }
        i = i + 1;
    }
    proof {
        assert(entries@.take(entries@.len() as int) =~= entries@);
    }
    out
}

/// The other branches of the repository: every local branch the head
/// does not point at. Fails only where the store does.
pub fn branches(repo: &git2::Repository) -> (r: Result<Vec<BranchRef>, SubmitError>)
    ensures
        r matches Err(e) ==> e matches SubmitError::Store(_),
{
    let entries = match list_references(repo) {
        Ok(es) => es,
        Err(e) => {
            return Err(store_err(e));
        },
    };
    let head = match head_name(repo) {
        Ok(h) => h,
        Err(e) => {
            return Err(store_err(e));
        },
    };
    Ok(select_foreign(&entries, &head))
}

/// Pick the branch the head points at out of a branch listing.
pub fn select_head_branch(entries: Vec<(Option<String>, bool)>) -> (r: Result<String, SubmitError>)
    ensures
        r matches Err(e) ==> e == SubmitError::NoCurrentBranch,
        r is Err ==> (forall|i: int|
            0 <= i < entries@.len() ==> !(#[trigger] entries@[i].1 && entries@[i].0 is Some)),
        r matches Ok(name) ==> exists|i: int|
            0 <= i < entries@.len() && #[trigger] entries@[i].1 && entries@[i].0 == Some(name),
{
    let mut i: usize = 0;
    while i < entries.len()
        invariant
            0 <= i <= entries@.len(),
            forall|j: int| 0 <= j < i ==> !(#[trigger] entries@[j].1 && entries@[j].0 is Some),
        decreases entries@.len() - i,
    {
        if entries[i].1 {
            match &entries[i].0 {
                Some(name) => {
                    return Ok(name.clone());
                },
                None => {},
            }
        }
        i = i + 1;
    }
    Err(SubmitError::NoCurrentBranch)
}

/// The branch the head points at, by its short name. Fails where no
/// branch does, or where the store does.
pub fn current_branch(repo: &git2::Repository) -> (r: Result<String, SubmitError>)
    ensures
        r matches Err(e) ==> e == SubmitError::NoCurrentBranch || e matches SubmitError::Store(
            _,
        ),
{
    let entries = match local_branches(repo) {
        Ok(es) => es,
        Err(e) => {
            return Err(store_err(e));
        },
    };
    select_head_branch(entries)
}

/// Consume the history walk and keep every commit until the walk
/// reaches the tip of another branch: the first excluded commit ends
/// the walk, and nothing beyond it is taken.
pub fn collect_series(walk: &mut git2::Revwalk<'_>, tips: &Vec<String>) -> (r: Result<
    Vec<String>,
    SubmitError,
>)
    ensures
        r matches Err(e) ==> e matches SubmitError::Store(_),
        r matches Ok(revs) ==> forall|i: int|
            0 <= i < revs@.len() ==> !tips.deep_view().contains(#[trigger] revs@[i]@),
{
    let mut revs: Vec<String> = Vec::new();
    let mut remaining: usize = usize::MAX;
    loop
        invariant
            forall|i: int|
                0 <= i < revs@.len() ==> !tips.deep_view().contains(#[trigger] revs@[i]@),
        decreases remaining,
    {
        if remaining == 0 {
            // A walk longer than the address space cannot be a real
            // history; give up rather than spin.
            return Err(SubmitError::Store("history walk did not end".to_owned()));
        }
        remaining = remaining - 1;
        match walk_next(walk) {
            None => {
                return Ok(revs);
            },
            Some(Err(e)) => {
                return Err(store_err(e));
            },
            Some(Ok(oid)) => {
                let mut excluded = false;
                let mut j: usize = 0;
                while j < tips.len()
                    invariant
                        0 <= j <= tips@.len(),
                        excluded ==> tips.deep_view().contains(oid@),
                        !excluded ==> forall|k: int|
                            0 <= k < j ==> #[trigger] tips.deep_view()[k] != oid@,
                    decreases tips@.len() - j,
                {
                    if tips[j].eq(&oid) {
                        proof {
                            assert(tips.deep_view()[j as int] == oid@);
                        }
                        excluded = true;
                    }
                    j = j + 1;
                }
                if excluded {
                    return Ok(revs);
                }
                proof {
                    assert(forall|k: int|
                        0 <= k < tips.deep_view().len() ==> #[trigger] tips.deep_view()[k]
                            != oid@);
                }
                revs.push(oid);
            },
        }
    }
}

/// The series to submit: walk the history from the head, keeping the
/// commits no other branch has. Fails only where the store does.
pub fn revs_to_send(repo: &git2::Repository) -> (r: Result<Vec<String>, SubmitError>)
    ensures
        r matches Err(e) ==> e matches SubmitError::Store(_),
{
    let foreign = match branches(repo) {
        Ok(bs) => bs,
        Err(e) => {
            return Err(e);
        },
    };
    // The exclusion set: exactly the tips of the foreign branches.
    let mut tips: Vec<String> = Vec::new();
    let mut i: usize = 0;
    while i < foreign.len()
        invariant
            0 <= i <= foreign@.len(),
            tips@.len() == i,
            forall|j: int| 0 <= j < i ==> #[trigger] tips@[j] == foreign@[j].tip,
        decreases foreign@.len() - i,
    {
        tips.push(foreign[i].tip.clone());
        i = i + 1;
    }
    let mut walk = match repo_revwalk(repo) {
        Ok(w) => w,
        Err(e) => {
            return Err(store_err(e));
        },
    };
    match walk_push_head(&mut walk) {
        Ok(()) => {},
        Err(e) => {
            return Err(store_err(e));
        },
    }
    collect_series(&mut walk, &tips)
}

/// The representable tag names of a listing, in listing order: the
/// names the version scan works on.
pub open spec fn spec_present_tags(raw: Seq<Option<String>>) -> Seq<Seq<char>>
    decreases raw.len(),
{
    if raw.len() == 0 {
        Seq::empty()
    } else {
        spec_present_tags(raw.drop_last()) + (match raw.last() {
            Some(t) => seq![t@],
            None => Seq::<Seq<char>>::empty(),
        })
    }
}

/// The next version of `branch`: one more than the largest version
/// its tags record, one where none does. Reads only; never writes a
/// tag.
pub fn find_version(repo: &git2::Repository, branch: &str) -> (r: Result<u32, SubmitError>)
    ensures
        r matches Ok(v) ==> v >= 1,
        r matches Err(e) ==> e matches SubmitError::Store(_),
{
    let pattern = tag_pattern(branch);
    let raw = match tag_names_matching(repo, pattern.as_str()) {
        Ok(ts) => ts,
        Err(e) => {
            return Err(store_err(e));
        },
    };
    // The scan works on exactly the representable names the store
    // listed, in listing order.
    let mut tags: Vec<String> = Vec::new();
    let mut i: usize = 0;
    while i < raw.len()
        invariant
            0 <= i <= raw@.len(),
            tags.deep_view() =~= spec_present_tags(raw@.take(i as int)),
        decreases raw@.len() - i,
    {
        proof {
            assert(raw@.take(i + 1).drop_last() =~= raw@.take(i as int));
            assert(raw@.take(i + 1).last() == raw@[i as int]);
        }
        match &raw[i] {
            Some(t) => {
                let ghost prev = tags.deep_view();
                let ghost tv = t@;
                tags.push(t.clone());
                proof {
                    assert(tags.deep_view() =~= prev.push(tv));
                }
            },
            None => {},
        }
        i = i + 1;
    }
    proof {
        assert(raw@.take(raw@.len() as int) =~= raw@);
        assert(tags.deep_view() == spec_present_tags(raw@));
    }
    Ok(crate::version::next_version_from_tags(&tags, branch))
}

/// Record the version just produced: a lightweight tag
/// `{branch}-v{version}` at the branch's tip, replacing a leftover of
/// the same name.
pub fn tag_version(repo: &git2::Repository, branch: &str, version: u32) -> (r: Result<
    (),
    SubmitError,
>)
    ensures
        r matches Err(e) ==> e matches SubmitError::Store(_),
{
    let target = match revparse_single(repo, branch) {
        Ok(o) => o,
        Err(e) => {
            return Err(store_err(e));
        },
    };
    let name = tag_name(branch, version);
    match tag_lightweight(repo, name.as_str(), &target) {
        Ok(()) => Ok(()),
        Err(e) => Err(store_err(e)),
    }
}

/// Remove the version marker again: the compensation when a later
/// stage fails.
pub fn remove_tag(repo: &git2::Repository, branch: &str, version: u32) -> (r: Result<
    (),
    SubmitError,
>)
    ensures
        r matches Err(e) ==> e matches SubmitError::Store(_),
{
    let name = tag_name(branch, version);
    match tag_delete(repo, name.as_str()) {
        Ok(()) => Ok(()),
        Err(e) => Err(store_err(e)),
    }
}

/// The cleanliness decision: a working tree is clean exactly when the
/// status listing reports no entry.
pub fn no_pending(status_entries: usize) -> (b: bool)
    ensures
        b == (status_entries == 0),
{
    status_entries == 0
}

/// Whether the working tree has no pending changes: the precondition
/// of every invocation. True exactly when the store reports zero
/// status entries.
pub fn is_clean(repo: &git2::Repository) -> (r: Result<bool, SubmitError>)
    ensures
        r matches Err(e) ==> e matches SubmitError::Store(_),
{
    match statuses_len(repo) {
        Ok(n) => Ok(no_pending(n)),
        Err(e) => Err(store_err(e)),
    }
}

} // verus!
