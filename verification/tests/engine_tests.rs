use git_submit::engine::{
    compensation_for, materialize, rebuild, submit, Artifact, Outcomes, Request, Stage, World,
};
use git_submit::error::SubmitError;

fn world(history: Vec<u64>, tips: Vec<u64>, tags: Vec<&str>) -> World {
    World {
        branch: String::from("master"),
        history,
        foreign_tips: tips,
        tags: tags.into_iter().map(String::from).collect(),
        patches: Vec::new(),
        clean: true,
    }
}

fn request(to: Vec<&str>, reply: Option<&str>) -> Request {
    Request {
        to: to.into_iter().map(String::from).collect(),
        cc: Vec::new(),
        in_reply_to: reply.map(String::from),
        editor: Some(String::from("true")),
    }
}

fn all_ok(edited: Vec<u64>) -> Outcomes {
    let n = edited.len();
    Outcomes {
        generation_ok: true,
        edited,
        apply_ok: vec![true; n],
        tag_ok: true,
        send_ok: true,
    }
}

#[test]
fn test_submit_first_version() {
    // Branch master has 2 unique commits against its only other
    // branch: version 1, two artifacts, no summary, tag master-v1.
    let mut w = world(vec![3, 2, 1], vec![1], vec![]);
    let arts = materialize(&vec![3, 2], 1);
    assert_eq!(arts.len(), 2);
    assert_eq!(arts[0].name, "0001-patch");
    assert_eq!(arts[1].name, "0002-patch");
    assert_eq!(arts[0].payload, 2);
    assert_eq!(arts[1].payload, 3);
    let req = request(vec!["test@example.com"], None);
    let ext = all_ok(vec![2, 3, 0, 0]);
    let r = submit(&mut w, &req, &ext);
    assert_eq!(r, Ok(1));
    assert_eq!(w.tags, vec![String::from("master-v1")]);
    assert_eq!(w.history, vec![3, 2, 1]);
    assert_eq!(w.patches.len(), 0);
}

#[test]
fn test_submit_resubmission_needs_reply() {
    // The same branch resubmitted after master-v1 exists produces
    // version 2, and is refused without a reply reference.
    let mut w = world(vec![3, 2, 1], vec![1], vec!["master-v1"]);
    let req = request(vec!["test@example.com"], None);
    let ext = all_ok(vec![2, 3, 0, 0]);
    let r = submit(&mut w, &req, &ext);
    assert_eq!(r, Err(SubmitError::MissingReplyReference));
    assert_eq!(w.tags, vec![String::from("master-v1")]);
    assert_eq!(w.history, vec![3, 2, 1]);

    let req = request(vec!["test@example.com"], Some("msg-id"));
    let r = submit(&mut w, &req, &ext);
    assert_eq!(r, Ok(2));
    assert_eq!(
        w.tags,
        vec![String::from("master-v1"), String::from("master-v2")]
    );
}

#[test]
fn test_materialize_with_summary() {
    // Three commits and more get one summary artifact ahead of the
    // numbered ones, version-prefixed from the second version on.
    let arts = materialize(&vec![30, 20, 10], 1);
    assert_eq!(arts.len(), 4);
    assert_eq!(arts[0].name, "0000-patch");
    assert_eq!(arts[1].name, "0001-patch");
    assert_eq!(arts[1].payload, 10);
    assert_eq!(arts[3].payload, 30);
    let arts = materialize(&vec![30, 20, 10], 2);
    assert_eq!(arts[0].name, "v2-0000-patch");
    assert_eq!(arts[3].name, "v2-0003-patch");
}

#[test]
fn test_round_trip_rebuild() {
    // Rebuilding from unedited artifacts reproduces the commits with
    // the head back at the original position.
    let mut w = world(vec![30, 20, 10, 1], vec![1], vec![]);
    w.patches = materialize(&vec![30, 20, 10], 1);
    let ok = vec![true; 4];
    let r = rebuild(&mut w, &vec![30, 20, 10], &ok);
    assert_eq!(r, Ok(()));
    assert_eq!(w.history, vec![30, 20, 10, 1]);
    assert_eq!(w.patches.len(), 4);
}

#[test]
fn test_rebuild_applies_edits() {
    // An edited artifact reconstructs a different commit: the rebuilt
    // history carries it, in place, on the same base.
    let mut w = world(vec![3, 2, 1], vec![1], vec![]);
    w.patches = vec![
        Artifact { name: String::from("0001-patch"), payload: 5 },
        Artifact { name: String::from("0002-patch"), payload: 7 },
    ];
    let r = rebuild(&mut w, &vec![3, 2], &vec![true, true]);
    assert_eq!(r, Ok(()));
    assert_eq!(w.history, vec![7, 5, 1]);
}

#[test]
fn test_rollback_restores_head() {
    // A forced application failure during rebuild restores the head
    // and leaves zero artifacts behind.
    let mut w = world(vec![30, 20, 10, 1], vec![1], vec![]);
    w.patches = materialize(&vec![30, 20, 10], 1);
    let ok = vec![true, true, false, true];
    let r = rebuild(&mut w, &vec![30, 20, 10], &ok);
    assert_eq!(r, Err(SubmitError::ApplyFailed));
    assert_eq!(w.history, vec![30, 20, 10, 1]);
    assert_eq!(w.patches.len(), 0);
}

#[test]
fn test_submit_rollback_on_apply_failure() {
    let mut w = world(vec![3, 2, 1], vec![1], vec![]);
    let req = request(vec!["test@example.com"], None);
    let mut ext = all_ok(vec![2, 3, 0, 0]);
    ext.apply_ok = vec![true, false, true, true];
    let r = submit(&mut w, &req, &ext);
    assert_eq!(r, Err(SubmitError::ApplyFailed));
    assert_eq!(w.history, vec![3, 2, 1]);
    assert_eq!(w.tags.len(), 0);
    assert_eq!(w.patches.len(), 0);
}

#[test]
fn test_submit_preconditions() {
    // A dirty working tree is refused before any mutation.
    let mut w = world(vec![3, 2, 1], vec![1], vec![]);
    w.clean = false;
    let req = request(vec!["test@example.com"], None);
    let ext = all_ok(vec![2, 3, 0, 0]);
    assert_eq!(submit(&mut w, &req, &ext), Err(SubmitError::DirtyWorkTree));

    // Two branches sharing the head's tip leave nothing to submit.
    let mut w = world(vec![3, 2, 1], vec![3], vec![]);
    assert_eq!(
        submit(&mut w, &req, &ext),
        Err(SubmitError::NothingToSubmit)
    );

    // A series covering the whole history has no parent to reset to.
    let mut w = world(vec![3, 2], vec![9], vec![]);
    assert_eq!(submit(&mut w, &req, &ext), Err(SubmitError::NoParent));
    assert_eq!(w.history, vec![3, 2]);
}

#[test]
fn test_submit_compensations() {
    // Patch generation failing leaves nothing behind.
    let mut w = world(vec![3, 2, 1], vec![1], vec![]);
    let req = request(vec!["test@example.com"], None);
    let mut ext = all_ok(vec![2, 3, 0, 0]);
    ext.generation_ok = false;
    assert_eq!(submit(&mut w, &req, &ext), Err(SubmitError::GenerationFailed));
    assert_eq!(w.history, vec![3, 2, 1]);
    assert_eq!(w.tags.len(), 0);

    // An unset editor is a configuration error with cleanup.
    let mut w = world(vec![3, 2, 1], vec![1], vec![]);
    let mut req = request(vec!["test@example.com"], None);
    req.editor = None;
    let ext = all_ok(vec![2, 3, 0, 0]);
    assert_eq!(submit(&mut w, &req, &ext), Err(SubmitError::EditorUnset));
    assert_eq!(w.patches.len(), 0);

    // A failed tag write keeps the rebuilt history, only the marker
    // is missing and the artifacts are removed.
    let mut w = world(vec![3, 2, 1], vec![1], vec![]);
    let req = request(vec!["test@example.com"], None);
    let mut ext = all_ok(vec![2, 3, 0, 0]);
    ext.tag_ok = false;
    assert_eq!(submit(&mut w, &req, &ext), Err(SubmitError::TagFailed));
    assert_eq!(w.history, vec![3, 2, 1]);
    assert_eq!(w.tags.len(), 0);

    // No recipient at all: refused after tagging, the tag removed.
    let mut w = world(vec![3, 2, 1], vec![1], vec![]);
    let req = request(vec![], None);
    let ext = all_ok(vec![2, 3, 0, 0]);
    assert_eq!(submit(&mut w, &req, &ext), Err(SubmitError::NoAddresses));
    assert_eq!(w.tags.len(), 0);

    // A failed transmission removes the tag again, best effort.
    let mut w = world(vec![3, 2, 1], vec![1], vec![]);
    let req = request(vec!["test@example.com"], None);
    let mut ext = all_ok(vec![2, 3, 0, 0]);
    ext.send_ok = false;
    assert_eq!(submit(&mut w, &req, &ext), Err(SubmitError::SendFailed));
    assert_eq!(w.tags.len(), 0);
    assert_eq!(w.history, vec![3, 2, 1]);
}

#[test]
fn test_submit_round_trip_long_series() {
    // Three unique commits: the summary artifact is generated, edited
    // and skipped on reapplication; unedited patches rebuild the
    // history exactly as it was.
    let mut w = world(vec![40, 30, 20, 10], vec![10], vec![]);
    let req = request(vec!["test@example.com"], None);
    let ext = all_ok(vec![0, 20, 30, 40, 0]);
    let r = submit(&mut w, &req, &ext);
    assert_eq!(r, Ok(1));
    assert_eq!(w.history, vec![40, 30, 20, 10]);
    assert_eq!(w.tags, vec![String::from("master-v1")]);
    assert_eq!(w.patches.len(), 0);
}

#[test]
fn test_compensation_by_stage() {
    let c = compensation_for(Stage::Preconditions);
    assert!(!c.reset_history && !c.remove_tag && !c.remove_patches);
    let c = compensation_for(Stage::Generation);
    assert!(!c.reset_history && !c.remove_tag && c.remove_patches);
    let c = compensation_for(Stage::Editing);
    assert!(!c.reset_history && !c.remove_tag && c.remove_patches);
    let c = compensation_for(Stage::Rebuilding);
    assert!(c.reset_history && !c.remove_tag && c.remove_patches);
    let c = compensation_for(Stage::Tagging);
    assert!(!c.reset_history && !c.remove_tag && c.remove_patches);
    let c = compensation_for(Stage::Dispatch);
    assert!(!c.reset_history && c.remove_tag && c.remove_patches);
}

#[test]
fn test_submit_tag_then_requery_bumps_version() {
    // Submitting, then asking again: the next version is larger by
    // exactly one.
    let mut w = world(vec![3, 2, 1], vec![1], vec![]);
    let req = request(vec!["test@example.com"], None);
    let ext = all_ok(vec![2, 3, 0, 0]);
    assert_eq!(submit(&mut w, &req, &ext), Ok(1));
    let v1 = git_submit::version::next_version_from_tags(&w.tags, "master");
    assert_eq!(v1, 2);
    let req = request(vec!["test@example.com"], Some("msg-id"));
    assert_eq!(submit(&mut w, &req, &ext), Ok(2));
    assert_eq!(
        git_submit::version::next_version_from_tags(&w.tags, "master"),
        3
    );
}
