use git_submit::repo::{branches, current_branch, find_version, remove_tag, revs_to_send, tag_version};
use tempdir::TempDir;

fn tree_with<'r>(repo: &'r git2::Repository, name: &str) -> git2::Tree<'r> {
    let blob = repo.blob(name.as_bytes()).unwrap();
    let mut builder = repo.treebuilder(None).unwrap();
    builder.insert(name, blob, 0o100644).unwrap();
    repo.find_tree(builder.write().unwrap()).unwrap()
}

/// Three commits on master, and a branch `test` at the first of them.
fn init_test_repo(path: &std::path::Path) -> git2::Repository {
    let repo = git2::Repository::init(path).unwrap();
    {
        let sig = git2::Signature::now("A U Thor", "author@example.net").unwrap();
        let tree1 = tree_with(&repo, "1");
        let oid1 = repo
            .commit(Some("HEAD"), &sig, &sig, "commit 1", &tree1, &[])
            .unwrap();
        let commit1 = repo.find_commit(oid1).unwrap();
        let tree2 = tree_with(&repo, "2");
        let oid2 = repo
            .commit(Some("HEAD"), &sig, &sig, "commit 2", &tree2, &[&commit1])
            .unwrap();
        let commit2 = repo.find_commit(oid2).unwrap();
        let tree3 = tree_with(&repo, "3");
        repo.commit(Some("HEAD"), &sig, &sig, "commit 3", &tree3, &[&commit2])
            .unwrap();
        repo.branch("test", &commit1, false).unwrap();
    }
    repo
}

#[test]
fn test_branches() {
    let tempdir = TempDir::new("git-submit").unwrap();
    let repo = init_test_repo(tempdir.path());

    let bs = branches(&repo).unwrap();
    assert_eq!(bs.len(), 1);
    assert_eq!(bs[0].name, "refs/heads/test");
    let tip = repo
        .find_reference("refs/heads/test")
        .unwrap()
        .target()
        .unwrap();
    assert_eq!(bs[0].tip, format!("{}", tip));
}

#[test]
fn test_revs_to_send() {
    let tempdir = TempDir::new("git-submit").unwrap();
    let repo = init_test_repo(tempdir.path());

    let revs = revs_to_send(&repo).unwrap();
    assert_eq!(revs.len(), 2);
    let head = repo.head().unwrap().target().unwrap();
    assert_eq!(revs[0], format!("{}", head));
}

#[test]
fn test_current_branch() {
    let tempdir = TempDir::new("git-submit").unwrap();
    let repo = init_test_repo(tempdir.path());

    let branch_name = current_branch(&repo).unwrap();
    assert_eq!(branch_name, "master");
}

#[test]
fn test_find_correct_version() {
    let tempdir = TempDir::new("git-submit").unwrap();
    let repo = init_test_repo(tempdir.path());

    assert_eq!(find_version(&repo, "master").unwrap(), 1);

    let master = repo.revparse_single("master").unwrap();
    repo.tag_lightweight("master-v1", &master, false).unwrap();
    assert_eq!(find_version(&repo, "master").unwrap(), 2);
}

#[test]
fn test_tag_version() {
    let tempdir = TempDir::new("git-submit").unwrap();
    let repo = init_test_repo(tempdir.path());

    tag_version(&repo, "master", 1).unwrap();
    let tag = repo.find_reference("refs/tags/master-v1").unwrap();
    assert!(tag.is_tag());
    assert_eq!(find_version(&repo, "master").unwrap(), 2);
}

#[test]
fn test_remove_tag() {
    let tempdir = TempDir::new("git-submit").unwrap();
    let repo = init_test_repo(tempdir.path());

    tag_version(&repo, "master", 1).unwrap();
    let tag = repo.find_reference("refs/tags/master-v1").unwrap();
    assert!(tag.is_tag());
    assert_eq!(find_version(&repo, "master").unwrap(), 2);
    remove_tag(&repo, "master", 1).unwrap();
    let tag_result = repo.find_reference("refs/tags/master-v1");
    assert!(tag_result.is_err());
}

#[test]
fn test_version_ignores_foreign_tags() {
    let tempdir = TempDir::new("git-submit").unwrap();
    let repo = init_test_repo(tempdir.path());

    let master = repo.revparse_single("master").unwrap();
    repo.tag_lightweight("master-v2", &master, false).unwrap();
    repo.tag_lightweight("master-vx", &master, false).unwrap();
    repo.tag_lightweight("test-v9", &master, false).unwrap();
    assert_eq!(find_version(&repo, "master").unwrap(), 3);
    assert_eq!(find_version(&repo, "test").unwrap(), 10);
}
