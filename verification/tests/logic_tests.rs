use git_submit::artifacts::{artifact_name, is_summary, patches_to_apply};
use git_submit::cmd::{editor_command, format_patch_args, send_email_args, split_command};
use git_submit::decimal::{dec_string, parse_dec};
use git_submit::error::SubmitError;
use git_submit::mail::{format_addr, resolve_addresses, Mailbox};
use git_submit::names::{output_dir, parent_expr, range_expr, tag_name, tag_pattern};
use git_submit::order::sort_names;
use git_submit::resolve::resolve_series;
use git_submit::version::{next_version_from_tags, parse_tag_version};

fn strings(xs: Vec<&str>) -> Vec<String> {
    xs.into_iter().map(String::from).collect()
}

#[test]
fn test_dec_strings() {
    assert_eq!(dec_string(0), "0");
    assert_eq!(dec_string(7), "7");
    assert_eq!(dec_string(40960), "40960");
    assert_eq!(dec_string(u32::MAX), "4294967295");
}

#[test]
fn test_parse_dec() {
    assert_eq!(parse_dec("42"), Some(42));
    assert_eq!(parse_dec("007"), Some(7));
    assert_eq!(parse_dec(""), None);
    assert_eq!(parse_dec("1x2"), None);
    assert_eq!(parse_dec("-3"), None);
    assert_eq!(parse_dec("4294967295"), Some(u32::MAX));
    assert_eq!(parse_dec("4294967296"), None);
}

#[test]
fn test_names() {
    assert_eq!(tag_name("master", 1), "master-v1");
    assert_eq!(tag_name("feature/x", 12), "feature/x-v12");
    assert_eq!(tag_pattern("master"), "master-v*");
    assert_eq!(output_dir("master"), "output-master");
    assert_eq!(output_dir("feature/x"), "output-feature_x");
    assert_eq!(range_expr("aaa", "bbb"), "aaa~..bbb");
    assert_eq!(parent_expr("aaa"), "aaa~");
}

#[test]
fn test_version_scan() {
    // No matching tags: the first version.
    assert_eq!(next_version_from_tags(&strings(vec![]), "master"), 1);
    // One more than the largest recorded version.
    assert_eq!(
        next_version_from_tags(&strings(vec!["master-v1"]), "master"),
        2
    );
    assert_eq!(
        next_version_from_tags(&strings(vec!["master-v2", "master-v5", "master-v1"]), "master"),
        6
    );
    // Malformed suffixes and foreign names are ignored, never errors.
    assert_eq!(
        next_version_from_tags(
            &strings(vec!["master-vx", "release", "master-v3", "master-v"]),
            "master"
        ),
        4
    );
    // A tag of value zero still yields one.
    assert_eq!(
        next_version_from_tags(&strings(vec!["master-v0"]), "master"),
        1
    );
}

#[test]
fn test_parse_tag_version() {
    assert_eq!(parse_tag_version("master-v7", "master"), Some(7));
    assert_eq!(parse_tag_version("master-v", "master"), None);
    assert_eq!(parse_tag_version("other-v7", "master"), None);
    assert_eq!(parse_tag_version("master-x7", "master"), None);
}

#[test]
fn test_resolve_series() {
    // One foreign tip at distance two: exactly the two commits this
    // side of it, and the walk stops at the tip.
    let revs = resolve_series(&vec![5, 4, 3, 2, 1], &vec![3]);
    assert_eq!(revs, vec![5, 4]);
    // A foreign branch sharing the head's tip yields an empty range.
    let revs = resolve_series(&vec![5, 4, 3], &vec![5, 1]);
    assert_eq!(revs.len(), 0);
    // No foreign tip in the walk: everything is unique.
    let revs = resolve_series(&vec![5, 4], &vec![9]);
    assert_eq!(revs, vec![5, 4]);
}

#[test]
fn test_artifact_names() {
    assert_eq!(artifact_name(0, 1), "0000-patch");
    assert_eq!(artifact_name(1, 1), "0001-patch");
    assert_eq!(artifact_name(12, 1), "0012-patch");
    assert_eq!(artifact_name(3, 2), "v2-0003-patch");
    assert_eq!(artifact_name(0, 10), "v10-0000-patch");
}

#[test]
fn test_is_summary() {
    assert!(is_summary("0000-patch"));
    assert!(is_summary("0000-cover-letter.patch"));
    assert!(is_summary("v2-0000-patch"));
    assert!(is_summary("v10-0000-cover-letter.patch"));
    assert!(!is_summary("0001-patch"));
    assert!(!is_summary("v2-0001-patch"));
    assert!(!is_summary("v-0000"));
    assert!(!is_summary("x0000"));
    assert!(!is_summary(""));
}

#[test]
fn test_sort_names() {
    let sorted = sort_names(strings(vec!["b", "a", "ab", "a"]));
    assert_eq!(sorted, strings(vec!["a", "a", "ab", "b"]));
    let sorted = sort_names(strings(vec!["0010-x", "0002-y", "0001-z"]));
    assert_eq!(sorted, strings(vec!["0001-z", "0002-y", "0010-x"]));
}

#[test]
fn test_patches_to_apply() {
    let files = strings(vec!["0002-b", "0000-cover", "0001-a"]);
    assert_eq!(patches_to_apply(files), strings(vec!["0001-a", "0002-b"]));
    let files = strings(vec!["v2-0001-a", "v2-0000-cover", "v2-0002-b"]);
    assert_eq!(
        patches_to_apply(files),
        strings(vec!["v2-0001-a", "v2-0002-b"])
    );
}

#[test]
fn test_format_patch_args() {
    // Two commits: no summary flag, no version flag at version one.
    let args = format_patch_args(&strings(vec!["bbb", "aaa"]), "master", 1);
    assert_eq!(
        args,
        strings(vec!["format-patch", "-o", "output-master", "aaa~..bbb"])
    );
    // Three commits at a later version: both flags, sanitized output
    // directory.
    let args = format_patch_args(&strings(vec!["ccc", "bbb", "aaa"]), "feature/x", 2);
    assert_eq!(
        args,
        strings(vec![
            "format-patch",
            "-o",
            "output-feature_x",
            "--cover-letter",
            "-v2",
            "aaa~..ccc"
        ])
    );
}

#[test]
fn test_send_email_args() {
    assert_eq!(
        send_email_args(&strings(vec![]), &strings(vec![]), &None),
        Err(SubmitError::NoAddresses)
    );
    let args = send_email_args(
        &strings(vec!["a@example.com"]),
        &strings(vec!["c@example.com"]),
        &Some(String::from("msg-id")),
    )
    .unwrap();
    assert_eq!(
        args,
        strings(vec![
            "send-email",
            "--to=a@example.com",
            "--cc=c@example.com",
            "--in-reply-to=msg-id"
        ])
    );
}

#[test]
fn test_editor_command() {
    assert_eq!(editor_command(&None), Err(SubmitError::EditorUnset));
    let (prog, args) = editor_command(&Some(String::from("truncate --size=0"))).unwrap();
    assert_eq!(prog, "truncate");
    assert_eq!(args, strings(vec!["--size=0"]));
    let (prog, args) = editor_command(&Some(String::from("vim"))).unwrap();
    assert_eq!(prog, "vim");
    assert_eq!(args.len(), 0);
}

#[test]
fn test_split_command() {
    assert_eq!(split_command("a  b"), strings(vec!["a", "", "b"]));
    assert_eq!(split_command(""), strings(vec![""]));
    assert_eq!(split_command("one"), strings(vec!["one"]));
}

#[test]
fn test_find_address_name() {
    let mb = Mailbox::new_with_name(String::from("Test Name"), String::from("test@example.com"));
    assert_eq!(format_addr(mb), String::from("Test Name <test@example.com>"));
}

#[test]
fn test_find_address_no_name() {
    let mb = Mailbox::new(String::from("test@example.com"));
    assert_eq!(format_addr(mb), String::from("test@example.com"));
}

#[test]
fn test_resolve_addresses_no_message() {
    // Without a message to read, the command-line addresses pass
    // through unchanged.
    assert_eq!(
        resolve_addresses(
            strings(vec!["test@example.com", "snd@example.com"]),
            None,
            "To"
        ),
        Ok(strings(vec!["test@example.com", "snd@example.com"]))
    );
}

#[test]
fn test_resolve_addresses_from_message() {
    // A fetched message's header addresses are appended behind the
    // given ones.
    let body = "From: Test Name <test@example.com>\r\nTo: git@example.org\r\n\r\nbody\r\n";
    let merged =
        resolve_addresses(strings(vec!["cmd@example.com"]), Some(body), "To").unwrap();
    assert_eq!(
        merged,
        strings(vec!["cmd@example.com", "git@example.org"])
    );
    let merged = resolve_addresses(Vec::new(), Some(body), "From").unwrap();
    assert_eq!(merged, strings(vec!["Test Name <test@example.com>"]));

    // Characters past the header block do not disturb the parse.
    let body = "To: t@example.com\r\n\r\nhéllo — body\r\n";
    let merged = resolve_addresses(Vec::new(), Some(body), "To").unwrap();
    assert_eq!(merged, strings(vec!["t@example.com"]));
}

#[test]
fn test_resolve_addresses_refuses_untame_messages() {
    // Texts the mail parser cannot be trusted with are refused before
    // it sees them: a header value ending in whitespace, an encoded
    // word, a line ending in an equals sign, a content-type header.
    let cases = [
        "To: x \r\n\r\nbody\r\n",
        "To: =?utf-8?X?a?= <t@example.com>\r\n\r\nbody\r\n",
        "To: a=\r\n?b@example.com\r\n\r\nbody\r\n",
        "Content-Type: text/plain; charset\r\nTo: t@example.com\r\n\r\nbody\r\n",
        "content-type: text/plain; charset\r\nTo: t@example.com\r\n\r\nbody\r\n",
        "To: t\u{7}x@example.com\r\n\r\nbody\r\n",
        "To: tüx@example.com\r\n\r\nbody\r\n",
        "To: \"=\\?utf-8\\?X\\?a\\?=\" <t@example.com>\r\n\r\nbody\r\n",
        "To: \"=\\?utf-8\\?q\\?=\\?=\" <t@example.com>\r\n\r\nbody\r\n",
    ];
    for body in cases {
        assert_eq!(
            resolve_addresses(strings(vec!["a@example.com"]), Some(body), "To"),
            Err(SubmitError::MalformedMessage),
            "{}",
            body
        );
    }
}

#[test]
fn test_error_messages() {
    assert!(!SubmitError::NothingToSubmit.message().is_empty());
    assert_eq!(
        SubmitError::NoAddresses.message(),
        "please specify at least one address"
    );
    assert_eq!(
        SubmitError::EditorUnset.message(),
        "EDITOR environment variable has to be set"
    );
    assert_eq!(
        SubmitError::Store(String::from("reference not found")).message(),
        "the object store refused an operation: reference not found"
    );
}
