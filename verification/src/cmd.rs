//! The argument lists handed to the external tools: patch generation,
//! transmission, and the user's editor command line.
use vstd::prelude::*;

use crate::error::SubmitError;
use crate::names::{
    output_dir, range_expr, spec_output_dir, spec_range_expr, spec_version_flag, version_flag,
};

verus! {

/// Each element of `xs`, behind the prefix `p`.
pub open spec fn spec_prefixed(p: Seq<char>, xs: Seq<Seq<char>>) -> Seq<Seq<char>> {
    Seq::new(xs.len(), |i: int| p + xs[i])
}

/// The arguments of one patch-generation run: the output directory,
/// the summary flag from three commits on, the version flag from the
/// second version on, and the revision range from the oldest commit's
/// parent up to the newest.
pub open spec fn spec_format_patch_args(
    revs: Seq<Seq<char>>,
    branch: Seq<char>,
    version: nat,
) -> Seq<Seq<char>> {
    seq![("format-patch")@, ("-o")@, spec_output_dir(branch)] + (if revs.len() >= 3 {
        seq![("--cover-letter")@]
    } else {
        Seq::<Seq<char>>::empty()
    }) + (if version > 1 {
        seq![spec_version_flag(version)]
    } else {
        Seq::<Seq<char>>::empty()
    }) + seq![spec_range_expr(revs.last(), revs.first())]
}

/// Build the patch-generation arguments.
pub fn format_patch_args(revs: &Vec<String>, branch: &str, version: u32) -> (args: Vec<String>)
    requires
        revs@.len() >= 1,
        version >= 1,
    ensures
        args.deep_view() == spec_format_patch_args(revs.deep_view(), branch@, version as nat),
{
    let mut args: Vec<String> = Vec::new();
    args.push("format-patch".to_owned());
    args.push("-o".to_owned());
    args.push(output_dir(branch));
    if revs.len() >= 3 {
        args.push("--cover-letter".to_owned());
    }
    if version > 1 {
        args.push(version_flag(version));
    }
    args.push(range_expr(revs[revs.len() - 1].as_str(), revs[0].as_str()));
    proof {
        assert(revs.deep_view().len() == revs@.len());
        assert(revs.deep_view().last() == revs@[revs@.len() - 1]@);
        assert(revs.deep_view().first() == revs@[0]@);
        assert(args.deep_view() =~= spec_format_patch_args(
            revs.deep_view(),
            branch@,
            version as nat,
        ));
    }
    args
}

/// The arguments of one transmission run: every recipient, and the
/// reply reference where one was given. With no recipient at all the
/// run is refused before anything is sent.
pub open spec fn spec_send_email_args(
    to: Seq<Seq<char>>,
    cc: Seq<Seq<char>>,
    reply: Option<Seq<char>>,
) -> Seq<Seq<char>> {
    seq![("send-email")@] + spec_prefixed(("--to=")@, to) + spec_prefixed(("--cc=")@, cc) + (
    match reply {
        Some(r) => seq![("--in-reply-to=")@ + r],
        None => Seq::<Seq<char>>::empty(),
    })
}

/// Build the transmission arguments, or refuse a run with no
/// recipient.
pub fn send_email_args(to: &Vec<String>, cc: &Vec<String>, in_reply_to: &Option<String>) -> (r:
    Result<Vec<String>, SubmitError>)
    ensures
        r is Err <==> to@.len() == 0 && cc@.len() == 0,
        r is Err ==> r == Err::<Vec<String>, SubmitError>(SubmitError::NoAddresses),
        r matches Ok(args) ==> args.deep_view() == spec_send_email_args(
            to.deep_view(),
            cc.deep_view(),
            match in_reply_to {
                Some(s) => Some(s@),
                None => None,
            },
        ),
{
    if to.len() == 0 && cc.len() == 0 {
        return Err(SubmitError::NoAddresses);
    }
    let mut args: Vec<String> = Vec::new();
    args.push("send-email".to_owned());
    let mut i: usize = 0;
    while i < to.len()
        invariant
            0 <= i <= to@.len(),
            args.deep_view() =~= seq![("send-email")@] + spec_prefixed(
                ("--to=")@,
                to.deep_view().take(i as int),
            ),
        decreases to@.len() - i,
    {
        let mut a = "--to=".to_owned();
        a.append(to[i].as_str());
        let ghost prev = args.deep_view();
        let ghost av = a@;
        args.push(a);
        proof {
            assert(av == ("--to=")@ + to.deep_view()[i as int]);
            assert(args.deep_view() =~= prev.push(av));
            assert(args.deep_view() =~= seq![("send-email")@] + spec_prefixed(
                ("--to=")@,
                to.deep_view().take(i + 1),
            ));
        }
        i = i + 1;
    }
    proof {
        assert(to.deep_view().take(to@.len() as int) =~= to.deep_view());
    }
    let ghost head = seq![("send-email")@] + spec_prefixed(("--to=")@, to.deep_view());
    let mut j: usize = 0;
    while j < cc.len()
        invariant
            0 <= j <= cc@.len(),
            head == seq![("send-email")@] + spec_prefixed(("--to=")@, to.deep_view()),
            args.deep_view() =~= head + spec_prefixed(("--cc=")@, cc.deep_view().take(j as int)),
        decreases cc@.len() - j,
    {
        let mut a = "--cc=".to_owned();
        a.append(cc[j].as_str());
        let ghost prev = args.deep_view();
        let ghost av = a@;
        args.push(a);
        proof {
            assert(av == ("--cc=")@ + cc.deep_view()[j as int]);
            assert(args.deep_view() =~= prev.push(av));
            assert(args.deep_view() =~= head + spec_prefixed(
                ("--cc=")@,
                cc.deep_view().take(j + 1),
            ));
        }
        j = j + 1;
    }
    proof {
        assert(cc.deep_view().take(cc@.len() as int) =~= cc.deep_view());
    }
    match in_reply_to {
        Some(reply) => {
            let mut a = "--in-reply-to=".to_owned();
            a.append(reply.as_str());
            args.push(a);
        },
        None => {},
    }
    proof {
        assert(args.deep_view() =~= spec_send_email_args(
            to.deep_view(),
            cc.deep_view(),
            match in_reply_to {
                Some(s) => Some(s@),
                None => None,
            },
        ));
    }
    Ok(args)
}

/// The pieces of `s` from `i` on, split at every space, empty pieces
/// kept.
pub open spec fn split_from(s: Seq<char>, i: int) -> Seq<Seq<char>>
    decreases s.len() - i,
{
    if i < 0 || i >= s.len() {
        seq![Seq::<char>::empty()]
    } else if s[i] == ' ' {
        seq![Seq::<char>::empty()] + split_from(s, i + 1)
    } else {
        let rest = split_from(s, i + 1);
        rest.update(0, seq![s[i]] + rest[0])
    }
}

/// An editor command line split at spaces: the first piece is the
/// program, the rest are its fixed arguments.
pub open spec fn spec_split_spaces(s: Seq<char>) -> Seq<Seq<char>> {
    split_from(s, 0)
}

/// A split yields at least one piece.
pub proof fn lemma_split_from_len(s: Seq<char>, i: int)
    ensures
        split_from(s, i).len() >= 1,
    decreases s.len() - i,
{
    if !(i < 0 || i >= s.len()) {
        lemma_split_from_len(s, i + 1);
    }
}

/// Split the tail of `s` from `i` on at spaces.
fn split_rec(s: &str, i: usize) -> (r: Vec<String>)
    requires
        i <= s@.len(),
    ensures
        r.deep_view() == split_from(s@, i as int),
        r@.len() >= 1,
    decreases s@.len() - i,
{
    let n = s.unicode_len();
    if i >= n {
        let mut r: Vec<String> = Vec::new();
        r.push(String::new());
        proof {
            assert(r.deep_view() =~= split_from(s@, i as int));
        }
        return r;
    }
    let c = s.get_char(i);
    let mut rest = split_rec(s, i + 1);
    if c == ' ' {
        let ghost prev = rest.deep_view();
        rest.insert(0, String::new());
        proof {
            assert(rest.deep_view() =~= seq![Seq::<char>::empty()] + prev);
        }
        rest
    } else {
        let ghost prev = rest.deep_view();
        let first = rest.remove(0);
        let mut head = String::new();
        crate::text::push_char(&mut head, c);
        head.append(first.as_str());
        proof {
            assert(head@ =~= seq![s@[i as int]] + prev[0]);
        }
        rest.insert(0, head);
        proof {
            assert(rest.deep_view() =~= prev.update(0, seq![s@[i as int]] + prev[0]));
        }
        rest
    }
}

/// Split an editor command line at spaces.
pub fn split_command(s: &str) -> (r: Vec<String>)
    ensures
        r.deep_view() == spec_split_spaces(s@),
        r@.len() >= 1,
{
    split_rec(s, 0)
}

/// Resolve the configured editor command line: its first piece names
/// the program, the rest are arguments handed to every invocation. An
/// absent editor is a configuration error, never a silent no-op.
pub fn editor_command(editor: &Option<String>) -> (r: Result<(String, Vec<String>), SubmitError>)
    ensures
        r is Err <==> editor is None,
        r is Err ==> r == Err::<(String, Vec<String>), SubmitError>(SubmitError::EditorUnset),
        editor matches Some(e) ==> (r matches Ok(pair) ==> pair.0@ == spec_split_spaces(e@)[0]
            && pair.1.deep_view() == spec_split_spaces(e@).skip(1)),
{
    match editor {
        None => Err(SubmitError::EditorUnset),
        Some(e) => {
            proof {
                lemma_split_from_len(e@, 0);
            }
            let mut parts = split_command(e.as_str());
            let prog = parts.remove(0);
            proof {
                assert(parts.deep_view() =~= spec_split_spaces(e@).skip(1));
            }
            Ok((prog, parts))
        },
    }
}

} // verus!
