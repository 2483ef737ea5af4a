//! The error taxonomy of one submission run.
//!
//! Precondition errors report a repository that is not ready; resource
//! and configuration errors and external failures are fatal and drive
//! the compensation chosen by the stage that was reached.
use vstd::prelude::*;

verus! {

#[derive(Debug, PartialEq, Eq)]
pub enum SubmitError {
    /// The working tree has pending changes; nothing was attempted.
    DirtyWorkTree,
    /// No branch points at the head reference.
    NoCurrentBranch,
    /// The resolved series is empty: nothing to submit.
    NothingToSubmit,
    /// The series covers the whole history, so there is no commit to
    /// reset to before reapplying the artifacts.
    NoParent,
    /// A version above one needs a reply reference to the thread of
    /// the earlier submission.
    MissingReplyReference,
    /// No editor command is configured.
    EditorUnset,
    /// The external patch generation reported failure.
    GenerationFailed,
    /// Reapplying an artifact failed; history was rolled back.
    ApplyFailed,
    /// The version tag could not be written.
    TagFailed,
    /// No recipient address was given or resolved.
    NoAddresses,
    /// The external transmission reported failure.
    SendFailed,
    /// A fetched message could not be read for addresses.
    MalformedMessage,
    /// The object store refused an operation.
    Store(String),
}

impl SubmitError {
    /// A short description, fit for reporting the aborted run; a store
    /// failure carries the store's own description.
    pub fn message(&self) -> (m: String)
        ensures
            m@.len() > 0,
            self matches SubmitError::Store(d) ==> m@ == (
            "the object store refused an operation: ")@ + d@,
    {
        match self {
            SubmitError::Store(d) => {
                let mut m = "the object store refused an operation: ".to_owned();
                m.append(d.as_str());
                proof {
                    reveal_strlit("the object store refused an operation: ");
                }
                return m;
            },
            _ => {},
        }
        let s: &str = match self {
            SubmitError::DirtyWorkTree => "the working tree has pending changes",
            SubmitError::NoCurrentBranch => "no branch pointing to HEAD",
            SubmitError::NothingToSubmit => "no commits to submit",
            SubmitError::NoParent => "the series has no parent commit to rebuild onto",
            SubmitError::MissingReplyReference => "a resubmission needs a reply reference",
            SubmitError::EditorUnset => "EDITOR environment variable has to be set",
            SubmitError::GenerationFailed => "patch generation failed",
            SubmitError::ApplyFailed => "patch application failed",
            SubmitError::TagFailed => "the version tag could not be written",
            SubmitError::NoAddresses => "please specify at least one address",
            SubmitError::SendFailed => "transmission failed",
            SubmitError::MalformedMessage => "message could not be parsed",
            SubmitError::Store(_) => "the object store refused an operation: ",
        };
        proof {
            reveal_strlit("the working tree has pending changes");
            reveal_strlit("no branch pointing to HEAD");
            reveal_strlit("no commits to submit");
            reveal_strlit("the series has no parent commit to rebuild onto");
            reveal_strlit("a resubmission needs a reply reference");
            reveal_strlit("EDITOR environment variable has to be set");
            reveal_strlit("patch generation failed");
            reveal_strlit("patch application failed");
            reveal_strlit("the version tag could not be written");
            reveal_strlit("please specify at least one address");
            reveal_strlit("transmission failed");
            reveal_strlit("message could not be parsed");
            reveal_strlit("the object store refused an operation: ");
        }
        s.to_owned()
    }
}

} // verus!
