//! Checks on where the project stands before anything is listed or made.

use vstd::prelude::*;
use vstd::string::*;

verus! {

/// The full name of the reference that the workspace commit is checked out under.
pub open spec fn workspace_ref() -> Seq<char> {
    "refs/heads/gitbutler/workspace"@
}

/// The project has another reference checked out than the workspace reference.
#[derive(Clone, Debug, PartialEq, Eq)]
pub struct VerificationFailed {
    /// The full name of the reference that is checked out.
    pub checked_out: String,
}

/// The words in which a failed verification is reported: they name the reference that is
/// checked out.
pub open spec fn verification_message(checked_out: Seq<char>) -> Seq<char> {
    "<verification-failed>: project is on "@ + checked_out
        + ". Please checkout gitbutler/workspace to continue"@
}

impl VerificationFailed {
    /// The words in which the failure is reported.
    pub fn message(&self) -> (r: String)
        ensures
            r@ == verification_message(self.checked_out@),
    {
        String::from_str("<verification-failed>: project is on ").concat(
            self.checked_out.as_str(),
        ).concat(". Please checkout gitbutler/workspace to continue")
    }
}

/// Passes if the workspace reference is what is checked out, and fails with the name of
/// what is checked out if it is anything else.
pub fn verify_branch(checked_out: &String) -> (r: Result<(), VerificationFailed>)
    ensures
        r.is_ok() == (checked_out@ == workspace_ref()),
        r matches Err(failed) ==> failed.checked_out@ == checked_out@,
{
    let workspace = String::from_str("refs/heads/gitbutler/workspace");
    if *checked_out == workspace {
        Ok(())
    } else {
        Err(VerificationFailed { checked_out: checked_out.clone() })
    }
}

/// Why no stack can be made from a branch.
#[derive(Clone, Debug, PartialEq, Eq)]
pub enum BranchError {
    /// The branch is the upstream target itself.
    IsDefaultTarget,
    /// The store has no branch of that name.
    NotFound { branch: String },
}

/// The words in which a branch is refused.
pub open spec fn branch_message(branch_missing: Option<Seq<char>>) -> Seq<char> {
    match branch_missing {
        None => "cannot create a branch from default target"@,
        Some(branch) => "branch "@ + branch + " was not found"@,
    }
}

impl BranchError {
    /// The name of the missing branch, `None` where the branch is the target.
    pub open spec fn missing(&self) -> Option<Seq<char>> {
        match self {
            BranchError::IsDefaultTarget => None,
            BranchError::NotFound { branch } => Some(branch@),
        }
    }

    /// The words in which the branch is refused.
    pub fn message(&self) -> (r: String)
        ensures
            r@ == branch_message(self.missing()),
    {
        match self {
            BranchError::IsDefaultTarget => String::from_str(
                "cannot create a branch from default target",
            ),
            BranchError::NotFound { branch } => String::from_str("branch ").concat(
                branch.as_str(),
            ).concat(" was not found"),
        }
    }
}

/// Whether a stack can be made from the branch `branch`: not if it is the upstream target,
/// and not if the store does not have it, which `exists` says.
pub fn check_branch_source(target: Option<&String>, branch: &String, exists: bool) -> (r: Result<
    (),
    BranchError,
>)
    ensures
        match r {
            Ok(()) => exists && !(target matches Some(t) && t@ == branch@),
            Err(BranchError::IsDefaultTarget) => target matches Some(t) && t@ == branch@,
            Err(BranchError::NotFound { branch: missing }) => {
                &&& !exists
                &&& !(target matches Some(t) && t@ == branch@)
                &&& missing@ == branch@
            },
        },
{
    let is_target = match target {
        Some(t) => *t == *branch,
        None => false,
    };
    if is_target {
        Err(BranchError::IsDefaultTarget)
    } else if !exists {
        Err(BranchError::NotFound { branch: branch.clone() })
    } else {
        Ok(())
    }
}

} // verus!
