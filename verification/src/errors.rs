use vstd::prelude::*;

verus! {

/// The failures a repository analysis can surface.  All are fatal: the run
/// aborts and no partial result is produced.
#[derive(Clone, Copy, PartialEq, Eq, Structural, Debug)]
pub enum AnalysisError {
    /// The repository could not be opened or read.
    RepositoryOpen,
    /// A `since` or `until` bound was not a valid calendar date.
    InvalidDate,
    /// A commit, tree or diff could not be read mid-walk.
    CommitRead,
}

impl AnalysisError {
    /// A human-readable description of the failure.
    pub fn message(&self) -> (r: &'static str)
        ensures
            (*self is RepositoryOpen) ==> r@ == "failed to open repository"@,
            (*self is InvalidDate) ==> r@ == "invalid date, use the format YYYY-MM-DD"@,
            (*self is CommitRead) ==> r@ == "failed to read commit history"@,
    {
        match self {
            AnalysisError::RepositoryOpen => "failed to open repository",
            AnalysisError::InvalidDate => "invalid date, use the format YYYY-MM-DD",
            AnalysisError::CommitRead => "failed to read commit history",
        }
    }
}

} // verus!
