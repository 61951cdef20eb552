//! The activity records that the pipeline works on.
//!
//! Each record holds, as plain values, exactly what the pipeline reads:
//! a pull request's identifier and free-text fields together with its
//! opaque passthrough fields, a commit's hash and message, and an
//! issue's identifier. The transport that delivers them is a caller
//! concern; the pipeline never sees it.

use vstd::prelude::*;

verus! {

/// A pull request: identifier, optional free-text fields, and
/// passthrough fields (lifecycle state and timestamps) that the
/// pipeline carries but never interprets.
pub struct PullRequestRecord {
    pub number: u64,
    pub title: Option<String>,
    pub body: Option<String>,
    pub state: String,
    pub created_at: Option<String>,
    pub merged_at: Option<String>,
}

/// A commit: unique hash and its message text.
pub struct CommitRecord {
    pub sha: String,
    pub message: String,
}

/// An issue: identifier only; all other metadata is a passthrough
/// concern of the caller.
pub struct IssueRecord {
    pub number: u64,
}

impl PullRequestRecord {
    /// Field-for-field copy.
    pub fn duplicate(&self) -> (r: Self)
        ensures
            r == *self,
    {
        PullRequestRecord {
            number: self.number,
            title: match &self.title {
                Some(t) => Some(t.clone()),
                None => None,
            },
            body: match &self.body {
                Some(t) => Some(t.clone()),
                None => None,
            },
            state: self.state.clone(),
            created_at: match &self.created_at {
                Some(t) => Some(t.clone()),
                None => None,
            },
            merged_at: match &self.merged_at {
                Some(t) => Some(t.clone()),
                None => None,
            },
        }
    }
}

impl CommitRecord {
    /// Field-for-field copy.
    pub fn duplicate(&self) -> (r: Self)
        ensures
            r == *self,
    {
        CommitRecord { sha: self.sha.clone(), message: self.message.clone() }
    }
}

impl IssueRecord {
    /// Field-for-field copy.
    pub fn duplicate(&self) -> (r: Self)
        ensures
            r == *self,
    {
        IssueRecord { number: self.number }
    }
}

} // verus!
