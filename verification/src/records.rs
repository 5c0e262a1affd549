//! The data the crawl works on: repositories, commits, and the accounts
//! attached to them. Timestamps arrive as RFC 3339 strings exactly as the
//! listing returned them; parsing happens where the logic needs the instant.

use vstd::prelude::*;

verus! {

/// A repository as listed for the organization: its API URL and the
/// RFC 3339 timestamp of its most recent push.
#[derive(Debug)]
pub struct Repo {
    pub url: String,
    pub pushed_at: String,
}

/// A platform account attached to a commit. Either field may be absent:
/// an unlinked git identity has no login and no profile URL, and only
/// accounts carrying both are eligible for aggregation.
#[derive(Debug)]
pub struct Account {
    pub login: Option<String>,
    pub html_url: Option<String>,
}

/// Structured commit metadata: the author and committer dates of the
/// commit, as RFC 3339 strings. A commit that carries metadata carries
/// both dates.
#[derive(Debug)]
pub struct CommitDates {
    pub author_date: String,
    pub committer_date: String,
}

/// One entry of a commit page. Metadata and the two accounts are each
/// optional; absence means "skip that part", never an error.
#[derive(Debug)]
pub struct CommitRecord {
    pub dates: Option<CommitDates>,
    pub author: Option<Account>,
    pub committer: Option<Account>,
}

/// Why the walk of a single repository failed. Such a failure is isolated:
/// it is reported beside the other repositories' results, never propagated
/// as a failure of the whole run.
#[derive(Debug)]
pub enum WalkError {
    /// A commit timestamp did not parse as RFC 3339; carries the offending
    /// string.
    BadTimestamp(String),
    /// The transport failed or the service answered with an error status;
    /// carries the fetching shell's description of the cause.
    Transport(String),
}

impl Repo {
    /// An equal copy of this repository entry.
    pub fn duplicate(&self) -> (r: Repo)
        ensures
            r == *self,
    {
        Repo { url: self.url.clone(), pushed_at: self.pushed_at.clone() }
    }
}

/// An equal copy of an optional string.
fn duplicate_opt_string(s: &Option<String>) -> (r: Option<String>)
    ensures
        r == *s,
{
    match s {
        Option::Some(v) => Option::Some(v.clone()),
        Option::None => Option::None,
    }
}

impl Account {
    /// An equal copy of this account.
    pub fn duplicate(&self) -> (r: Account)
        ensures
            r == *self,
    {
        Account {
            login: duplicate_opt_string(&self.login),
            html_url: duplicate_opt_string(&self.html_url),
        }
    }
}

impl CommitDates {
    /// An equal copy of these commit dates.
    pub fn duplicate(&self) -> (r: CommitDates)
        ensures
            r == *self,
    {
        CommitDates {
            author_date: self.author_date.clone(),
            committer_date: self.committer_date.clone(),
        }
    }
}

impl CommitRecord {
    /// An equal copy of this commit record.
    pub fn duplicate(&self) -> (r: CommitRecord)
        ensures
            r == *self,
    {
        CommitRecord {
            dates: match &self.dates {
                Option::Some(d) => Option::Some(d.duplicate()),
                Option::None => Option::None,
            },
            author: match &self.author {
                Option::Some(a) => Option::Some(a.duplicate()),
                Option::None => Option::None,
            },
            committer: match &self.committer {
                Option::Some(a) => Option::Some(a.duplicate()),
                Option::None => Option::None,
            },
        }
    }
}

} // verus!
