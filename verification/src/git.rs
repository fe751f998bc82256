//! What version control reports, sorted into the backend's answers.
//!
//! Opening the repository and walking it is left to the caller. This module
//! takes what those calls returned, as plain values, and builds the answers.

use vstd::prelude::*;
use vstd::string::StringExecFns;
use crate::files::{STATUS_INTERNAL_SERVER_ERROR, STATUS_NOT_FOUND};

verus! {

/// The state of the working tree: the branch that is checked out, and the
/// paths that changed, by kind of change.
#[derive(Debug, PartialEq, Eq)]
pub struct GitStatus {
    pub branch: String,
    pub modified: Vec<String>,
    pub created: Vec<String>,
    pub deleted: Vec<String>,
    pub staged: Vec<String>,
}

/// One local branch.
#[derive(Debug, PartialEq, Eq)]
pub struct GitBranch {
    pub name: String,
    pub is_current: bool,
}

/// One commit of the log.
#[derive(Debug, PartialEq, Eq)]
pub struct GitCommit {
    pub id: String,
    pub author: String,
    pub message: String,
    pub timestamp: i64,
}

/// One line of a patch, with the file it belongs to.
#[derive(Debug, PartialEq, Eq)]
pub struct GitDiff {
    pub path: String,
    pub diff: String,
}

/// A request to commit all changes.
#[derive(Debug, PartialEq, Eq)]
pub struct CommitRequest {
    pub message: String,
}

/// A request to check a branch out.
#[derive(Debug, PartialEq, Eq)]
pub struct CheckoutRequest {
    pub branch: String,
}

/// The file a diff is asked for, if it is asked for one file only.
#[derive(Debug, PartialEq, Eq)]
pub struct DiffQuery {
    pub file: Option<String>,
}

/// Why a version-control request failed.
#[derive(Debug, PartialEq, Eq)]
pub enum GitError {
    /// Version control itself failed, with this message.
    Git(String),
    NotFound,
}

impl GitError {
    /// The status the error is answered with.
    pub open spec fn spec_status(&self) -> u16 {
        match self {
            GitError::Git(_) => STATUS_INTERNAL_SERVER_ERROR,
            GitError::NotFound => STATUS_NOT_FOUND,
        }
    }

    /// The text the error is answered with.
    pub open spec fn spec_message(&self) -> Seq<char> {
        match self {
            GitError::Git(message) => message@,
            GitError::NotFound => "Not found"@,
        }
    }

    /// The status and the text the error is answered with.
    pub fn into_parts(self) -> (parts: (u16, String))
        ensures
            parts.0 == self.spec_status(),
            parts.1@ == self.spec_message(),
    {
        match self {
            GitError::Git(message) => (STATUS_INTERNAL_SERVER_ERROR, message),
            GitError::NotFound => (STATUS_NOT_FOUND, String::from_str("Not found")),
        }
    }
}

/// One path of the working tree with the status flags version control gave it.
#[derive(Debug, PartialEq, Eq)]
pub struct StatusEntry {
    pub path: String,
    pub status: u32,
}

/// Flag of a path that is new in the index.
pub const STATUS_INDEX_NEW: u32 = 0x1;

/// Flag of a path that is modified in the index.
pub const STATUS_INDEX_MODIFIED: u32 = 0x2;

/// Flag of a path that is deleted in the index.
pub const STATUS_INDEX_DELETED: u32 = 0x4;

/// Flag of a path that is new in the working tree.
pub const STATUS_WT_NEW: u32 = 0x80;

/// Flag of a path that is modified in the working tree.
pub const STATUS_WT_MODIFIED: u32 = 0x100;

/// Flag of a path that is deleted in the working tree.
pub const STATUS_WT_DELETED: u32 = 0x200;

/// Whether `status` has any bit of `flag` set.
pub open spec fn has_flag(status: u32, flag: u32) -> bool {
    status & flag != 0
}

/// `git2::Status::is_index_new`, on the status that `from_bits_truncate`
/// makes of `bits`. Trusted: the answer is whether the bit
/// [`STATUS_INDEX_NEW`] is set in `bits`.
#[verifier::external_body]
fn status_is_index_new(bits: u32) -> (set: bool)
    ensures
        set == has_flag(bits, STATUS_INDEX_NEW),
{
    git2::Status::from_bits_truncate(bits).is_index_new()
}

/// `git2::Status::is_index_modified`, on the status that `from_bits_truncate`
/// makes of `bits`. Trusted: the answer is whether the bit
/// [`STATUS_INDEX_MODIFIED`] is set in `bits`.
#[verifier::external_body]
fn status_is_index_modified(bits: u32) -> (set: bool)
    ensures
        set == has_flag(bits, STATUS_INDEX_MODIFIED),
{
    git2::Status::from_bits_truncate(bits).is_index_modified()
}

/// `git2::Status::is_index_deleted`, on the status that `from_bits_truncate`
/// makes of `bits`. Trusted: the answer is whether the bit
/// [`STATUS_INDEX_DELETED`] is set in `bits`.
#[verifier::external_body]
fn status_is_index_deleted(bits: u32) -> (set: bool)
    ensures
        set == has_flag(bits, STATUS_INDEX_DELETED),
{
    git2::Status::from_bits_truncate(bits).is_index_deleted()
}

/// `git2::Status::is_wt_new`, on the status that `from_bits_truncate` makes
/// of `bits`. Trusted: the answer is whether the bit [`STATUS_WT_NEW`] is set
/// in `bits`.
#[verifier::external_body]
fn status_is_wt_new(bits: u32) -> (set: bool)
    ensures
        set == has_flag(bits, STATUS_WT_NEW),
{
    git2::Status::from_bits_truncate(bits).is_wt_new()
}

/// `git2::Status::is_wt_modified`, on the status that `from_bits_truncate`
/// makes of `bits`. Trusted: the answer is whether the bit
/// [`STATUS_WT_MODIFIED`] is set in `bits`.
#[verifier::external_body]
fn status_is_wt_modified(bits: u32) -> (set: bool)
    ensures
        set == has_flag(bits, STATUS_WT_MODIFIED),
{
    git2::Status::from_bits_truncate(bits).is_wt_modified()
}

/// `git2::Status::is_wt_deleted`, on the status that `from_bits_truncate`
/// makes of `bits`. Trusted: the answer is whether the bit
/// [`STATUS_WT_DELETED`] is set in `bits`.
#[verifier::external_body]
fn status_is_wt_deleted(bits: u32) -> (set: bool)
    ensures
        set == has_flag(bits, STATUS_WT_DELETED),
{
    git2::Status::from_bits_truncate(bits).is_wt_deleted()
}

/// A kind of change that a status speaks of.
#[derive(Clone, Copy, Debug, PartialEq, Eq, Structural)]
pub enum Change {
    /// The index differs from the last commit.
    Staged,
    /// The content differs, in the index or in the working tree.
    Modified,
    /// The path is new, in the index or in the working tree.
    Created,
    /// The path is gone, from the index or from the working tree.
    Deleted,
}

/// Whether a path with the flags `status` shows the change `change`.
pub open spec fn shows(status: u32, change: Change) -> bool {
    match change {
        Change::Staged => has_flag(status, STATUS_INDEX_NEW) || has_flag(
            status,
            STATUS_INDEX_MODIFIED,
        ) || has_flag(status, STATUS_INDEX_DELETED),
        Change::Modified => has_flag(status, STATUS_WT_MODIFIED) || has_flag(
            status,
            STATUS_INDEX_MODIFIED,
        ),
        Change::Created => has_flag(status, STATUS_WT_NEW) || has_flag(status, STATUS_INDEX_NEW),
        Change::Deleted => has_flag(status, STATUS_WT_DELETED) || has_flag(
            status,
            STATUS_INDEX_DELETED,
        ),
    }
}

/// The path of an entry that shows `change`, and nothing for one that does not.
pub open spec fn path_showing(change: Change) -> spec_fn(StatusEntry) -> Option<String> {
    |entry: StatusEntry|
        if shows(entry.status, change) {
            Some(entry.path)
        } else {
            None
        }
}

/// The paths of the entries that show `change`, in the entries' order.
pub open spec fn paths_showing(entries: Seq<StatusEntry>, change: Change) -> Seq<String> {
    entries.filter_map(path_showing(change))
}

/// Whether a path with the flags `status` shows the change `change`.
pub fn status_shows(status: u32, change: Change) -> (shown: bool)
    ensures
        shown == shows(status, change),
{
    match change {
        Change::Staged => status_is_index_new(status) || status_is_index_modified(status)
            || status_is_index_deleted(status),
        Change::Modified => status_is_wt_modified(status) || status_is_index_modified(status),
        Change::Created => status_is_wt_new(status) || status_is_index_new(status),
        Change::Deleted => status_is_wt_deleted(status) || status_is_index_deleted(status),
    }
}

/// The name of the branch that is checked out, as a status gives it: the
/// short name of the head, or "HEAD" where the head has none that is text.
pub open spec fn status_branch(head: Option<&str>) -> Seq<char> {
    match head {
        Some(short) => short@,
        None => "HEAD"@,
    }
}

/// The name that marks a branch as current: the short name of the head, or
/// the empty name where the head has none that is text.
pub open spec fn current_branch(head: Option<&str>) -> Seq<char> {
    match head {
        Some(short) => short@,
        None => Seq::empty(),
    }
}

impl StatusEntry {
    /// The entry of a path. A path that is no text is entered as the empty
    /// path.
    pub fn new(path: Option<&str>, status: u32) -> (entry: StatusEntry)
        ensures
            entry.status == status,
            entry.path@ == (match path {
                Some(text) => text@,
                None => Seq::<char>::empty(),
            }),
    {
        match path {
            Some(text) => StatusEntry { path: String::from_str(text), status },
            None => StatusEntry { path: String::new(), status },
        }
    }
}

impl GitStatus {
    /// The state of a working tree whose head goes by `head` and whose paths
    /// are `entries`.
    ///
    /// Each list holds the paths that show its kind of change, in the order
    /// of the entries; a path that shows several is in several lists.
    pub fn collect(head: Option<&str>, entries: &Vec<StatusEntry>) -> (status: GitStatus)
        ensures
            status.branch@ == status_branch(head),
            status.staged@ == paths_showing(entries@, Change::Staged),
            status.modified@ == paths_showing(entries@, Change::Modified),
            status.created@ == paths_showing(entries@, Change::Created),
            status.deleted@ == paths_showing(entries@, Change::Deleted),
    {
        let mut modified: Vec<String> = Vec::new();
        let mut created: Vec<String> = Vec::new();
        let mut deleted: Vec<String> = Vec::new();
        let mut staged: Vec<String> = Vec::new();
        let mut i: usize = 0;
        while i < entries.len()
            invariant
                i <= entries.len(),
                staged@ == paths_showing(entries@.take(i as int), Change::Staged),
                modified@ == paths_showing(entries@.take(i as int), Change::Modified),
                created@ == paths_showing(entries@.take(i as int), Change::Created),
                deleted@ == paths_showing(entries@.take(i as int), Change::Deleted),
            decreases entries.len() - i,
        {
            let entry = &entries[i];
            proof {
                entries@.lemma_filter_map_take_succ(path_showing(Change::Staged), i as int);
                entries@.lemma_filter_map_take_succ(path_showing(Change::Modified), i as int);
                entries@.lemma_filter_map_take_succ(path_showing(Change::Created), i as int);
                entries@.lemma_filter_map_take_succ(path_showing(Change::Deleted), i as int);
            }
            if status_shows(entry.status, Change::Staged) {
                staged.push(entry.path.clone());
            }
            if status_shows(entry.status, Change::Modified) {
                modified.push(entry.path.clone());
            }
            if status_shows(entry.status, Change::Created) {
                created.push(entry.path.clone());
            }
            if status_shows(entry.status, Change::Deleted) {
                deleted.push(entry.path.clone());
            }
            i += 1;
        }
        assert(entries@.take(entries.len() as int) =~= entries@);
        let branch = match head {
            Some(short) => String::from_str(short),
            None => String::from_str("HEAD"),
        };
        GitStatus { branch, modified, created, deleted, staged }
    }
}

/// The branch a name stands for, marked as current where the name is that of
/// the branch checked out; nothing for a branch whose name is no text.
pub open spec fn branch_named(current: Seq<char>) -> spec_fn(Option<String>) -> Option<GitBranch> {
    |name: Option<String>|
        match name {
            Some(name) => Some(GitBranch { name, is_current: name@ == current }),
            None => None,
        }
}

/// The local branches, given their names and the short name of the head.
///
/// The branches come in the order of their names; one whose name is no text
/// is left out. The branch that has the name of the head is marked as current.
pub fn list_branches(names: &Vec<Option<String>>, head: Option<&str>) -> (branches: Vec<
    GitBranch,
>)
    ensures
        branches@ == names@.filter_map(branch_named(current_branch(head))),
{
    let current = match head {
        Some(short) => String::from_str(short),
        None => String::new(),
    };
    let mut branches: Vec<GitBranch> = Vec::new();
    let mut i: usize = 0;
    while i < names.len()
        invariant
            i <= names.len(),
            branches@ == names@.take(i as int).filter_map(branch_named(current@)),
        decreases names.len() - i,
    {
        proof {
            names@.lemma_filter_map_take_succ(branch_named(current@), i as int);
        }
        match &names[i] {
            Some(name) => {
                let is_current = *name == current;
                branches.push(GitBranch { name: name.clone(), is_current });
            },
            None => {},
        }
        i += 1;
    }
    assert(names@.take(names.len() as int) =~= names@);
    branches
}

/// The full name of the reference of a local branch.
pub fn branch_ref(branch: &str) -> (reference: String)
    ensures
        reference@ == "refs/heads/"@ + branch@,
{
    let mut reference = String::from_str("refs/heads/");
    reference.append(branch);
    reference
}

/// One line of a patch as version control hands it out: the new path of the
/// file it belongs to, if the file has one, and the line itself.
#[derive(Debug, PartialEq, Eq)]
pub struct PatchLine {
    pub path: Option<String>,
    pub content: String,
}

/// The line of a diff that a patch line makes; nothing for a line whose file
/// has no new path.
pub open spec fn diff_of() -> spec_fn(PatchLine) -> Option<GitDiff> {
    |line: PatchLine|
        match line.path {
            Some(path) => Some(GitDiff { path, diff: line.content }),
            None => None,
        }
}

/// The diff that the lines of a patch make, in the lines' order.
pub fn diff_lines(lines: &Vec<PatchLine>) -> (diffs: Vec<GitDiff>)
    ensures
        diffs@ == lines@.filter_map(diff_of()),
{
    let mut diffs: Vec<GitDiff> = Vec::new();
    let mut i: usize = 0;
    while i < lines.len()
        invariant
            i <= lines.len(),
            diffs@ == lines@.take(i as int).filter_map(diff_of()),
        decreases lines.len() - i,
    {
        proof {
            lines@.lemma_filter_map_take_succ(diff_of(), i as int);
        }
        let line = &lines[i];
        match &line.path {
            Some(path) => {
                diffs.push(GitDiff { path: path.clone(), diff: line.content.clone() });
            },
            None => {},
        }
        i += 1;
    }
    assert(lines@.take(lines.len() as int) =~= lines@);
    diffs
}

/// The most commits a log answers with.
pub const LOG_LIMIT: usize = 50;

/// One commit as version control hands it out.
#[derive(Debug, PartialEq, Eq)]
pub struct CommitRecord {
    pub id: String,
    pub author: Option<String>,
    pub message: Option<String>,
    pub seconds: i64,
}

impl GitCommit {
    /// Whether the commit is the log's entry for `record`: an author whose
    /// name is no text goes by "Unknown", a message that is no text is empty.
    pub open spec fn is_entry_of(&self, record: CommitRecord) -> bool {
        &&& self.id == record.id
        &&& self.timestamp == record.seconds
        &&& self.author@ == (match record.author {
            Some(author) => author@,
            None => "Unknown"@,
        })
        &&& self.message@ == (match record.message {
            Some(message) => message@,
            None => Seq::<char>::empty(),
        })
    }

    /// The log's entry for `record`.
    pub fn from_record(record: &CommitRecord) -> (commit: GitCommit)
        ensures
            commit.is_entry_of(*record),
    {
        let author = match &record.author {
            Some(author) => author.clone(),
            None => String::from_str("Unknown"),
        };
        let message = match &record.message {
            Some(message) => message.clone(),
            None => String::new(),
        };
        GitCommit { id: record.id.clone(), author, message, timestamp: record.seconds }
    }
}

/// The log for the commits `records`: an entry for each of the first
/// [`LOG_LIMIT`] of them, in their order.
pub fn log_entries(records: &Vec<CommitRecord>) -> (commits: Vec<GitCommit>)
    ensures
        commits.len() == if records.len() < LOG_LIMIT {
            records.len()
        } else {
            LOG_LIMIT
        },
        forall|i: int| 0 <= i < commits.len() ==> (#[trigger] commits[i]).is_entry_of(records[i]),
{
    let mut commits: Vec<GitCommit> = Vec::new();
    let mut i: usize = 0;
    while i < records.len() && i < LOG_LIMIT
        invariant
            i <= records.len(),
            i <= LOG_LIMIT,
            commits.len() == i,
            forall|k: int| 0 <= k < i ==> (#[trigger] commits[k]).is_entry_of(records[k]),
        decreases records.len() - i,
    {
        commits.push(GitCommit::from_record(&records[i]));
        i += 1;
    }
    commits
}

} // verus!
