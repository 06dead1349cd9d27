//! One versioned file as of one commit.

use vstd::prelude::*;
use vstd::string::StringExecFns;
use crate::paths::{extension, extension_of};

verus! {

/// A file as of a commit: where it lives in the repository, the hash of its
/// content, its size and its modification time. Two entries are equal when
/// their paths are, whatever their content.
#[derive(Debug, Clone)]
pub struct CommitEntry {
    pub commit_id: String,
    pub path: String,
    pub hash: String,
    pub num_bytes: u64,
    pub last_modified_seconds: i64,
    pub last_modified_nanoseconds: u32,
}

/// How a file is known to a remote: its path and the hash of its content.
#[derive(Debug, Clone)]
pub struct RemoteEntry {
    pub filename: String,
    pub hash: String,
}

impl PartialEq for CommitEntry {
    fn eq(&self, other: &CommitEntry) -> (r: bool) {
        self.path == other.path
    }
}

impl vstd::std_specs::cmp::PartialEqSpecImpl for CommitEntry {
    open spec fn obeys_eq_spec() -> bool {
        true
    }

    open spec fn eq_spec(&self, other: &CommitEntry) -> bool {
        self.path@ == other.path@
    }
}

impl CommitEntry {
    /// An entry that only has a path, for looking entries up by path.
    pub fn from_path(path: &str) -> (r: CommitEntry)
        ensures
            r.path@ == path@,
            r.commit_id@ == Seq::<char>::empty(),
            r.hash@ == Seq::<char>::empty(),
            r.num_bytes == 0,
            r.last_modified_seconds == 0,
            r.last_modified_nanoseconds == 0,
    {
        CommitEntry {
            commit_id: String::new(),
            path: path.to_owned(),
            hash: String::new(),
            num_bytes: 0,
            last_modified_seconds: 0,
            last_modified_nanoseconds: 0,
        }
    }

    /// The extension of the path, without the dot; empty when there is none.
    pub fn extension(&self) -> (r: String)
        ensures
            r@ == extension_of(self.path@),
    {
        extension(self.path.as_str())
    }

    /// The name of the version file of this entry under another commit:
    /// `<commit id>.<extension>`.
    pub fn filename_from_commit_id(&self, commit_id: &str) -> (r: String)
        ensures
            r@ == commit_id@ + seq!['.'] + extension_of(self.path@),
    {
        let mut s = String::from_str(commit_id);
        proof {
            reveal_strlit(".");
        }
        s.append(".");
        let ext = self.extension();
        s.append(ext.as_str());
        s
    }

    /// The name of the version file of this entry: `<commit id>.<extension>`.
    pub fn filename(&self) -> (r: String)
        ensures
            r@ == self.commit_id@ + seq!['.'] + extension_of(self.path@),
    {
        self.filename_from_commit_id(self.commit_id.as_str())
    }

    /// A copy of the entry.
    pub fn to_synced(&self) -> (r: CommitEntry)
        ensures
            r == *self,
    {
        CommitEntry {
            commit_id: self.commit_id.clone(),
            path: self.path.clone(),
            hash: self.hash.clone(),
            num_bytes: self.num_bytes,
            last_modified_seconds: self.last_modified_seconds,
            last_modified_nanoseconds: self.last_modified_nanoseconds,
        }
    }

    /// The entry as a remote knows it.
    pub fn to_remote(&self) -> (r: RemoteEntry)
        ensures
            r.filename@ == self.path@,
            r.hash@ == self.hash@,
    {
        RemoteEntry { filename: self.path.clone(), hash: self.hash.clone() }
    }

    /// Whether a file's modification time, in seconds and nanoseconds since
    /// the Unix epoch, differs from the recorded one.
    pub fn has_different_modification_time(&self, seconds: i64, nanoseconds: u32) -> (r: bool)
        ensures
            r == (self.last_modified_nanoseconds != nanoseconds || self.last_modified_seconds != seconds),
    {
        self.last_modified_nanoseconds != nanoseconds || self.last_modified_seconds != seconds
    }
}

} // verus!
