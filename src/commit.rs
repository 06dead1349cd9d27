//! Commit records.

use vstd::prelude::*;

verus! {

/// One commit of the history: its identity, its parent (none for the root)
/// and what was said about it. The time is in seconds since the Unix epoch.
#[derive(Debug, Clone)]
pub struct Commit {
    pub id: String,
    pub parent_id: Option<String>,
    pub message: String,
    pub author: String,
    pub timestamp: i64,
}

impl Commit {
    /// A field-by-field copy.
    pub fn copied(&self) -> (r: Commit)
        ensures
            r == *self,
    {
        let parent_id = match &self.parent_id {
            Some(p) => Some(p.clone()),
            None => None,
        };
        Commit {
            id: self.id.clone(),
            parent_id,
            message: self.message.clone(),
            author: self.author.clone(),
            timestamp: self.timestamp,
        }
    }
}

} // verus!
