//! The remote side of a push: the commit that a push describes, and the
//! validity of each pushed commit, known only once the remote has finished
//! unpacking and checking it.

use vstd::prelude::*;
use crate::commit::Commit;

verus! {

/// The query parameters with which a commit's data is posted.
#[derive(Debug, Clone)]
pub struct CommitQuery {
    pub commit_id: String,
    pub parent_id: Option<String>,
    pub message: String,
    pub author: String,
    pub date: String,
}

impl CommitQuery {
    /// The commit that the query describes, with its date already read as
    /// seconds since the Unix epoch.
    pub fn to_commit(&self, timestamp: i64) -> (r: Commit)
        ensures
            r.id == self.commit_id,
            r.parent_id == self.parent_id,
            r.message == self.message,
            r.author == self.author,
            r.timestamp == timestamp,
    {
        let parent_id = match &self.parent_id {
            Some(p) => Some(p.clone()),
            None => None,
        };
        Commit {
            id: self.commit_id.clone(),
            parent_id,
            message: self.message.clone(),
            author: self.author.clone(),
            timestamp,
        }
    }
}

/// What the remote knows of pushed commits: for each, `None` while it is
/// being unpacked and checked, then whether it is valid.
pub struct RemoteSyncStatus {
    entries: Vec<(String, Option<bool>)>,
}

impl RemoteSyncStatus {
    /// The known commits and their state.
    pub closed spec fn states(&self) -> Map<Seq<char>, Option<bool>> {
        Map::new(
            |k: Seq<char>| exists|i: int| 0 <= i < self.entries@.len() && self.entries@[i].0@ == k,
            |k: Seq<char>| self.entries@[choose|i: int| 0 <= i < self.entries@.len() && self.entries@[i].0@ == k].1,
        )
    }

    /// No commit is listed twice.
    pub closed spec fn wf(&self) -> bool {
        forall|i: int, j: int| 0 <= i < j < self.entries@.len() ==> self.entries@[i].0@ != self.entries@[j].0@
    }

    proof fn lemma_state_at(&self, i: int)
        requires
            self.wf(),
            0 <= i < self.entries@.len(),
        ensures
            self.states().contains_key(self.entries@[i].0@),
            self.states()[self.entries@[i].0@] == self.entries@[i].1,
    {
        let k = self.entries@[i].0@;
        assert(self.states().dom().contains(k));
        let j = choose|j: int| 0 <= j < self.entries@.len() && self.entries@[j].0@ == k;
        assert(j == i);
    }

    /// Nothing known yet.
    pub fn new() -> (r: RemoteSyncStatus)
        ensures
            r.wf(),
            r.states() == Map::<Seq<char>, Option<bool>>::empty(),
    {
        let r = RemoteSyncStatus { entries: Vec::new() };
        assert(r.states() =~= Map::<Seq<char>, Option<bool>>::empty());
        r
    }

    fn position(&self, id: &String) -> (r: Option<usize>)
        requires
            self.wf(),
        ensures
            match r {
                Some(i) => i < self.entries@.len() && self.entries@[i as int].0@ == id@,
                None => !self.states().contains_key(id@),
            },
    {
        let mut i: usize = 0;
        while i < self.entries.len()
            invariant
                i <= self.entries@.len(),
                forall|j: int| 0 <= j < i ==> self.entries@[j].0@ != id@,
            decreases self.entries@.len() - i,
        {
            if self.entries[i].0 == *id {
                return Some(i);
            }
            i = i + 1;
        }
        None
    }

    fn record(&mut self, commit_id: &str, state: Option<bool>)
        requires
            old(self).wf(),
        ensures
            final(self).wf(),
            final(self).states() == old(self).states().insert(commit_id@, state),
    {
        let id = commit_id.to_owned();
        let ghost before = self.states();
        let ghost old_entries = self.entries@;
        match self.position(&id) {
            Some(i) => {
                self.entries.set(i, (id, state));
                proof {
                    assert forall|k: Seq<char>| #[trigger] self.states().contains_key(k)
                        == before.insert(commit_id@, state).contains_key(k) by {
                        if before.contains_key(k) {
                            let j = choose|j: int| 0 <= j < old_entries.len() && old_entries[j].0@ == k;
                            assert(self.entries@[j].0@ == k);
                        }
                        if self.states().contains_key(k) {
                            let j = choose|j: int| 0 <= j < self.entries@.len() && self.entries@[j].0@ == k;
                            assert(old_entries[j].0@ == k);
                        }
                        if k == commit_id@ {
                            assert(self.entries@[i as int].0@ == k);
                        }
                    }
                    assert forall|k: Seq<char>| #[trigger] self.states().contains_key(k)
                        implies self.states()[k] == before.insert(commit_id@, state)[k] by {
                        let j = choose|j: int| 0 <= j < self.entries@.len() && self.entries@[j].0@ == k;
                        self.lemma_state_at(j);
                        if k != commit_id@ {
                            let j2 = choose|j2: int| 0 <= j2 < old_entries.len() && old_entries[j2].0@ == k;
                            assert(j2 == j);
                        }
                    }
                    assert(self.states() =~= before.insert(commit_id@, state));
                }
            },
            None => {
                self.entries.push((id, state));
                proof {
                    let n = old_entries.len() as int;
                    assert forall|k: Seq<char>| #[trigger] self.states().contains_key(k)
                        == before.insert(commit_id@, state).contains_key(k) by {
                        if before.contains_key(k) {
                            let j = choose|j: int| 0 <= j < old_entries.len() && old_entries[j].0@ == k;
                            assert(self.entries@[j].0@ == k);
                        }
                        if self.states().contains_key(k) && k != commit_id@ {
                            let j = choose|j: int| 0 <= j < self.entries@.len() && self.entries@[j].0@ == k;
                            assert(old_entries[j].0@ == k);
                        }
                        if k == commit_id@ {
                            assert(self.entries@[n].0@ == k);
                        }
                    }
                    assert forall|k: Seq<char>| #[trigger] self.states().contains_key(k)
                        implies self.states()[k] == before.insert(commit_id@, state)[k] by {
                        let j = choose|j: int| 0 <= j < self.entries@.len() && self.entries@[j].0@ == k;
                        self.lemma_state_at(j);
                        if k != commit_id@ {
                            let j2 = choose|j2: int| 0 <= j2 < old_entries.len() && old_entries[j2].0@ == k;
                            assert(j2 == j);
                        }
                    }
                    assert(self.states() =~= before.insert(commit_id@, state));
                }
            },
        }
    }

    /// The push of a commit is complete: the remote starts unpacking and
    /// checking it.
    pub fn begin_processing(&mut self, commit_id: &str)
        requires
            old(self).wf(),
        ensures
            final(self).wf(),
            final(self).states() == old(self).states().insert(commit_id@, None),
    {
        self.record(commit_id, None);
    }

    /// The remote has finished with a commit and found it valid or not.
    pub fn finish_processing(&mut self, commit_id: &str, is_valid: bool)
        requires
            old(self).wf(),
        ensures
            final(self).wf(),
            final(self).states() == old(self).states().insert(commit_id@, Some(is_valid)),
    {
        self.record(commit_id, Some(is_valid));
    }

    /// Whether a commit is valid, once that is known; `None` while the
    /// commit is unknown or still being processed.
    pub fn commit_is_synced(&self, commit_id: &str) -> (r: Option<bool>)
        requires
            self.wf(),
        ensures
            r == (if self.states().contains_key(commit_id@) { self.states()[commit_id@] } else { None }),
    {
        let id = commit_id.to_owned();
        match self.position(&id) {
            Some(i) => {
                proof {
                    self.lemma_state_at(i as int);
                }
                self.entries[i].1
            },
            None => None,
        }
    }
}

} // verus!
