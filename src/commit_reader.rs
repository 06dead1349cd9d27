//! The commit graph store: commit records keyed by id, a head pointer, and
//! the walk along parent links.

use vstd::prelude::*;
use crate::commit::Commit;
use crate::error::OxenError;

verus! {

/// No two records share an id.
pub open spec fn unique_ids(s: Seq<Commit>) -> bool {
    forall|i: int, j: int| 0 <= i < j < s.len() ==> s[i].id@ != s[j].id@
}

/// The records of a sequence, keyed by id.
pub open spec fn records_of(s: Seq<Commit>) -> Map<Seq<char>, Commit>
    decreases s.len(),
{
    if s.len() == 0 {
        Map::empty()
    } else {
        records_of(s.drop_last()).insert(s.last().id@, s.last())
    }
}

/// The history from `id`, most recent first, following parent links while
/// the id is known and at most `fuel` records deep. `None` when the chain is
/// still going after `fuel` records, which for a store of `fuel` records
/// means that it loops.
pub open spec fn walk(m: Map<Seq<char>, Commit>, id: Seq<char>, fuel: nat) -> Option<Seq<Commit>>
    decreases fuel,
{
    if !m.contains_key(id) {
        Some(Seq::empty())
    } else if fuel == 0 {
        None
    } else {
        let c = m[id];
        match c.parent_id {
            None => Some(seq![c]),
            Some(p) => match walk(m, p@, (fuel - 1) as nat) {
                Some(rest) => Some(seq![c] + rest),
                None => None,
            },
        }
    }
}

/// Every parent that a record names is itself a record.
pub open spec fn parents_closed(m: Map<Seq<char>, Commit>) -> bool {
    forall|k: Seq<char>| #[trigger] m.contains_key(k) && m[k].parent_id is Some
        ==> m.contains_key(m[k].parent_id->Some_0@)
}

proof fn lemma_records(s: Seq<Commit>, id: Seq<char>)
    requires
        unique_ids(s),
    ensures
        records_of(s).contains_key(id) <==> exists|i: int| 0 <= i < s.len() && s[i].id@ == id,
        forall|i: int| 0 <= i < s.len() && s[i].id@ == id ==> records_of(s)[id] == s[i],
    decreases s.len(),
{
    if s.len() > 0 {
        let t = s.drop_last();
        assert(unique_ids(t));
        lemma_records(t, id);
        if records_of(s).contains_key(id) && s.last().id@ != id {
            let i = choose|i: int| 0 <= i < t.len() && t[i].id@ == id;
            assert(s[i].id@ == id);
        }
        if exists|i: int| 0 <= i < s.len() && s[i].id@ == id {
            let i = choose|i: int| 0 <= i < s.len() && s[i].id@ == id;
            if i < s.len() - 1 {
                assert(t[i].id@ == id);
            }
        }
    }
}

proof fn lemma_records_update(s: Seq<Commit>, i: int, c: Commit)
    requires
        unique_ids(s),
        0 <= i < s.len(),
        s[i].id@ == c.id@,
    ensures
        unique_ids(s.update(i, c)),
        records_of(s.update(i, c)) == records_of(s).insert(c.id@, c),
{
    let u = s.update(i, c);
    assert(unique_ids(u));
    assert forall|k: Seq<char>| #[trigger] records_of(u).contains_key(k) == records_of(s).insert(c.id@, c).contains_key(k)
        && (records_of(u).contains_key(k) ==> records_of(u)[k] == records_of(s).insert(c.id@, c)[k]) by {
        lemma_records(s, k);
        lemma_records(u, k);
        if k == c.id@ {
            assert(u[i].id@ == k);
        } else if records_of(s).contains_key(k) {
            let j = choose|j: int| 0 <= j < s.len() && s[j].id@ == k;
            assert(u[j] == s[j]);
        } else if records_of(u).contains_key(k) {
            let j = choose|j: int| 0 <= j < u.len() && u[j].id@ == k;
            assert(s[j] == u[j]);
        }
    }
    assert(records_of(u) =~= records_of(s).insert(c.id@, c));
}

proof fn lemma_records_push(s: Seq<Commit>, c: Commit)
    requires
        unique_ids(s),
        !records_of(s).contains_key(c.id@),
    ensures
        unique_ids(s.push(c)),
        records_of(s.push(c)) == records_of(s).insert(c.id@, c),
{
    lemma_records(s, c.id@);
    assert(s.push(c).drop_last() =~= s);
}

/// A store of commit records with a head pointer. Writing a record whose id
/// is already present replaces it.
pub struct CommitReader {
    commits: Vec<Commit>,
    head: Option<String>,
}

impl CommitReader {
    /// Well-formedness: no two records share an id.
    pub closed spec fn wf(&self) -> bool {
        unique_ids(self.commits@)
    }

    /// The records, keyed by id.
    pub closed spec fn records(&self) -> Map<Seq<char>, Commit> {
        records_of(self.commits@)
    }

    /// How many records the store holds.
    pub closed spec fn record_count(&self) -> nat {
        self.commits@.len()
    }

    /// The id that the head points to, if any.
    pub closed spec fn head_id(&self) -> Option<Seq<char>> {
        match self.head {
            Some(h) => Some(h@),
            None => None,
        }
    }

    /// The history from `id` as the walk that is bounded by the number of
    /// records.
    pub open spec fn history_spec(&self, id: Seq<char>) -> Option<Seq<Commit>> {
        walk(self.records(), id, self.record_count())
    }

    /// A store that can be trusted for history: its head is a record, every
    /// parent is a record, and the chain from the head ends.
    pub open spec fn is_valid(&self) -> bool {
        &&& self.head_id() is Some
        &&& self.records().contains_key(self.head_id()->Some_0)
        &&& parents_closed(self.records())
        &&& self.history_spec(self.head_id()->Some_0) is Some
    }

    /// Each record is stored under its own id.
    pub proof fn lemma_keys(&self)
        requires
            self.wf(),
        ensures
            forall|k: Seq<char>| #[trigger] self.records().contains_key(k) ==> self.records()[k].id@ == k,
    {
        assert forall|k: Seq<char>| #[trigger] self.records().contains_key(k) implies self.records()[k].id@ == k by {
            lemma_records(self.commits@, k);
        }
    }

    /// An empty store without a head.
    pub fn new() -> (r: CommitReader)
        ensures
            r.wf(),
            r.records() == Map::<Seq<char>, Commit>::empty(),
            r.record_count() == 0,
            r.head_id() is None,
    {
        CommitReader { commits: Vec::new(), head: None }
    }

    /// The position of the record with this id, if there is one.
    fn position(&self, id: &String) -> (r: Option<usize>)
        ensures
            match r {
                Some(i) => i < self.commits@.len() && self.commits@[i as int].id@ == id@,
                None => forall|i: int| 0 <= i < self.commits@.len() ==> self.commits@[i].id@ != id@,
            },
    {
        let mut i: usize = 0;
        while i < self.commits.len()
            invariant
                i <= self.commits@.len(),
                forall|j: int| 0 <= j < i ==> self.commits@[j].id@ != id@,
            decreases self.commits@.len() - i,
        {
            if self.commits[i].id == *id {
                return Some(i);
            }
            i = i + 1;
        }
        None
    }

    fn find(&self, id: &String) -> (r: Option<&Commit>)
        requires
            self.wf(),
        ensures
            match r {
                Some(c) => self.records().contains_key(id@) && self.records()[id@] == *c,
                None => !self.records().contains_key(id@),
            },
    {
        proof {
            lemma_records(self.commits@, id@);
        }
        match self.position(id) {
            Some(i) => Some(&self.commits[i]),
            None => None,
        }
    }

    /// Stores a commit record. A record with the same id is replaced.
    pub fn put_commit(&mut self, commit: Commit)
        requires
            old(self).wf(),
        ensures
            final(self).wf(),
            final(self).records() == old(self).records().insert(commit.id@, commit),
            final(self).head_id() == old(self).head_id(),
            final(self).record_count() == old(self).record_count()
                + if old(self).records().contains_key(commit.id@) { 0nat } else { 1nat },
    {
        proof {
            lemma_records(self.commits@, commit.id@);
        }
        match self.position(&commit.id) {
            Some(i) => {
                proof {
                    lemma_records_update(self.commits@, i as int, commit);
                }
                self.commits.set(i, commit);
            },
            None => {
                proof {
                    lemma_records_push(self.commits@, commit);
                }
                self.commits.push(commit);
            },
        }
    }

    /// Points the head at `id`.
    pub fn set_head(&mut self, id: String)
        requires
            old(self).wf(),
        ensures
            final(self).wf(),
            final(self).head_id() == Some(id@),
            final(self).records() == old(self).records(),
            final(self).record_count() == old(self).record_count(),
    {
        self.head = Some(id);
    }

    /// Records a new commit and moves the head to it.
    pub fn add_commit(&mut self, commit: Commit)
        requires
            old(self).wf(),
        ensures
            final(self).wf(),
            final(self).records() == old(self).records().insert(commit.id@, commit),
            final(self).head_id() == Some(commit.id@),
            final(self).record_count() == old(self).record_count()
                + if old(self).records().contains_key(commit.id@) { 0nat } else { 1nat },
    {
        let id = commit.id.clone();
        self.put_commit(commit);
        self.set_head(id);
    }

    /// Whether a record with this id exists.
    pub fn commit_id_exists(&self, commit_id: &str) -> (r: bool)
        requires
            self.wf(),
        ensures
            r == self.records().contains_key(commit_id@),
    {
        let key = commit_id.to_owned();
        self.find(&key).is_some()
    }

    /// The record with this id, or `None` when it is unknown.
    pub fn get_commit_by_id(&self, commit_id: &str) -> (r: Option<Commit>)
        requires
            self.wf(),
        ensures
            match r {
                Some(c) => self.records().contains_key(commit_id@) && c == self.records()[commit_id@],
                None => !self.records().contains_key(commit_id@),
            },
    {
        let key = commit_id.to_owned();
        match self.find(&key) {
            Some(c) => Some(c.copied()),
            None => None,
        }
    }

    /// The commit that the head points to.
    pub fn head_commit(&self) -> (r: Result<Commit, OxenError>)
        requires
            self.wf(),
        ensures
            match self.head_id() {
                Some(h) => if self.records().contains_key(h) {
                    r == Ok::<Commit, OxenError>(self.records()[h])
                } else {
                    r == Err::<Commit, OxenError>(OxenError::NotFound)
                },
                None => r == Err::<Commit, OxenError>(OxenError::NotFound),
            },
    {
        match &self.head {
            Some(h) => match self.find(h) {
                Some(c) => Ok(c.copied()),
                None => Err(OxenError::NotFound),
            },
            None => Err(OxenError::NotFound),
        }
    }

    /// The history from `commit_id`, most recent first, down to a commit
    /// without a parent or to an id that the store does not hold. Fails with
    /// `IndexCorrupt` when the chain runs longer than the store has records,
    /// that is, when it loops.
    pub fn history_from_commit_id(&self, commit_id: &str) -> (r: Result<Vec<Commit>, OxenError>)
        requires
            self.wf(),
        ensures
            match self.history_spec(commit_id@) {
                Some(h) => r is Ok && r->Ok_0@ == h,
                None => r == Err::<Vec<Commit>, OxenError>(OxenError::IndexCorrupt),
            },
    {
        let ghost m = self.records();
        let ghost n = self.record_count();
        let total = self.commits.len();
        let mut out: Vec<Commit> = Vec::new();
        let mut cur: String = commit_id.to_owned();
        let mut steps: usize = 0;
        loop
            invariant
                self.wf(),
                m == self.records(),
                n == self.record_count(),
                total as nat == n,
                steps <= total,
                out@.len() == steps,
                walk(m, commit_id@, n) == match walk(m, cur@, (n - steps) as nat) {
                    Some(rest) => Some(out@ + rest),
                    None => None::<Seq<Commit>>,
                },
            decreases total - steps,
        {
            match self.find(&cur) {
                None => {
                    assert(out@ + Seq::<Commit>::empty() =~= out@);
                    return Ok(out);
                },
                Some(c) => {
                    if steps == total {
                        return Err(OxenError::IndexCorrupt);
                    }
                    let ghost before = out@;
                    out.push(c.copied());
                    steps = steps + 1;
                    match &c.parent_id {
                        None => {
                            assert(before + seq![*c] =~= out@);
                            return Ok(out);
                        },
                        Some(p) => {
                            proof {
                                let w = walk(m, p@, (n - steps) as nat);
                                if w is Some {
                                    assert(before + (seq![*c] + w->Some_0) =~= out@ + w->Some_0);
                                }
                            }
                            cur = p.clone();
                        },
                    }
                },
            }
        }
    }

    /// The history from the head commit.
    pub fn history_from_head(&self) -> (r: Result<Vec<Commit>, OxenError>)
        requires
            self.wf(),
        ensures
            match self.head_id() {
                Some(h) => if !self.records().contains_key(h) {
                    r == Err::<Vec<Commit>, OxenError>(OxenError::NotFound)
                } else {
                    match self.history_spec(h) {
                        Some(s) => r is Ok && r->Ok_0@ == s,
                        None => r == Err::<Vec<Commit>, OxenError>(OxenError::IndexCorrupt),
                    }
                },
                None => r == Err::<Vec<Commit>, OxenError>(OxenError::NotFound),
            },
    {
        let head = self.head_commit()?;
        proof {
            self.lemma_keys();
        }
        self.history_from_commit_id(head.id.as_str())
    }

    /// The commit at the end of the history from the head: the root.
    pub fn root_commit(&self) -> (r: Result<Commit, OxenError>)
        requires
            self.wf(),
        ensures
            match self.head_id() {
                Some(h) => if !self.records().contains_key(h) {
                    r == Err::<Commit, OxenError>(OxenError::NotFound)
                } else {
                    match self.history_spec(h) {
                        Some(s) => s.len() > 0 && r == Ok::<Commit, OxenError>(s.last()),
                        None => r == Err::<Commit, OxenError>(OxenError::IndexCorrupt),
                    }
                },
                None => r == Err::<Commit, OxenError>(OxenError::NotFound),
            },
    {
        let history = self.history_from_head()?;
        proof {
            let h = self.head_id()->Some_0;
            assert(self.records().contains_key(h));
            reveal_with_fuel(walk, 2);
        }
        let n = history.len();
        if n == 0 {
            return Err(OxenError::NotFound);
        }
        Ok(history[n - 1].copied())
    }
}

/// A walk from a known record in a store whose parents are all known ends
/// at a commit that has no parent.
pub proof fn lemma_walk_ends_at_root(m: Map<Seq<char>, Commit>, id: Seq<char>, fuel: nat)
    requires
        m.contains_key(id),
        parents_closed(m),
        walk(m, id, fuel) is Some,
    ensures
        walk(m, id, fuel)->Some_0.len() > 0,
        walk(m, id, fuel)->Some_0.last().parent_id is None,
        walk(m, id, fuel)->Some_0[0] == m[id],
    decreases fuel,
{
    let c = m[id];
    if let Some(p) = c.parent_id {
        assert(m.contains_key(p@));
        lemma_walk_ends_at_root(m, p@, (fuel - 1) as nat);
        let rest = walk(m, p@, (fuel - 1) as nat)->Some_0;
        assert((seq![c] + rest).last() == rest.last());
    }
}

/// In a valid store the root commit has no parent, and the history from the
/// head starts at the head and ends at the root.
pub proof fn lemma_root_ends_history(store: &CommitReader)
    requires
        store.is_valid(),
    ensures
        ({
            let h = store.history_spec(store.head_id()->Some_0)->Some_0;
            &&& h.len() > 0
            &&& h[0] == store.records()[store.head_id()->Some_0]
            &&& h.last().parent_id is None
        }),
{
    lemma_walk_ends_at_root(store.records(), store.head_id()->Some_0, store.record_count());
}

} // verus!
