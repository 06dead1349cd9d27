//! Content-addressed byte storage, scoped by namespace (a schema, a
//! repository): each buffer is kept under the hash of its content.

use vstd::prelude::*;
use crate::hashing::{digest_of, hash_buffer};

verus! {

/// One stored buffer.
struct Blob {
    namespace: String,
    key: String,
    bytes: Vec<u8>,
}

spec fn blob_key(b: Blob) -> (Seq<char>, Seq<char>) {
    (b.namespace@, b.key@)
}

/// A store of buffers keyed by namespace and key, with the set of
/// namespaces that exist.
pub struct ContentStore {
    namespaces: Vec<String>,
    blobs: Vec<Blob>,
}

/// A copy of a byte buffer.
fn copy_bytes(b: &Vec<u8>) -> (r: Vec<u8>)
    ensures
        r@ == b@,
{
    let mut out: Vec<u8> = Vec::new();
    let mut i: usize = 0;
    while i < b.len()
        invariant
            i <= b@.len(),
            out@ == b@.subrange(0, i as int),
        decreases b@.len() - i,
    {
        out.push(b[i]);
        i = i + 1;
        assert(out@ =~= b@.subrange(0, i as int));
    }
    assert(b@.subrange(0, i as int) =~= b@);
    out
}

impl ContentStore {
    /// The namespaces that exist.
    pub closed spec fn namespaces(&self) -> Set<Seq<char>> {
        Set::new(|n: Seq<char>| exists|i: int| 0 <= i < self.namespaces@.len() && self.namespaces@[i]@ == n)
    }

    /// The stored buffers, by namespace and key.
    pub closed spec fn contents(&self) -> Map<(Seq<char>, Seq<char>), Seq<u8>> {
        Map::new(
            |k: (Seq<char>, Seq<char>)| exists|i: int| 0 <= i < self.blobs@.len() && blob_key(self.blobs@[i]) == k,
            |k: (Seq<char>, Seq<char>)| self.blobs@[choose|i: int| 0 <= i < self.blobs@.len() && blob_key(self.blobs@[i]) == k].bytes@,
        )
    }

    /// No two buffers share a namespace and key; every buffer's namespace
    /// exists.
    pub closed spec fn wf(&self) -> bool {
        &&& forall|i: int, j: int| 0 <= i < j < self.blobs@.len() ==> blob_key(self.blobs@[i]) != blob_key(self.blobs@[j])
        &&& forall|i: int| 0 <= i < self.blobs@.len() ==> self.namespaces().contains(#[trigger] self.blobs@[i].namespace@)
    }

    proof fn lemma_value_at(&self, i: int)
        requires
            self.wf(),
            0 <= i < self.blobs@.len(),
        ensures
            self.contents().contains_key(blob_key(self.blobs@[i])),
            self.contents()[blob_key(self.blobs@[i])] == self.blobs@[i].bytes@,
    {
        let k = blob_key(self.blobs@[i]);
        assert(self.contents().dom().contains(k));
        let j = choose|j: int| 0 <= j < self.blobs@.len() && blob_key(self.blobs@[j]) == k;
        assert(j == i);
    }

    /// An empty store.
    pub fn new() -> (r: ContentStore)
        ensures
            r.wf(),
            r.namespaces() == Set::<Seq<char>>::empty(),
            r.contents() == Map::<(Seq<char>, Seq<char>), Seq<u8>>::empty(),
    {
        let r = ContentStore { namespaces: Vec::new(), blobs: Vec::new() };
        assert(r.namespaces() =~= Set::<Seq<char>>::empty());
        assert(r.contents() =~= Map::<(Seq<char>, Seq<char>), Seq<u8>>::empty());
        r
    }

    /// Whether a namespace exists.
    pub fn has_namespace(&self, namespace: &str) -> (r: bool)
        ensures
            r == self.namespaces().contains(namespace@),
    {
        let n = namespace.to_owned();
        let mut i: usize = 0;
        while i < self.namespaces.len()
            invariant
                n@ == namespace@,
                i <= self.namespaces@.len(),
                forall|j: int| 0 <= j < i ==> self.namespaces@[j]@ != n@,
            decreases self.namespaces@.len() - i,
        {
            if self.namespaces[i] == n {
                assert(self.namespaces@[i as int]@ == namespace@);
                return true;
            }
            i = i + 1;
        }
        false
    }

    /// Creates a namespace. Creating one that exists changes nothing.
    pub fn create_namespace(&mut self, namespace: &str)
        requires
            old(self).wf(),
        ensures
            final(self).wf(),
            final(self).namespaces() == old(self).namespaces().insert(namespace@),
            final(self).contents() == old(self).contents(),
    {
        if self.has_namespace(namespace) {
            assert(self.namespaces() =~= old(self).namespaces().insert(namespace@));
            return;
        }
        let ghost before = self.namespaces();
        self.namespaces.push(namespace.to_owned());
        assert forall|n: Seq<char>| self.namespaces().contains(n) == before.insert(namespace@).contains(n) by {
            if before.contains(n) {
                let i = choose|i: int| 0 <= i < old(self).namespaces@.len() && old(self).namespaces@[i]@ == n;
                assert(self.namespaces@[i]@ == n);
            }
            if self.namespaces().contains(n) {
                let i = choose|i: int| 0 <= i < self.namespaces@.len() && self.namespaces@[i]@ == n;
                if i < old(self).namespaces@.len() {
                    assert(old(self).namespaces@[i]@ == n);
                }
            }
            if n == namespace@ {
                assert(self.namespaces@[self.namespaces@.len() - 1]@ == n);
            }
        }
        assert(self.namespaces() =~= before.insert(namespace@));
        assert(self.contents() =~= old(self).contents());
    }

    fn position(&self, namespace: &String, key: &String) -> (r: Option<usize>)
        requires
            self.wf(),
        ensures
            match r {
                Some(i) => i < self.blobs@.len() && blob_key(self.blobs@[i as int]) == (namespace@, key@),
                None => !self.contents().contains_key((namespace@, key@)),
            },
    {
        let mut i: usize = 0;
        while i < self.blobs.len()
            invariant
                i <= self.blobs@.len(),
                forall|j: int| 0 <= j < i ==> blob_key(self.blobs@[j]) != (namespace@, key@),
            decreases self.blobs@.len() - i,
        {
            if self.blobs[i].namespace == *namespace && self.blobs[i].key == *key {
                return Some(i);
            }
            i = i + 1;
        }
        None
    }

    /// Stores a buffer under a key in a namespace, creating the namespace
    /// if it does not exist. A buffer under the same key is replaced.
    pub fn put_with_key(&mut self, namespace: &str, key: &str, bytes: &Vec<u8>)
        requires
            old(self).wf(),
        ensures
            final(self).wf(),
            final(self).namespaces() == old(self).namespaces().insert(namespace@),
            final(self).contents() == old(self).contents().insert((namespace@, key@), bytes@),
    {
        self.create_namespace(namespace);
        let ghost mid = self.contents();
        let ns = namespace.to_owned();
        let k = key.to_owned();
        let b = Blob { namespace: ns.clone(), key: k.clone(), bytes: copy_bytes(bytes) };
        let ghost nk = (namespace@, key@);
        assert(self.namespaces().contains(namespace@));
        match self.position(&ns, &k) {
            Some(i) => {
                let ghost old_blobs = self.blobs@;
                self.blobs.set(i, b);
                proof {
                    assert forall|j: int| 0 <= j < self.blobs@.len() implies self.namespaces().contains(#[trigger] self.blobs@[j].namespace@) by {
                        if j != i {
                            assert(self.blobs@[j] == old_blobs[j]);
                        }
                    }
                    assert forall|k2: (Seq<char>, Seq<char>)| #[trigger] self.contents().contains_key(k2)
                        == mid.insert(nk, bytes@).contains_key(k2) by {
                        if mid.contains_key(k2) && k2 != nk {
                            let j = choose|j: int| 0 <= j < old_blobs.len() && blob_key(old_blobs[j]) == k2;
                            assert(blob_key(self.blobs@[j]) == k2);
                        }
                        if self.contents().contains_key(k2) && k2 != nk {
                            let j = choose|j: int| 0 <= j < self.blobs@.len() && blob_key(self.blobs@[j]) == k2;
                            assert(blob_key(old_blobs[j]) == k2);
                        }
                        if k2 == nk {
                            assert(blob_key(self.blobs@[i as int]) == k2);
                        }
                    }
                    assert forall|k2: (Seq<char>, Seq<char>)| #[trigger] self.contents().contains_key(k2)
                        implies self.contents()[k2] == mid.insert(nk, bytes@)[k2] by {
                        let j = choose|j: int| 0 <= j < self.blobs@.len() && blob_key(self.blobs@[j]) == k2;
                        self.lemma_value_at(j);
                        if k2 != nk {
                            assert(j != i);
                            assert(self.blobs@[j] == old_blobs[j]);
                            assert(mid.contains_key(k2)) by {
                                assert(blob_key(old_blobs[j]) == k2);
                            }
                            let j2 = choose|j2: int| 0 <= j2 < old_blobs.len() && blob_key(old_blobs[j2]) == k2;
                            assert(j2 == j);
                        }
                    }
                    assert(self.contents() =~= mid.insert(nk, bytes@));
                }
            },
            None => {
                let ghost old_blobs = self.blobs@;
                self.blobs.push(b);
                proof {
                    let n = old_blobs.len() as int;
                    assert(blob_key(self.blobs@[n]) == nk);
                    assert forall|k2: (Seq<char>, Seq<char>)| #[trigger] self.contents().contains_key(k2)
                        == mid.insert(nk, bytes@).contains_key(k2) by {
                        if mid.contains_key(k2) {
                            let j = choose|j: int| 0 <= j < old_blobs.len() && blob_key(old_blobs[j]) == k2;
                            assert(blob_key(self.blobs@[j]) == k2);
                        }
                        if self.contents().contains_key(k2) && k2 != nk {
                            let j = choose|j: int| 0 <= j < self.blobs@.len() && blob_key(self.blobs@[j]) == k2;
                            assert(blob_key(old_blobs[j]) == k2);
                        }
                    }
                    assert forall|k2: (Seq<char>, Seq<char>)| #[trigger] self.contents().contains_key(k2)
                        implies self.contents()[k2] == mid.insert(nk, bytes@)[k2] by {
                        let j = choose|j: int| 0 <= j < self.blobs@.len() && blob_key(self.blobs@[j]) == k2;
                        self.lemma_value_at(j);
                        if k2 != nk {
                            let j2 = choose|j2: int| 0 <= j2 < old_blobs.len() && blob_key(old_blobs[j2]) == k2;
                            assert(j2 == j);
                        }
                    }
                    assert(self.contents() =~= mid.insert(nk, bytes@));
                }
            },
        }
    }

    /// Stores a buffer in a namespace under the hash of its content and
    /// returns that hash.
    pub fn put(&mut self, namespace: &str, bytes: &Vec<u8>) -> (r: String)
        requires
            old(self).wf(),
        ensures
            r@ == digest_of(bytes@),
            final(self).wf(),
            final(self).namespaces() == old(self).namespaces().insert(namespace@),
            final(self).contents() == old(self).contents().insert((namespace@, r@), bytes@),
    {
        let key = hash_buffer(bytes.as_slice());
        self.put_with_key(namespace, key.as_str(), bytes);
        key
    }

    /// The buffer under a key in a namespace, if any.
    pub fn get(&self, namespace: &str, key: &str) -> (r: Option<Vec<u8>>)
        requires
            self.wf(),
        ensures
            match r {
                Some(b) => self.contents().contains_key((namespace@, key@)) && b@ == self.contents()[(namespace@, key@)],
                None => !self.contents().contains_key((namespace@, key@)),
            },
    {
        let ns = namespace.to_owned();
        let k = key.to_owned();
        match self.position(&ns, &k) {
            Some(i) => {
                proof {
                    self.lemma_value_at(i as int);
                }
                Some(copy_bytes(&self.blobs[i].bytes))
            },
            None => None,
        }
    }

    /// Whether a key in a namespace holds a buffer.
    pub fn has(&self, namespace: &str, key: &str) -> (r: bool)
        requires
            self.wf(),
        ensures
            r == self.contents().contains_key((namespace@, key@)),
    {
        let ns = namespace.to_owned();
        let k = key.to_owned();
        match self.position(&ns, &k) {
            Some(i) => {
                proof {
                    self.lemma_value_at(i as int);
                }
                true
            },
            None => false,
        }
    }
}

/// Storing a buffer and reading it back gives the same bytes, and storing
/// the same buffer again changes nothing.
pub proof fn lemma_put_get_idempotent(
    contents: Map<(Seq<char>, Seq<char>), Seq<u8>>,
    namespace: Seq<char>,
    bytes: Seq<u8>,
)
    ensures
        contents.insert((namespace, digest_of(bytes)), bytes)[(namespace, digest_of(bytes))] == bytes,
        contents.insert((namespace, digest_of(bytes)), bytes).insert((namespace, digest_of(bytes)), bytes)
            == contents.insert((namespace, digest_of(bytes)), bytes),
{
    let k = (namespace, digest_of(bytes));
    assert(contents.insert(k, bytes).insert(k, bytes) =~= contents.insert(k, bytes));
}

} // verus!
