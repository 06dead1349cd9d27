//! The row index of one schema: the content-addressable data frame (every
//! distinct row ever committed under the schema, addressed by its hash) and
//! the index of one file, which maps each row hash of the file to its row
//! in the file and its row in the content-addressable data frame.

use vstd::prelude::*;
use crate::error::OxenError;
use crate::hashing::{digest_of, hash_buffer};
use vstd::string::StringExecFns;
use crate::frame::{
    cell_views, copy_fields, copy_row, field_views, positions_of, row_hash, row_hash_of,
    rows_of_width, schema_hash_of, select_cells, table_views, DataFrame, Schema,
};

verus! {

/// One entry of a file index: a row hash, the row's number in the file and
/// its number in the content-addressable data frame.
#[derive(Debug, Clone)]
pub struct RowIndexEntry {
    pub hash: String,
    pub local: usize,
    pub global: usize,
}

impl View for RowIndexEntry {
    type V = (Seq<char>, nat, nat);

    open spec fn view(&self) -> (Seq<char>, nat, nat) {
        (self.hash@, self.local as nat, self.global as nat)
    }
}

impl RowIndexEntry {
    pub fn copied(&self) -> (r: RowIndexEntry)
        ensures
            r@ == self@,
    {
        RowIndexEntry { hash: self.hash.clone(), local: self.local, global: self.global }
    }
}

/// The state of a row index as mathematics: the hashes of the
/// content-addressable data frame, its rows, and the file index entries.
pub ghost struct IndexModel {
    pub hashes: Seq<Seq<char>>,
    pub rows: Seq<Seq<Seq<char>>>,
    pub entries: Seq<(Seq<char>, nat, nat)>,
}

/// The row hashes that a file index holds, in its order.
pub open spec fn entry_keys(entries: Seq<(Seq<char>, nat, nat)>) -> Seq<Seq<char>> {
    entries.map_values(|e: (Seq<char>, nat, nat)| e.0)
}

/// The global row number that a hash gets: its position when it is known,
/// the next free position otherwise.
pub open spec fn global_of(hashes: Seq<Seq<char>>, h: Seq<char>) -> nat {
    if hashes.contains(h) {
        hashes.index_of_first(h)->Some_0 as nat
    } else {
        hashes.len()
    }
}

/// Records `h -> (local, global)` in a file index, replacing the entry of
/// the same hash in place if there is one.
pub open spec fn put_entry(entries: Seq<(Seq<char>, nat, nat)>, h: Seq<char>, local: nat, global: nat) -> Seq<(Seq<char>, nat, nat)> {
    let keys = entry_keys(entries);
    if keys.contains(h) {
        entries.update(keys.index_of_first(h)->Some_0, (h, local, global))
    } else {
        entries.push((h, local, global))
    }
}

/// Indexes one row of a file: a row whose hash is new is appended to the
/// content-addressable data frame; the file index always records it.
pub open spec fn index_step(m: IndexModel, row: Seq<Seq<char>>, local: nat) -> IndexModel {
    let h = row_hash_of(row);
    let g = global_of(m.hashes, h);
    if m.hashes.contains(h) {
        IndexModel { entries: put_entry(m.entries, h, local, g), ..m }
    } else {
        IndexModel {
            hashes: m.hashes.push(h),
            rows: m.rows.push(row),
            entries: put_entry(m.entries, h, local, g),
        }
    }
}

/// Indexes the first `n` rows of a file, in order.
pub open spec fn index_rows(m: IndexModel, rows: Seq<Seq<Seq<char>>>, n: nat) -> IndexModel
    decreases n,
{
    if n == 0 {
        m
    } else {
        index_step(index_rows(m, rows, (n - 1) as nat), rows[n - 1], (n - 1) as nat)
    }
}

/// The columns of `a` that `b` does not have, in the order of `a`.
pub open spec fn missing_cols(a: Seq<(Seq<char>, Seq<char>)>, b: Seq<(Seq<char>, Seq<char>)>) -> Seq<(Seq<char>, Seq<char>)>
    decreases a.len(),
{
    if a.len() == 0 {
        Seq::empty()
    } else {
        let p = missing_cols(a.drop_last(), b);
        if b.contains(a.last()) { p } else { p.push(a.last()) }
    }
}

/// The positions among the first `n` row hashes of a file of the rows that
/// the stored file index does not know, each distinct hash once, at its
/// first occurrence.
pub open spec fn added_positions(cur: Seq<Seq<char>>, keys: Seq<Seq<char>>, n: nat) -> Seq<int>
    decreases n,
{
    if n == 0 {
        Seq::empty()
    } else {
        let i = n - 1;
        let p = added_positions(cur, keys, (n - 1) as nat);
        if !keys.contains(cur[i]) && !cur.subrange(0, i).contains(cur[i]) { p.push(i) } else { p }
    }
}

/// The global row numbers of the first `n` stored file entries whose hash
/// the current file no longer has, in the order of the file index.
pub open spec fn removed_globals(entries: Seq<(Seq<char>, nat, nat)>, cur: Seq<Seq<char>>, n: nat) -> Seq<int>
    decreases n,
{
    if n == 0 {
        Seq::empty()
    } else {
        let e = entries[n - 1];
        let p = removed_globals(entries, cur, (n - 1) as nat);
        if !cur.contains(e.0) { p.push(e.2 as int) } else { p }
    }
}

/// The row hashes of a table.
pub open spec fn hashes_of(table: Seq<Seq<Seq<char>>>) -> Seq<Seq<char>> {
    table.map_values(|row: Seq<Seq<char>>| row_hash_of(row))
}

/// A part of a diff: absent when `present` is false, otherwise a
/// well-formed table with these columns and rows.
pub open spec fn part_is(f: Option<DataFrame>, present: bool, cols: Seq<(Seq<char>, Seq<char>)>, table: Seq<Seq<Seq<char>>>) -> bool {
    if present {
        f is Some && f->Some_0.cols() == cols && f->Some_0.table() == table && f->Some_0.wf()
    } else {
        f is None
    }
}

proof fn lemma_missing_cols(a: Seq<(Seq<char>, Seq<char>)>, b: Seq<(Seq<char>, Seq<char>)>)
    ensures
        forall|k: int| 0 <= k < missing_cols(a, b).len() ==> a.contains(#[trigger] missing_cols(a, b)[k])
            && !b.contains(missing_cols(a, b)[k]),
    decreases a.len(),
{
    if a.len() > 0 {
        lemma_missing_cols(a.drop_last(), b);
        let p = missing_cols(a.drop_last(), b);
        assert forall|k: int| 0 <= k < missing_cols(a, b).len() implies a.contains(#[trigger] missing_cols(a, b)[k]) by {
            if k < p.len() {
                let j = choose|j: int| 0 <= j < a.drop_last().len() && a.drop_last()[j] == p[k];
                assert(a[j] == p[k]);
            } else {
                assert(a[a.len() - 1] == a.last());
            }
        }
    }
}

/// The difference between the current state of a tabular file and the
/// state that its file index recorded. A change of columns is reported as
/// columns only, a change of rows as rows only.
#[derive(Debug, Clone)]
pub struct DataFrameDiff {
    pub added_rows: Option<DataFrame>,
    pub removed_rows: Option<DataFrame>,
    pub added_cols: Option<DataFrame>,
    pub removed_cols: Option<DataFrame>,
}

/// Whether a column list holds a column.
fn contains_field(fs: &Vec<crate::frame::Field>, f: &crate::frame::Field) -> (r: bool)
    ensures
        r == field_views(fs@).contains(f@),
{
    let mut i: usize = 0;
    while i < fs.len()
        invariant
            i <= fs@.len(),
            forall|j: int| 0 <= j < i ==> field_views(fs@)[j] != f@,
        decreases fs@.len() - i,
    {
        if fs[i].same_as(f) {
            assert(field_views(fs@)[i as int] == f@);
            return true;
        }
        i = i + 1;
    }
    false
}

/// The columns of `a` that `b` does not have, in the order of `a`.
fn missing_fields(a: &Vec<crate::frame::Field>, b: &Vec<crate::frame::Field>) -> (r: Vec<crate::frame::Field>)
    ensures
        field_views(r@) == missing_cols(field_views(a@), field_views(b@)),
{
    let ghost av = field_views(a@);
    let ghost bv = field_views(b@);
    let mut out: Vec<crate::frame::Field> = Vec::new();
    let mut i: usize = 0;
    while i < a.len()
        invariant
            av == field_views(a@),
            bv == field_views(b@),
            i <= a@.len(),
            field_views(out@) == missing_cols(av.subrange(0, i as int), bv),
        decreases a@.len() - i,
    {
        let ghost prev = out@;
        assert(av.subrange(0, i + 1).drop_last() =~= av.subrange(0, i as int));
        if !contains_field(b, &a[i]) {
            out.push(a[i].copied());
            assert(field_views(out@) =~= field_views(prev).push(a@[i as int]@));
        }
        i = i + 1;
    }
    assert(av.subrange(0, i as int) =~= av);
    out
}

/// Whether the first `end` hashes hold `h`.
fn prefix_contains(hs: &Vec<String>, end: usize, h: &String) -> (r: bool)
    requires
        end <= hs@.len(),
    ensures
        r == hs@.map_values(|s: String| s@).subrange(0, end as int).contains(h@),
{
    let ghost v = hs@.map_values(|s: String| s@).subrange(0, end as int);
    let mut j: usize = 0;
    while j < end
        invariant
            j <= end <= hs@.len(),
            v == hs@.map_values(|s: String| s@).subrange(0, end as int),
            forall|k: int| 0 <= k < j ==> v[k] != h@,
        decreases end - j,
    {
        if hs[j] == *h {
            assert(v[j as int] == h@);
            return true;
        }
        j = j + 1;
    }
    false
}

/// Entries in ascending order of their row number in the file.
pub open spec fn sorted_by_local(s: Seq<(Seq<char>, nat, nat)>) -> bool {
    forall|a: int, b: int| 0 <= a < b < s.len() ==> s[a].1 <= s[b].1
}

/// `t` holds the entries of `s`, each as often, ordered by row number in the
/// file.
pub open spec fn is_local_order(t: Seq<(Seq<char>, nat, nat)>, s: Seq<(Seq<char>, nat, nat)>) -> bool {
    sorted_by_local(t) && t.to_multiset() == s.to_multiset()
}

/// Parts of a row index that fit together: every row has one cell per
/// column and a hash of its own; no two file entries share a hash; each
/// file entry names a row that is there and has the entry's hash.
pub open spec fn valid_parts(
    cols: Seq<(Seq<char>, Seq<char>)>,
    rows: Seq<Seq<Seq<char>>>,
    entries: Seq<(Seq<char>, nat, nat)>,
) -> bool {
    &&& rows_of_width(rows, cols.len())
    &&& hashes_of(rows).no_duplicates()
    &&& entry_keys(entries).no_duplicates()
    &&& forall|k: int| 0 <= k < entries.len() ==> (#[trigger] entries[k]).2 < rows.len()
        && hashes_of(rows)[entries[k].2 as int] == entries[k].0
}

/// Whether no two of the strings are equal.
fn all_distinct(v: &Vec<String>) -> (r: bool)
    ensures
        r == v@.map_values(|s: String| s@).no_duplicates(),
{
    let ghost sv = v@.map_values(|s: String| s@);
    let mut i: usize = 0;
    while i < v.len()
        invariant
            sv == v@.map_values(|s: String| s@),
            i <= v@.len(),
            forall|a: int, b: int| 0 <= a < i && 0 <= b < i && a != b ==> sv[a] != sv[b],
        decreases v@.len() - i,
    {
        let mut j: usize = 0;
        while j < i
            invariant
                sv == v@.map_values(|s: String| s@),
                j <= i < v@.len(),
                forall|a: int, b: int| 0 <= a < i && 0 <= b < i && a != b ==> sv[a] != sv[b],
                forall|b: int| 0 <= b < j ==> sv[b] != sv[i as int],
            decreases i - j,
        {
            if v[j] == v[i] {
                assert(sv[j as int] == sv[i as int]);
                return false;
            }
            j = j + 1;
        }
        i = i + 1;
    }
    true
}

/// The row index of one schema and one file.
pub struct CommitSchemaRowIndex {
    schema: Schema,
    row_hashes: Vec<String>,
    rows: Vec<Vec<String>>,
    entries: Vec<RowIndexEntry>,
}

impl CommitSchemaRowIndex {
    /// The index as mathematics.
    pub closed spec fn model(&self) -> IndexModel {
        IndexModel {
            hashes: self.row_hashes@.map_values(|h: String| h@),
            rows: table_views(self.rows@),
            entries: self.entries@.map_values(|e: RowIndexEntry| e@),
        }
    }

    /// The columns of the schema.
    pub closed spec fn cols(&self) -> Seq<(Seq<char>, Seq<char>)> {
        self.schema.cols()
    }

    /// The hash that the schema was recorded with.
    pub closed spec fn schema_hash(&self) -> Seq<char> {
        self.schema.hash@
    }

    /// Well-formedness: each row of the content-addressable data frame is
    /// there once, under its own hash, with one cell per column; each file
    /// entry names a row that is there and has the entry's hash; no two file
    /// entries share a hash.
    pub open spec fn wf(&self) -> bool {
        let m = self.model();
        &&& m.hashes.len() == m.rows.len()
        &&& m.hashes.no_duplicates()
        &&& forall|i: int| 0 <= i < m.rows.len() ==> #[trigger] m.hashes[i] == row_hash_of(m.rows[i])
        &&& rows_of_width(m.rows, self.cols().len())
        &&& entry_keys(m.entries).no_duplicates()
        &&& forall|k: int| 0 <= k < m.entries.len() ==> (#[trigger] m.entries[k]).2 < m.rows.len()
            && m.hashes[m.entries[k].2 as int] == m.entries[k].0
    }

    /// An index for a schema with an empty content-addressable data frame
    /// and an empty file index.
    pub fn new(schema: &Schema) -> (r: CommitSchemaRowIndex)
        ensures
            r.wf(),
            r.cols() == schema.cols(),
            r.schema_hash() == schema.hash@,
            r.model().hashes.len() == 0,
            r.model().rows.len() == 0,
            r.model().entries.len() == 0,
    {
        let r = CommitSchemaRowIndex {
            schema: schema.copied(),
            row_hashes: Vec::new(),
            rows: Vec::new(),
            entries: Vec::new(),
        };
        assert(r.model().hashes =~= Seq::<Seq<char>>::empty());
        assert(r.model().entries =~= Seq::<(Seq<char>, nat, nat)>::empty());
        assert(r.model().rows =~= Seq::<Seq<Seq<char>>>::empty());
        assert(entry_keys(r.model().entries) =~= Seq::<Seq<char>>::empty());
        r
    }

    /// Where the content-addressable data frame of a schema lives:
    /// `<repo>/.oxen/versions/schemas/<schema hash>/rows`.
    pub fn row_db_path(repo_path: &str, schema: &Schema) -> (r: String)
        ensures
            r@ == repo_path@ + "/.oxen/versions/schemas/"@ + schema.hash@ + "/rows"@,
    {
        let mut p = String::from_str(repo_path);
        p.append("/.oxen/versions/schemas/");
        p.append(schema.hash.as_str());
        p.append("/rows");
        p
    }

    /// Where the index of one file under one commit and schema lives:
    /// `<repo>/.oxen/history/<commit id>/indices/<schema hash>/files/<hash of
    /// the file's path>`.
    pub fn file_db_path(repo_path: &str, commit_id: &str, schema: &Schema, path: &str) -> (r: String)
        ensures
            r@ == repo_path@ + "/.oxen/history/"@ + commit_id@ + "/indices/"@ + schema.hash@ + "/files/"@
                + digest_of(vstd::utf8::encode_utf8(path@)),
    {
        let file_name_hash = hash_buffer(path.as_bytes());
        let mut p = String::from_str(repo_path);
        p.append("/.oxen/history/");
        p.append(commit_id);
        p.append("/indices/");
        p.append(schema.hash.as_str());
        p.append("/files/");
        p.append(file_name_hash.as_str());
        p
    }

    /// A row index from stored parts: the rows of the content-addressable
    /// data frame in global order and the file index entries. Fails with
    /// `IndexCorrupt` exactly when the parts do not fit together.
    pub fn from_parts(schema: &Schema, rows: Vec<Vec<String>>, entries: Vec<RowIndexEntry>) -> (r: Result<CommitSchemaRowIndex, OxenError>)
        ensures
            valid_parts(schema.cols(), table_views(rows@), entries@.map_values(|e: RowIndexEntry| e@)) <==> r is Ok,
            match r {
                Ok(idx) => {
                    &&& idx.wf()
                    &&& idx.cols() == schema.cols()
                    &&& idx.schema_hash() == schema.hash@
                    &&& idx.model() == (IndexModel {
                        hashes: hashes_of(table_views(rows@)),
                        rows: table_views(rows@),
                        entries: entries@.map_values(|e: RowIndexEntry| e@),
                    })
                },
                Err(e) => e == OxenError::IndexCorrupt,
            },
    {
        let ghost tv = table_views(rows@);
        let ghost ev = entries@.map_values(|e: RowIndexEntry| e@);
        let width = schema.fields.len();
        let mut hashes: Vec<String> = Vec::new();
        let mut i: usize = 0;
        while i < rows.len()
            invariant
                tv == table_views(rows@),
                width == schema.cols().len(),
                i <= rows@.len(),
                hashes@.len() == i,
                forall|j: int| 0 <= j < i ==> (#[trigger] hashes@[j])@ == row_hash_of(tv[j]),
                forall|j: int| 0 <= j < i ==> (#[trigger] tv[j]).len() == width,
            decreases rows@.len() - i,
        {
            assert(tv[i as int] == cell_views(rows@[i as int]@));
            if rows[i].len() != width {
                assert(!rows_of_width(tv, schema.cols().len()));
                return Err(OxenError::IndexCorrupt);
            }
            hashes.push(row_hash(&rows[i]));
            i = i + 1;
        }
        assert(hashes@.map_values(|h: String| h@) =~= hashes_of(tv));
        if !all_distinct(&hashes) {
            return Err(OxenError::IndexCorrupt);
        }
        let mut keys: Vec<String> = Vec::new();
        let mut k: usize = 0;
        while k < entries.len()
            invariant
                ev == entries@.map_values(|e: RowIndexEntry| e@),
                k <= entries@.len(),
                hashes@.len() == rows@.len(),
                hashes@.map_values(|h: String| h@) == hashes_of(tv),
                tv == table_views(rows@),
                tv.len() == rows@.len(),
                keys@.len() == k,
                forall|j: int| 0 <= j < k ==> (#[trigger] keys@[j])@ == ev[j].0,
                forall|j: int| 0 <= j < k ==> (#[trigger] ev[j]).2 < tv.len() && hashes_of(tv)[ev[j].2 as int] == ev[j].0,
            decreases entries@.len() - k,
        {
            let e = &entries[k];
            assert(ev[k as int] == e@);
            if e.global >= hashes.len() {
                assert(!(ev[k as int].2 < tv.len()));
                assert(!valid_parts(schema.cols(), tv, ev));
                return Err(OxenError::IndexCorrupt);
            }
            if hashes[e.global] != e.hash {
                assert(hashes_of(tv)[e.global as int] == hashes@[e.global as int]@);
                assert(hashes_of(tv)[ev[k as int].2 as int] != ev[k as int].0);
                assert(!valid_parts(schema.cols(), tv, ev));
                return Err(OxenError::IndexCorrupt);
            }
            assert(hashes_of(tv)[e.global as int] == hashes@[e.global as int]@);
            keys.push(e.hash.clone());
            k = k + 1;
        }
        assert(keys@.map_values(|h: String| h@) =~= entry_keys(ev));
        if !all_distinct(&keys) {
            return Err(OxenError::IndexCorrupt);
        }
        let r = CommitSchemaRowIndex { schema: schema.copied(), row_hashes: hashes, rows, entries };
        assert(r.model().hashes =~= hashes_of(tv));
        proof {
            assert forall|j: int| 0 <= j < r.model().rows.len() implies #[trigger] r.model().hashes[j] == row_hash_of(r.model().rows[j]) by {
                assert(hashes_of(tv)[j] == row_hash_of(tv[j]));
            }
        }
        Ok(r)
    }

    /// The same schema and content-addressable data frame with an empty
    /// file index, for indexing another file or another commit.
    pub fn for_next_file(self) -> (r: CommitSchemaRowIndex)
        requires
            self.wf(),
        ensures
            r.wf(),
            r.cols() == self.cols(),
            r.schema_hash() == self.schema_hash(),
            r.model().hashes == self.model().hashes,
            r.model().rows == self.model().rows,
            r.model().entries.len() == 0,
    {
        let r = CommitSchemaRowIndex {
            schema: self.schema,
            row_hashes: self.row_hashes,
            rows: self.rows,
            entries: Vec::new(),
        };
        assert(r.model().entries =~= Seq::<(Seq<char>, nat, nat)>::empty());
        assert(entry_keys(r.model().entries) =~= Seq::<Seq<char>>::empty());
        r
    }

    /// The global row number of a hash, if the content-addressable data
    /// frame holds it.
    fn global_position(&self, h: &String) -> (r: Option<usize>)
        requires
            self.wf(),
        ensures
            match r {
                Some(g) => self.model().hashes.contains(h@) && g as nat == global_of(self.model().hashes, h@),
                None => !self.model().hashes.contains(h@),
            },
    {
        let ghost hs = self.model().hashes;
        let mut i: usize = 0;
        while i < self.row_hashes.len()
            invariant
                hs == self.model().hashes,
                i <= hs.len(),
                hs.len() == self.row_hashes@.len(),
                forall|j: int| 0 <= j < i ==> hs[j] != h@,
            decreases hs.len() - i,
        {
            if self.row_hashes[i] == *h {
                proof {
                    assert(hs[i as int] == h@);
                    hs.index_of_first_ensures(h@);
                }
                return Some(i);
            }
            i = i + 1;
        }
        None
    }

    /// The position of the file entry with this hash, if there is one.
    fn entry_position(&self, h: &String) -> (r: Option<usize>)
        ensures
            match r {
                Some(k) => entry_keys(self.model().entries).contains(h@)
                    && k as int == entry_keys(self.model().entries).index_of_first(h@)->Some_0,
                None => !entry_keys(self.model().entries).contains(h@),
            },
    {
        let ghost keys = entry_keys(self.model().entries);
        let mut i: usize = 0;
        while i < self.entries.len()
            invariant
                keys == entry_keys(self.model().entries),
                i <= keys.len(),
                keys.len() == self.entries@.len(),
                forall|j: int| 0 <= j < i ==> keys[j] != h@,
            decreases keys.len() - i,
        {
            if self.entries[i].hash == *h {
                proof {
                    assert(keys[i as int] == h@);
                    keys.index_of_first_ensures(h@);
                }
                return Some(i);
            }
            i = i + 1;
        }
        None
    }

    /// Records `hash -> (local, global)` in the file index, replacing the
    /// entry of the same hash.
    fn put_file_index(&mut self, hash: String, local: usize, global: usize)
        requires
            old(self).wf(),
            global < old(self).model().rows.len(),
            old(self).model().hashes[global as int] == hash@,
        ensures
            final(self).wf(),
            final(self).model() == (IndexModel {
                entries: put_entry(old(self).model().entries, hash@, local as nat, global as nat),
                ..old(self).model()
            }),
            final(self).cols() == old(self).cols(),
            final(self).schema_hash() == old(self).schema_hash(),
    {
        let ghost m = self.model();
        let ghost keys = entry_keys(m.entries);
        let e = RowIndexEntry { hash: hash.clone(), local, global };
        match self.entry_position(&hash) {
            Some(k) => {
                proof {
                    keys.index_of_first_ensures(hash@);
                }
                self.entries.set(k, e);
                proof {
                    assert(self.model().entries =~= m.entries.update(k as int, (hash@, local as nat, global as nat)));
                    assert(entry_keys(self.model().entries) =~= keys);
                }
            },
            None => {
                self.entries.push(e);
                proof {
                    assert(self.model().entries =~= m.entries.push((hash@, local as nat, global as nat)));
                    assert(entry_keys(self.model().entries) =~= keys.push(hash@));
                }
            },
        }
        assert(self.model().hashes =~= m.hashes);
        assert(self.model().rows =~= m.rows);
    }

    /// Indexes one row of a file as row `local`. Returns whether the row
    /// was new to the content-addressable data frame.
    fn index_one_row(&mut self, row: &Vec<String>, local: usize) -> (r: bool)
        requires
            old(self).wf(),
            cell_views(row@).len() == old(self).cols().len(),
        ensures
            final(self).wf(),
            final(self).model() == index_step(old(self).model(), cell_views(row@), local as nat),
            r == !old(self).model().hashes.contains(row_hash_of(cell_views(row@))),
            final(self).cols() == old(self).cols(),
            final(self).schema_hash() == old(self).schema_hash(),
    {
        let ghost m = self.model();
        let h = row_hash(row);
        match self.global_position(&h) {
            Some(g) => {
                proof {
                    m.hashes.index_of_first_ensures(h@);
                }
                self.put_file_index(h, local, g);
                false
            },
            None => {
                let g = self.rows.len();
                self.row_hashes.push(h.clone());
                self.rows.push(copy_row(row));
                proof {
                    assert(self.model().hashes =~= m.hashes.push(h@));
                    assert(self.model().rows =~= m.rows.push(cell_views(row@)));
                    assert(self.model().entries =~= m.entries);
                    let hs = self.model().hashes;
                    assert forall|i: int, j: int| 0 <= i < hs.len() && 0 <= j < hs.len() && i != j
                        implies hs[i] != hs[j] by {
                        if i == hs.len() - 1 {
                            assert(m.hashes[j] == hs[j]);
                        } else if j == hs.len() - 1 {
                            assert(m.hashes[i] == hs[i]);
                        }
                    }
                    assert(g == self.model().rows.len() - 1);
                    assert(self.wf());
                }
                self.put_file_index(h, local, g);
                true
            },
        }
    }

    /// Indexes the rows of a file: each row whose hash is new is appended
    /// to the content-addressable data frame at the next global row number;
    /// every row's hash is recorded in the file index with its row number in
    /// the file and its global row number. What the content-addressable data
    /// frame held before stays where it was.
    pub fn index_new_rows(&mut self, df: &DataFrame)
        requires
            old(self).wf(),
            df.wf(),
            df.cols() == old(self).cols(),
        ensures
            final(self).wf(),
            final(self).model() == index_rows(old(self).model(), df.table(), df.table().len()),
            final(self).cols() == old(self).cols(),
            final(self).schema_hash() == old(self).schema_hash(),
            final(self).model().hashes.len() >= old(self).model().hashes.len(),
            final(self).model().hashes.subrange(0, old(self).model().hashes.len() as int)
                == old(self).model().hashes,
            final(self).model().rows.subrange(0, old(self).model().rows.len() as int)
                == old(self).model().rows,
    {
        let ghost m0 = self.model();
        let mut i: usize = 0;
        while i < df.rows.len()
            invariant
                self.wf(),
                df.wf(),
                df.cols() == self.cols(),
                i <= df.rows@.len(),
                self.cols() == old(self).cols(),
                self.schema_hash() == old(self).schema_hash(),
                m0 == old(self).model(),
                self.model() == index_rows(m0, df.table(), i as nat),
                self.model().hashes.len() >= m0.hashes.len(),
                m0.hashes.len() == m0.rows.len(),
                self.model().hashes.subrange(0, m0.hashes.len() as int) == m0.hashes,
                self.model().rows.subrange(0, m0.rows.len() as int) == m0.rows,
            decreases df.rows@.len() - i,
        {
            let ghost before = self.model();
            assert(df.table()[i as int] == cell_views(df.rows@[i as int]@));
            assert(df.table()[i as int].len() == df.cols().len());
            self.index_one_row(&df.rows[i], i);
            proof {
                let after = self.model();
                let row = df.table()[i as int];
                if !before.hashes.contains(row_hash_of(row)) {
                    assert(after.hashes == before.hashes.push(row_hash_of(row)));
                    assert(after.rows == before.rows.push(row));
                    assert(after.hashes.subrange(0, m0.hashes.len() as int)
                        =~= before.hashes.subrange(0, m0.hashes.len() as int));
                    assert(after.rows.subrange(0, m0.rows.len() as int)
                        =~= before.rows.subrange(0, m0.rows.len() as int));
                }
            }
            i = i + 1;
        }
    }

    /// Indexes the rows of a file as `index_new_rows` does and returns the
    /// rows that were new to the content-addressable data frame, in the
    /// order in which they were appended to it.
    pub fn compute_new_rows(&mut self, new_df: &DataFrame) -> (r: DataFrame)
        requires
            old(self).wf(),
            new_df.wf(),
            new_df.cols() == old(self).cols(),
        ensures
            final(self).wf(),
            final(self).model() == index_rows(old(self).model(), new_df.table(), new_df.table().len()),
            final(self).cols() == old(self).cols(),
            final(self).schema_hash() == old(self).schema_hash(),
            r.wf(),
            r.cols() == old(self).cols(),
            r.table() == final(self).model().rows.subrange(
                old(self).model().rows.len() as int,
                final(self).model().rows.len() as int,
            ),
    {
        let start = self.rows.len();
        self.index_new_rows(new_df);
        let mut rows: Vec<Vec<String>> = Vec::new();
        let mut i: usize = start;
        while i < self.rows.len()
            invariant
                self.wf(),
                start <= i <= self.rows@.len(),
                rows@.len() == i - start,
                forall|j: int| 0 <= j < rows@.len() ==> cell_views(#[trigger] rows@[j]@) == self.model().rows[start + j],
            decreases self.rows@.len() - i,
        {
            rows.push(copy_row(&self.rows[i]));
            i = i + 1;
        }
        let r = DataFrame { fields: copy_fields(&self.schema.fields), rows };
        assert(r.table() =~= self.model().rows.subrange(start as int, self.model().rows.len() as int));
        assert(rows_of_width(r.table(), r.cols().len()));
        r
    }

    /// The content-addressable data frame: every distinct row indexed
    /// under the schema, in global row order.
    pub fn content_df(&self) -> (r: DataFrame)
        requires
            self.wf(),
        ensures
            r.wf(),
            r.cols() == self.cols(),
            r.table() == self.model().rows,
    {
        let mut rows: Vec<Vec<String>> = Vec::new();
        let mut i: usize = 0;
        while i < self.rows.len()
            invariant
                i <= self.rows@.len(),
                rows@.len() == i,
                forall|j: int| 0 <= j < i ==> cell_views(#[trigger] rows@[j]@) == self.model().rows[j],
            decreases self.rows@.len() - i,
        {
            rows.push(copy_row(&self.rows[i]));
            i = i + 1;
        }
        let r = DataFrame { fields: copy_fields(&self.schema.fields), rows };
        assert(r.table() =~= self.model().rows);
        r
    }

    /// Compares the current state of the file with what the file index
    /// recorded. When the current columns hash differently from the
    /// recorded schema, the columns that were added (taken from the current
    /// table) and removed (taken from the content-addressable data frame)
    /// are reported, and no rows. Otherwise the rows whose hash the file
    /// index does not hold are added (taken from the current table, in the
    /// schema's columns) and the recorded rows whose hash the current table
    /// does not hold are removed (taken from the content-addressable data
    /// frame), and no columns. A part with nothing in it is absent. Fails
    /// with `NotFound` when the hashes agree but a column of the schema is
    /// not in the current table.
    pub fn diff_current(&self, current: &DataFrame) -> (r: Result<DataFrameDiff, OxenError>)
        requires
            self.wf(),
            current.wf(),
        ensures
            ({
                let m = self.model();
                if schema_hash_of(current.cols()) != self.schema_hash() {
                    let added = missing_cols(current.cols(), self.cols());
                    let removed = missing_cols(self.cols(), current.cols());
                    &&& r is Ok
                    &&& r->Ok_0.added_rows is None
                    &&& r->Ok_0.removed_rows is None
                    &&& positions_of(current.cols(), added) is Some
                    &&& positions_of(self.cols(), removed) is Some
                    &&& part_is(r->Ok_0.added_cols, added.len() > 0, added,
                        select_cells(current.table(), positions_of(current.cols(), added)->Some_0))
                    &&& part_is(r->Ok_0.removed_cols, removed.len() > 0, removed,
                        select_cells(m.rows, positions_of(self.cols(), removed)->Some_0))
                } else {
                    match positions_of(current.cols(), self.cols()) {
                        None => r == Err::<DataFrameDiff, OxenError>(OxenError::NotFound),
                        Some(pos) => {
                            let proj = select_cells(current.table(), pos);
                            let cur = hashes_of(current.table());
                            let added = added_positions(cur, entry_keys(m.entries), cur.len());
                            let removed = removed_globals(m.entries, cur, m.entries.len());
                            &&& r is Ok
                            &&& r->Ok_0.added_cols is None
                            &&& r->Ok_0.removed_cols is None
                            &&& part_is(r->Ok_0.added_rows, added.len() > 0, self.cols(),
                                added.map_values(|i: int| proj[i]))
                            &&& part_is(r->Ok_0.removed_rows, removed.len() > 0, self.cols(),
                                removed.map_values(|g: int| m.rows[g]))
                        },
                    }
                }
            }),
    {
        let current_hash = crate::frame::schema_hash(&current.fields);
        if current_hash != self.schema.hash {
            let added = missing_fields(&current.fields, &self.schema.fields);
            let removed = missing_fields(&self.schema.fields, &current.fields);
            proof {
                lemma_missing_cols(current.cols(), self.cols());
                lemma_missing_cols(self.cols(), current.cols());
                let av = field_views(added@);
                let rv = field_views(removed@);
                assert(forall|k: int| 0 <= k < av.len() ==> current.cols().contains(#[trigger] av[k]));
                assert(forall|k: int| 0 <= k < rv.len() ==> self.cols().contains(#[trigger] rv[k]));
            }
            let added_cols = if added.len() > 0 {
                match current.select(&added) {
                    Ok(df) => Some(df),
                    Err(e) => {
                        return Err(e);
                    },
                }
            } else {
                None
            };
            let removed_cols = if removed.len() > 0 {
                let content = self.content_df();
                match content.select(&removed) {
                    Ok(df) => Some(df),
                    Err(e) => {
                        return Err(e);
                    },
                }
            } else {
                None
            };
            return Ok(DataFrameDiff { added_rows: None, removed_rows: None, added_cols, removed_cols });
        }
        let proj = match current.select(&self.schema.fields) {
            Ok(df) => df,
            Err(e) => {
                return Err(e);
            },
        };
        let hashes = current.hash_rows();
        let ghost cur = hashes_of(current.table());
        let ghost m = self.model();
        assert(hashes@.map_values(|s: String| s@) =~= cur);
        let mut added_idx: Vec<usize> = Vec::new();
        let mut i: usize = 0;
        while i < hashes.len()
            invariant
                i <= hashes@.len(),
                hashes@.len() == current.table().len(),
                cur == hashes_of(current.table()),
                hashes@.map_values(|s: String| s@) == cur,
                m == self.model(),
                added_idx@.map_values(|k: usize| k as int) == added_positions(cur, entry_keys(m.entries), i as nat),
                forall|k: int| 0 <= k < added_idx@.len() ==> #[trigger] added_idx@[k] < i,
            decreases hashes@.len() - i,
        {
            let ghost prev = added_idx@;
            assert(hashes@[i as int]@ == cur[i as int]);
            if !self.has_file_key(hashes[i].as_str()) && !prefix_contains(&hashes, i, &hashes[i]) {
                added_idx.push(i);
                assert(added_idx@.map_values(|k: usize| k as int) =~= prev.map_values(|k: usize| k as int).push(i as int));
            }
            i = i + 1;
        }
        let mut removed_idx: Vec<usize> = Vec::new();
        let mut k: usize = 0;
        while k < self.entries.len()
            invariant
                self.wf(),
                k <= self.entries@.len(),
                m == self.model(),
                hashes@.map_values(|s: String| s@) == cur,
                removed_idx@.map_values(|g: usize| g as int) == removed_globals(m.entries, cur, k as nat),
                forall|j: int| 0 <= j < removed_idx@.len() ==> #[trigger] removed_idx@[j] < m.rows.len(),
            decreases self.entries@.len() - k,
        {
            let ghost prev = removed_idx@;
            let e = &self.entries[k];
            assert(m.entries[k as int] == e@);
            let present = prefix_contains(&hashes, hashes.len(), &e.hash);
            assert(cur.subrange(0, cur.len() as int) =~= cur);
            if !present {
                removed_idx.push(e.global);
                assert(removed_idx@.map_values(|g: usize| g as int) =~= prev.map_values(|g: usize| g as int).push(e.global as int));
            }
            k = k + 1;
        }
        let added_df = proj.take(&added_idx);
        let content = self.content_df();
        let removed_df = content.take(&removed_idx);
        let ghost added = added_positions(cur, entry_keys(m.entries), cur.len());
        let ghost removed = removed_globals(m.entries, cur, m.entries.len());
        assert(added_df.table() =~= added.map_values(|i: int| proj.table()[i]));
        assert(removed_df.table() =~= removed.map_values(|g: int| m.rows[g]));
        let added_rows = if added_idx.len() > 0 { Some(added_df) } else { None };
        let removed_rows = if removed_idx.len() > 0 { Some(removed_df) } else { None };
        Ok(DataFrameDiff { added_rows, removed_rows, added_cols: None, removed_cols: None })
    }

    /// The file index entries ordered by row number in the file.
    pub fn sorted_file_indices(&self) -> (r: Vec<RowIndexEntry>)
        ensures
            is_local_order(r@.map_values(|e: RowIndexEntry| e@), self.model().entries),
    {
        let ghost es = self.model().entries;
        let mut out: Vec<RowIndexEntry> = Vec::new();
        let mut i: usize = 0;
        assert(out@.map_values(|e: RowIndexEntry| e@) =~= es.subrange(0, 0));
        while i < self.entries.len()
            invariant
                es == self.model().entries,
                i <= es.len(),
                es.len() == self.entries@.len(),
                sorted_by_local(out@.map_values(|e: RowIndexEntry| e@)),
                out@.map_values(|e: RowIndexEntry| e@).to_multiset() == es.subrange(0, i as int).to_multiset(),
            decreases es.len() - i,
        {
            let e = self.entries[i].copied();
            let ghost ov = out@.map_values(|x: RowIndexEntry| x@);
            let mut p: usize = 0;
            while p < out.len() && out[p].local <= e.local
                invariant
                    p <= out@.len(),
                    ov == out@.map_values(|x: RowIndexEntry| x@),
                    forall|a: int| 0 <= a < p ==> ov[a].1 <= e@.1,
                decreases out@.len() - p,
            {
                p = p + 1;
            }
            proof {
                assert(sorted_by_local(ov));
                assert forall|b: int| p <= b < ov.len() implies e@.1 < ov[b].1 by {
                    assert(ov[p as int].1 > e@.1);
                }
            }
            out.insert(p, e);
            proof {
                let nv = out@.map_values(|x: RowIndexEntry| x@);
                assert(nv =~= ov.insert(p as int, e@));
                vstd::seq_lib::to_multiset_insert(ov, p as int, e@);
                vstd::seq_lib::to_multiset_build(es.subrange(0, i as int), es[i as int]);
                assert(es.subrange(0, i + 1) =~= es.subrange(0, i as int).push(es[i as int]));
                assert(es[i as int] == e@);
                assert forall|a: int, b: int| 0 <= a < b < nv.len() implies nv[a].1 <= nv[b].1 by {
                    if b < p {
                    } else if b == p {
                    } else if a < p {
                        assert(ov[a].1 <= e@.1);
                        assert(e@.1 < ov[b - 1].1);
                    } else if a == p {
                        assert(e@.1 < ov[b - 1].1);
                    } else {
                        assert(ov[a - 1].1 <= ov[b - 1].1);
                    }
                }
            }
            i = i + 1;
        }
        assert(es.subrange(0, i as int) =~= es);
        out
    }

    /// The rows of the file as the index records them: the entries ordered
    /// by row number in the file, and for each the row of the
    /// content-addressable data frame that it names, in the schema's
    /// columns.
    pub fn sorted_entry_df_with_row_hash(&self) -> (r: (Vec<RowIndexEntry>, DataFrame))
        requires
            self.wf(),
        ensures
            is_local_order(r.0@.map_values(|e: RowIndexEntry| e@), self.model().entries),
            r.1.wf(),
            r.1.cols() == self.cols(),
            r.1.table() == r.0@.map_values(|e: RowIndexEntry| self.model().rows[e.global as int]),
    {
        let sorted = self.sorted_file_indices();
        let ghost m = self.model();
        let ghost sv = sorted@.map_values(|e: RowIndexEntry| e@);
        let mut idx: Vec<usize> = Vec::new();
        let mut k: usize = 0;
        while k < sorted.len()
            invariant
                self.wf(),
                m == self.model(),
                sv == sorted@.map_values(|e: RowIndexEntry| e@),
                sv.to_multiset() == m.entries.to_multiset(),
                k <= sorted@.len(),
                idx@.len() == k,
                forall|j: int| 0 <= j < k ==> #[trigger] idx@[j] == sorted@[j].global,
                forall|j: int| 0 <= j < k ==> #[trigger] idx@[j] < m.rows.len(),
            decreases sorted@.len() - k,
        {
            proof {
                let v = sv[k as int];
                vstd::seq_lib::to_multiset_contains(sv, v);
                vstd::seq_lib::to_multiset_contains(m.entries, v);
                assert(sv.contains(v));
                assert(m.entries.to_multiset().contains(v));
                let q = choose|q: int| 0 <= q < m.entries.len() && m.entries[q] == v;
                assert(m.entries[q].2 < m.rows.len());
            }
            idx.push(sorted[k].global);
            k = k + 1;
        }
        let content = self.content_df();
        let df = content.take(&idx);
        assert(df.table() =~= sorted@.map_values(|e: RowIndexEntry| m.rows[e.global as int]));
        (sorted, df)
    }

    /// The file as the index records it: its rows in the order of the file,
    /// in the schema's columns, one row per file index entry.
    pub fn entry_df(&self) -> (r: DataFrame)
        requires
            self.wf(),
        ensures
            r.wf(),
            r.cols() == self.cols(),
            r.table().len() == self.model().entries.len(),
            exists|t: Seq<(Seq<char>, nat, nat)>| is_local_order(t, self.model().entries)
                && r.table() == t.map_values(|e: (Seq<char>, nat, nat)| self.model().rows[e.2 as int]),
    {
        let (sorted, df) = self.sorted_entry_df_with_row_hash();
        proof {
            let sv = sorted@.map_values(|e: RowIndexEntry| e@);
            let m = self.model();
            vstd::seq_lib::to_multiset_len(sv);
            vstd::seq_lib::to_multiset_len(m.entries);
            assert(df.table() =~= sv.map_values(|e: (Seq<char>, nat, nat)| m.rows[e.2 as int]));
        }
        df
    }

    /// Whether the content-addressable data frame holds a row with this
    /// hash.
    pub fn has_global_key(&self, hash: &str) -> (r: bool)
        requires
            self.wf(),
        ensures
            r == self.model().hashes.contains(hash@),
    {
        let h = hash.to_owned();
        self.global_position(&h).is_some()
    }

    /// Whether the file index holds this hash.
    pub fn has_file_key(&self, hash: &str) -> (r: bool)
        ensures
            r == entry_keys(self.model().entries).contains(hash@),
    {
        let h = hash.to_owned();
        self.entry_position(&h).is_some()
    }

    /// The hashes of the content-addressable data frame with their global
    /// row numbers.
    pub fn list_global_indices(&self) -> (r: Vec<(String, usize)>)
        ensures
            r@.len() == self.model().hashes.len(),
            forall|i: int| 0 <= i < r@.len() ==> (#[trigger] r@[i]).0@ == self.model().hashes[i] && r@[i].1 == i,
    {
        let mut out: Vec<(String, usize)> = Vec::new();
        let mut i: usize = 0;
        while i < self.row_hashes.len()
            invariant
                i <= self.row_hashes@.len(),
                out@.len() == i,
                forall|j: int| 0 <= j < i ==> (#[trigger] out@[j]).0@ == self.model().hashes[j] && out@[j].1 == j,
            decreases self.row_hashes@.len() - i,
        {
            out.push((self.row_hashes[i].clone(), i));
            i = i + 1;
        }
        out
    }

    /// The entries of the file index.
    pub fn list_file_indices(&self) -> (r: Vec<RowIndexEntry>)
        ensures
            r@.map_values(|e: RowIndexEntry| e@) == self.model().entries,
    {
        let mut out: Vec<RowIndexEntry> = Vec::new();
        let mut i: usize = 0;
        while i < self.entries.len()
            invariant
                i <= self.entries@.len(),
                out@.len() == i,
                forall|j: int| 0 <= j < i ==> (#[trigger] out@[j])@ == self.entries@[j]@,
            decreases self.entries@.len() - i,
        {
            out.push(self.entries[i].copied());
            i = i + 1;
        }
        assert(out@.map_values(|e: RowIndexEntry| e@) =~= self.model().entries);
        out
    }
}

} // verus!
