//! What the row index guarantees across indexing and diffing.

use vstd::prelude::*;
use crate::frame::{positions_of, row_hash_of, schema_hash_of, select_cells, DataFrame};
use crate::row_index::{
    added_positions, entry_keys, hashes_of, index_rows, index_step, missing_cols, put_entry,
    removed_globals, CommitSchemaRowIndex, IndexModel,
};

verus! {

proof fn lemma_push_contains<A>(s: Seq<A>, x: A)
    ensures
        forall|k: A| s.push(x).contains(k) <==> (s.contains(k) || k == x),
{
    assert forall|k: A| s.push(x).contains(k) <==> (s.contains(k) || k == x) by {
        if s.push(x).contains(k) {
            let i = choose|i: int| 0 <= i < s.push(x).len() && s.push(x)[i] == k;
            if i < s.len() {
                assert(s[i] == k);
            }
        }
        if s.contains(k) {
            let i = choose|i: int| 0 <= i < s.len() && s[i] == k;
            assert(s.push(x)[i] == k);
        }
        if k == x {
            assert(s.push(x)[s.len() as int] == k);
        }
    }
}

proof fn lemma_put_entry_keys(es: Seq<(Seq<char>, nat, nat)>, h: Seq<char>, l: nat, g: nat)
    ensures
        forall|k: Seq<char>| entry_keys(put_entry(es, h, l, g)).contains(k) <==> (entry_keys(es).contains(k) || k == h),
        put_entry(es, h, l, g).len() == es.len() + if entry_keys(es).contains(h) { 0int } else { 1int },
{
    let keys = entry_keys(es);
    if keys.contains(h) {
        keys.index_of_first_ensures(h);
        let p = keys.index_of_first(h)->Some_0;
        assert(entry_keys(put_entry(es, h, l, g)) =~= keys);
    } else {
        assert(entry_keys(put_entry(es, h, l, g)) =~= keys.push(h));
        lemma_push_contains(keys, h);
    }
}

proof fn lemma_index_keys(m0: IndexModel, rows: Seq<Seq<Seq<char>>>, n: nat)
    requires
        n <= rows.len(),
    ensures
        forall|k: Seq<char>| entry_keys(index_rows(m0, rows, n).entries).contains(k)
            <==> (entry_keys(m0.entries).contains(k) || hashes_of(rows).subrange(0, n as int).contains(k)),
    decreases n,
{
    if n > 0 {
        lemma_index_keys(m0, rows, (n - 1) as nat);
        let prev = index_rows(m0, rows, (n - 1) as nat);
        let row = rows[n - 1];
        let h = row_hash_of(row);
        let g = crate::row_index::global_of(prev.hashes, h);
        assert(index_rows(m0, rows, n).entries == put_entry(prev.entries, h, (n - 1) as nat, g));
        lemma_put_entry_keys(prev.entries, h, (n - 1) as nat, g);
        let hs = hashes_of(rows);
        assert(hs.subrange(0, n as int) =~= hs.subrange(0, n - 1).push(h));
        lemma_push_contains(hs.subrange(0, n - 1), h);
    }
}

proof fn lemma_index_len(m0: IndexModel, rows: Seq<Seq<Seq<char>>>, n: nat)
    requires
        m0.entries.len() == 0,
        n <= rows.len(),
        hashes_of(rows).no_duplicates(),
    ensures
        index_rows(m0, rows, n).entries.len() == n,
    decreases n,
{
    if n > 0 {
        lemma_index_len(m0, rows, (n - 1) as nat);
        lemma_index_keys(m0, rows, (n - 1) as nat);
        let prev = index_rows(m0, rows, (n - 1) as nat);
        let h = row_hash_of(rows[n - 1]);
        let g = crate::row_index::global_of(prev.hashes, h);
        let hs = hashes_of(rows);
        assert(index_rows(m0, rows, n).entries == put_entry(prev.entries, h, (n - 1) as nat, g));
        assert(entry_keys(m0.entries) =~= Seq::<Seq<char>>::empty());
        assert(!entry_keys(m0.entries).contains(h));
        assert(hs[n - 1] == h);
        assert(!hs.subrange(0, n - 1).contains(h)) by {
            if hs.subrange(0, n - 1).contains(h) {
                let i = choose|i: int| 0 <= i < n - 1 && #[trigger] hs.subrange(0, n - 1)[i] == h;
                assert(hs[i] == hs[n - 1]);
            }
        }
        lemma_put_entry_keys(prev.entries, h, (n - 1) as nat, g);
        assert(!entry_keys(prev.entries).contains(h));
    }
}

proof fn lemma_added_none(cur: Seq<Seq<char>>, keys: Seq<Seq<char>>, n: nat)
    requires
        n <= cur.len(),
        forall|i: int| 0 <= i < n ==> keys.contains(#[trigger] cur[i]),
    ensures
        added_positions(cur, keys, n).len() == 0,
    decreases n,
{
    if n > 0 {
        lemma_added_none(cur, keys, (n - 1) as nat);
    }
}

proof fn lemma_removed_none(es: Seq<(Seq<char>, nat, nat)>, cur: Seq<Seq<char>>, n: nat)
    requires
        n <= es.len(),
        forall|j: int| 0 <= j < n ==> cur.contains((#[trigger] es[j]).0),
    ensures
        removed_globals(es, cur, n).len() == 0,
    decreases n,
{
    if n > 0 {
        lemma_removed_none(es, cur, (n - 1) as nat);
    }
}

proof fn lemma_removed_one(es: Seq<(Seq<char>, nat, nat)>, cur: Seq<Seq<char>>, n: nat, j0: int)
    requires
        n <= es.len(),
        0 <= j0 < es.len(),
        !cur.contains(es[j0].0),
        forall|j: int| 0 <= j < es.len() && j != j0 ==> cur.contains((#[trigger] es[j]).0),
    ensures
        removed_globals(es, cur, n).len() == if j0 < n { 1int } else { 0int },
    decreases n,
{
    if n > 0 {
        lemma_removed_one(es, cur, (n - 1) as nat, j0);
    }
}

/// The hashes of the rows that were indexed into an empty file index are
/// exactly its keys.
proof fn lemma_fresh_keys(before: IndexModel, rows: Seq<Seq<Seq<char>>>, m: IndexModel)
    requires
        before.entries.len() == 0,
        m == index_rows(before, rows, rows.len()),
    ensures
        forall|k: Seq<char>| #[trigger] entry_keys(m.entries).contains(k) <==> hashes_of(rows).contains(k),
{
    lemma_index_keys(before, rows, rows.len());
    let e = entry_keys(before.entries);
    assert(e =~= Seq::<Seq<char>>::empty());
    let hs = hashes_of(rows);
    assert(hs.subrange(0, rows.len() as int) =~= hs);
    assert forall|k: Seq<char>| entry_keys(index_rows(before, rows, rows.len()).entries).contains(k)
        <==> hs.contains(k) by {
        assert(!e.contains(k));
    }
}

/// Columns that are the same give the same schema hash, and each of them is
/// found in the table.
proof fn lemma_same_columns(idx: &CommitSchemaRowIndex, current: &DataFrame)
    requires
        current.cols() == idx.cols(),
        idx.schema_hash() == schema_hash_of(idx.cols()),
    ensures
        schema_hash_of(current.cols()) == idx.schema_hash(),
        positions_of(current.cols(), idx.cols()) is Some,
{
    let c = idx.cols();
    assert forall|k: int| 0 <= k < c.len() implies c.contains(#[trigger] c[k]) by {
        assert(c[k] == c[k]);
    }
}

/// A file that is diffed against the index built from its own rows, with the
/// schema unchanged, has no added rows and no removed rows, and the diff
/// takes the row branch, so no column part either.
pub proof fn lemma_unchanged_file_diff_is_empty(idx: &CommitSchemaRowIndex, before: IndexModel, current: &DataFrame)
    requires
        before.entries.len() == 0,
        current.cols() == idx.cols(),
        idx.schema_hash() == schema_hash_of(idx.cols()),
        idx.model() == index_rows(before, current.table(), current.table().len()),
    ensures
        schema_hash_of(current.cols()) == idx.schema_hash(),
        positions_of(current.cols(), idx.cols()) is Some,
        added_positions(hashes_of(current.table()), entry_keys(idx.model().entries), current.table().len()).len() == 0,
        removed_globals(idx.model().entries, hashes_of(current.table()), idx.model().entries.len()).len() == 0,
{
    lemma_same_columns(idx, current);
    let rows = current.table();
    let cur = hashes_of(rows);
    let m = idx.model();
    lemma_fresh_keys(before, rows, m);
    assert forall|i: int| 0 <= i < rows.len() implies entry_keys(m.entries).contains(#[trigger] cur[i]) by {
        assert(cur.contains(cur[i]));
    }
    lemma_added_none(cur, entry_keys(m.entries), rows.len());
    assert forall|j: int| 0 <= j < m.entries.len() implies cur.contains((#[trigger] m.entries[j]).0) by {
        assert(entry_keys(m.entries)[j] == m.entries[j].0);
        assert(entry_keys(m.entries).contains(m.entries[j].0));
    }
    lemma_removed_none(m.entries, cur, m.entries.len());
}

/// Appending one row whose hash the file did not have, with the schema
/// unchanged, gives exactly that row as added (at its position, the last)
/// and nothing removed.
pub proof fn lemma_appended_row_is_added(idx: &CommitSchemaRowIndex, before: IndexModel, rows: Seq<Seq<Seq<char>>>, current: &DataFrame)
    requires
        before.entries.len() == 0,
        current.cols() == idx.cols(),
        idx.schema_hash() == schema_hash_of(idx.cols()),
        idx.model() == index_rows(before, rows, rows.len()),
        rows.len() > 0 ==> current.table().drop_last() == rows,
        current.table().len() == rows.len() + 1,
        !hashes_of(rows).contains(row_hash_of(current.table().last())),
    ensures
        schema_hash_of(current.cols()) == idx.schema_hash(),
        positions_of(current.cols(), idx.cols()) is Some,
        added_positions(hashes_of(current.table()), entry_keys(idx.model().entries), current.table().len())
            == seq![rows.len() as int],
        removed_globals(idx.model().entries, hashes_of(current.table()), idx.model().entries.len()).len() == 0,
{
    lemma_same_columns(idx, current);
    let t = current.table();
    let n = rows.len();
    assert(t.drop_last() =~= rows);
    let cur = hashes_of(t);
    let m = idx.model();
    let keys = entry_keys(m.entries);
    lemma_fresh_keys(before, rows, m);
    assert forall|i: int| 0 <= i < n implies keys.contains(#[trigger] cur[i]) by {
        assert(cur[i] == hashes_of(rows)[i]);
        assert(hashes_of(rows).contains(hashes_of(rows)[i]));
    }
    lemma_added_none(cur, keys, n);
    let x = cur[n as int];
    assert(x == row_hash_of(t.last()));
    assert(!cur.subrange(0, n as int).contains(x)) by {
        assert(cur.subrange(0, n as int) =~= hashes_of(rows));
    }
    assert(added_positions(cur, keys, n + 1) =~= seq![n as int]);
    assert forall|j: int| 0 <= j < m.entries.len() implies cur.contains((#[trigger] m.entries[j]).0) by {
        assert(keys[j] == m.entries[j].0);
        assert(keys.contains(m.entries[j].0));
        let i = choose|i: int| 0 <= i < hashes_of(rows).len() && hashes_of(rows)[i] == m.entries[j].0;
        assert(cur[i] == hashes_of(rows)[i]);
    }
    lemma_removed_none(m.entries, cur, m.entries.len());
}

/// Removing one row whose hash no other row of the file has, with the
/// schema unchanged, gives exactly one removed row and nothing added.
pub proof fn lemma_removed_row_is_removed(idx: &CommitSchemaRowIndex, before: IndexModel, rows: Seq<Seq<Seq<char>>>, k: int, current: &DataFrame)
    requires
        idx.wf(),
        before.entries.len() == 0,
        current.cols() == idx.cols(),
        idx.schema_hash() == schema_hash_of(idx.cols()),
        idx.model() == index_rows(before, rows, rows.len()),
        0 <= k < rows.len(),
        current.table() == rows.remove(k),
        forall|i: int| 0 <= i < rows.len() && i != k ==> row_hash_of(#[trigger] rows[i]) != row_hash_of(rows[k]),
    ensures
        schema_hash_of(current.cols()) == idx.schema_hash(),
        positions_of(current.cols(), idx.cols()) is Some,
        added_positions(hashes_of(current.table()), entry_keys(idx.model().entries), current.table().len()).len() == 0,
        removed_globals(idx.model().entries, hashes_of(current.table()), idx.model().entries.len()).len() == 1,
{
    lemma_same_columns(idx, current);
    let t = current.table();
    let hs = hashes_of(rows);
    let cur = hashes_of(t);
    let m = idx.model();
    let keys = entry_keys(m.entries);
    let hk = row_hash_of(rows[k]);
    assert(cur =~= hs.remove(k));
    lemma_fresh_keys(before, rows, m);
    assert forall|i: int| 0 <= i < t.len() implies keys.contains(#[trigger] cur[i]) by {
        if i < k {
            assert(cur[i] == hs[i]);
            assert(hs.contains(hs[i]));
        } else {
            assert(cur[i] == hs[i + 1]);
            assert(hs.contains(hs[i + 1]));
        }
    }
    lemma_added_none(cur, keys, t.len());
    assert(hs[k] == hk);
    assert(hs.contains(hk));
    assert(keys.contains(hk));
    keys.index_of_first_ensures(hk);
    let j0 = keys.index_of_first(hk)->Some_0;
    assert(m.entries[j0].0 == hk);
    assert(!cur.contains(hk)) by {
        if cur.contains(hk) {
            let i = choose|i: int| 0 <= i < cur.len() && cur[i] == hk;
            if i < k {
                assert(hs[i] == hk);
            } else {
                assert(hs[i + 1] == hk);
            }
        }
    }
    assert forall|j: int| 0 <= j < m.entries.len() && j != j0 implies cur.contains((#[trigger] m.entries[j]).0) by {
        let h = m.entries[j].0;
        assert(keys[j] == h);
        assert(keys.contains(h));
        assert(h != hk) by {
            assert(keys.no_duplicates());
        }
        let i = choose|i: int| 0 <= i < hs.len() && hs[i] == h;
        assert(i != k);
        if i < k {
            assert(cur[i] == h);
        } else {
            assert(cur[i - 1] == h);
        }
    }
    lemma_removed_one(m.entries, cur, m.entries.len(), j0);
}

/// A table whose columns are the schema's with one more column appended,
/// and whose schema hash therefore differs, has exactly that column added
/// and none removed; the added part has one row per current row and one
/// cell per row.
pub proof fn lemma_added_column_is_added(idx: &CommitSchemaRowIndex, current: &DataFrame, f: (Seq<char>, Seq<char>))
    requires
        current.wf(),
        current.cols() == idx.cols().push(f),
        !idx.cols().contains(f),
        schema_hash_of(current.cols()) != idx.schema_hash(),
    ensures
        missing_cols(current.cols(), idx.cols()) == seq![f],
        missing_cols(idx.cols(), current.cols()).len() == 0,
        positions_of(current.cols(), seq![f]) is Some,
        select_cells(current.table(), positions_of(current.cols(), seq![f])->Some_0).len() == current.table().len(),
        forall|i: int| 0 <= i < current.table().len() ==>
            (#[trigger] select_cells(current.table(), positions_of(current.cols(), seq![f])->Some_0)[i]).len() == 1,
{
    let c = idx.cols();
    let cc = current.cols();
    assert(cc.drop_last() =~= c);
    lemma_missing_all_present(c, cc, c.len());
    assert(c.subrange(0, c.len() as int) =~= c);
    assert(missing_cols(c, c) =~= Seq::empty()) by {
        lemma_missing_all_present(c, c, c.len());
    }
    assert(cc.contains(f)) by {
        assert(cc[c.len() as int] == f);
    }
    let w = seq![f];
    assert forall|k: int| 0 <= k < w.len() implies cc.contains(#[trigger] w[k]) by {
        assert(cc[c.len() as int] == f);
    }
}

proof fn lemma_missing_all_present(a: Seq<(Seq<char>, Seq<char>)>, b: Seq<(Seq<char>, Seq<char>)>, n: nat)
    requires
        n <= a.len(),
        forall|i: int| 0 <= i < a.len() ==> (a[i] == b[i] || b.contains(#[trigger] a[i])),
        a.len() <= b.len(),
    ensures
        missing_cols(a.subrange(0, n as int), b).len() == 0,
    decreases n,
{
    if n > 0 {
        lemma_missing_all_present(a, b, (n - 1) as nat);
        assert(a.subrange(0, n as int).drop_last() =~= a.subrange(0, n - 1));
        assert(b.contains(a[n - 1])) by {
            let i = n - 1;
            if a[i] == b[i] {
                assert(b.contains(b[i]));
            }
        }
    }
}

/// A file whose rows all hash differently, indexed into an empty file index,
/// has one file index entry per row, so its reconstruction has as many rows
/// as the file.
pub proof fn lemma_reconstruct_keeps_height(before: IndexModel, rows: Seq<Seq<Seq<char>>>)
    requires
        before.entries.len() == 0,
        hashes_of(rows).no_duplicates(),
    ensures
        index_rows(before, rows, rows.len()).entries.len() == rows.len(),
{
    lemma_index_len(before, rows, rows.len());
}

} // verus!
