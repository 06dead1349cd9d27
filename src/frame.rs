//! Tables as the row index sees them: named, typed columns and rows of
//! cells, with the content hashes of rows and schemas.

use vstd::prelude::*;
use crate::error::OxenError;
use crate::hashing::{digest_of, hash_buffer};
use crate::text::{append_framed, framed};
use vstd::string::StringSliceAdditionalSpecFns;

verus! {

/// A column: its name and its type name.
#[derive(Debug, Clone)]
pub struct Field {
    pub name: String,
    pub dtype: String,
}

impl View for Field {
    type V = (Seq<char>, Seq<char>);

    open spec fn view(&self) -> (Seq<char>, Seq<char>) {
        (self.name@, self.dtype@)
    }
}

impl Field {
    pub fn new(name: &str, dtype: &str) -> (r: Field)
        ensures
            r@ == (name@, dtype@),
    {
        Field { name: name.to_owned(), dtype: dtype.to_owned() }
    }

    /// A copy with the same name and type.
    pub fn copied(&self) -> (r: Field)
        ensures
            r@ == self@,
    {
        Field { name: self.name.clone(), dtype: self.dtype.clone() }
    }

    /// Whether two fields have the same name and type.
    pub fn same_as(&self, other: &Field) -> (r: bool)
        ensures
            r == (self@ == other@),
    {
        self.name == other.name && self.dtype == other.dtype
    }
}

/// The views of a sequence of fields.
pub open spec fn field_views(fs: Seq<Field>) -> Seq<(Seq<char>, Seq<char>)> {
    fs.map_values(|f: Field| f@)
}

/// The views of the cells of a row.
pub open spec fn cell_views(r: Seq<String>) -> Seq<Seq<char>> {
    r.map_values(|c: String| c@)
}

/// The text that a schema hash is taken over: each name and type, framed by
/// its length, in column order.
pub open spec fn schema_text(fs: Seq<(Seq<char>, Seq<char>)>) -> Seq<char>
    decreases fs.len(),
{
    if fs.len() == 0 {
        Seq::empty()
    } else {
        schema_text(fs.drop_last()) + framed(fs.last().0) + framed(fs.last().1)
    }
}

/// The hash of a column sequence.
pub open spec fn schema_hash_of(fs: Seq<(Seq<char>, Seq<char>)>) -> Seq<char> {
    digest_of(vstd::utf8::encode_utf8(schema_text(fs)))
}

/// The text that a row hash is taken over: each cell framed by its length.
pub open spec fn row_text(cells: Seq<Seq<char>>) -> Seq<char>
    decreases cells.len(),
{
    if cells.len() == 0 {
        Seq::empty()
    } else {
        row_text(cells.drop_last()) + framed(cells.last())
    }
}

/// The content hash of a row, over all its cells.
pub open spec fn row_hash_of(cells: Seq<Seq<char>>) -> Seq<char> {
    digest_of(vstd::utf8::encode_utf8(row_text(cells)))
}

/// The structure of a table: a hash that identifies it and its columns.
#[derive(Debug, Clone)]
pub struct Schema {
    pub hash: String,
    pub fields: Vec<Field>,
}

impl Schema {
    /// The column views.
    pub open spec fn cols(&self) -> Seq<(Seq<char>, Seq<char>)> {
        field_views(self.fields@)
    }

    /// The hash is the one that the columns give.
    pub open spec fn wf(&self) -> bool {
        self.hash@ == schema_hash_of(self.cols())
    }

    /// A schema over these columns, with its hash.
    pub fn from_fields(fields: &Vec<Field>) -> (r: Schema)
        ensures
            r.cols() == field_views(fields@),
            r.wf(),
    {
        let copy = copy_fields(fields);
        let hash = schema_hash(fields);
        Schema { hash, fields: copy }
    }

    /// A copy with the same hash and columns.
    pub fn copied(&self) -> (r: Schema)
        ensures
            r.hash@ == self.hash@,
            r.cols() == self.cols(),
    {
        Schema { hash: self.hash.clone(), fields: copy_fields(&self.fields) }
    }
}

/// A copy of a column list.
pub fn copy_fields(fields: &Vec<Field>) -> (r: Vec<Field>)
    ensures
        field_views(r@) == field_views(fields@),
{
    let mut out: Vec<Field> = Vec::new();
    let mut i: usize = 0;
    while i < fields.len()
        invariant
            i <= fields@.len(),
            out@.len() == i,
            forall|j: int| 0 <= j < i ==> #[trigger] out@[j]@ == fields@[j]@,
        decreases fields@.len() - i,
    {
        out.push(fields[i].copied());
        i = i + 1;
    }
    assert(field_views(out@) =~= field_views(fields@));
    out
}

/// The hash of a column sequence.
pub fn schema_hash(fields: &Vec<Field>) -> (r: String)
    ensures
        r@ == schema_hash_of(field_views(fields@)),
{
    let mut text = String::new();
    let mut i: usize = 0;
    while i < fields.len()
        invariant
            i <= fields@.len(),
            text@ == schema_text(field_views(fields@.subrange(0, i as int))),
        decreases fields@.len() - i,
    {
        append_framed(&mut text, fields[i].name.as_str());
        append_framed(&mut text, fields[i].dtype.as_str());
        proof {
            let prev = field_views(fields@.subrange(0, i as int));
            let next = field_views(fields@.subrange(0, i + 1));
            assert(next.drop_last() =~= prev);
            assert(next.last() == fields@[i as int]@);
        }
        i = i + 1;
    }
    assert(fields@.subrange(0, i as int) =~= fields@);
    hash_buffer(text.as_str().as_bytes())
}

/// The content hash of a row.
pub fn row_hash(row: &Vec<String>) -> (r: String)
    ensures
        r@ == row_hash_of(cell_views(row@)),
{
    let mut text = String::new();
    let mut i: usize = 0;
    while i < row.len()
        invariant
            i <= row@.len(),
            text@ == row_text(cell_views(row@.subrange(0, i as int))),
        decreases row@.len() - i,
    {
        append_framed(&mut text, row[i].as_str());
        proof {
            let prev = cell_views(row@.subrange(0, i as int));
            let next = cell_views(row@.subrange(0, i + 1));
            assert(next.drop_last() =~= prev);
        }
        i = i + 1;
    }
    assert(row@.subrange(0, i as int) =~= row@);
    hash_buffer(text.as_str().as_bytes())
}

/// A copy of a row.
pub fn copy_row(row: &Vec<String>) -> (r: Vec<String>)
    ensures
        cell_views(r@) == cell_views(row@),
{
    let mut out: Vec<String> = Vec::new();
    let mut i: usize = 0;
    while i < row.len()
        invariant
            i <= row@.len(),
            out@.len() == i,
            forall|j: int| 0 <= j < i ==> #[trigger] out@[j]@ == row@[j]@,
        decreases row@.len() - i,
    {
        out.push(row[i].clone());
        i = i + 1;
    }
    assert(cell_views(out@) =~= cell_views(row@));
    out
}

/// A table: its columns and its rows, each row one cell per column.
#[derive(Debug, Clone)]
pub struct DataFrame {
    pub fields: Vec<Field>,
    pub rows: Vec<Vec<String>>,
}

/// The views of the rows of a table.
pub open spec fn table_views(rows: Seq<Vec<String>>) -> Seq<Seq<Seq<char>>> {
    rows.map_values(|r: Vec<String>| cell_views(r@))
}

/// Rows that each hold `width` cells.
pub open spec fn rows_of_width(rows: Seq<Seq<Seq<char>>>, width: nat) -> bool {
    forall|i: int| 0 <= i < rows.len() ==> #[trigger] rows[i].len() == width
}

/// The rows of a table, each restricted to the given column positions.
pub open spec fn select_cells(rows: Seq<Seq<Seq<char>>>, pos: Seq<int>) -> Seq<Seq<Seq<char>>> {
    rows.map_values(|r: Seq<Seq<char>>| pos.map_values(|p: int| r[p]))
}

/// The position of each wanted column among the given ones, or `None` when
/// one of them is missing.
pub open spec fn positions_of(
    have: Seq<(Seq<char>, Seq<char>)>,
    want: Seq<(Seq<char>, Seq<char>)>,
) -> Option<Seq<int>> {
    if forall|k: int| 0 <= k < want.len() ==> have.contains(#[trigger] want[k]) {
        Some(want.map_values(|f: (Seq<char>, Seq<char>)| have.index_of_first(f)->Some_0))
    } else {
        None
    }
}

impl DataFrame {
    /// The column views.
    pub open spec fn cols(&self) -> Seq<(Seq<char>, Seq<char>)> {
        field_views(self.fields@)
    }

    /// The row views.
    pub open spec fn table(&self) -> Seq<Seq<Seq<char>>> {
        table_views(self.rows@)
    }

    /// Every row has one cell per column.
    pub open spec fn wf(&self) -> bool {
        rows_of_width(self.table(), self.cols().len())
    }

    /// A table with these columns and no rows.
    pub fn empty(fields: &Vec<Field>) -> (r: DataFrame)
        ensures
            r.cols() == field_views(fields@),
            r.table() == Seq::<Seq<Seq<char>>>::empty(),
            r.wf(),
    {
        let r = DataFrame { fields: copy_fields(fields), rows: Vec::new() };
        assert(r.table() =~= Seq::<Seq<Seq<char>>>::empty());
        r
    }

    /// The number of rows.
    pub fn height(&self) -> (r: usize)
        ensures
            r == self.table().len(),
    {
        self.rows.len()
    }

    /// The number of columns.
    pub fn width(&self) -> (r: usize)
        ensures
            r == self.cols().len(),
    {
        self.fields.len()
    }

    /// The content hash of each row, in order.
    pub fn hash_rows(&self) -> (r: Vec<String>)
        ensures
            r@.len() == self.table().len(),
            forall|i: int| 0 <= i < r@.len() ==> #[trigger] r@[i]@ == row_hash_of(self.table()[i]),
    {
        let mut out: Vec<String> = Vec::new();
        let mut i: usize = 0;
        while i < self.rows.len()
            invariant
                i <= self.rows@.len(),
                out@.len() == i,
                forall|j: int| 0 <= j < i ==> #[trigger] out@[j]@ == row_hash_of(self.table()[j]),
            decreases self.rows@.len() - i,
        {
            out.push(row_hash(&self.rows[i]));
            i = i + 1;
        }
        out
    }

    /// The rows at the given positions, in the order given.
    pub fn take(&self, idx: &Vec<usize>) -> (r: DataFrame)
        requires
            forall|k: int| 0 <= k < idx@.len() ==> #[trigger] idx@[k] < self.table().len(),
        ensures
            r.cols() == self.cols(),
            r.table() == idx@.map_values(|i: usize| self.table()[i as int]),
            self.wf() ==> r.wf(),
    {
        let mut rows: Vec<Vec<String>> = Vec::new();
        let mut k: usize = 0;
        while k < idx.len()
            invariant
                k <= idx@.len(),
                forall|j: int| 0 <= j < idx@.len() ==> #[trigger] idx@[j] < self.table().len(),
                rows@.len() == k,
                forall|j: int| 0 <= j < k ==> cell_views(#[trigger] rows@[j]@) == self.table()[idx@[j] as int],
            decreases idx@.len() - k,
        {
            let row = copy_row(&self.rows[idx[k]]);
            rows.push(row);
            k = k + 1;
        }
        assert(table_views(rows@) =~= idx@.map_values(|i: usize| self.table()[i as int]));
        DataFrame { fields: copy_fields(&self.fields), rows }
    }

    /// The position of the first column equal to `f`.
    fn column_position(&self, f: &Field) -> (r: Option<usize>)
        ensures
            match r {
                Some(p) => self.cols().contains(f@) && p as int == self.cols().index_of_first(f@)->Some_0,
                None => !self.cols().contains(f@),
            },
    {
        let mut i: usize = 0;
        while i < self.fields.len()
            invariant
                i <= self.fields@.len(),
                forall|j: int| 0 <= j < i ==> self.cols()[j] != f@,
            decreases self.fields@.len() - i,
        {
            if self.fields[i].same_as(f) {
                proof {
                    assert(self.cols()[i as int] == f@);
                    self.cols().index_of_first_ensures(f@);
                }
                return Some(i);
            }
            i = i + 1;
        }
        None
    }

    /// The table restricted to the wanted columns, in the wanted order.
    /// Fails with `NotFound` when one of them is not a column of the table.
    pub fn select(&self, want: &Vec<Field>) -> (r: Result<DataFrame, OxenError>)
        requires
            self.wf(),
        ensures
            match positions_of(self.cols(), field_views(want@)) {
                Some(pos) => r is Ok && r->Ok_0.cols() == field_views(want@)
                    && r->Ok_0.table() == select_cells(self.table(), pos) && r->Ok_0.wf(),
                None => r == Err::<DataFrame, OxenError>(OxenError::NotFound),
            },
    {
        let ghost wv = field_views(want@);
        let mut pos: Vec<usize> = Vec::new();
        let mut k: usize = 0;
        while k < want.len()
            invariant
                k <= want@.len(),
                wv == field_views(want@),
                pos@.len() == k,
                forall|j: int| 0 <= j < k ==> self.cols().contains(#[trigger] wv[j]),
                forall|j: int| 0 <= j < k ==> #[trigger] pos@[j] as int == self.cols().index_of_first(wv[j])->Some_0,
                forall|j: int| 0 <= j < k ==> #[trigger] pos@[j] < self.cols().len(),
            decreases want@.len() - k,
        {
            match self.column_position(&want[k]) {
                Some(p) => {
                    proof {
                        self.cols().index_of_first_ensures(wv[k as int]);
                    }
                    pos.push(p);
                },
                None => {
                    assert(!self.cols().contains(wv[k as int]));
                    return Err(OxenError::NotFound);
                },
            }
            k = k + 1;
        }
        let ghost gpos = wv.map_values(|f: (Seq<char>, Seq<char>)| self.cols().index_of_first(f)->Some_0);
        assert(positions_of(self.cols(), wv) == Some(gpos));
        let mut rows: Vec<Vec<String>> = Vec::new();
        let mut i: usize = 0;
        while i < self.rows.len()
            invariant
                self.wf(),
                i <= self.rows@.len(),
                pos@.len() == wv.len(),
                gpos.len() == wv.len(),
                forall|j: int| 0 <= j < pos@.len() ==> #[trigger] pos@[j] as int == gpos[j],
                forall|j: int| 0 <= j < pos@.len() ==> #[trigger] pos@[j] < self.cols().len(),
                rows@.len() == i,
                forall|j: int| 0 <= j < i ==> cell_views(#[trigger] rows@[j]@) == gpos.map_values(|p: int| self.table()[j][p]),
            decreases self.rows@.len() - i,
        {
            let src = &self.rows[i];
            assert(self.table()[i as int].len() == self.cols().len());
            let mut row: Vec<String> = Vec::new();
            let mut k: usize = 0;
            while k < pos.len()
                invariant
                    k <= pos@.len(),
                    pos@.len() == gpos.len(),
                    forall|j: int| 0 <= j < pos@.len() ==> #[trigger] pos@[j] as int == gpos[j],
                    forall|j: int| 0 <= j < pos@.len() ==> #[trigger] pos@[j] < src@.len(),
                    row@.len() == k,
                    cell_views(src@) == self.table()[i as int],
                    forall|j: int| 0 <= j < k ==> (#[trigger] row@[j])@ == src@[gpos[j]]@,
                decreases pos@.len() - k,
            {
                row.push(src[pos[k]].clone());
                k = k + 1;
            }
            assert forall|j: int| 0 <= j < gpos.len() implies #[trigger] cell_views(row@)[j]
                == gpos.map_values(|p: int| self.table()[i as int][p])[j] by {
                assert(row@[j]@ == src@[gpos[j]]@);
                assert(pos@[j] < src@.len());
                assert(cell_views(src@)[gpos[j]] == src@[gpos[j]]@);
            }
            assert(cell_views(row@) =~= gpos.map_values(|p: int| self.table()[i as int][p]));
            rows.push(row);
            i = i + 1;
        }
        assert(table_views(rows@) =~= select_cells(self.table(), gpos));
        let r = DataFrame { fields: copy_fields(want), rows };
        assert(r.wf());
        Ok(r)
    }
}

} // verus!
