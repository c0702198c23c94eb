//! A table: its column widths and its entries.

use crate::column::Column;
use crate::views::{lemma_views, views};
use crate::packing::{lemma_rows_view, encode_entries, encode_rows, fits_row, row_fits, rows_view, valid_sizes};
use vstd::arithmetic::power2::pow2;
use vstd::prelude::*;

verus! {

broadcast use {lemma_rows_view, lemma_views};

/// Why the engine refuses a request.
#[derive(Clone, Copy, Debug, PartialEq, Eq, Structural)]
pub enum FurDBError {
    /// An id that is empty or holds a character other than an ASCII letter or
    /// digit, `_` or `-`.
    InvalidId,
    DatabaseNotFound,
    DatabaseExists,
    TableNotFound,
    TableExists,
    /// Column widths that cannot address entries (see `valid_sizes`).
    ColumnsUnfit,
    /// An entry with more or fewer values than the table has columns.
    ColumnMismatch,
    /// A value that does not fit its column's width.
    ColumnOverflow,
    /// An entry index past the last entry.
    InvalidIndex,
    /// A column index past the last column.
    InvalidColumn,
}

/// What a table holds: its column widths and its entries, in index order.
pub struct TableModel {
    pub columns: Seq<u128>,
    pub rows: Seq<Seq<u128>>,
}

/// A table whose widths can address entries and whose entries all fit.
pub open spec fn table_model_wf(m: TableModel) -> bool {
    &&& valid_sizes(m.columns)
    &&& forall|r: int| 0 <= r < m.rows.len() ==> fits_row(#[trigger] m.rows[r], m.columns)
}

/// Why a batch of entries cannot be inserted: the first entry with the wrong
/// number of values or with a value too wide for its column.
pub open spec fn row_error(row: Seq<u128>, sizes: Seq<u128>) -> Option<FurDBError> {
    if row.len() != sizes.len() {
        Some(FurDBError::ColumnMismatch)
    } else if !fits_row(row, sizes) {
        Some(FurDBError::ColumnOverflow)
    } else {
        None
    }
}

pub open spec fn insert_error(rows: Seq<Seq<u128>>, sizes: Seq<u128>) -> Option<FurDBError>
    decreases rows.len(),
{
    if rows.len() == 0 {
        None
    } else {
        match insert_error(rows.drop_last(), sizes) {
            Some(e) => Some(e),
            None => row_error(rows.last(), sizes),
        }
    }
}

/// The entries left once those whose index occurs in `gone` are removed;
/// the survivors keep their order and are numbered from 0 again.
pub open spec fn remove_indices(rows: Seq<Seq<u128>>, gone: Seq<u64>) -> Seq<Seq<u128>>
    decreases rows.len(),
{
    if rows.len() == 0 {
        Seq::empty()
    } else {
        let rest = remove_indices(rows.drop_last(), gone);
        if gone.contains((rows.len() - 1) as u64) {
            rest
        } else {
            rest.push(rows.last())
        }
    }
}

/// The entries, with their indices, whose value in column `col` is `value`,
/// in index order.
pub open spec fn query_rows(rows: Seq<Seq<u128>>, col: int, value: u128) -> Seq<(nat, Seq<u128>)>
    decreases rows.len(),
{
    if rows.len() == 0 {
        Seq::empty()
    } else {
        let rest = query_rows(rows.drop_last(), col, value);
        if rows.last()[col] == value {
            rest.push(((rows.len() - 1) as nat, rows.last()))
        } else {
            rest
        }
    }
}

/// Every entry, with its index.
pub open spec fn all_rows(rows: Seq<Seq<u128>>) -> Seq<(nat, Seq<u128>)> {
    Seq::new(rows.len(), |i: int| (i as nat, rows[i]))
}

/// The entries at the given indices, in the order given.
pub open spec fn rows_at(rows: Seq<Seq<u128>>, indices: Seq<u64>) -> Seq<(nat, Seq<u128>)> {
    Seq::new(indices.len(), |k: int| (indices[k] as nat, rows[indices[k] as int]))
}

pub open spec fn indices_in_range(rows: Seq<Seq<u128>>, indices: Seq<u64>) -> bool {
    forall|k: int| 0 <= k < indices.len() ==> (#[trigger] indices[k]) < rows.len()
}

/// An entry and its index in its table.
pub struct Entry {
    index: usize,
    data: Vec<u128>,
}

impl View for Entry {
    type V = (nat, Seq<u128>);

    closed spec fn view(&self) -> (nat, Seq<u128>) {
        (self.index as nat, self.data@)
    }
}

impl Entry {
    pub fn get_index(&self) -> (index: usize)
        ensures
            index == self@.0,
    {
        self.index
    }

    pub fn get_data(&self) -> (data: Vec<u128>)
        ensures
            data@ == self@.1,
    {
        copy_values(&self.data)
    }
}

/// The entries that a read selected.
pub struct EntriesResult {
    result_count: usize,
    results: Vec<Entry>,
}


impl View for EntriesResult {
    type V = Seq<(nat, Seq<u128>)>;

    closed spec fn view(&self) -> Seq<(nat, Seq<u128>)> {
        views(self.results@)
    }
}

impl EntriesResult {
    pub closed spec fn count(&self) -> nat {
        self.result_count as nat
    }

    fn from_entries(results: Vec<Entry>) -> (r: Self)
        ensures
            r@ == views(results@),
            r.count() == r@.len(),
    {
        EntriesResult { result_count: results.len(), results }
    }

    pub fn get_result_count(&self) -> (count: usize)
        ensures
            count == self.count(),
    {
        self.result_count
    }

    /// The selected entries, consumed.
    pub fn get_results(self) -> (results: Vec<Entry>)
        ensures
            views(results@) == self@,
    {
        self.results
    }
}

/// What a table was created with.
pub struct TableInfo {
    database_id: String,
    table_id: String,
    table_columns: Vec<Column>,
}


impl TableInfo {
    pub closed spec fn database_id(&self) -> Seq<char> {
        self.database_id@
    }

    pub closed spec fn table_id(&self) -> Seq<char> {
        self.table_id@
    }

    pub closed spec fn columns(&self) -> Seq<u128> {
        views(self.table_columns@)
    }

    pub fn get_database_id(&self) -> (id: String)
        ensures
            id@ == self.database_id(),
    {
        self.database_id.clone()
    }

    pub fn get_table_id(&self) -> (id: String)
        ensures
            id@ == self.table_id(),
    {
        self.table_id.clone()
    }

    pub fn get_table_columns(&self) -> (columns: Vec<Column>)
        ensures
            views(columns@) == self.columns(),
    {
        let mut out: Vec<Column> = Vec::new();
        let mut i: usize = 0;
        while i < self.table_columns.len()
            invariant
                0 <= i <= self.table_columns.len(),
                out@.len() == i,
                views(out@) == views(self.table_columns@).take(i as int),
            decreases self.table_columns.len() - i,
        {
            out.push(Column::new(self.table_columns[i].get_size()));
            proof {
                assert(views(out@) =~= views(self.table_columns@).take(i + 1));
            }
            i = i + 1;
        }
        proof {
            assert(views(self.table_columns@).take(i as int) =~= views(
                self.table_columns@,
            ));
        }
        out
    }
}

/// A copy of a list of values.
pub fn copy_values(values: &Vec<u128>) -> (copy: Vec<u128>)
    ensures
        copy@ == values@,
{
    let mut out: Vec<u128> = Vec::new();
    let mut i: usize = 0;
    while i < values.len()
        invariant
            0 <= i <= values.len(),
            out@ == values@.take(i as int),
        decreases values.len() - i,
    {
        out.push(values[i]);
        proof {
            assert(out@ =~= values@.take(i + 1));
        }
        i = i + 1;
    }
    proof {
        assert(values@.take(i as int) =~= values@);
    }
    out
}

/// A table of a database.
pub struct Table {
    database_id: String,
    table_id: String,
    sizes: Vec<u128>,
    entries: Vec<Vec<u128>>,
}

impl Table {
    pub closed spec fn id(&self) -> Seq<char> {
        self.table_id@
    }

    pub closed spec fn database_id(&self) -> Seq<char> {
        self.database_id@
    }

    pub closed spec fn model(&self) -> TableModel {
        TableModel { columns: self.sizes@, rows: rows_view(self.entries@) }
    }

    pub open spec fn wf(&self) -> bool {
        table_model_wf(self.model())
    }

    /// An empty table with the given column widths.
    pub(crate) fn new(database_id: String, table_id: String, sizes: Vec<u128>) -> (t: Self)
        requires
            valid_sizes(sizes@),
        ensures
            t.wf(),
            t.id() == table_id@,
            t.database_id() == database_id@,
            t.model() == (TableModel { columns: sizes@, rows: Seq::empty() }),
    {
        let t = Table { database_id, table_id, sizes, entries: Vec::new() };
        proof {
            assert(rows_view(t.entries@) =~= Seq::<Seq<u128>>::empty());
        }
        t
    }

    pub fn get_table_info(&self) -> (info: TableInfo)
        ensures
            info.database_id() == self.database_id(),
            info.table_id() == self.id(),
            info.columns() == self.model().columns,
    {
        let mut columns: Vec<Column> = Vec::new();
        let mut i: usize = 0;
        while i < self.sizes.len()
            invariant
                0 <= i <= self.sizes.len(),
                columns@.len() == i,
                views(columns@) == self.sizes@.take(i as int),
            decreases self.sizes.len() - i,
        {
            columns.push(Column::new(self.sizes[i]));
            proof {
                assert(views(columns@) =~= self.sizes@.take(i + 1));
            }
            i = i + 1;
        }
        proof {
            assert(self.sizes@.take(i as int) =~= self.sizes@);
        }
        TableInfo {
            database_id: self.database_id.clone(),
            table_id: self.table_id.clone(),
            table_columns: columns,
        }
    }

    pub fn get_table_id(&self) -> (id: String)
        ensures
            id@ == self.id(),
    {
        self.table_id.clone()
    }

    pub(crate) fn is_named(&self, id: &String) -> (r: bool)
        ensures
            r == (self.id() == id@),
    {
        self.table_id == *id
    }

    /// The column widths.
    pub fn get_sizes(&self) -> (sizes: Vec<u128>)
        ensures
            sizes@ == self.model().columns,
    {
        copy_values(&self.sizes)
    }

    /// Every entry, with its index.
    pub fn get_all_entries(&self) -> (r: EntriesResult)
        ensures
            r@ == all_rows(self.model().rows),
            r.count() == self.model().rows.len(),
    {
        let ghost rows = self.model().rows;
        let mut results: Vec<Entry> = Vec::new();
        let mut i: usize = 0;
        while i < self.entries.len()
            invariant
                0 <= i <= self.entries.len(),
                rows == rows_view(self.entries@),
                results@.len() == i,
                views(results@) == all_rows(rows).take(i as int),
            decreases self.entries.len() - i,
        {
            results.push(Entry { index: i, data: copy_values(&self.entries[i]) });
            proof {
                assert(views(results@) =~= all_rows(rows).take(i + 1));
            }
            i = i + 1;
        }
        proof {
            assert(all_rows(rows).take(i as int) =~= all_rows(rows));
        }
        EntriesResult::from_entries(results)
    }

    /// The entries at the given indices, in the order given, repeats
    /// included; refused if one of them is past the last entry.
    pub fn get_entries(&self, indices: &Vec<u64>) -> (r: Result<EntriesResult, FurDBError>)
        ensures
            match r {
                Ok(result) => indices_in_range(self.model().rows, indices@) && result@ == rows_at(
                    self.model().rows,
                    indices@,
                ) && result.count() == indices@.len(),
                Err(e) => !indices_in_range(self.model().rows, indices@) && e
                    == FurDBError::InvalidIndex,
            },
    {
        let ghost rows = self.model().rows;
        let mut k: usize = 0;
        while k < indices.len()
            invariant
                0 <= k <= indices.len(),
                rows == rows_view(self.entries@),
                forall|j: int| 0 <= j < k ==> (#[trigger] indices@[j]) < rows.len(),
            decreases indices.len() - k,
        {
            if indices[k] >= self.entries.len() as u64 {
                return Err(FurDBError::InvalidIndex);
            }
            k = k + 1;
        }
        let mut results: Vec<Entry> = Vec::new();
        let n = self.entries.len();
        let mut k: usize = 0;
        while k < indices.len()
            invariant
                0 <= k <= indices.len(),
                n == self.entries@.len(),
                rows == rows_view(self.entries@),
                indices_in_range(rows, indices@),
                results@.len() == k,
                views(results@) == rows_at(rows, indices@).take(k as int),
            decreases indices.len() - k,
        {
            let index = indices[k] as usize;
            assert(indices@[k as int] < rows.len());
            assert(index as int == indices@[k as int] as int);
            let data = copy_values(&self.entries[index]);
            assert(data@ == rows[index as int]);
            let ghost before = results@;
            results.push(Entry { index, data });
            proof {
                assert(results@ == before.push(Entry { index, data }));
                assert(rows_at(rows, indices@)[k as int] == (index as nat, data@));
                assert(views(results@) =~= rows_at(rows, indices@).take(k + 1));
            }
            k = k + 1;
        }
        proof {
            assert(rows_at(rows, indices@).take(k as int) =~= rows_at(rows, indices@));
        }
        Ok(EntriesResult::from_entries(results))
    }

    /// The entries whose value in column `column_index` is `value`, in index
    /// order; refused if the table has no such column.
    pub fn query(&self, column_index: u64, value: u128) -> (r: Result<EntriesResult, FurDBError>)
        requires
            self.wf(),
        ensures
            match r {
                Ok(result) => column_index < self.model().columns.len() && result@ == query_rows(
                    self.model().rows,
                    column_index as int,
                    value,
                ) && result.count() == result@.len(),
                Err(e) => column_index >= self.model().columns.len() && e
                    == FurDBError::InvalidColumn,
            },
    {
        if column_index >= self.sizes.len() as u64 {
            return Err(FurDBError::InvalidColumn);
        }
        let col = column_index as usize;
        let ghost rows = self.model().rows;
        let mut results: Vec<Entry> = Vec::new();
        let mut i: usize = 0;
        while i < self.entries.len()
            invariant
                0 <= i <= self.entries.len(),
                col < self.sizes@.len(),
                rows == rows_view(self.entries@),
                table_model_wf(self.model()),
                results@.len() == query_rows(rows.take(i as int), col as int, value).len(),
                views(results@) == query_rows(rows.take(i as int), col as int, value),
            decreases self.entries.len() - i,
        {
            assert(self.model().rows == rows && self.model().columns == self.sizes@);
            assert(fits_row(self.model().rows[i as int], self.model().columns));
            let ghost before = rows.take(i as int);
            proof {
                assert(rows.take(i + 1).drop_last() =~= before);
            }
            if self.entries[i][col] == value {
                results.push(Entry { index: i, data: copy_values(&self.entries[i]) });
                proof {
                    assert(views(results@) =~= query_rows(rows.take(i + 1), col as int, value));
                }
            }
            i = i + 1;
        }
        proof {
            assert(rows.take(i as int) =~= rows);
        }
        Ok(EntriesResult::from_entries(results))
    }

    /// Appends a batch of entries, all or none.
    pub(crate) fn insert_entries(&mut self, data: &Vec<Vec<u128>>) -> (r: Result<(), FurDBError>)
        requires
            old(self).wf(),
        ensures
            final(self).wf(),
            final(self).id() == old(self).id(),
            final(self).database_id() == old(self).database_id(),
            final(self).model().columns == old(self).model().columns,
            match r {
                Ok(()) => insert_error(rows_view(data@), old(self).model().columns) is None
                    && final(self).model().rows == old(self).model().rows + rows_view(data@),
                Err(e) => insert_error(rows_view(data@), old(self).model().columns) == Some(e)
                    && final(self).model() == old(self).model(),
            },
    {
        let ghost batch = rows_view(data@);
        match check_batch(data, &self.sizes) {
            Err(e) => {
                return Err(e);
            },
            Ok(()) => {},
        }
        let ghost old_rows = self.model().rows;
        let mut k: usize = 0;
        while k < data.len()
            invariant
                0 <= k <= data.len(),
                batch == rows_view(data@),
                batch.len() == data@.len(),
                forall|j: int| 0 <= j < batch.len() ==> fits_row(#[trigger] batch[j], self.sizes@),
                valid_sizes(self.sizes@),
                self.entries@.len() == old_rows.len() + k,
                old_rows.len() == old(self).entries@.len(),
                self.sizes == old(self).sizes,
                self.table_id == old(self).table_id,
                self.database_id == old(self).database_id,
                rows_view(self.entries@) == old_rows + batch.take(k as int),
                forall|j: int|
                    0 <= j < self.entries@.len() ==> fits_row(
                        #[trigger] rows_view(self.entries@)[j],
                        self.sizes@,
                    ),
            decreases data.len() - k,
        {
            let row = copy_values(&data[k]);
            assert(row@ == batch[k as int]);
            let ghost before = self.entries@;
            self.entries.push(row);
            proof {
                assert(self.entries@ == before.push(row));
                assert(rows_view(self.entries@).len() == before.len() + 1);
                assert(rows_view(before).len() == before.len());
                assert(rows_view(self.entries@)[before.len() as int] == batch[k as int]);
                assert forall|j: int| 0 <= j < before.len() implies rows_view(self.entries@)[j]
                    == rows_view(before)[j] by {
                    assert(self.entries@[j] == before[j]);
                }
                assert(rows_view(before) == old_rows + batch.take(k as int));
                assert(before.len() == old_rows.len() + k);
                assert((old_rows + batch.take(k + 1)).len() == before.len() + 1);
                assert forall|j: int| 0 <= j < before.len() + 1 implies rows_view(self.entries@)[j]
                    == (old_rows + batch.take(k + 1))[j] by {
                    if j < before.len() {
                        assert(rows_view(before)[j] == (old_rows + batch.take(k as int))[j]);
                    }
                }
                assert(rows_view(self.entries@) =~= old_rows + batch.take(k + 1));
                assert forall|j: int| 0 <= j < self.entries@.len() implies fits_row(
                    #[trigger] rows_view(self.entries@)[j],
                    self.sizes@,
                ) by {
                    if j < before.len() {
                        assert(rows_view(self.entries@)[j] == rows_view(before)[j]);
                    }
                }
            }
            k = k + 1;
        }
        proof {
            assert(batch.take(k as int) =~= batch);
        }
        Ok(())
    }

    /// Removes the entries whose index occurs in `indices`; indices past the
    /// last entry, and repeats, change nothing.
    pub(crate) fn delete_entries(&mut self, indices: &Vec<u64>)
        requires
            old(self).wf(),
        ensures
            final(self).wf(),
            final(self).id() == old(self).id(),
            final(self).database_id() == old(self).database_id(),
            final(self).model().columns == old(self).model().columns,
            final(self).model().rows == remove_indices(old(self).model().rows, indices@),
    {
        let ghost rows = self.model().rows;
        let mut kept: Vec<Vec<u128>> = Vec::new();
        let mut i: usize = 0;
        while i < self.entries.len()
            invariant
                0 <= i <= self.entries.len(),
                rows == rows_view(self.entries@),
                table_model_wf(self.model()),
                kept@.len() == remove_indices(rows.take(i as int), indices@).len(),
                rows_view(kept@) == remove_indices(rows.take(i as int), indices@),
                forall|j: int| 0 <= j < kept@.len() ==> fits_row(#[trigger] rows_view(kept@)[j], self.sizes@),
            decreases self.entries.len() - i,
        {
            let ghost before = rows.take(i as int);
            proof {
                assert(rows.take(i + 1).drop_last() =~= before);
            }
            let mut gone = false;
            let mut k: usize = 0;
            while k < indices.len()
                invariant
                    0 <= k <= indices.len(),
                    gone == exists|j: int| 0 <= j < k && indices@[j] == i as u64,
                decreases indices.len() - k,
            {
                if indices[k] == i as u64 {
                    gone = true;
                }
                k = k + 1;
            }
            assert(gone == indices@.contains(i as u64));
            if !gone {
                assert(self.model().rows == rows && self.model().columns == self.sizes@);
                assert(fits_row(self.model().rows[i as int], self.model().columns));
                kept.push(copy_values(&self.entries[i]));
                proof {
                    assert(rows_view(kept@) =~= remove_indices(rows.take(i + 1), indices@));
                }
            }
            i = i + 1;
        }
        proof {
            assert(rows.take(i as int) =~= rows);
        }
        self.entries = kept;
    }

    /// Removes every entry.
    pub(crate) fn delete_all_entries(&mut self)
        requires
            old(self).wf(),
        ensures
            final(self).wf(),
            final(self).id() == old(self).id(),
            final(self).database_id() == old(self).database_id(),
            final(self).model().columns == old(self).model().columns,
            final(self).model().rows == Seq::<Seq<u128>>::empty(),
    {
        self.entries = Vec::new();
        proof {
            assert(rows_view(self.entries@) =~= Seq::<Seq<u128>>::empty());
        }
    }

    /// The table's data: every entry packed, as `encode_rows` lays it out.
    pub fn to_bytes(&self) -> (bytes: Vec<u8>)
        requires
            self.wf(),
        ensures
            bytes@ == encode_rows(self.model().rows, self.model().columns),
    {
        proof {
            assert forall|r: int| 0 <= r < self.entries@.len() implies fits_row(
                #[trigger] self.entries@[r]@,
                self.sizes@,
            ) by {
                assert(self.model().rows[r] == self.entries@[r]@);
            }
        }
        encode_entries(&self.entries, &self.sizes)
    }
}

/// Checks a batch of entries against the column widths.
fn check_batch(data: &Vec<Vec<u128>>, sizes: &Vec<u128>) -> (r: Result<(), FurDBError>)
    ensures
        match r {
            Ok(()) => insert_error(rows_view(data@), sizes@) is None && forall|j: int|
                0 <= j < data@.len() ==> fits_row(#[trigger] rows_view(data@)[j], sizes@),
            Err(e) => insert_error(rows_view(data@), sizes@) == Some(e),
        },
{
    let ghost batch = rows_view(data@);
    let mut k: usize = 0;
    while k < data.len()
        invariant
            0 <= k <= data.len(),
            batch == rows_view(data@),
            batch.len() == data@.len(),
            insert_error(batch.take(k as int), sizes@) is None,
            forall|j: int| 0 <= j < k ==> fits_row(#[trigger] batch[j], sizes@),
        decreases data.len() - k,
    {
        proof {
            assert(batch.take(k + 1).drop_last() =~= batch.take(k as int));
        }
        if data[k].len() != sizes.len() {
            proof {
                lemma_insert_error_prefix(batch, sizes@, k + 1);
            }
            return Err(FurDBError::ColumnMismatch);
        }
        if !row_fits(&data[k], sizes) {
            proof {
                lemma_insert_error_prefix(batch, sizes@, k + 1);
            }
            return Err(FurDBError::ColumnOverflow);
        }
        k = k + 1;
    }
    proof {
        assert(batch.take(k as int) =~= batch);
    }
    Ok(())
}

proof fn lemma_insert_error_prefix(rows: Seq<Seq<u128>>, sizes: Seq<u128>, k: int)
    requires
        0 < k <= rows.len(),
        insert_error(rows.take(k - 1), sizes) is None,
        row_error(rows[k - 1], sizes) is Some,
    ensures
        insert_error(rows, sizes) == row_error(rows[k - 1], sizes),
    decreases rows.len() - k,
{
    assert(rows.take(k).drop_last() =~= rows.take(k - 1));
    if k < rows.len() {
        assert(rows.take(k + 1).drop_last() =~= rows.take(k));
        lemma_insert_error_prefix_step(rows, sizes, k + 1, rows[k - 1]);
    } else {
        assert(rows.take(k) =~= rows);
    }
}

proof fn lemma_insert_error_prefix_step(rows: Seq<Seq<u128>>, sizes: Seq<u128>, k: int, bad: Seq<u128>)
    requires
        0 < k <= rows.len(),
        insert_error(rows.take(k - 1), sizes) == row_error(bad, sizes),
        row_error(bad, sizes) is Some,
    ensures
        insert_error(rows, sizes) == row_error(bad, sizes),
    decreases rows.len() - k,
{
    assert(rows.take(k).drop_last() =~= rows.take(k - 1));
    if k < rows.len() {
        lemma_insert_error_prefix_step(rows, sizes, k + 1, bad);
    } else {
        assert(rows.take(k) =~= rows);
    }
}

} // verus!
