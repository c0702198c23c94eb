//! What holds of the library across calls and for every input.

use crate::engine::{create_table_error, lemma_with_same_rows, table_error, valid_id, with_rows, FurDBModel};
use crate::packing::{
    bit_of, bytes_bits, encode_row, lemma_bytes_bits_bits_bytes, lemma_bytes_bits_index, row_bits,
    sum_sizes, valid_sizes, value_bits,
};
use crate::table::FurDBError;
use vstd::arithmetic::power2::pow2;
use crate::operations::{
    answers_create_database, answers_create_table, answers_delete_database,
    answers_delete_entries, answers_delete_table, answers_entries, answers_get_entries,
    answers_insert_entries,
};
use crate::proto::{
    batch_strings, first_bad_value, parsed_batch, CreateDatabaseRequest, CreateTableRequest,
    DatabaseCreatedResponse, DatabaseDeletedResponse, DeleteDatabaseRequest,
    DeleteEntriesRequest, DeleteEntriesSelection, DeleteTableRequest, EntriesCreatedResponse,
    EntriesDeletedResponse, EntriesResultResponse, GetEntriesRequest, GetEntriesSelection,
    InsertEntriesRequest, TableCreatedResponse, TableDeletedResponse,
};
use crate::response::ErrorResponse;
use crate::table::{all_rows, insert_error, query_rows, remove_indices};
use vstd::prelude::*;

verus! {

/// Deleting indices that are all past the last entry leaves the entries as
/// they were.
pub proof fn lemma_delete_out_of_range_keeps_entries(rows: Seq<Seq<u128>>, gone: Seq<u64>)
    requires
        rows.len() <= u64::MAX + 1,
        forall|k: int| 0 <= k < gone.len() ==> #[trigger] gone[k] >= rows.len(),
    ensures
        remove_indices(rows, gone) == rows,
    decreases rows.len(),
{
    if rows.len() > 0 {
        let init = rows.drop_last();
        lemma_delete_out_of_range_keeps_entries(init, gone);
        let last = (rows.len() - 1) as u64;
        assert(last == rows.len() - 1);
        assert(!gone.contains(last));
        assert(init.push(rows.last()) =~= rows);
    }
}

/// Which entries a delete removes depends only on which indices it names:
/// naming an index twice removes it once, and the order of the indices does
/// not matter.
pub proof fn lemma_delete_depends_on_named_indices(
    rows: Seq<Seq<u128>>,
    gone: Seq<u64>,
    also_gone: Seq<u64>,
)
    requires
        forall|i: u64| gone.contains(i) <==> also_gone.contains(i),
    ensures
        remove_indices(rows, gone) == remove_indices(rows, also_gone),
    decreases rows.len(),
{
    if rows.len() > 0 {
        lemma_delete_depends_on_named_indices(rows.drop_last(), gone, also_gone);
    }
}

/// Deleting the entry at one index removes it, and the entries after it move
/// down by one.
pub proof fn lemma_delete_one_entry(rows: Seq<Seq<u128>>, i: int)
    requires
        0 <= i < rows.len() <= u64::MAX + 1,
    ensures
        remove_indices(rows, seq![i as u64]) == rows.remove(i),
    decreases rows.len(),
{
    let gone = seq![i as u64];
    let init = rows.drop_last();
    let last = (rows.len() - 1) as u64;
    assert(last == rows.len() - 1);
    if i == rows.len() - 1 {
        assert(gone.contains(last)) by {
            assert(gone[0] == last);
        }
        lemma_delete_out_of_range_keeps_entries(init, gone);
        assert(init =~= rows.remove(i));
    } else {
        lemma_delete_one_entry(init, i);
        assert(!gone.contains(last)) by {
            if gone.contains(last) {
                let k = choose|k: int| 0 <= k < gone.len() && gone[k] == last;
                assert(k == 0);
            }
        }
        assert(init.remove(i).push(rows.last()) =~= rows.remove(i));
    }
}

/// A query answers every entry whose value in the column is the one asked
/// for, and only those, each with its index and its values, in index order.
pub proof fn lemma_query_answers_every_match(rows: Seq<Seq<u128>>, col: int, value: u128)
    ensures
        ({
            let q = query_rows(rows, col, value);
            &&& forall|k: int|
                0 <= k < q.len() ==> {
                    &&& (#[trigger] q[k]).0 < rows.len()
                    &&& q[k].1 == rows[q[k].0 as int]
                    &&& rows[q[k].0 as int][col] == value
                }
            &&& forall|i: int|
                0 <= i < rows.len() && (#[trigger] rows[i])[col] == value ==> exists|k: int|
                    0 <= k < q.len() && (#[trigger] q[k]).0 == i
            &&& forall|k1: int, k2: int| 0 <= k1 < k2 < q.len() ==> (#[trigger] q[k1]).0 < (
            #[trigger] q[k2]).0
        }),
    decreases rows.len(),
{
    if rows.len() > 0 {
        let init = rows.drop_last();
        lemma_query_answers_every_match(init, col, value);
        let rest = query_rows(init, col, value);
        let q = query_rows(rows, col, value);
        let n = rows.len() - 1;
        assert forall|k: int| 0 <= k < rest.len() implies (#[trigger] rest[k]).0 < n by {}
        assert forall|i: int|
            0 <= i < rows.len() && (#[trigger] rows[i])[col] == value implies exists|k: int|
            0 <= k < q.len() && (#[trigger] q[k]).0 == i by {
            if i < n {
                assert(init[i] == rows[i]);
                let k = choose|k: int| 0 <= k < rest.len() && (#[trigger] rest[k]).0 == i;
                assert(q[k] == rest[k]);
            } else {
                assert(q[q.len() - 1].0 == i);
            }
        }
        assert forall|k: int| 0 <= k < q.len() implies {
            &&& (#[trigger] q[k]).0 < rows.len()
            &&& q[k].1 == rows[q[k].0 as int]
            &&& rows[q[k].0 as int][col] == value
        } by {
            if k < rest.len() {
                assert(q[k] == rest[k]);
                assert(init[rest[k].0 as int] == rows[rest[k].0 as int]);
            }
        }
    }
}

/// Entries inserted after the existing ones are numbered after them, in the
/// order of the batch, and the existing ones keep their numbers.
pub proof fn lemma_insert_numbers_after_existing(rows: Seq<Seq<u128>>, batch: Seq<Seq<u128>>)
    ensures
        all_rows(rows + batch) == all_rows(rows) + Seq::new(
            batch.len(),
            |k: int| ((rows.len() + k) as nat, batch[k]),
        ),
{
    assert(all_rows(rows + batch) =~= all_rows(rows) + Seq::new(
        batch.len(),
        |k: int| ((rows.len() + k) as nat, batch[k]),
    ));
}

/// Widths add up: the total width of two lists of columns one after the
/// other is the sum of their totals, that of one column is its width, and
/// that of no column is 0.
pub proof fn lemma_total_width_adds_up(a: Seq<u128>, b: Seq<u128>, w: u128)
    ensures
        sum_sizes(a + b) == sum_sizes(a) + sum_sizes(b),
        sum_sizes(seq![w]) == w,
        sum_sizes(Seq::<u128>::empty()) == 0,
    decreases b.len(),
{
    assert(seq![w].drop_last() =~= Seq::<u128>::empty());
    assert(sum_sizes(Seq::<u128>::empty()) == 0);
    assert(seq![w].last() == w);
    assert(sum_sizes(seq![w]) == sum_sizes(seq![w].drop_last()) + w);
    if b.len() == 0 {
        assert(a + b =~= a);
    } else {
        lemma_total_width_adds_up(a, b.drop_last(), w);
        assert((a + b).drop_last() =~= a + b.drop_last());
        assert((a + b).last() == b.last());
    }
}

/// The widths a table can be created with are exactly those where every
/// column is at most 128 bits wide and an entry fills a whole, non-zero
/// number of bytes (whose count fits a `usize`); the total width of an entry
/// has no other bound.
pub proof fn lemma_accepted_widths(sizes: Seq<u128>)
    ensures
        valid_sizes(sizes) <==> ((forall|i: int| 0 <= i < sizes.len() ==> sizes[i] <= 128)
            && sum_sizes(sizes) > 0 && sum_sizes(sizes) % 8 == 0 && sum_sizes(sizes) / 8
            <= usize::MAX),
{
}

/// Creating a table in an existing database, under a valid id not yet taken,
/// succeeds for every list of widths each at most 128 bits whose total is a
/// positive multiple of 8 (with a byte count that fits a `usize`).
pub proof fn lemma_create_table_accepts_fitting_widths(
    m: FurDBModel,
    db: Seq<char>,
    t: Seq<char>,
    columns: Seq<u128>,
)
    requires
        valid_id(db),
        m.contains_key(db),
        valid_id(t),
        !m[db].contains_key(t),
        forall|i: int| 0 <= i < columns.len() ==> columns[i] <= 128,
        sum_sizes(columns) > 0,
        sum_sizes(columns) % 8 == 0,
        sum_sizes(columns) / 8 <= usize::MAX,
    ensures
        create_table_error(m, db, t, columns) is None,
{
    lemma_accepted_widths(columns);
}

/// A character allowed in an id: an ASCII letter, an ASCII digit, `_` or
/// `-`, written by its code point.
pub open spec fn plain_name_char(c: char) -> bool {
    let u = c as int;
    ||| 0x61 <= u <= 0x7a
    ||| 0x41 <= u <= 0x5a
    ||| 0x30 <= u <= 0x39
    ||| u == 0x5f
    ||| u == 0x2d
}

/// The ids accepted for databases and tables are exactly the non-empty ones
/// made of ASCII letters, ASCII digits, `_` and `-`.
pub proof fn lemma_accepted_ids(id: Seq<char>)
    ensures
        valid_id(id) <==> (id.len() > 0 && forall|i: int|
            0 <= i < id.len() ==> plain_name_char(#[trigger] id[i])),
{
    assert forall|i: int| 0 <= i < id.len() implies crate::engine::id_char(#[trigger] id[i])
        == plain_name_char(id[i]) by {
        let c = id[i];
        assert(('a' <= c && c <= 'z') == (0x61 <= c as int <= 0x7a));
        assert(('A' <= c && c <= 'Z') == (0x41 <= c as int <= 0x5a));
        assert(('0' <= c && c <= '9') == (0x30 <= c as int <= 0x39));
        assert((c == '_') == (c as int == 0x5f));
        assert((c == '-') == (c as int == 0x2d));
    }
}

/// An entry that can be stored under the given widths: one value per
/// column, each below two to the power of its own column's width.
pub open spec fn storable(row: Seq<u128>, sizes: Seq<u128>) -> bool {
    &&& row.len() == sizes.len()
    &&& forall|i: int| 0 <= i < sizes.len() ==> (row[i] as nat) < #[trigger] pow2(sizes[i] as nat)
}

/// A batch is inserted exactly when every entry in it is storable; when it
/// is not, the refusal names the first entry that is not: a mismatch if it
/// has the wrong number of values, else an overflow.
pub proof fn lemma_batch_refused_exactly_at_first_unstorable(
    rows: Seq<Seq<u128>>,
    sizes: Seq<u128>,
)
    ensures
        (insert_error(rows, sizes) is None) == (forall|r: int|
            0 <= r < rows.len() ==> storable(#[trigger] rows[r], sizes)),
        insert_error(rows, sizes) matches Some(e) ==> exists|k: int|
            0 <= k < rows.len() && (forall|r: int| 0 <= r < k ==> storable(#[trigger] rows[r], sizes))
                && !storable(#[trigger] rows[k], sizes) && e == (if rows[k].len() != sizes.len() {
                FurDBError::ColumnMismatch
            } else {
                FurDBError::ColumnOverflow
            }),
    decreases rows.len(),
{
    if rows.len() > 0 {
        let init = rows.drop_last();
        let n = rows.len() - 1;
        lemma_batch_refused_exactly_at_first_unstorable(init, sizes);
        let last = rows.last();
        assert(last == rows[n]);
        assert(crate::packing::fits_row(last, sizes) == storable(last, sizes)) by {
            if storable(last, sizes) {
                assert forall|i: int| 0 <= i < sizes.len() implies (#[trigger] last[i] as nat)
                    < pow2(sizes[i] as nat) by {
                    assert((last[i] as nat) < pow2(sizes[i] as nat));
                }
            }
            if crate::packing::fits_row(last, sizes) {
                assert forall|i: int| 0 <= i < sizes.len() implies (last[i] as nat)
                    < #[trigger] pow2(sizes[i] as nat) by {
                    assert((last[i] as nat) < pow2(sizes[i] as nat));
                }
            }
        }
        assert forall|r: int| 0 <= r < n implies #[trigger] rows[r] == init[r] by {}
        match insert_error(init, sizes) {
            Some(e) => {
                let k = choose|k: int|
                    0 <= k < init.len() && (forall|r: int|
                        0 <= r < k ==> storable(#[trigger] init[r], sizes)) && !storable(
                        #[trigger] init[k],
                        sizes,
                    ) && e == (if init[k].len() != sizes.len() {
                        FurDBError::ColumnMismatch
                    } else {
                        FurDBError::ColumnOverflow
                    });
                assert(rows[k] == init[k]);
                assert forall|r: int| 0 <= r < k implies storable(#[trigger] rows[r], sizes) by {
                    assert(rows[r] == init[r]);
                }
                assert(!storable(init[k], sizes));
            },
            None => {
                assert forall|r: int| 0 <= r < n implies storable(#[trigger] rows[r], sizes) by {
                    assert(storable(init[r], sizes));
                }
                if !storable(last, sizes) {
                    assert(!storable(rows[n], sizes));
                }
            },
        }
    }
}

/// Bit `p` of a byte sequence, counting from the most significant bit of
/// its first byte.
pub open spec fn bit_msb_first(bytes: Seq<u8>, p: int) -> bool {
    ((bytes[p / 8] as nat) / pow2((7 - p % 8) as nat)) % 2 == 1
}

/// Bit `j` of a value written in `width` bits, counting from its most
/// significant bit.
pub open spec fn value_bit(value: u128, width: u128, j: int) -> bool {
    ((value as nat) / pow2((width - 1 - j) as nat)) % 2 == 1
}

proof fn lemma_row_bits_len(row: Seq<u128>, sizes: Seq<u128>)
    requires
        row.len() == sizes.len(),
    ensures
        row_bits(row, sizes).len() == sum_sizes(sizes),
    decreases sizes.len(),
{
    if sizes.len() > 0 {
        lemma_row_bits_len(row.drop_last(), sizes.drop_last());
    }
}

proof fn lemma_row_bits_at(row: Seq<u128>, sizes: Seq<u128>, c: int, j: int)
    requires
        row.len() == sizes.len(),
        0 <= c < sizes.len(),
        0 <= j < sizes[c],
    ensures
        sum_sizes(sizes.take(c)) + j < sum_sizes(sizes),
        row_bits(row, sizes)[sum_sizes(sizes.take(c)) + j] == bit_of(
            row[c] as nat,
            (sizes[c] - 1 - j) as nat,
        ),
    decreases sizes.len(),
{
    let rp = row.drop_last();
    let sp = sizes.drop_last();
    lemma_row_bits_len(rp, sp);
    let tail = value_bits(row.last() as nat, sizes.last() as nat);
    assert(row_bits(row, sizes) == row_bits(rp, sp) + tail);
    if c == sizes.len() - 1 {
        assert(sizes.take(c) =~= sp);
        assert(tail[j] == bit_of(row[c] as nat, (sizes[c] - 1 - j) as nat));
    } else {
        lemma_row_bits_at(rp, sp, c, j);
        assert(sp.take(c) =~= sizes.take(c));
        assert(rp[c] == row[c] && sp[c] == sizes[c]);
    }
}

/// The bytes of an entry are its values' bits, each value most significant
/// bit first over exactly its column's width, column after column, cut into
/// bytes in order: bit `j` of column `c` is bit `p` of the bytes, where `p`
/// is the total width of the columns before `c`, plus `j`.
pub proof fn lemma_entry_bytes_are_value_bits(row: Seq<u128>, sizes: Seq<u128>)
    requires
        row.len() == sizes.len(),
        sum_sizes(sizes) % 8 == 0,
    ensures
        encode_row(row, sizes).len() * 8 == sum_sizes(sizes),
        forall|c: int, j: int|
            0 <= c < sizes.len() && 0 <= j < sizes[c] ==> bit_msb_first(
                encode_row(row, sizes),
                sum_sizes(sizes.take(c)) + j,
            ) == #[trigger] value_bit(row[c], sizes[c], j),
{
    let bits = row_bits(row, sizes);
    lemma_row_bits_len(row, sizes);
    lemma_bytes_bits_bits_bytes(bits);
    let e = encode_row(row, sizes);
    assert forall|c: int, j: int|
        0 <= c < sizes.len() && 0 <= j < sizes[c] implies bit_msb_first(
        e,
        sum_sizes(sizes.take(c)) + j,
    ) == #[trigger] value_bit(row[c], sizes[c], j) by {
        let p = sum_sizes(sizes.take(c)) + j;
        lemma_row_bits_at(row, sizes, c, j);
        lemma_bytes_bits_index(e, p);
        assert(bytes_bits(e)[p] == bits[p]);
    }
}

/// The entries numbered by their place in the table.
pub open spec fn numbered(rows: Seq<Seq<u128>>) -> Seq<(nat, Seq<u128>)> {
    Seq::new(rows.len(), |i: int| (i as nat, rows[i]))
}

/// Whether a numbered entry's number is not among the given indices.
pub open spec fn not_named(gone: Seq<u64>) -> spec_fn((nat, Seq<u128>)) -> bool {
    |e: (nat, Seq<u128>)| !gone.contains(e.0 as u64)
}

/// The values of numbered entries, in order.
pub open spec fn values_of(entries: Seq<(nat, Seq<u128>)>) -> Seq<Seq<u128>> {
    entries.map_values(|e: (nat, Seq<u128>)| e.1)
}

/// Deleting by indices keeps exactly the entries whose index is not named,
/// in their order, and removes every entry whose index is named: indices
/// refer to the table before the delete.
pub proof fn lemma_delete_keeps_exactly_the_unnamed(rows: Seq<Seq<u128>>, gone: Seq<u64>)
    requires
        rows.len() <= u64::MAX + 1,
    ensures
        remove_indices(rows, gone) == values_of(numbered(rows).filter(not_named(gone))),
    decreases rows.len(),
{
    reveal(Seq::filter);
    if rows.len() == 0 {
        assert(numbered(rows) =~= Seq::<(nat, Seq<u128>)>::empty());
        assert(values_of(numbered(rows).filter(not_named(gone))) =~= Seq::<Seq<u128>>::empty());
    } else {
        let n = rows.len() - 1;
        let init = rows.drop_last();
        lemma_delete_keeps_exactly_the_unnamed(init, gone);
        let all = numbered(rows);
        assert(all.drop_last() =~= numbered(init));
        let f = numbered(init).filter(not_named(gone));
        let last = all.last();
        assert(last == (n as nat, rows.last()));
        assert(all.filter(not_named(gone)) == if not_named(gone)(last) {
            f.push(last)
        } else {
            f
        });
        assert(not_named(gone)(last) == !gone.contains((rows.len() - 1) as u64));
        assert(values_of(f.push(last)) =~= values_of(f).push(rows.last()));
    }
}

/// An id the engine accepts is a plain name: it is not empty and holds no
/// `/` and no `.`, so it cannot climb out of its parent directory.
pub proof fn lemma_valid_id_is_plain_name(id: Seq<char>)
    requires
        valid_id(id),
    ensures
        id.len() > 0,
        !id.contains('/'),
        !id.contains('.'),
{
}

/// Reading every entry of a table right after a batch was inserted into it
/// answers the entries it had, then the batch, numbered in that order.
pub proof fn lemma_read_after_insert(
    before: FurDBModel,
    insert: InsertEntriesRequest,
    after: FurDBModel,
    inserted: Result<EntriesCreatedResponse, ErrorResponse>,
    read: GetEntriesRequest,
    answer: Result<EntriesResultResponse, ErrorResponse>,
)
    requires
        answers_insert_entries(before, insert, after, inserted),
        inserted is Ok,
        read.database_id@ == insert.database_id@,
        read.table_id@ == insert.table_id@,
        read.entries matches Some(GetEntriesSelection::All(_)),
        answers_get_entries(after, read, answer),
    ensures
        answers_entries(
            answer,
            all_rows(
                before[insert.database_id@][insert.table_id@].rows + parsed_batch(
                    batch_strings(insert.data@),
                ),
            ),
        ),
{
    let db = insert.database_id@;
    let t = insert.table_id@;
    assert(table_error(before, db, t) is None);
    assert(table_error(after, db, t) is None);
}

/// Reading every entry of a table right after entries were deleted from it
/// by index answers the survivors, in their old order, numbered from 0.
pub proof fn lemma_read_after_delete(
    before: FurDBModel,
    delete: DeleteEntriesRequest,
    after: FurDBModel,
    deleted: Result<EntriesDeletedResponse, ErrorResponse>,
    read: GetEntriesRequest,
    answer: Result<EntriesResultResponse, ErrorResponse>,
)
    requires
        answers_delete_entries(before, delete, after, deleted),
        deleted is Ok,
        delete.entries matches Some(DeleteEntriesSelection::Indices(_)),
        read.database_id@ == delete.database_id@,
        read.table_id@ == delete.table_id@,
        read.entries matches Some(GetEntriesSelection::All(_)),
        answers_get_entries(after, read, answer),
    ensures
        delete.entries matches Some(DeleteEntriesSelection::Indices(ix)) && answers_entries(
            answer,
            all_rows(remove_indices(before[delete.database_id@][delete.table_id@].rows, ix.indices@)),
        ),
{
    let db = delete.database_id@;
    let t = delete.table_id@;
    assert(table_error(before, db, t) is None);
    assert(table_error(after, db, t) is None);
}

/// An insert with no entries changes nothing, whether or not the table
/// exists.
pub proof fn lemma_empty_insert_changes_nothing(
    before: FurDBModel,
    request: InsertEntriesRequest,
    after: FurDBModel,
    r: Result<EntriesCreatedResponse, ErrorResponse>,
)
    requires
        request.data@.len() == 0,
        answers_insert_entries(before, request, after, r),
    ensures
        after == before,
{
    let db = request.database_id@;
    let t = request.table_id@;
    let batch = batch_strings(request.data@);
    assert(batch.len() == 0);
    assert(first_bad_value(batch) is None);
    let parsed = parsed_batch(batch);
    assert(parsed.len() == 0);
    if table_error(before, db, t) is None {
        assert(insert_error(parsed, before[db][t].columns) is None);
        assert(before[db][t].rows + parsed =~= before[db][t].rows);
        lemma_with_same_rows(before, db, t);
    }
}

/// A refused database creation changes nothing.
pub proof fn lemma_refused_create_database_changes_nothing(
    before: FurDBModel,
    request: CreateDatabaseRequest,
    after: FurDBModel,
    r: Result<DatabaseCreatedResponse, ErrorResponse>,
)
    requires
        answers_create_database(before, request, after, r),
        r is Err,
    ensures
        after == before,
{
}

/// A refused database deletion changes nothing.
pub proof fn lemma_refused_delete_database_changes_nothing(
    before: FurDBModel,
    request: DeleteDatabaseRequest,
    after: FurDBModel,
    r: Result<DatabaseDeletedResponse, ErrorResponse>,
)
    requires
        answers_delete_database(before, request, after, r),
        r is Err,
    ensures
        after == before,
{
}

/// A refused table creation changes nothing.
pub proof fn lemma_refused_create_table_changes_nothing(
    before: FurDBModel,
    request: CreateTableRequest,
    after: FurDBModel,
    r: Result<TableCreatedResponse, ErrorResponse>,
)
    requires
        answers_create_table(before, request, after, r),
        r is Err,
    ensures
        after == before,
{
}

/// A refused table deletion changes nothing.
pub proof fn lemma_refused_delete_table_changes_nothing(
    before: FurDBModel,
    request: DeleteTableRequest,
    after: FurDBModel,
    r: Result<TableDeletedResponse, ErrorResponse>,
)
    requires
        answers_delete_table(before, request, after, r),
        r is Err,
    ensures
        after == before,
{
}

/// A refused insert changes nothing: a batch goes in whole or not at all.
pub proof fn lemma_refused_insert_changes_nothing(
    before: FurDBModel,
    request: InsertEntriesRequest,
    after: FurDBModel,
    r: Result<EntriesCreatedResponse, ErrorResponse>,
)
    requires
        answers_insert_entries(before, request, after, r),
        r is Err,
    ensures
        after == before,
{
}

/// A refused delete of entries changes nothing.
pub proof fn lemma_refused_delete_entries_changes_nothing(
    before: FurDBModel,
    request: DeleteEntriesRequest,
    after: FurDBModel,
    r: Result<EntriesDeletedResponse, ErrorResponse>,
)
    requires
        answers_delete_entries(before, request, after, r),
        r is Err,
    ensures
        after == before,
{
}

} // verus!
