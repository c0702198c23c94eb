//! The messages of the wire protocol.
//!
//! Column values are `u128`, which the wire format has no integer type for,
//! so they travel as decimal strings; column widths and indices are bounded
//! and stay numeric.

use crate::column::Column as CoreColumn;
use crate::decimal::{decimal_chars, parse_decimal, u128_to_decimal};
use crate::engine::{DatabaseInfo as CoreDatabaseInfo, DatabaseInfoExtra as CoreDatabaseInfoExtra, FurDBConfig};
use crate::response::{ErrorResponse, SuccessStatus, RESULT_SUCCESS};
use crate::table::{Entry as CoreEntry, EntriesResult as CoreEntriesResult, TableInfo as CoreTableInfo};
use crate::text::{invalid_value_message, parse_u128};
use crate::views::{lemma_views, views};
use vstd::prelude::*;

verus! {

broadcast use {lemma_views, crate::packing::lemma_rows_view};

#[derive(Clone, Debug, PartialEq, Eq)]
pub struct GetServerInfoRequest {}

#[derive(Clone, Debug, PartialEq, Eq)]
pub struct CreateDatabaseRequest {
    pub database_id: String,
}

#[derive(Clone, Debug, PartialEq, Eq)]
pub struct GetDatabaseRequest {
    pub database_id: String,
}

#[derive(Clone, Debug, PartialEq, Eq)]
pub struct DeleteDatabaseRequest {
    pub database_id: String,
}

/// A column as it travels: its width in bits.
#[derive(Clone, Copy, Debug, PartialEq, Eq)]
pub struct Column {
    pub size: u64,
}

#[derive(Clone, Debug, PartialEq, Eq)]
pub struct CreateTableRequest {
    pub database_id: String,
    pub table_id: String,
    pub table_columns: Vec<Column>,
}

#[derive(Clone, Debug, PartialEq, Eq)]
pub struct GetTableRequest {
    pub database_id: String,
    pub table_id: String,
}

#[derive(Clone, Debug, PartialEq, Eq)]
pub struct DeleteTableRequest {
    pub database_id: String,
    pub table_id: String,
}

/// The values of one entry, as decimal strings.
#[derive(Clone, Debug, PartialEq, Eq)]
pub struct EntryData {
    pub data: Vec<String>,
}

#[derive(Clone, Debug, PartialEq, Eq)]
pub struct InsertEntriesRequest {
    pub database_id: String,
    pub table_id: String,
    pub data: Vec<EntryData>,
}

#[derive(Clone, Debug, PartialEq, Eq)]
pub struct AllEntries {}

#[derive(Clone, Debug, PartialEq, Eq)]
pub struct EntryIndices {
    pub indices: Vec<u64>,
}

/// The entries whose value in one column is a given value.
#[derive(Clone, Debug, PartialEq, Eq)]
pub struct EntriesByValue {
    pub column_index: u64,
    pub value: String,
}

/// Which entries a read selects.
#[derive(Clone, Debug, PartialEq, Eq)]
pub enum GetEntriesSelection {
    All(AllEntries),
    Indices(EntryIndices),
    Value(EntriesByValue),
}

#[derive(Clone, Debug, PartialEq, Eq)]
pub struct GetEntriesRequest {
    pub database_id: String,
    pub table_id: String,
    pub entries: Option<GetEntriesSelection>,
}

/// Which entries a delete selects.
#[derive(Clone, Debug, PartialEq, Eq)]
pub enum DeleteEntriesSelection {
    All(AllEntries),
    Indices(EntryIndices),
}

#[derive(Clone, Debug, PartialEq, Eq)]
pub struct DeleteEntriesRequest {
    pub database_id: String,
    pub table_id: String,
    pub entries: Option<DeleteEntriesSelection>,
}

#[derive(Clone, Debug, PartialEq, Eq)]
pub struct FurDbConfig {
    pub workdir: String,
}

#[derive(Clone, Debug, PartialEq, Eq)]
pub struct DatabaseInfo {
    pub database_id: String,
}

#[derive(Clone, Debug, PartialEq, Eq)]
pub struct DatabaseInfoExtra {
    pub database_id: String,
    pub database_tables: Vec<String>,
}

#[derive(Clone, Debug, PartialEq, Eq)]
pub struct TableInfo {
    pub database_id: String,
    pub table_id: String,
    pub table_columns: Vec<Column>,
}

/// An entry as it travels: its index, and its values as decimal strings.
#[derive(Clone, Debug, PartialEq, Eq)]
pub struct Entry {
    pub index: u64,
    pub data: Vec<String>,
}

#[derive(Clone, Debug, PartialEq, Eq)]
pub struct EntriesResult {
    pub result_count: u64,
    pub results: Vec<Entry>,
}

impl View for Entry {
    type V = (nat, Seq<Seq<char>>);

    open spec fn view(&self) -> (nat, Seq<Seq<char>>) {
        (self.index as nat, views(self.data@))
    }
}

/// An entry with its values written in decimal.
pub open spec fn wire_entry(e: (nat, Seq<u128>)) -> (nat, Seq<Seq<char>>) {
    (e.0, e.1.map_values(|v: u128| decimal_chars(v as nat)))
}

/// Entries with their values written in decimal.
pub open spec fn wire_entries(e: Seq<(nat, Seq<u128>)>) -> Seq<(nat, Seq<Seq<char>>)> {
    e.map_values(|x: (nat, Seq<u128>)| wire_entry(x))
}

/// The widths of columns as they travel.
pub open spec fn wire_columns(columns: Seq<Column>) -> Seq<u64> {
    columns.map_values(|c: Column| c.size)
}

/// A width as it travels: a width past `u64::MAX` saturates.
pub open spec fn wire_size(size: u128) -> u64 {
    if size <= u64::MAX {
        size as u64
    } else {
        u64::MAX
    }
}

impl FurDbConfig {
    pub fn from(config: FurDBConfig) -> (r: Self)
        ensures
            r.workdir@ == config.workdir@,
    {
        FurDbConfig { workdir: config.workdir }
    }
}

impl Column {
    pub fn from(column: CoreColumn) -> (r: Self)
        ensures
            r.size == wire_size(column@),
    {
        let size = column.get_size();
        // A column narrow enough to have been accepted always fits in a
        // `u64`; saturating keeps an oversized width from wrapping round to
        // a plausible-looking one.
        if size <= u64::MAX as u128 {
            Column { size: size as u64 }
        } else {
            Column { size: u64::MAX }
        }
    }
}

impl DatabaseInfo {
    pub fn from(database_info: CoreDatabaseInfo) -> (r: Self)
        ensures
            r.database_id@ == database_info.database_id(),
    {
        DatabaseInfo { database_id: database_info.get_database_id() }
    }
}

impl DatabaseInfoExtra {
    pub fn from(database_info_extra: CoreDatabaseInfoExtra) -> (r: Self)
        ensures
            r.database_id@ == database_info_extra.database_id(),
            views(r.database_tables@) == database_info_extra.tables(),
    {
        DatabaseInfoExtra {
            database_id: database_info_extra.get_database_info().get_database_id(),
            database_tables: database_info_extra.get_database_tables(),
        }
    }
}

impl TableInfo {
    pub fn from(table_info: CoreTableInfo) -> (r: Self)
        ensures
            r.database_id@ == table_info.database_id(),
            r.table_id@ == table_info.table_id(),
            wire_columns(r.table_columns@) == table_info.columns().map_values(
                |s: u128| wire_size(s),
            ),
    {
        let columns = table_info.get_table_columns();
        let mut out: Vec<Column> = Vec::new();
        let mut i: usize = 0;
        while i < columns.len()
            invariant
                0 <= i <= columns.len(),
                out@.len() == i,
                wire_columns(out@) == views(columns@).map_values(|s: u128| wire_size(s)).take(
                    i as int,
                ),
            decreases columns.len() - i,
        {
            out.push(Column::from(columns[i]));
            proof {
                assert(wire_columns(out@) =~= views(columns@).map_values(|s: u128| wire_size(s)).take(
                    i + 1,
                ));
            }
            i = i + 1;
        }
        proof {
            assert(views(columns@).map_values(|s: u128| wire_size(s)).take(i as int)
                =~= views(columns@).map_values(|s: u128| wire_size(s)));
        }
        TableInfo {
            database_id: table_info.get_database_id(),
            table_id: table_info.get_table_id(),
            table_columns: out,
        }
    }
}

fn wire_entry_of(entry: &CoreEntry) -> (r: Entry)
    ensures
        r@ == wire_entry(entry@),
{
    let values = entry.get_data();
    let mut data: Vec<String> = Vec::new();
    let mut i: usize = 0;
    while i < values.len()
        invariant
            0 <= i <= values.len(),
            data@.len() == i,
            views(data@) == values@.map_values(|v: u128| decimal_chars(v as nat)).take(i as int),
        decreases values.len() - i,
    {
        data.push(u128_to_decimal(values[i]));
        proof {
            assert(views(data@) =~= values@.map_values(|v: u128| decimal_chars(v as nat)).take(
                i + 1,
            ));
        }
        i = i + 1;
    }
    proof {
        assert(values@.map_values(|v: u128| decimal_chars(v as nat)).take(i as int)
            =~= values@.map_values(|v: u128| decimal_chars(v as nat)));
    }
    Entry { index: entry.get_index() as u64, data }
}

impl Entry {
    pub fn from(entry: CoreEntry) -> (r: Self)
        ensures
            r@ == wire_entry(entry@),
    {
        wire_entry_of(&entry)
    }
}

impl EntriesResult {
    pub fn from(entries_result: CoreEntriesResult) -> (r: Self)
        ensures
            r.result_count == entries_result.count(),
            views(r.results@) == wire_entries(entries_result@),
    {
        let count = entries_result.get_result_count();
        let entries = entries_result.get_results();
        let mut results: Vec<Entry> = Vec::new();
        let mut i: usize = 0;
        while i < entries.len()
            invariant
                0 <= i <= entries.len(),
                results@.len() == i,
                views(results@) == wire_entries(views(entries@)).take(i as int),
            decreases entries.len() - i,
        {
            results.push(wire_entry_of(&entries[i]));
            proof {
                assert(views(results@) =~= wire_entries(views(entries@)).take(i + 1));
            }
            i = i + 1;
        }
        proof {
            assert(wire_entries(views(entries@)).take(i as int) =~= wire_entries(views(entries@)));
        }
        EntriesResult { result_count: count as u64, results }
    }
}

impl CreateTableRequest {
    /// The requested columns.
    pub fn get_table_columns(&self) -> (columns: Vec<CoreColumn>)
        ensures
            views(columns@) == wire_columns(self.table_columns@).map_values(|s: u64| s as u128),
    {
        let mut columns: Vec<CoreColumn> = Vec::new();
        let mut i: usize = 0;
        while i < self.table_columns.len()
            invariant
                0 <= i <= self.table_columns.len(),
                columns@.len() == i,
                views(columns@) == wire_columns(self.table_columns@).map_values(
                    |s: u64| s as u128,
                ).take(i as int),
            decreases self.table_columns.len() - i,
        {
            columns.push(CoreColumn::new(self.table_columns[i].size as u128));
            proof {
                assert(views(columns@) =~= wire_columns(self.table_columns@).map_values(
                    |s: u64| s as u128,
                ).take(i + 1));
            }
            i = i + 1;
        }
        proof {
            assert(wire_columns(self.table_columns@).map_values(|s: u64| s as u128).take(i as int)
                =~= wire_columns(self.table_columns@).map_values(|s: u64| s as u128));
        }
        columns
    }
}

impl EntriesByValue {
    pub fn get_column_index(&self) -> (column_index: u64)
        ensures
            column_index == self.column_index,
    {
        self.column_index
    }

    /// The value to look for, refused if it is not a decimal `u128`.
    pub fn get_value(&self) -> (r: Result<u128, ErrorResponse>)
        ensures
            match r {
                Ok(v) => parse_decimal(self.value@) == Some(v),
                Err(e) => parse_decimal(self.value@) is None && (e matches ErrorResponse::BadRequest(
                    m,
                ) && m@ == invalid_value_message("value"@, self.value@)),
            },
    {
        parse_u128(self.value.as_str(), "value")
    }
}

/// The values of a batch of entries, as the strings they travel as.
pub open spec fn batch_strings(data: Seq<EntryData>) -> Seq<Seq<Seq<char>>> {
    data.map_values(|e: EntryData| views(e.data@))
}

/// The first string, entry by entry and value by value, that writes no
/// `u128`.
pub open spec fn first_bad_value(batch: Seq<Seq<Seq<char>>>) -> Option<Seq<char>>
    decreases batch.len(),
{
    if batch.len() == 0 {
        None
    } else {
        match first_bad_value(batch.drop_last()) {
            Some(v) => Some(v),
            None => first_bad_in_row(batch.last()),
        }
    }
}

pub open spec fn first_bad_in_row(row: Seq<Seq<char>>) -> Option<Seq<char>>
    decreases row.len(),
{
    if row.len() == 0 {
        None
    } else {
        match first_bad_in_row(row.drop_last()) {
            Some(v) => Some(v),
            None => if parse_decimal(row.last()) is None {
                Some(row.last())
            } else {
                None
            },
        }
    }
}

/// The values a batch writes, when every string writes one.
pub open spec fn parsed_batch(batch: Seq<Seq<Seq<char>>>) -> Seq<Seq<u128>> {
    batch.map_values(|row: Seq<Seq<char>>| row.map_values(|s: Seq<char>| parse_decimal(s)->0))
}

proof fn lemma_first_bad_prefix(batch: Seq<Seq<Seq<char>>>, k: int, bad: Seq<char>)
    requires
        0 < k <= batch.len(),
        first_bad_value(batch.take(k)) == Some(bad),
    ensures
        first_bad_value(batch) == Some(bad),
    decreases batch.len() - k,
{
    if k < batch.len() {
        assert(batch.take(k + 1).drop_last() =~= batch.take(k));
        lemma_first_bad_prefix(batch, k + 1, bad);
    } else {
        assert(batch.take(k) =~= batch);
    }
}

proof fn lemma_first_bad_in_row_prefix(row: Seq<Seq<char>>, k: int, bad: Seq<char>)
    requires
        0 < k <= row.len(),
        first_bad_in_row(row.take(k)) == Some(bad),
    ensures
        first_bad_in_row(row) == Some(bad),
    decreases row.len() - k,
{
    if k < row.len() {
        assert(row.take(k + 1).drop_last() =~= row.take(k));
        lemma_first_bad_in_row_prefix(row, k + 1, bad);
    } else {
        assert(row.take(k) =~= row);
    }
}

/// The values of one entry; refused at its first string that writes no
/// `u128`.
fn parse_row(row: &Vec<String>) -> (r: Result<Vec<u128>, ErrorResponse>)
    ensures
        match r {
            Ok(values) => first_bad_in_row(views(row@)) is None && values@ == views(row@).map_values(
                |s: Seq<char>| parse_decimal(s)->0,
            ),
            Err(e) => exists|bad: Seq<char>|
                first_bad_in_row(views(row@)) == Some(bad) && (e matches ErrorResponse::BadRequest(m)
                    && m@ == invalid_value_message("data"@, bad)),
        },
{
    let ghost strs = views(row@);
    let mut values: Vec<u128> = Vec::new();
    let mut i: usize = 0;
    while i < row.len()
        invariant
            0 <= i <= row.len(),
            strs == views(row@),
            values@.len() == i,
            first_bad_in_row(strs.take(i as int)) is None,
            values@ == strs.take(i as int).map_values(|s: Seq<char>| parse_decimal(s)->0),
        decreases row.len() - i,
    {
        proof {
            assert(strs.take(i + 1).drop_last() =~= strs.take(i as int));
        }
        match parse_u128(row[i].as_str(), "data") {
            Ok(v) => {
                values.push(v);
                proof {
                    assert(values@ =~= strs.take(i + 1).map_values(
                        |s: Seq<char>| parse_decimal(s)->0,
                    ));
                }
            },
            Err(e) => {
                proof {
                    lemma_first_bad_in_row_prefix(strs, i + 1, strs[i as int]);
                }
                return Err(e);
            },
        }
        i = i + 1;
    }
    proof {
        assert(strs.take(i as int) =~= strs);
    }
    Ok(values)
}

impl InsertEntriesRequest {
    /// The values of the entries, refused at the first string, entry by entry
    /// and value by value, that writes no `u128`.
    pub fn get_data(&self) -> (r: Result<Vec<Vec<u128>>, ErrorResponse>)
        ensures
            match r {
                Ok(rows) => first_bad_value(batch_strings(self.data@)) is None && crate::packing::rows_view(
                    rows@,
                ) == parsed_batch(batch_strings(self.data@)),
                Err(e) => exists|bad: Seq<char>|
                    first_bad_value(batch_strings(self.data@)) == Some(bad) && (
                    e matches ErrorResponse::BadRequest(m) && m@ == invalid_value_message(
                        "data"@,
                        bad,
                    )),
            },
    {
        let ghost batch = batch_strings(self.data@);
        let mut rows: Vec<Vec<u128>> = Vec::new();
        let mut k: usize = 0;
        while k < self.data.len()
            invariant
                0 <= k <= self.data.len(),
                batch == batch_strings(self.data@),
                rows@.len() == k,
                first_bad_value(batch.take(k as int)) is None,
                crate::packing::rows_view(rows@) == parsed_batch(batch.take(k as int)),
            decreases self.data.len() - k,
        {
            proof {
                assert(batch.take(k + 1).drop_last() =~= batch.take(k as int));
                assert(batch[k as int] == views(self.data@[k as int].data@));
            }
            match parse_row(&self.data[k].data) {
                Ok(values) => {
                    let ghost before = rows@;
                    rows.push(values);
                    proof {
                        let p = parsed_batch(batch.take(k + 1));
                        let q = parsed_batch(batch.take(k as int));
                        assert(p.len() == k + 1);
                        assert forall|j: int| 0 <= j < k implies p[j] == q[j] by {
                            assert(batch.take(k + 1)[j] == batch.take(k as int)[j]);
                        }
                        assert(p[k as int] == values@);
                        assert(crate::packing::rows_view(rows@)[k as int] == values@);
                        assert forall|j: int| 0 <= j < k implies crate::packing::rows_view(rows@)[j]
                            == crate::packing::rows_view(before)[j] by {
                            assert(rows@[j] == before[j]);
                        }
                        assert(crate::packing::rows_view(rows@) =~= parsed_batch(batch.take(k + 1)));
                    }
                },
                Err(e) => {
                    proof {
                        let bad = choose|bad: Seq<char>|
                            first_bad_in_row(views(self.data@[k as int].data@)) == Some(bad) && (
                            e matches ErrorResponse::BadRequest(m) && m@ == invalid_value_message(
                                "data"@,
                                bad,
                            ));
                        lemma_first_bad_prefix(batch, k + 1, bad);
                    }
                    return Err(e);
                },
            }
            k = k + 1;
        }
        proof {
            assert(batch.take(k as int) =~= batch);
        }
        Ok(rows)
    }
}

/// The envelope reports success with the given status.
pub open spec fn reports(result: String, status_code: u32, status: String, s: SuccessStatus) -> bool {
    &&& result@ == RESULT_SUCCESS@
    &&& status_code == s.spec_status_code()
    &&& status@ == s.spec_status()
}

fn envelope(s: SuccessStatus) -> (r: (String, u32, String))
    ensures
        reports(r.0, r.1, r.2, s),
{
    (RESULT_SUCCESS.to_owned(), s.get_status_code(), s.get_status())
}

/// The answer that carries a `FurDbConfig`, reported as `OK`.
#[derive(Clone, Debug, PartialEq, Eq)]
pub struct ServerInfoResponse {
    pub result: String,
    pub status_code: u32,
    pub status: String,
    pub response: Option<FurDbConfig>,
}

impl ServerInfoResponse {
    pub fn new(response: FurDbConfig) -> (r: Self)
        ensures
            reports(r.result, r.status_code, r.status, SuccessStatus::OK),
            r.response == Some(response),
    {
        let (result, status_code, status) = envelope(SuccessStatus::OK);
        ServerInfoResponse { result, status_code, status, response: Some(response) }
    }
}

/// The answer that carries a `DatabaseInfo`, reported as `Created`.
#[derive(Clone, Debug, PartialEq, Eq)]
pub struct DatabaseCreatedResponse {
    pub result: String,
    pub status_code: u32,
    pub status: String,
    pub response: Option<DatabaseInfo>,
}

impl DatabaseCreatedResponse {
    pub fn new(response: DatabaseInfo) -> (r: Self)
        ensures
            reports(r.result, r.status_code, r.status, SuccessStatus::Created),
            r.response == Some(response),
    {
        let (result, status_code, status) = envelope(SuccessStatus::Created);
        DatabaseCreatedResponse { result, status_code, status, response: Some(response) }
    }
}

/// The answer that carries a `DatabaseInfoExtra`, reported as `OK`.
#[derive(Clone, Debug, PartialEq, Eq)]
pub struct DatabaseInfoResponse {
    pub result: String,
    pub status_code: u32,
    pub status: String,
    pub response: Option<DatabaseInfoExtra>,
}

impl DatabaseInfoResponse {
    pub fn new(response: DatabaseInfoExtra) -> (r: Self)
        ensures
            reports(r.result, r.status_code, r.status, SuccessStatus::OK),
            r.response == Some(response),
    {
        let (result, status_code, status) = envelope(SuccessStatus::OK);
        DatabaseInfoResponse { result, status_code, status, response: Some(response) }
    }
}

/// The answer with no payload, reported as `OK`.
#[derive(Clone, Debug, PartialEq, Eq)]
pub struct DatabaseDeletedResponse {
    pub result: String,
    pub status_code: u32,
    pub status: String,
}

impl DatabaseDeletedResponse {
    pub fn new() -> (r: Self)
        ensures
            reports(r.result, r.status_code, r.status, SuccessStatus::OK),
    {
        let (result, status_code, status) = envelope(SuccessStatus::OK);
        DatabaseDeletedResponse { result, status_code, status }
    }
}

/// The answer that carries a `TableInfo`, reported as `Created`.
#[derive(Clone, Debug, PartialEq, Eq)]
pub struct TableCreatedResponse {
    pub result: String,
    pub status_code: u32,
    pub status: String,
    pub response: Option<TableInfo>,
}

impl TableCreatedResponse {
    pub fn new(response: TableInfo) -> (r: Self)
        ensures
            reports(r.result, r.status_code, r.status, SuccessStatus::Created),
            r.response == Some(response),
    {
        let (result, status_code, status) = envelope(SuccessStatus::Created);
        TableCreatedResponse { result, status_code, status, response: Some(response) }
    }
}

/// The answer that carries a `TableInfo`, reported as `OK`.
#[derive(Clone, Debug, PartialEq, Eq)]
pub struct TableInfoResponse {
    pub result: String,
    pub status_code: u32,
    pub status: String,
    pub response: Option<TableInfo>,
}

impl TableInfoResponse {
    pub fn new(response: TableInfo) -> (r: Self)
        ensures
            reports(r.result, r.status_code, r.status, SuccessStatus::OK),
            r.response == Some(response),
    {
        let (result, status_code, status) = envelope(SuccessStatus::OK);
        TableInfoResponse { result, status_code, status, response: Some(response) }
    }
}

/// The answer with no payload, reported as `OK`.
#[derive(Clone, Debug, PartialEq, Eq)]
pub struct TableDeletedResponse {
    pub result: String,
    pub status_code: u32,
    pub status: String,
}

impl TableDeletedResponse {
    pub fn new() -> (r: Self)
        ensures
            reports(r.result, r.status_code, r.status, SuccessStatus::OK),
    {
        let (result, status_code, status) = envelope(SuccessStatus::OK);
        TableDeletedResponse { result, status_code, status }
    }
}

/// The answer with no payload, reported as `Created`.
#[derive(Clone, Debug, PartialEq, Eq)]
pub struct EntriesCreatedResponse {
    pub result: String,
    pub status_code: u32,
    pub status: String,
}

impl EntriesCreatedResponse {
    pub fn new() -> (r: Self)
        ensures
            reports(r.result, r.status_code, r.status, SuccessStatus::Created),
    {
        let (result, status_code, status) = envelope(SuccessStatus::Created);
        EntriesCreatedResponse { result, status_code, status }
    }
}

/// The answer that carries a `EntriesResult`, reported as `OK`.
#[derive(Clone, Debug, PartialEq, Eq)]
pub struct EntriesResultResponse {
    pub result: String,
    pub status_code: u32,
    pub status: String,
    pub response: Option<EntriesResult>,
}

impl EntriesResultResponse {
    pub fn new(response: EntriesResult) -> (r: Self)
        ensures
            reports(r.result, r.status_code, r.status, SuccessStatus::OK),
            r.response == Some(response),
    {
        let (result, status_code, status) = envelope(SuccessStatus::OK);
        EntriesResultResponse { result, status_code, status, response: Some(response) }
    }
}

/// The answer with no payload, reported as `OK`.
#[derive(Clone, Debug, PartialEq, Eq)]
pub struct EntriesDeletedResponse {
    pub result: String,
    pub status_code: u32,
    pub status: String,
}

impl EntriesDeletedResponse {
    pub fn new() -> (r: Self)
        ensures
            reports(r.result, r.status_code, r.status, SuccessStatus::OK),
    {
        let (result, status_code, status) = envelope(SuccessStatus::OK);
        EntriesDeletedResponse { result, status_code, status }
    }
}

} // verus!
