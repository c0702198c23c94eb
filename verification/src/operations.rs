//! The operations a client can ask for, one per request type: each checks
//! the request, asks the engine, and wraps the outcome in a response.

use crate::decimal::parse_decimal;
use crate::engine::{
    create_database_error, create_table_error, database_error, insert_entries_error, table_error,
    with_rows, FurDB, FurDBModel,
};
use crate::packing::{lemma_rows_view, rows_view};
use crate::proto::{
    batch_strings, first_bad_value, parsed_batch, reports, wire_columns, wire_entries, wire_size,
    CreateDatabaseRequest, CreateTableRequest, DatabaseCreatedResponse, DatabaseDeletedResponse,
    DatabaseInfo, DatabaseInfoExtra, DatabaseInfoResponse, DeleteDatabaseRequest,
    DeleteEntriesRequest, DeleteEntriesSelection, DeleteTableRequest, EntriesCreatedResponse,
    EntriesDeletedResponse, EntriesResult, EntriesResultResponse, FurDbConfig, GetDatabaseRequest,
    GetEntriesRequest, GetEntriesSelection, GetServerInfoRequest, GetTableRequest,
    InsertEntriesRequest, ServerInfoResponse, TableCreatedResponse, TableDeletedResponse,
    TableInfo, TableInfoResponse,
};
use crate::response::{ErrorResponse, SuccessStatus};
use crate::table::{
    all_rows, indices_in_range, query_rows, remove_indices, rows_at, FurDBError, TableModel,
};
use crate::text::invalid_value_message;
use crate::views::{lemma_views, views};
use vstd::prelude::*;

verus! {

broadcast use {lemma_views, lemma_rows_view};

/// The message that refuses a request selecting no entries.
pub open spec fn no_selection_message() -> Seq<char> {
    "No entry selection given for `entries`"@
}

/// `r` refuses the request as the engine refused it.
pub open spec fn refused<T>(r: Result<T, ErrorResponse>, error: FurDBError) -> bool {
    r matches Err(e) && e.answers(error)
}

/// `r` is a bad request with the given message.
pub open spec fn bad_request<T>(r: Result<T, ErrorResponse>, message: Seq<char>) -> bool {
    r matches Err(e) && (e matches ErrorResponse::BadRequest(m) && m@ == message)
}

/// `r` answers with the given entries, their values in decimal.
pub open spec fn answers_entries(
    r: Result<EntriesResultResponse, ErrorResponse>,
    selected: Seq<(nat, Seq<u128>)>,
) -> bool {
    r matches Ok(resp) && (reports(resp.result, resp.status_code, resp.status, SuccessStatus::OK)
        && (resp.response matches Some(er) && (er.result_count == selected.len() && views(
        er.results@,
    ) == wire_entries(selected))))
}

/// Server information reports the engine's working directory.
pub open spec fn answers_get_server_info(
    workdir: Seq<char>,
    r: Result<ServerInfoResponse, ErrorResponse>,
) -> bool {
    r matches Ok(resp) && (reports(resp.result, resp.status_code, resp.status, SuccessStatus::OK)
        && (resp.response matches Some(config) && config.workdir@ == workdir))
}

pub fn get_server_info(furdb: &FurDB, _request: GetServerInfoRequest) -> (r: Result<
    ServerInfoResponse,
    ErrorResponse,
>)
    ensures
        answers_get_server_info(furdb.workdir(), r),
{
    let furdb_config = furdb.get_config();
    Ok(ServerInfoResponse::new(FurDbConfig::from(furdb_config)))
}

/// A new database is created empty, or the request is refused and nothing
/// changes.
pub open spec fn answers_create_database(
    before: FurDBModel,
    request: CreateDatabaseRequest,
    after: FurDBModel,
    r: Result<DatabaseCreatedResponse, ErrorResponse>,
) -> bool {
    match create_database_error(before, request.database_id@) {
        Some(e) => refused(r, e) && after == before,
        None => after == before.insert(request.database_id@, Map::empty()) && (r matches Ok(resp)
            && (reports(resp.result, resp.status_code, resp.status, SuccessStatus::Created) && (
        resp.response matches Some(info) && info.database_id@ == request.database_id@))),
    }
}

pub fn create_database(furdb: &mut FurDB, request: CreateDatabaseRequest) -> (r: Result<
    DatabaseCreatedResponse,
    ErrorResponse,
>)
    ensures
        final(furdb).workdir() == old(furdb).workdir(),
        answers_create_database(old(furdb)@, request, final(furdb)@, r),
{
    match furdb.create_database(&request.database_id) {
        Ok(database_info) => Ok(DatabaseCreatedResponse::new(DatabaseInfo::from(database_info))),
        Err(e) => Err(ErrorResponse::from(e)),
    }
}

/// A database is described by its id and the ids of its tables, each once.
pub open spec fn answers_get_database(
    m: FurDBModel,
    request: GetDatabaseRequest,
    r: Result<DatabaseInfoResponse, ErrorResponse>,
) -> bool {
    match database_error(m, request.database_id@) {
        Some(e) => refused(r, e),
        None => r matches Ok(resp) && (reports(
            resp.result,
            resp.status_code,
            resp.status,
            SuccessStatus::OK,
        ) && (resp.response matches Some(info) && (info.database_id@ == request.database_id@
            && views(info.database_tables@).no_duplicates() && views(
            info.database_tables@,
        ).to_set() == m[request.database_id@].dom()))),
    }
}

pub fn get_database(furdb: &FurDB, request: GetDatabaseRequest) -> (r: Result<
    DatabaseInfoResponse,
    ErrorResponse,
>)
    ensures
        answers_get_database(furdb@, request, r),
{
    let database = match furdb.get_database(&request.database_id) {
        Ok(database) => database,
        Err(e) => {
            return Err(ErrorResponse::from(e));
        },
    };
    let database_info_full = database.get_database_info_full();
    Ok(DatabaseInfoResponse::new(DatabaseInfoExtra::from(database_info_full)))
}

/// A database is removed with all its tables, or the request is refused and
/// nothing changes.
pub open spec fn answers_delete_database(
    before: FurDBModel,
    request: DeleteDatabaseRequest,
    after: FurDBModel,
    r: Result<DatabaseDeletedResponse, ErrorResponse>,
) -> bool {
    match database_error(before, request.database_id@) {
        Some(e) => refused(r, e) && after == before,
        None => after == before.remove(request.database_id@) && (r matches Ok(resp) && reports(
            resp.result,
            resp.status_code,
            resp.status,
            SuccessStatus::OK,
        )),
    }
}

pub fn delete_database(furdb: &mut FurDB, request: DeleteDatabaseRequest) -> (r: Result<
    DatabaseDeletedResponse,
    ErrorResponse,
>)
    ensures
        final(furdb).workdir() == old(furdb).workdir(),
        answers_delete_database(old(furdb)@, request, final(furdb)@, r),
{
    match furdb.delete_database(&request.database_id) {
        Ok(()) => Ok(DatabaseDeletedResponse::new()),
        Err(e) => Err(ErrorResponse::from(e)),
    }
}

/// The widths a table creation asks for.
pub open spec fn requested_columns(request: CreateTableRequest) -> Seq<u128> {
    wire_columns(request.table_columns@).map_values(|s: u64| s as u128)
}

/// A new table is created with the requested widths and no entries, or the
/// request is refused and nothing changes.
pub open spec fn answers_create_table(
    before: FurDBModel,
    request: CreateTableRequest,
    after: FurDBModel,
    r: Result<TableCreatedResponse, ErrorResponse>,
) -> bool {
    match create_table_error(
        before,
        request.database_id@,
        request.table_id@,
        requested_columns(request),
    ) {
        Some(e) => refused(r, e) && after == before,
        None => after == before.insert(
            request.database_id@,
            before[request.database_id@].insert(
                request.table_id@,
                TableModel { columns: requested_columns(request), rows: Seq::empty() },
            ),
        ) && (r matches Ok(resp) && (reports(
            resp.result,
            resp.status_code,
            resp.status,
            SuccessStatus::Created,
        ) && (resp.response matches Some(info) && (info.database_id@ == request.database_id@
            && info.table_id@ == request.table_id@ && wire_columns(info.table_columns@)
            == wire_columns(request.table_columns@))))),
    }
}

pub fn create_table(furdb: &mut FurDB, request: CreateTableRequest) -> (r: Result<
    TableCreatedResponse,
    ErrorResponse,
>)
    ensures
        final(furdb).workdir() == old(furdb).workdir(),
        answers_create_table(old(furdb)@, request, final(furdb)@, r),
{
    let table_columns = request.get_table_columns();
    let ghost requested = requested_columns(request);
    assert(views(table_columns@) == requested);
    match furdb.create_table(&request.database_id, &request.table_id, table_columns) {
        Ok(table_info) => {
            let info = TableInfo::from(table_info);
            proof {
                let w = wire_columns(request.table_columns@);
                assert forall|i: int| 0 <= i < w.len() implies #[trigger] wire_columns(
                    info.table_columns@,
                )[i] == w[i] by {
                    assert(requested[i] <= 128);
                }
                assert(wire_columns(info.table_columns@) =~= w);
            }
            Ok(TableCreatedResponse::new(info))
        },
        Err(e) => Err(ErrorResponse::from(e)),
    }
}

/// A table is described by its ids and its widths.
pub open spec fn answers_get_table(
    m: FurDBModel,
    request: GetTableRequest,
    r: Result<TableInfoResponse, ErrorResponse>,
) -> bool {
    match table_error(m, request.database_id@, request.table_id@) {
        Some(e) => refused(r, e),
        None => r matches Ok(resp) && (reports(
            resp.result,
            resp.status_code,
            resp.status,
            SuccessStatus::OK,
        ) && (resp.response matches Some(info) && (info.database_id@ == request.database_id@
            && info.table_id@ == request.table_id@ && wire_columns(info.table_columns@)
            == m[request.database_id@][request.table_id@].columns.map_values(
            |s: u128| wire_size(s),
        )))),
    }
}

pub fn get_table(furdb: &FurDB, request: GetTableRequest) -> (r: Result<
    TableInfoResponse,
    ErrorResponse,
>)
    ensures
        answers_get_table(furdb@, request, r),
{
    let database = match furdb.get_database(&request.database_id) {
        Ok(database) => database,
        Err(e) => {
            return Err(ErrorResponse::from(e));
        },
    };
    let table = match database.get_table(&request.table_id) {
        Ok(table) => table,
        Err(e) => {
            return Err(ErrorResponse::from(e));
        },
    };
    let table_info = table.get_table_info();
    let info = TableInfo::from(table_info);
    proof {
        assert(wire_columns(info.table_columns@) =~= furdb@[request.database_id@][request.table_id@].columns.map_values(
            |s: u128| wire_size(s),
        ));
    }
    Ok(TableInfoResponse::new(info))
}

/// A table is removed from its database, the other tables untouched, or the
/// request is refused and nothing changes.
pub open spec fn answers_delete_table(
    before: FurDBModel,
    request: DeleteTableRequest,
    after: FurDBModel,
    r: Result<TableDeletedResponse, ErrorResponse>,
) -> bool {
    match table_error(before, request.database_id@, request.table_id@) {
        Some(e) => refused(r, e) && after == before,
        None => after == before.insert(
            request.database_id@,
            before[request.database_id@].remove(request.table_id@),
        ) && (r matches Ok(resp) && reports(
            resp.result,
            resp.status_code,
            resp.status,
            SuccessStatus::OK,
        )),
    }
}

pub fn delete_table(furdb: &mut FurDB, request: DeleteTableRequest) -> (r: Result<
    TableDeletedResponse,
    ErrorResponse,
>)
    ensures
        final(furdb).workdir() == old(furdb).workdir(),
        answers_delete_table(old(furdb)@, request, final(furdb)@, r),
{
    match furdb.delete_table(&request.database_id, &request.table_id) {
        Ok(()) => Ok(TableDeletedResponse::new()),
        Err(e) => Err(ErrorResponse::from(e)),
    }
}

/// A batch is appended to a table whole, after its entries, or the request is
/// refused and nothing changes: a value that is not a decimal `u128` is
/// reported before anything is looked up.
pub open spec fn answers_insert_entries(
    before: FurDBModel,
    request: InsertEntriesRequest,
    after: FurDBModel,
    r: Result<EntriesCreatedResponse, ErrorResponse>,
) -> bool {
    match first_bad_value(batch_strings(request.data@)) {
        Some(bad) => bad_request(r, invalid_value_message("data"@, bad)) && after == before,
        None => match insert_entries_error(
            before,
            request.database_id@,
            request.table_id@,
            parsed_batch(batch_strings(request.data@)),
        ) {
            Some(e) => refused(r, e) && after == before,
            None => after == with_rows(
                before,
                request.database_id@,
                request.table_id@,
                before[request.database_id@][request.table_id@].rows + parsed_batch(
                    batch_strings(request.data@),
                ),
            ) && (r matches Ok(resp) && reports(
                resp.result,
                resp.status_code,
                resp.status,
                SuccessStatus::Created,
            )),
        },
    }
}

pub fn insert_entries(furdb: &mut FurDB, request: InsertEntriesRequest) -> (r: Result<
    EntriesCreatedResponse,
    ErrorResponse,
>)
    ensures
        final(furdb).workdir() == old(furdb).workdir(),
        answers_insert_entries(old(furdb)@, request, final(furdb)@, r),
{
    let data = match request.get_data() {
        Ok(data) => data,
        Err(e) => {
            return Err(e);
        },
    };
    match furdb.insert_entries(&request.database_id, &request.table_id, &data) {
        Ok(()) => Ok(EntriesCreatedResponse::new()),
        Err(e) => Err(ErrorResponse::from(e)),
    }
}

/// A read's selection, with its value already parsed.
enum Selection {
    All,
    Indices(Vec<u64>),
    Value(u64, u128),
}

/// A read answers with the selected entries, in the order asked for, or is
/// refused; the selection is checked before anything is looked up.
pub open spec fn answers_get_entries(
    m: FurDBModel,
    request: GetEntriesRequest,
    r: Result<EntriesResultResponse, ErrorResponse>,
) -> bool {
    match request.entries {
        None => bad_request(r, no_selection_message()),
        Some(selection) => {
            // The request is checked before anything is looked up, so a
            // malformed value is reported as such rather than as a
            // missing database.
            if selection matches GetEntriesSelection::Value(v) && parse_decimal(v.value@) is None {
                selection matches GetEntriesSelection::Value(v) && bad_request(
                    r,
                    invalid_value_message("value"@, v.value@),
                )
            } else {
                match table_error(m, request.database_id@, request.table_id@) {
                    Some(e) => refused(r, e),
                    None => {
                        let t = m[request.database_id@][request.table_id@];
                        match selection {
                            GetEntriesSelection::All(_) => answers_entries(r, all_rows(t.rows)),
                            GetEntriesSelection::Indices(ix) => if indices_in_range(
                                t.rows,
                                ix.indices@,
                            ) {
                                answers_entries(r, rows_at(t.rows, ix.indices@))
                            } else {
                                refused(r, FurDBError::InvalidIndex)
                            },
                            GetEntriesSelection::Value(v) => if v.column_index
                                < t.columns.len() {
                                answers_entries(
                                    r,
                                    query_rows(
                                        t.rows,
                                        v.column_index as int,
                                        parse_decimal(v.value@)->0,
                                    ),
                                )
                            } else {
                                refused(r, FurDBError::InvalidColumn)
                            },
                        }
                    },
                }
            }
        },
    }
}

pub fn get_entries(furdb: &FurDB, request: GetEntriesRequest) -> (r: Result<
    EntriesResultResponse,
    ErrorResponse,
>)
    ensures
        answers_get_entries(furdb@, request, r),
{
    let entries = match &request.entries {
        Some(entries) => entries,
        None => {
            return Err(ErrorResponse::BadRequest("No entry selection given for `entries`".to_owned()));
        },
    };
    let selection = match entries {
        GetEntriesSelection::All(_) => Selection::All,
        GetEntriesSelection::Indices(entry_indices) => Selection::Indices(
            copy_indices(&entry_indices.indices),
        ),
        GetEntriesSelection::Value(entries_by_value) => {
            let value = match entries_by_value.get_value() {
                Ok(value) => value,
                Err(e) => {
                    return Err(e);
                },
            };
            Selection::Value(entries_by_value.get_column_index(), value)
        },
    };
    let database = match furdb.get_database(&request.database_id) {
        Ok(database) => database,
        Err(e) => {
            return Err(ErrorResponse::from(e));
        },
    };
    let table = match database.get_table(&request.table_id) {
        Ok(table) => table,
        Err(e) => {
            return Err(ErrorResponse::from(e));
        },
    };
    let entries_result = match selection {
        Selection::All => table.get_all_entries(),
        Selection::Indices(indices) => match table.get_entries(&indices) {
            Ok(result) => result,
            Err(e) => {
                return Err(ErrorResponse::from(e));
            },
        },
        Selection::Value(column_index, value) => match table.query(column_index, value) {
            Ok(result) => result,
            Err(e) => {
                return Err(ErrorResponse::from(e));
            },
        },
    };
    Ok(EntriesResultResponse::new(EntriesResult::from(entries_result)))
}

fn copy_indices(indices: &Vec<u64>) -> (copy: Vec<u64>)
    ensures
        copy@ == indices@,
{
    let mut out: Vec<u64> = Vec::new();
    let mut i: usize = 0;
    while i < indices.len()
        invariant
            0 <= i <= indices.len(),
            out@ == indices@.take(i as int),
        decreases indices.len() - i,
    {
        out.push(indices[i]);
        proof {
            assert(out@ =~= indices@.take(i + 1));
        }
        i = i + 1;
    }
    proof {
        assert(indices@.take(i as int) =~= indices@);
    }
    out
}

/// The selected entries are removed and the rest numbered from 0 again, or
/// the request is refused and nothing changes.
pub open spec fn answers_delete_entries(
    before: FurDBModel,
    request: DeleteEntriesRequest,
    after: FurDBModel,
    r: Result<EntriesDeletedResponse, ErrorResponse>,
) -> bool {
    match request.entries {
        None => bad_request(r, no_selection_message()) && after == before,
        Some(selection) => match table_error(
            before,
            request.database_id@,
            request.table_id@,
        ) {
            Some(e) => refused(r, e) && after == before,
            None => (r matches Ok(resp) && reports(
                resp.result,
                resp.status_code,
                resp.status,
                SuccessStatus::OK,
            )) && after == with_rows(
                before,
                request.database_id@,
                request.table_id@,
                match selection {
                    DeleteEntriesSelection::All(_) => Seq::empty(),
                    DeleteEntriesSelection::Indices(ix) => remove_indices(
                        before[request.database_id@][request.table_id@].rows,
                        ix.indices@,
                    ),
                },
            ),
        },
    }
}

pub fn delete_entries(furdb: &mut FurDB, request: DeleteEntriesRequest) -> (r: Result<
    EntriesDeletedResponse,
    ErrorResponse,
>)
    ensures
        final(furdb).workdir() == old(furdb).workdir(),
        answers_delete_entries(old(furdb)@, request, final(furdb)@, r),
{
    let entries = match &request.entries {
        Some(entries) => entries,
        None => {
            return Err(ErrorResponse::BadRequest("No entry selection given for `entries`".to_owned()));
        },
    };
    let result = match entries {
        DeleteEntriesSelection::All(_) => furdb.delete_all_entries(
            &request.database_id,
            &request.table_id,
        ),
        DeleteEntriesSelection::Indices(entry_indices) => furdb.delete_entries(
            &request.database_id,
            &request.table_id,
            &entry_indices.indices,
        ),
    };
    match result {
        Ok(()) => Ok(EntriesDeletedResponse::new()),
        Err(e) => Err(ErrorResponse::from(e)),
    }
}

} // verus!
