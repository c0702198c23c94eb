use furdb::engine::{FurDB, FurDBConfig};
use furdb::packing::decode_entries;
use furdb::proto::{
    AllEntries, Column, CreateDatabaseRequest, CreateTableRequest, DeleteDatabaseRequest,
    DeleteEntriesRequest, DeleteEntriesSelection, DeleteTableRequest, EntriesByValue,
    EntriesResult, EntryData, EntryIndices, GetDatabaseRequest, GetEntriesRequest,
    GetEntriesSelection, GetServerInfoRequest, GetTableRequest, InsertEntriesRequest,
};
use furdb::response::ErrorResponse;
use furdb::server::FurDbService;
use tonic::Code;

fn service() -> FurDbService {
    FurDbService::new(FurDB::new(FurDBConfig {
        workdir: "/var/lib/furdb".to_string(),
    }))
}

fn column(size: u64) -> Column {
    Column { size }
}

fn entry_data(data: &[&str]) -> EntryData {
    EntryData {
        data: data.iter().map(|value| value.to_string()).collect(),
    }
}

fn seed(service: &mut FurDbService) {
    seed_with(service, &[column(5), column(3)]);
}

fn seed_with(service: &mut FurDbService, table_columns: &[Column]) {
    service
        .create_database(CreateDatabaseRequest {
            database_id: "my_database".to_string(),
        })
        .unwrap();
    service
        .create_table(CreateTableRequest {
            database_id: "my_database".to_string(),
            table_id: "my_table".to_string(),
            table_columns: table_columns.to_vec(),
        })
        .unwrap();
}

fn insert(service: &mut FurDbService, rows: &[&[&str]]) -> Result<(), ErrorResponse> {
    service
        .insert_entries(InsertEntriesRequest {
            database_id: "my_database".to_string(),
            table_id: "my_table".to_string(),
            data: rows.iter().map(|row| entry_data(row)).collect(),
        })
        .map(|_| ())
}

fn get_all(service: &FurDbService) -> EntriesResult {
    service
        .get_entries(GetEntriesRequest {
            database_id: "my_database".to_string(),
            table_id: "my_table".to_string(),
            entries: Some(GetEntriesSelection::All(AllEntries {})),
        })
        .unwrap()
        .response
        .unwrap()
}

fn query(service: &FurDbService, column_index: u64, value: &str) -> Result<EntriesResult, ErrorResponse> {
    service
        .get_entries(GetEntriesRequest {
            database_id: "my_database".to_string(),
            table_id: "my_table".to_string(),
            entries: Some(GetEntriesSelection::Value(EntriesByValue {
                column_index,
                value: value.to_string(),
            })),
        })
        .map(|response| response.response.unwrap())
}

fn get_indices(service: &FurDbService, indices: Vec<u64>) -> Result<EntriesResult, ErrorResponse> {
    service
        .get_entries(GetEntriesRequest {
            database_id: "my_database".to_string(),
            table_id: "my_table".to_string(),
            entries: Some(GetEntriesSelection::Indices(EntryIndices { indices })),
        })
        .map(|response| response.response.unwrap())
}

fn delete_indices(service: &mut FurDbService, indices: Vec<u64>) -> Result<(), ErrorResponse> {
    service
        .delete_entries(DeleteEntriesRequest {
            database_id: "my_database".to_string(),
            table_id: "my_table".to_string(),
            entries: Some(DeleteEntriesSelection::Indices(EntryIndices { indices })),
        })
        .map(|_| ())
}

fn get_table_request() -> GetTableRequest {
    GetTableRequest {
        database_id: "my_database".to_string(),
        table_id: "my_table".to_string(),
    }
}

fn rows(result: &EntriesResult) -> Vec<(u64, Vec<String>)> {
    result
        .results
        .iter()
        .map(|entry| (entry.index, entry.data.clone()))
        .collect()
}

fn strings(values: &[&str]) -> Vec<String> {
    values.iter().map(|value| value.to_string()).collect()
}

/// The gRPC code and the `statusCode`/`status` pair a refusal travels with.
fn assert_error(error: &ErrorResponse, code: Code, status_code: &str, status: &str) {
    assert_eq!(error.get_code(), code, "message was {:?}", error.get_message());
    assert_eq!(error.get_status_code(), status_code);
    assert_eq!(error.get_status(), status);
}

fn assert_envelope(result: &str, status_code: u32, status: &str, expected_code: u32, expected_status: &str) {
    assert_eq!(result, "success");
    assert_eq!(status_code, expected_code);
    assert_eq!(status, expected_status);
}

#[test]
fn reports_server_info() {
    let service = service();
    let response = service.get_server_info(GetServerInfoRequest {}).unwrap();
    assert_eq!(response.result, "success");
    assert_eq!(response.status_code, 200);
    assert_eq!(response.status, "OK");
    assert!(response.response.unwrap().workdir.ends_with("furdb"));
}

#[test]
fn creates_and_reads_back_a_table() {
    let mut service = service();
    seed(&mut service);
    let response = service.get_table(get_table_request()).unwrap();
    assert_eq!(response.status_code, 200);
    let table_info = response.response.unwrap();
    assert_eq!(table_info.database_id, "my_database");
    assert_eq!(table_info.table_id, "my_table");
    assert_eq!(table_info.table_columns, vec![column(5), column(3)]);
}

#[test]
fn inserts_then_queries_entries() {
    let mut service = service();
    seed(&mut service);
    let inserted = service
        .insert_entries(InsertEntriesRequest {
            database_id: "my_database".to_string(),
            table_id: "my_table".to_string(),
            data: vec![entry_data(&["21", "0"]), entry_data(&["17", "1"]), entry_data(&["23", "2"])],
        })
        .unwrap();
    assert_eq!(inserted.status_code, 201);

    let all = get_all(&service);
    assert_eq!(all.result_count, 3);
    assert_eq!(all.results[0].index, 0);
    assert_eq!(all.results[0].data, ["21", "0"]);

    let queried = query(&service, 0, "23").unwrap();
    assert_eq!(queried.result_count, 1);
    assert_eq!(queried.results[0].index, 2);

    delete_indices(&mut service, vec![0]).unwrap();
    let remaining = get_all(&service);
    assert_eq!(remaining.result_count, 2);
    assert_eq!(remaining.results[0].data, ["17", "1"]);
}

#[test]
fn maps_core_errors_onto_grpc_codes() {
    let mut service = service();
    seed(&mut service);
    let missing = service
        .get_database(GetDatabaseRequest { database_id: "absent".to_string() })
        .unwrap_err();
    assert_eq!(missing.get_code(), Code::NotFound);
    let duplicate = service
        .create_database(CreateDatabaseRequest { database_id: "my_database".to_string() })
        .unwrap_err();
    assert_eq!(duplicate.get_code(), Code::AlreadyExists);
    let unfit = service
        .create_table(CreateTableRequest {
            database_id: "my_database".to_string(),
            table_id: "unfit".to_string(),
            table_columns: vec![column(3)],
        })
        .unwrap_err();
    assert_eq!(unfit.get_code(), Code::InvalidArgument);
}

#[test]
fn echoes_the_status_pair_in_error_trailers() {
    let service = service();
    let error = service
        .get_database(GetDatabaseRequest { database_id: "absent".to_string() })
        .unwrap_err();
    assert_eq!(error.get_status_code().as_bytes(), b"404");
    assert_eq!(error.get_status(), "Not Found");
}

#[test]
fn validates_a_request_before_looking_anything_up() {
    let service = service();
    let error = service
        .get_entries(GetEntriesRequest {
            database_id: "absent".to_string(),
            table_id: "absent".to_string(),
            entries: Some(GetEntriesSelection::Value(EntriesByValue {
                column_index: 0,
                value: "not a number".to_string(),
            })),
        })
        .unwrap_err();
    assert_eq!(error.get_code(), Code::InvalidArgument);
}

#[test]
fn rejects_values_that_are_not_u128() {
    let mut service = service();
    seed(&mut service);
    let error = insert(&mut service, &[&["not a number", "0"]]).unwrap_err();
    assert_eq!(error.get_code(), Code::InvalidArgument);
    assert!(error.get_message().contains("128-bit"));
}

#[test]
fn does_not_echo_an_oversized_value_into_the_status_message() {
    let mut service = service();
    seed(&mut service);
    let huge = "€".repeat(8192);
    let error = insert(&mut service, &[&[huge.as_str(), "0"]]).unwrap_err();
    assert_eq!(error.get_code(), Code::InvalidArgument);
    assert!(error.get_message().len() < 256, "status message was {} bytes", error.get_message().len());
}

#[test]
fn rejects_a_request_with_no_entry_selection() {
    let mut service = service();
    seed(&mut service);
    let error = service
        .get_entries(GetEntriesRequest {
            database_id: "my_database".to_string(),
            table_id: "my_table".to_string(),
            entries: None,
        })
        .unwrap_err();
    assert_eq!(error.get_code(), Code::InvalidArgument);
}

#[test]
fn every_rpc_reports_the_success_envelope() {
    let mut service = service();
    let r = service.get_server_info(GetServerInfoRequest {}).unwrap();
    assert_envelope(&r.result, r.status_code, &r.status, 200, "OK");
    let r = service
        .create_database(CreateDatabaseRequest { database_id: "my_database".to_string() })
        .unwrap();
    assert_envelope(&r.result, r.status_code, &r.status, 201, "Created");
    let r = service
        .get_database(GetDatabaseRequest { database_id: "my_database".to_string() })
        .unwrap();
    assert_envelope(&r.result, r.status_code, &r.status, 200, "OK");
    let r = service
        .create_table(CreateTableRequest {
            database_id: "my_database".to_string(),
            table_id: "my_table".to_string(),
            table_columns: vec![column(5), column(3)],
        })
        .unwrap();
    assert_envelope(&r.result, r.status_code, &r.status, 201, "Created");
    let r = service.get_table(get_table_request()).unwrap();
    assert_envelope(&r.result, r.status_code, &r.status, 200, "OK");
    let r = service
        .insert_entries(InsertEntriesRequest {
            database_id: "my_database".to_string(),
            table_id: "my_table".to_string(),
            data: vec![entry_data(&["1", "1"])],
        })
        .unwrap();
    assert_envelope(&r.result, r.status_code, &r.status, 201, "Created");
    let r = service
        .get_entries(GetEntriesRequest {
            database_id: "my_database".to_string(),
            table_id: "my_table".to_string(),
            entries: Some(GetEntriesSelection::All(AllEntries {})),
        })
        .unwrap();
    assert_envelope(&r.result, r.status_code, &r.status, 200, "OK");
    let r = service
        .delete_entries(DeleteEntriesRequest {
            database_id: "my_database".to_string(),
            table_id: "my_table".to_string(),
            entries: Some(DeleteEntriesSelection::All(AllEntries {})),
        })
        .unwrap();
    assert_envelope(&r.result, r.status_code, &r.status, 200, "OK");
    let r = service
        .delete_table(DeleteTableRequest {
            database_id: "my_database".to_string(),
            table_id: "my_table".to_string(),
        })
        .unwrap();
    assert_envelope(&r.result, r.status_code, &r.status, 200, "OK");
    let r = service
        .delete_database(DeleteDatabaseRequest { database_id: "my_database".to_string() })
        .unwrap();
    assert_envelope(&r.result, r.status_code, &r.status, 200, "OK");
}

#[test]
fn payload_carrying_responses_always_populate_response() {
    let mut service = service();
    seed(&mut service);
    assert!(service.get_server_info(GetServerInfoRequest {}).unwrap().response.is_some());
    assert!(service
        .get_database(GetDatabaseRequest { database_id: "my_database".to_string() })
        .unwrap()
        .response
        .is_some());
    assert!(service.get_table(get_table_request()).unwrap().response.is_some());
}

#[test]
fn database_info_lists_its_tables() {
    let mut service = service();
    seed(&mut service);
    let info = service
        .get_database(GetDatabaseRequest { database_id: "my_database".to_string() })
        .unwrap()
        .response
        .unwrap();
    assert_eq!(info.database_id, "my_database");
    assert_eq!(info.database_tables, vec!["my_table".to_string()]);
}

#[test]
fn not_found_maps_onto_not_found() {
    let mut service = service();
    seed(&mut service);
    let missing_database = service
        .get_database(GetDatabaseRequest { database_id: "absent".to_string() })
        .unwrap_err();
    assert_error(&missing_database, Code::NotFound, "404", "Not Found");
    let missing_table = service
        .get_table(GetTableRequest {
            database_id: "my_database".to_string(),
            table_id: "absent".to_string(),
        })
        .unwrap_err();
    assert_error(&missing_table, Code::NotFound, "404", "Not Found");
    let delete_missing_table = service
        .delete_table(DeleteTableRequest {
            database_id: "my_database".to_string(),
            table_id: "absent".to_string(),
        })
        .unwrap_err();
    assert_error(&delete_missing_table, Code::NotFound, "404", "Not Found");
    let delete_missing_database = service
        .delete_database(DeleteDatabaseRequest { database_id: "absent".to_string() })
        .unwrap_err();
    assert_error(&delete_missing_database, Code::NotFound, "404", "Not Found");
}

#[test]
fn conflict_maps_onto_already_exists() {
    let mut service = service();
    seed(&mut service);
    let duplicate_database = service
        .create_database(CreateDatabaseRequest { database_id: "my_database".to_string() })
        .unwrap_err();
    assert_error(&duplicate_database, Code::AlreadyExists, "409", "Conflict");
    let duplicate_table = service
        .create_table(CreateTableRequest {
            database_id: "my_database".to_string(),
            table_id: "my_table".to_string(),
            table_columns: vec![column(8)],
        })
        .unwrap_err();
    assert_error(&duplicate_table, Code::AlreadyExists, "409", "Conflict");
}

#[test]
fn bad_request_maps_onto_invalid_argument() {
    let mut service = service();
    seed(&mut service);
    let unfit = service
        .create_table(CreateTableRequest {
            database_id: "my_database".to_string(),
            table_id: "unfit".to_string(),
            table_columns: vec![column(3)],
        })
        .unwrap_err();
    assert_error(&unfit, Code::InvalidArgument, "400", "Bad Request");
    let invalid_id = service
        .create_database(CreateDatabaseRequest { database_id: "not.valid".to_string() })
        .unwrap_err();
    assert_error(&invalid_id, Code::InvalidArgument, "400", "Bad Request");
    let mismatch = insert(&mut service, &[&["1"]]).unwrap_err();
    assert_error(&mismatch, Code::InvalidArgument, "400", "Bad Request");
    let overflow = insert(&mut service, &[&["32", "0"]]).unwrap_err();
    assert_error(&overflow, Code::InvalidArgument, "400", "Bad Request");
    insert(&mut service, &[&["1", "1"]]).unwrap();
    let invalid_index = get_indices(&service, vec![99]).unwrap_err();
    assert_error(&invalid_index, Code::InvalidArgument, "400", "Bad Request");
    let invalid_column = query(&service, 2, "1").unwrap_err();
    assert_error(&invalid_column, Code::InvalidArgument, "400", "Bad Request");
}

#[test]
fn rejects_ids_that_would_escape_the_workdir() {
    let mut service = service();
    seed(&mut service);
    for database_id in ["..", "../..", "../escape", "a/b", "/etc", "."] {
        let error = service
            .create_database(CreateDatabaseRequest { database_id: database_id.to_string() })
            .unwrap_err();
        assert_error(&error, Code::InvalidArgument, "400", "Bad Request");
    }
    for table_id in ["..", "../..", "a/b", "."] {
        let error = service
            .create_table(CreateTableRequest {
                database_id: "my_database".to_string(),
                table_id: table_id.to_string(),
                table_columns: vec![column(8)],
            })
            .unwrap_err();
        assert_error(&error, Code::InvalidArgument, "400", "Bad Request");
    }
}

#[test]
fn rejects_an_empty_database_id() {
    let mut service = service();
    let error = service
        .create_database(CreateDatabaseRequest { database_id: String::new() })
        .unwrap_err();
    assert_error(&error, Code::InvalidArgument, "400", "Bad Request");
}

#[test]
fn rejects_a_delete_request_with_no_entry_selection() {
    let mut service = service();
    seed(&mut service);
    let error = service
        .delete_entries(DeleteEntriesRequest {
            database_id: "my_database".to_string(),
            table_id: "my_table".to_string(),
            entries: None,
        })
        .unwrap_err();
    assert_error(&error, Code::InvalidArgument, "400", "Bad Request");
}

#[test]
fn round_trips_the_bounds_of_a_column() {
    let mut service = service();
    seed_with(&mut service, &[column(8)]);
    insert(&mut service, &[&["0"], &["255"], &["1"]]).unwrap();
    assert_eq!(
        rows(&get_all(&service)),
        vec![(0, strings(&["0"])), (1, strings(&["255"])), (2, strings(&["1"]))]
    );
}

#[test]
fn rejects_a_value_one_past_the_column_width() {
    let mut service = service();
    seed_with(&mut service, &[column(8)]);
    insert(&mut service, &[&["255"]]).unwrap();
    let error = insert(&mut service, &[&["256"]]).unwrap_err();
    assert_error(&error, Code::InvalidArgument, "400", "Bad Request");
    assert_eq!(get_all(&service).result_count, 1);
}

#[test]
fn round_trips_a_127_bit_value() {
    let mut service = service();
    seed_with(&mut service, &[column(127), column(1)]);
    let max_127 = (u128::pow(2, 127) - 1).to_string();
    insert(&mut service, &[&[max_127.as_str(), "1"], &["0", "0"]]).unwrap();
    let all = get_all(&service);
    assert_eq!(all.results[0].data, [max_127.as_str(), "1"]);
    assert_eq!(all.results[1].data, ["0", "0"]);
}

#[test]
fn round_trips_u128_max_in_a_128_bit_column() {
    let mut service = service();
    seed_with(&mut service, &[column(128)]);
    let max = u128::MAX.to_string();
    insert(&mut service, &[&["0"], &[max.as_str()]]).unwrap();
    assert_eq!(rows(&get_all(&service)), vec![(0, strings(&["0"])), (1, vec![max.clone()])]);
}

#[test]
fn rejects_values_that_are_not_a_decimal_u128() {
    let mut service = service();
    seed_with(&mut service, &[column(8)]);
    let cases = [
        ("empty", ""),
        ("non numeric", "abc"),
        ("negative", "-1"),
        ("fractional", "1.5"),
        ("leading space", " 1"),
        ("trailing space", "1 "),
        ("hexadecimal", "0xff"),
        ("underscore separated", "1_0"),
        ("one past u128::MAX", "340282366920938463463374607431768211456"),
    ];
    for (name, value) in cases {
        let error = match insert(&mut service, &[&[value]]) {
            Ok(()) => panic!("{name}: expected an error, got a success"),
            Err(error) => error,
        };
        assert_error(&error, Code::InvalidArgument, "400", "Bad Request");
        assert!(error.get_message().contains("128-bit"), "{name}: message was {:?}", error.get_message());
    }
    insert(&mut service, &[&["007"]]).unwrap();
    insert(&mut service, &[&["+9"]]).unwrap();
    assert_eq!(rows(&get_all(&service)), vec![(0, strings(&["7"])), (1, strings(&["9"]))]);
}

#[test]
fn rejects_a_non_numeric_query_value() {
    let mut service = service();
    seed_with(&mut service, &[column(8)]);
    insert(&mut service, &[&["1"]]).unwrap();
    for value in ["", "abc", "-1", "340282366920938463463374607431768211456"] {
        let error = query(&service, 0, value).unwrap_err();
        assert_error(&error, Code::InvalidArgument, "400", "Bad Request");
    }
}

#[test]
fn rejects_a_whole_batch_if_one_value_is_malformed() {
    let mut service = service();
    seed_with(&mut service, &[column(8)]);
    let error = insert(&mut service, &[&["1"], &["nope"], &["3"]]).unwrap_err();
    assert_error(&error, Code::InvalidArgument, "400", "Bad Request");
    assert_eq!(get_all(&service).result_count, 0);
}

#[test]
fn rejects_a_whole_batch_if_one_value_overflows() {
    let mut service = service();
    seed_with(&mut service, &[column(8)]);
    let error = insert(&mut service, &[&["1"], &["256"], &["3"]]).unwrap_err();
    assert_error(&error, Code::InvalidArgument, "400", "Bad Request");
    assert_eq!(get_all(&service).result_count, 0);
}

#[test]
fn rejects_a_table_that_cannot_address_its_entries() {
    let mut service = service();
    service
        .create_database(CreateDatabaseRequest { database_id: "my_database".to_string() })
        .unwrap();
    let shapes: [(&str, Vec<Column>); 3] = [
        ("no columns", vec![]),
        ("one zero width column", vec![column(0)]),
        ("all zero width columns", vec![column(0), column(0)]),
    ];
    for (name, table_columns) in shapes {
        let result = service.create_table(CreateTableRequest {
            database_id: "my_database".to_string(),
            table_id: format!("t{}", table_columns.len()),
            table_columns,
        });
        let error = match result {
            Ok(_) => panic!("{name}: expected an error, got a success"),
            Err(error) => error,
        };
        assert_error(&error, Code::InvalidArgument, "400", "Bad Request");
    }
}

#[test]
fn renumbers_every_index_after_a_deleted_one() {
    let mut service = service();
    seed_with(&mut service, &[column(8)]);
    insert(&mut service, &[&["10"], &["11"], &["12"], &["13"], &["14"]]).unwrap();
    delete_indices(&mut service, vec![2]).unwrap();
    assert_eq!(
        rows(&get_all(&service)),
        vec![(0, strings(&["10"])), (1, strings(&["11"])), (2, strings(&["13"])), (3, strings(&["14"]))],
        "surviving entries must close the gap and be renumbered"
    );
    let error = get_indices(&service, vec![4]).unwrap_err();
    assert_error(&error, Code::InvalidArgument, "400", "Bad Request");
}

#[test]
fn deletes_several_indices_in_one_request() {
    let mut service = service();
    seed_with(&mut service, &[column(8)]);
    insert(&mut service, &[&["10"], &["11"], &["12"], &["13"], &["14"]]).unwrap();
    delete_indices(&mut service, vec![0, 2, 4]).unwrap();
    assert_eq!(rows(&get_all(&service)), vec![(0, strings(&["11"])), (1, strings(&["13"]))]);
}

#[test]
fn deleting_the_same_index_twice_removes_it_once() {
    let mut service = service();
    seed_with(&mut service, &[column(8)]);
    insert(&mut service, &[&["10"], &["11"], &["12"]]).unwrap();
    delete_indices(&mut service, vec![1, 1, 1]).unwrap();
    assert_eq!(rows(&get_all(&service)), vec![(0, strings(&["10"])), (1, strings(&["12"]))]);
}

#[test]
fn deleting_an_out_of_range_index_changes_nothing() {
    let mut service = service();
    seed_with(&mut service, &[column(8)]);
    insert(&mut service, &[&["10"], &["11"]]).unwrap();
    delete_indices(&mut service, vec![99]).unwrap();
    assert_eq!(rows(&get_all(&service)), vec![(0, strings(&["10"])), (1, strings(&["11"]))]);
}

#[test]
fn deletes_from_an_empty_table_and_deletes_everything() {
    let mut service = service();
    seed_with(&mut service, &[column(8)]);
    delete_indices(&mut service, vec![]).unwrap();
    assert_eq!(get_all(&service).result_count, 0);
    insert(&mut service, &[&["10"], &["11"]]).unwrap();
    service
        .delete_entries(DeleteEntriesRequest {
            database_id: "my_database".to_string(),
            table_id: "my_table".to_string(),
            entries: Some(DeleteEntriesSelection::All(AllEntries {})),
        })
        .unwrap();
    assert_eq!(get_all(&service).result_count, 0);
    insert(&mut service, &[&["12"]]).unwrap();
    assert_eq!(rows(&get_all(&service)), vec![(0, strings(&["12"]))]);
}

#[test]
fn keeps_the_index_usable_across_insert_delete_insert() {
    let mut service = service();
    seed_with(&mut service, &[column(8)]);
    insert(&mut service, &[&["10"], &["20"], &["30"]]).unwrap();
    delete_indices(&mut service, vec![0]).unwrap();
    insert(&mut service, &[&["40"]]).unwrap();
    assert_eq!(
        rows(&get_all(&service)),
        vec![(0, strings(&["20"])), (1, strings(&["30"])), (2, strings(&["40"]))]
    );
    let found = query(&service, 0, "30").unwrap();
    assert_eq!(found.result_count, 1);
    assert_eq!(found.results[0].index, 1);
    let gone = query(&service, 0, "10").unwrap();
    assert_eq!(gone.result_count, 0);
}

#[test]
fn empty_insert_is_a_no_op() {
    let mut service = service();
    seed_with(&mut service, &[column(8)]);
    insert(&mut service, &[]).unwrap();
    assert_eq!(get_all(&service).result_count, 0);
    insert(&mut service, &[&["1"]]).unwrap();
    insert(&mut service, &[]).unwrap();
    assert_eq!(get_all(&service).result_count, 1);
}

#[test]
fn finds_every_value_of_every_column() {
    let mut service = service();
    seed_with(&mut service, &[column(8), column(8), column(8)]);
    let entries: Vec<Vec<String>> = (0..6u64)
        .map(|i| vec![i.to_string(), (10 + i).to_string(), (100 + i).to_string()])
        .collect();
    let borrowed: Vec<Vec<&str>> = entries
        .iter()
        .map(|entry| entry.iter().map(String::as_str).collect())
        .collect();
    let batch: Vec<&[&str]> = borrowed.iter().map(Vec::as_slice).collect();
    insert(&mut service, &batch).unwrap();
    let mut unreachable = Vec::new();
    for (entry_index, entry) in entries.iter().enumerate() {
        for (column_index, value) in entry.iter().enumerate() {
            let found = query(&service, column_index as u64, value).unwrap();
            if found.result_count != 1 || found.results[0].index != entry_index as u64 {
                unreachable.push(format!(
                    "column {column_index} value {value} (entry {entry_index}) matched {} entries",
                    found.result_count
                ));
            }
        }
    }
    assert!(unreachable.is_empty(), "values that could not be found:\n  {}", unreachable.join("\n  "));
}

#[test]
fn finds_the_only_entry_by_any_column() {
    let mut service = service();
    seed_with(&mut service, &[column(8), column(8)]);
    insert(&mut service, &[&["7", "9"]]).unwrap();
    assert_eq!(query(&service, 0, "7").unwrap().result_count, 1);
    assert_eq!(query(&service, 1, "9").unwrap().result_count, 1);
}

#[test]
fn returns_every_entry_sharing_a_value() {
    let mut service = service();
    seed_with(&mut service, &[column(8)]);
    insert(&mut service, &[&["5"], &["5"], &["7"], &["5"]]).unwrap();
    let found = query(&service, 0, "5").unwrap();
    assert_eq!(found.result_count, 3);
    let mut indices = found.results.iter().map(|entry| entry.index).collect::<Vec<u64>>();
    indices.sort_unstable();
    assert_eq!(indices, vec![0, 1, 3]);
}

#[test]
fn a_query_that_matches_nothing_returns_an_empty_result() {
    let mut service = service();
    seed_with(&mut service, &[column(8)]);
    let empty = query(&service, 0, "1").unwrap();
    assert_eq!(empty.result_count, 0);
    assert!(empty.results.is_empty());
    insert(&mut service, &[&["1"], &["2"]]).unwrap();
    let absent = query(&service, 0, "200").unwrap();
    assert_eq!(absent.result_count, 0);
    assert!(absent.results.is_empty());
}

#[test]
fn reads_entries_by_explicit_index() {
    let mut service = service();
    seed_with(&mut service, &[column(8)]);
    insert(&mut service, &[&["10"], &["11"], &["12"]]).unwrap();
    let selected = get_indices(&service, vec![2, 0]).unwrap();
    assert_eq!(rows(&selected), vec![(2, strings(&["12"])), (0, strings(&["10"]))]);
}

#[test]
fn packs_entries_msb_first_with_no_header_or_delimiter() {
    let mut service = service();
    seed(&mut service);
    insert(&mut service, &[&["21", "0"], &["17", "1"], &["23", "2"]]).unwrap();
    let database = service.get_engine().get_database(&"my_database".to_string()).unwrap();
    let table = database.get_table(&"my_table".to_string()).unwrap();
    assert_eq!(table.to_bytes(), vec![0b1010_1000, 0b1000_1001, 0b1011_1010]);
}

/// Rebuilds a service from what is kept of a table: its widths and its
/// packed entries.
fn reopen(bytes: &Vec<u8>, sizes: &Vec<u128>) -> FurDbService {
    let mut furdb = FurDB::new(FurDBConfig {
        workdir: "/var/lib/furdb".to_string(),
    });
    furdb.create_database(&"my_database".to_string()).unwrap();
    let columns = sizes.iter().map(|size| furdb::column::Column::new(*size)).collect();
    furdb
        .create_table(&"my_database".to_string(), &"my_table".to_string(), columns)
        .unwrap();
    let entries = decode_entries(bytes, sizes);
    furdb
        .insert_entries(&"my_database".to_string(), &"my_table".to_string(), &entries)
        .unwrap();
    FurDbService::new(furdb)
}

#[test]
fn state_survives_a_restart() {
    let mut service = service();
    seed_with(&mut service, &[column(8), column(8)]);
    insert(&mut service, &[&["1", "10"], &["2", "20"], &["3", "30"]]).unwrap();
    delete_indices(&mut service, vec![1]).unwrap();

    let database = service.get_engine().get_database(&"my_database".to_string()).unwrap();
    let table = database.get_table(&"my_table".to_string()).unwrap();
    let bytes = table.to_bytes();
    let sizes = table.get_sizes();
    drop(service);

    let reopened = reopen(&bytes, &sizes);
    let table = reopened.get_table(get_table_request()).unwrap().response.unwrap();
    assert_eq!(table.table_columns, vec![column(8), column(8)]);
    assert_eq!(
        rows(&get_all(&reopened)),
        vec![(0, strings(&["1", "10"])), (1, strings(&["3", "30"]))]
    );
    let found = query(&reopened, 0, "3").unwrap();
    assert_eq!(found.result_count, 1);
    assert_eq!(found.results[0].index, 1);
}

#[test]
fn deleting_a_table_leaves_the_database_and_its_siblings_intact() {
    let mut service = service();
    seed(&mut service);
    service
        .create_table(CreateTableRequest {
            database_id: "my_database".to_string(),
            table_id: "other_table".to_string(),
            table_columns: vec![column(8)],
        })
        .unwrap();
    service
        .delete_table(DeleteTableRequest {
            database_id: "my_database".to_string(),
            table_id: "my_table".to_string(),
        })
        .unwrap();
    let info = service
        .get_database(GetDatabaseRequest { database_id: "my_database".to_string() })
        .unwrap()
        .response
        .unwrap();
    assert_eq!(info.database_tables, vec!["other_table".to_string()]);
    let error = service.get_table(get_table_request()).unwrap_err();
    assert_error(&error, Code::NotFound, "404", "Not Found");
}

#[test]
fn deleting_a_database_removes_its_tables() {
    let mut service = service();
    seed(&mut service);
    insert(&mut service, &[&["1", "1"]]).unwrap();
    service
        .delete_database(DeleteDatabaseRequest { database_id: "my_database".to_string() })
        .unwrap();
    let error = service.get_table(get_table_request()).unwrap_err();
    assert_error(&error, Code::NotFound, "404", "Not Found");
    seed(&mut service);
    assert_eq!(get_all(&service).result_count, 0);
}
