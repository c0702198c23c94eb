use furdb::column::Column;
use furdb::decimal::{parse_decimal_u128, u128_to_decimal};
use furdb::engine::{is_id_valid, FurDB, FurDBConfig};
use furdb::packing::{decode_entries, encode_entries, row_bytes_of, row_fits, sizes_are_valid, value_fits};
use furdb::proto::{
    Column as WireColumn, CreateTableRequest, EntriesByValue, EntryData, InsertEntriesRequest,
};
use furdb::response::{ErrorResponse, SuccessStatus};
use furdb::server::{Server, ServerConfig};
use furdb::table::FurDBError;
use furdb::text::{parse_u128, truncate, MAX_ECHOED_VALUE_LENGTH};
use tonic::Code;

fn engine() -> FurDB {
    FurDB::new(FurDBConfig {
        workdir: "/var/lib/furdb".to_string(),
    })
}

#[test]
fn column_keeps_its_width() {
    assert_eq!(Column::new(0).get_size(), 0);
    assert_eq!(Column::new(128).get_size(), 128);
    assert_eq!(Column::new(u128::MAX).get_size(), u128::MAX);
}

#[test]
fn success_statuses_report_their_pair() {
    assert_eq!(SuccessStatus::OK.get_status_code(), 200);
    assert_eq!(SuccessStatus::OK.get_status(), "OK");
    assert_eq!(SuccessStatus::Created.get_status_code(), 201);
    assert_eq!(SuccessStatus::Created.get_status(), "Created");
}

#[test]
fn each_refusal_travels_with_its_code_and_pair() {
    let cases = [
        (ErrorResponse::NotFound("x".to_string()), Code::NotFound, "404", "Not Found"),
        (ErrorResponse::BadRequest("x".to_string()), Code::InvalidArgument, "400", "Bad Request"),
        (ErrorResponse::Conflict("x".to_string()), Code::AlreadyExists, "409", "Conflict"),
        (ErrorResponse::InternalServerError, Code::Internal, "500", "Internal Server Error"),
    ];
    for (error, code, status_code, status) in cases {
        assert_eq!(error.get_code(), code);
        assert_eq!(error.get_status_code(), status_code);
        assert_eq!(error.get_status(), status);
    }
}

#[test]
fn internal_server_error_maps_onto_internal_and_leaks_nothing() {
    let error = ErrorResponse::InternalServerError;
    assert_eq!(error.get_code(), Code::Internal);
    assert_eq!(error.get_message(), "Internal Server Error");
    assert_eq!(error.to_string(), "Internal Server Error");
}

#[test]
fn a_refusal_reads_as_status_and_message() {
    let error = ErrorResponse::NotFound("Table not found".to_string());
    assert_eq!(error.get_message(), "Table not found");
    assert_eq!(error.to_string(), "Not Found: Table not found");
}

#[test]
fn engine_errors_map_onto_refusals() {
    let cases = [
        (FurDBError::InvalidId, Code::InvalidArgument, "Invalid ID: only ASCII letters, digits, `_` and `-` are allowed"),
        (FurDBError::DatabaseNotFound, Code::NotFound, "Database not found"),
        (FurDBError::DatabaseExists, Code::AlreadyExists, "Database already exists"),
        (FurDBError::TableNotFound, Code::NotFound, "Table not found"),
        (FurDBError::TableExists, Code::AlreadyExists, "Table already exists"),
        (
            FurDBError::ColumnsUnfit,
            Code::InvalidArgument,
            "Columns must each be at most 128 bits wide and fill a whole, non-zero number of bytes",
        ),
        (FurDBError::ColumnMismatch, Code::InvalidArgument, "Entry does not have one value per column"),
        (FurDBError::ColumnOverflow, Code::InvalidArgument, "Value does not fit in its column"),
        (FurDBError::InvalidIndex, Code::InvalidArgument, "Entry index out of range"),
        (FurDBError::InvalidColumn, Code::InvalidArgument, "Column index out of range"),
    ];
    for (error, code, message) in cases {
        let response = ErrorResponse::from(error);
        assert_eq!(response.get_code(), code, "{error:?}");
        assert_eq!(response.get_message(), message, "{error:?}");
    }
}

#[test]
fn parses_decimal_values() {
    assert_eq!(parse_decimal_u128("0"), Some(0));
    assert_eq!(parse_decimal_u128("007"), Some(7));
    assert_eq!(parse_decimal_u128("+9"), Some(9));
    assert_eq!(parse_decimal_u128("340282366920938463463374607431768211455"), Some(u128::MAX));
    assert_eq!(parse_decimal_u128("340282366920938463463374607431768211456"), None);
    assert_eq!(parse_decimal_u128("+"), None);
    assert_eq!(parse_decimal_u128("++1"), None);
    assert_eq!(parse_decimal_u128("-0"), None);
    assert_eq!(parse_decimal_u128("١"), None);
}

#[test]
fn writes_values_in_decimal() {
    assert_eq!(u128_to_decimal(0), "0");
    assert_eq!(u128_to_decimal(10), "10");
    assert_eq!(u128_to_decimal(255), "255");
    assert_eq!(u128_to_decimal(u128::MAX), "340282366920938463463374607431768211455");
}

#[test]
fn a_written_value_reads_back() {
    for value in [0u128, 1, 9, 10, 99, 100, 12345, u128::MAX - 1, u128::MAX] {
        assert_eq!(parse_decimal_u128(&u128_to_decimal(value)), Some(value));
    }
}

#[test]
fn parse_u128_names_the_field_in_its_refusal() {
    assert_eq!(parse_u128("42", "data").unwrap(), 42);
    let error = parse_u128("abc", "value").unwrap_err();
    assert_eq!(
        error,
        ErrorResponse::BadRequest("Invalid value for `value`: `abc` is not an unsigned 128-bit integer".to_string())
    );
}

#[test]
fn truncate_keeps_a_short_value_whole() {
    assert_eq!(truncate(""), "");
    assert_eq!(truncate("abc"), "abc");
    let exactly = "a".repeat(MAX_ECHOED_VALUE_LENGTH);
    assert_eq!(truncate(&exactly), exactly);
}

#[test]
fn truncate_cuts_a_long_value_at_a_character_boundary() {
    let long = "a".repeat(100);
    assert_eq!(truncate(&long), format!("{}…", "a".repeat(64)));
    // Three bytes each: 21 of them fill 63 bytes, a 22nd would pass 64.
    let euros = "€".repeat(30);
    assert_eq!(truncate(&euros), format!("{}…", "€".repeat(21)));
}

#[test]
fn ids_are_ascii_names() {
    assert!(is_id_valid(&"my_database".to_string()));
    assert!(is_id_valid(&"Table-2".to_string()));
    for id in ["", ".", "..", "a/b", "a.b", "a b", "é"] {
        assert!(!is_id_valid(&id.to_string()), "{id:?}");
    }
}

#[test]
fn widths_must_fill_whole_bytes() {
    assert!(sizes_are_valid(&vec![5, 3]));
    assert!(sizes_are_valid(&vec![128]));
    assert!(sizes_are_valid(&vec![127, 1]));
    assert!(!sizes_are_valid(&vec![]));
    assert!(!sizes_are_valid(&vec![0]));
    assert!(!sizes_are_valid(&vec![3]));
    assert!(!sizes_are_valid(&vec![129, 7]));
    assert_eq!(row_bytes_of(&vec![5, 3]), 1);
    assert_eq!(row_bytes_of(&vec![127, 1, 8]), 17);
}

#[test]
fn a_value_fits_when_below_two_to_the_width() {
    assert!(value_fits(255, 8));
    assert!(!value_fits(256, 8));
    assert!(value_fits(0, 0));
    assert!(!value_fits(1, 0));
    assert!(value_fits(u128::MAX, 128));
    assert!(row_fits(&vec![31, 7], &vec![5, 3]));
    assert!(!row_fits(&vec![32, 7], &vec![5, 3]));
    assert!(!row_fits(&vec![1], &vec![5, 3]));
}

#[test]
fn packs_and_unpacks_entries() {
    let sizes = vec![5, 3];
    let rows = vec![vec![21, 0], vec![17, 1], vec![23, 2]];
    let bytes = encode_entries(&rows, &sizes);
    assert_eq!(bytes, vec![0b1010_1000, 0b1000_1001, 0b1011_1010]);
    assert_eq!(decode_entries(&bytes, &sizes), rows);

    let wide = vec![127, 1];
    let max_127 = u128::pow(2, 127) - 1;
    let rows = vec![vec![max_127, 1], vec![0, 0]];
    let bytes = encode_entries(&rows, &wide);
    assert_eq!(bytes.len(), 32);
    assert_eq!(bytes[0], 0xff);
    assert_eq!(bytes[15], 0xff);
    assert!(bytes[16..].iter().all(|b| *b == 0));
    assert_eq!(decode_entries(&bytes, &wide), rows);
}

#[test]
fn request_helpers_read_their_fields() {
    let request = CreateTableRequest {
        database_id: "d".to_string(),
        table_id: "t".to_string(),
        table_columns: vec![WireColumn { size: 5 }, WireColumn { size: 3 }],
    };
    let sizes: Vec<u128> = request.get_table_columns().iter().map(Column::get_size).collect();
    assert_eq!(sizes, vec![5, 3]);

    let by_value = EntriesByValue { column_index: 4, value: "+12".to_string() };
    assert_eq!(by_value.get_column_index(), 4);
    assert_eq!(by_value.get_value().unwrap(), 12);
    let bad = EntriesByValue { column_index: 0, value: "x".to_string() };
    assert_eq!(
        bad.get_value().unwrap_err(),
        ErrorResponse::BadRequest("Invalid value for `value`: `x` is not an unsigned 128-bit integer".to_string())
    );

    let insert = InsertEntriesRequest {
        database_id: "d".to_string(),
        table_id: "t".to_string(),
        data: vec![
            EntryData { data: vec!["1".to_string(), "2".to_string()] },
            EntryData { data: vec!["3".to_string(), "oops".to_string()] },
            EntryData { data: vec!["worse".to_string()] },
        ],
    };
    assert_eq!(
        insert.get_data().unwrap_err(),
        ErrorResponse::BadRequest("Invalid value for `data`: `oops` is not an unsigned 128-bit integer".to_string())
    );
    let good = InsertEntriesRequest {
        database_id: "d".to_string(),
        table_id: "t".to_string(),
        data: vec![EntryData { data: vec!["1".to_string(), "007".to_string()] }],
    };
    assert_eq!(good.get_data().unwrap(), vec![vec![1, 7]]);
}

#[test]
fn server_keeps_its_port_and_engine() {
    let mut furdb = engine();
    furdb.create_database(&"kept".to_string()).unwrap();
    let server = Server::new(ServerConfig { port: 4000 }, furdb);
    assert_eq!(server.get_port(), 4000);
    let service = server.into_service();
    assert!(service.get_engine().get_database(&"kept".to_string()).is_ok());
}

#[test]
fn engine_reports_its_config() {
    let furdb = engine();
    assert_eq!(furdb.get_config().workdir, "/var/lib/furdb");
}

#[test]
fn engine_refuses_in_the_documented_order() {
    let mut furdb = engine();
    let db = "db".to_string();
    let t = "t".to_string();
    assert_eq!(furdb.get_database(&"bad id".to_string()).err(), Some(FurDBError::InvalidId));
    assert_eq!(furdb.get_database(&db).err(), Some(FurDBError::DatabaseNotFound));
    assert_eq!(furdb.create_database(&db).unwrap().get_database_id(), "db");
    assert_eq!(furdb.create_database(&db).err(), Some(FurDBError::DatabaseExists));
    assert_eq!(
        furdb.create_table(&db, &"bad id".to_string(), vec![Column::new(8)]).err(),
        Some(FurDBError::InvalidId)
    );
    assert_eq!(furdb.create_table(&db, &t, vec![Column::new(4)]).err(), Some(FurDBError::ColumnsUnfit));
    let info = furdb.create_table(&db, &t, vec![Column::new(4), Column::new(4)]).unwrap();
    assert_eq!(info.get_table_id(), "t");
    assert_eq!(info.get_database_id(), "db");
    assert_eq!(info.get_table_columns().iter().map(Column::get_size).collect::<Vec<u128>>(), vec![4, 4]);
    assert_eq!(furdb.create_table(&db, &t, vec![Column::new(8)]).err(), Some(FurDBError::TableExists));
    assert_eq!(furdb.insert_entries(&db, &t, &vec![vec![1]]).err(), Some(FurDBError::ColumnMismatch));
    assert_eq!(furdb.insert_entries(&db, &t, &vec![vec![1, 16]]).err(), Some(FurDBError::ColumnOverflow));
    assert_eq!(furdb.insert_entries(&db, &"u".to_string(), &vec![]).err(), Some(FurDBError::TableNotFound));
    furdb.insert_entries(&db, &t, &vec![vec![1, 2], vec![3, 4]]).unwrap();

    let database = furdb.get_database(&db).unwrap();
    let table = database.get_table(&t).unwrap();
    assert_eq!(table.get_entries(&vec![2]).err(), Some(FurDBError::InvalidIndex));
    assert_eq!(table.query(2, 1).err(), Some(FurDBError::InvalidColumn));
    let found = table.query(1, 4).unwrap();
    assert_eq!(found.get_result_count(), 1);
    let results = found.get_results();
    assert_eq!(results[0].get_index(), 1);
    assert_eq!(results[0].get_data(), vec![3, 4]);
    assert_eq!(table.get_all_entries().get_result_count(), 2);
    assert_eq!(table.get_table_id(), "t");
    assert_eq!(table.get_sizes(), vec![4, 4]);
    assert_eq!(table.to_bytes(), vec![0x12, 0x34]);

    let extra = database.get_database_info_full();
    assert_eq!(extra.get_database_info().get_database_id(), "db");
    assert_eq!(extra.get_database_tables(), vec!["t".to_string()]);
    assert_eq!(database.get_database_info().get_database_id(), "db");

    furdb.delete_entries(&db, &t, &vec![0, 0, 7]).unwrap();
    furdb.delete_all_entries(&db, &t).unwrap();
    furdb.delete_table(&db, &t).unwrap();
    assert_eq!(furdb.delete_table(&db, &t).err(), Some(FurDBError::TableNotFound));
    furdb.delete_database(&db).unwrap();
    assert_eq!(furdb.delete_database(&db).err(), Some(FurDBError::DatabaseNotFound));
}
