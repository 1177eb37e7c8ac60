use pensieve::applier::OperationApplier;
use pensieve::applier::literalize_row;
use pensieve::binlog_sql::{build_update_sql, value_to_sql};
use pensieve::loader::{build_parquet_load_sql, ParquetLoadError};
use pensieve::operation::{BinlogOperation, OperationType};

fn users_columns() -> Vec<String> {
    vec![
        "id".to_string(),
        "name".to_string(),
        "email".to_string(),
        "age".to_string(),
        "balance".to_string(),
        "is_active".to_string(),
        "created_at".to_string(),
    ]
}

#[test]
fn test_generate_insert_sql() {
    let applier = OperationApplier::new();

    let insert_op = BinlogOperation {
        timestamp: None,
        position: None,
        operation_type: OperationType::Insert,
        table_name: "users".to_string(),
        database: "main".to_string(),
        columns: vec!["id".to_string(), "name".to_string(), "email".to_string()],
        before_values: None,
        after_values: Some(vec![
            "4".to_string(),
            "'David'".to_string(),
            "'david@test.com'".to_string(),
        ]),
    };

    let sql = applier.generate_sql(&insert_op);

    assert_eq!(sql, "INSERT INTO users (id, name, email) VALUES (4, 'David', 'david@test.com');");
}

#[test]
fn test_generate_update_sql() {
    let applier = OperationApplier::new();

    let update_op = BinlogOperation {
        timestamp: None,
        position: None,
        operation_type: OperationType::Update,
        table_name: "users".to_string(),
        database: "main".to_string(),
        columns: vec!["id".to_string(), "name".to_string()],
        before_values: Some(vec!["1".to_string(), "'Alice'".to_string()]),
        after_values: Some(vec!["1".to_string(), "'Alice Smith'".to_string()]),
    };

    let sql = applier.generate_sql(&update_op);

    assert_eq!(sql, "UPDATE users SET id = 1, name = 'Alice Smith' WHERE id = 1 AND name = 'Alice';");
}

#[test]
fn test_generate_delete_sql() {
    let applier = OperationApplier::new();

    let delete_op = BinlogOperation {
        timestamp: None,
        position: None,
        operation_type: OperationType::Delete,
        table_name: "users".to_string(),
        database: "main".to_string(),
        columns: vec!["id".to_string(), "name".to_string()],
        before_values: Some(vec!["3".to_string(), "'Charlie'".to_string()]),
        after_values: None,
    };

    let sql = applier.generate_sql(&delete_op);

    assert_eq!(sql, "DELETE FROM users WHERE id = 3 AND name = 'Charlie';");
}

#[test]
fn null_before_value_is_excluded_from_where() {
    let applier = OperationApplier::new();

    let update_op = BinlogOperation {
        timestamp: None,
        position: None,
        operation_type: OperationType::Update,
        table_name: "t".to_string(),
        database: "main".to_string(),
        columns: vec!["id".to_string(), "name".to_string()],
        before_values: Some(vec!["1".to_string(), "NULL".to_string()]),
        after_values: Some(vec!["1".to_string(), "'X'".to_string()]),
    };

    let sql = applier.generate_sql(&update_op);

    assert_eq!(sql, "UPDATE t SET id = 1, name = 'X' WHERE id = 1;");
}

#[test]
fn all_null_before_image_drops_where_clause() {
    let applier = OperationApplier::new();

    let delete_op = BinlogOperation {
        timestamp: None,
        position: None,
        operation_type: OperationType::Delete,
        table_name: "t".to_string(),
        database: "main".to_string(),
        columns: vec!["id".to_string()],
        before_values: Some(vec!["NULL".to_string()]),
        after_values: None,
    };

    assert_eq!(applier.generate_sql(&delete_op), "DELETE FROM t;");
}

#[test]
fn test_should_apply_insert_for_new_row() {
    let applier = OperationApplier::new();

    let new_insert = BinlogOperation {
        timestamp: None,
        position: None,
        operation_type: OperationType::Insert,
        table_name: "users".to_string(),
        database: "main".to_string(),
        columns: users_columns(),
        before_values: None,
        after_values: Some(vec![
            "10".to_string(),
            "'NewUser'".to_string(),
            "'new@test.com'".to_string(),
            "25".to_string(),
            "100.0".to_string(),
            "1".to_string(),
            "'2024-01-01 10:00:00'".to_string(),
        ]),
    };

    let should_apply = applier.should_apply(&new_insert, &None);
    assert!(should_apply, "Should apply INSERT for non-existent row");
}

#[test]
fn test_should_not_apply_update_when_before_image_mismatches() {
    let applier = OperationApplier::new();

    let invalid_update = BinlogOperation {
        timestamp: None,
        position: None,
        operation_type: OperationType::Update,
        table_name: "users".to_string(),
        database: "main".to_string(),
        columns: users_columns(),
        before_values: Some(vec![
            "1".to_string(),
            "'WrongName'".to_string(),
            "'alice@example.com'".to_string(),
            "99".to_string(),
            "999.99".to_string(),
            "0".to_string(),
            "'2024-01-01 10:00:00'".to_string(),
        ]),
        after_values: Some(vec![
            "1".to_string(),
            "'Alice Smith'".to_string(),
            "'alice@example.com'".to_string(),
            "31".to_string(),
            "1000.5".to_string(),
            "1".to_string(),
            "'2024-01-01 10:00:00'".to_string(),
        ]),
    };

    // The identifying probe finds no row whose columns carry the mismatched
    // pre-image, so the row reads as absent.
    let should_apply = applier.should_apply(&invalid_update, &None);
    assert!(!should_apply, "Should not apply UPDATE when before-image doesn't match current state");
}

#[test]
fn test_should_not_apply_delete_when_row_missing() {
    let applier = OperationApplier::new();

    let delete_nonexistent = BinlogOperation {
        timestamp: None,
        position: None,
        operation_type: OperationType::Delete,
        table_name: "users".to_string(),
        database: "main".to_string(),
        columns: users_columns(),
        before_values: Some(vec![
            "99".to_string(),
            "'Nobody'".to_string(),
            "'none@test.com'".to_string(),
            "0".to_string(),
            "0.0".to_string(),
            "0".to_string(),
            "'2024-01-01 10:00:00'".to_string(),
        ]),
        after_values: None,
    };

    let should_apply = applier.should_apply(&delete_nonexistent, &None);
    assert!(!should_apply, "Should not apply DELETE when row doesn't exist");
}

#[test]
fn test_bidirectional_integration() {
    let applier = OperationApplier::new();

    let before = vec![
        "1".to_string(),
        "'Alice'".to_string(),
        "'alice@example.com'".to_string(),
        "30".to_string(),
        "1000.50".to_string(),
        "1".to_string(),
        "'2024-01-01 10:00:00'".to_string(),
    ];
    let after = vec![
        "1".to_string(),
        "'Alice Smith'".to_string(),
        "'alice@example.com'".to_string(),
        "31".to_string(),
        "1000.50".to_string(),
        "1".to_string(),
        "'2024-01-01 10:00:00'".to_string(),
    ];
    let update_op = BinlogOperation {
        timestamp: None,
        position: None,
        operation_type: OperationType::Update,
        table_name: "users".to_string(),
        database: "main".to_string(),
        columns: users_columns(),
        before_values: Some(before.clone()),
        after_values: Some(after.clone()),
    };

    // Forward: the store row matches the pre-image, so the statement runs.
    let stmt = applier.conditional_statement(&update_op, &Some(before.clone()));
    assert!(stmt.is_some(), "Operation should be applied");
    assert!(stmt.unwrap().starts_with("UPDATE users SET "));

    // Again: the store row now holds the post-image; the probe by pre-image
    // finds nothing, so the operation is skipped.
    let again = applier.conditional_statement(&update_op, &None);
    assert!(again.is_none(), "Operation should be skipped on second application");

    // Inverted: the post-image row matches the inverse's pre-image.
    let inverted = update_op.invert();
    let back = applier.conditional_statement(&inverted, &Some(after.clone()));
    assert!(back.is_some(), "Inverted operation should be applied");
}

#[test]
fn test_skip_already_applied_operations() {
    let applier = OperationApplier::new();

    let after = vec![
        "2".to_string(),
        "'Bob'".to_string(),
        "'bob@example.com'".to_string(),
        "25".to_string(),
        "500.00".to_string(),
        "1".to_string(),
        "'2024-01-02 11:00:00'".to_string(),
    ];
    let already_applied_insert = BinlogOperation {
        timestamp: None,
        position: None,
        operation_type: OperationType::Insert,
        table_name: "users".to_string(),
        database: "main".to_string(),
        columns: users_columns(),
        before_values: None,
        after_values: Some(after.clone()),
    };

    // The row already exists with the same values.
    assert!(!applier.should_apply(&already_applied_insert, &Some(after)));
}

#[test]
fn insert_with_conflicting_row_still_applies() {
    let applier = OperationApplier::new();

    let op = BinlogOperation {
        timestamp: None,
        position: None,
        operation_type: OperationType::Insert,
        table_name: "t".to_string(),
        database: "main".to_string(),
        columns: vec!["id".to_string()],
        before_values: None,
        after_values: Some(vec!["1".to_string()]),
    };

    assert!(applier.should_apply(&op, &Some(vec!["2".to_string()])));
}

#[test]
fn fetch_query_identifies_by_non_null_columns() {
    let mut applier = OperationApplier::new();
    applier.insert_schema(
        "users".to_string(),
        vec!["id".to_string(), "name".to_string()],
        vec!["INTEGER".to_string(), "VARCHAR".to_string()],
    );

    let q = applier.fetch_current_row_query(
        "users",
        &vec!["id".to_string(), "name".to_string()],
        &vec!["1".to_string(), "NULL".to_string()],
    );
    assert_eq!(
        q.unwrap(),
        "SELECT CAST(id AS VARCHAR), CAST(name AS VARCHAR) FROM users WHERE id = 1 LIMIT 1"
    );
}

#[test]
fn fetch_query_is_none_without_identifying_columns() {
    let mut applier = OperationApplier::new();
    applier.insert_schema(
        "users".to_string(),
        vec!["id".to_string()],
        vec!["INTEGER".to_string()],
    );

    let q = applier.fetch_current_row_query("users", &vec!["id".to_string()], &vec![
        "NULL".to_string(),
    ]);
    assert!(q.is_none());

    let unknown = applier.fetch_current_row_query("ghosts", &vec!["id".to_string()], &vec![
        "1".to_string(),
    ]);
    assert!(unknown.is_none());
}

#[test]
fn literalize_row_requotes_by_column_type() {
    let types = vec![
        "INTEGER".to_string(),
        "VARCHAR".to_string(),
        "BOOLEAN".to_string(),
        "BOOLEAN".to_string(),
        "TIMESTAMP".to_string(),
    ];
    let raw = vec![
        Some("42".to_string()),
        Some("Alice".to_string()),
        Some("true".to_string()),
        Some("f".to_string()),
        None,
    ];
    let row = literalize_row(&types, &raw);
    assert_eq!(row, vec!["42", "'Alice'", "1", "0", "NULL"]);
}

#[test]
fn value_to_sql_renders_debug_values() {
    assert_eq!(value_to_sql("None"), "NULL");
    assert_eq!(value_to_sql("Null"), "NULL");
    assert_eq!(value_to_sql("\"hello\""), "'hello'");
    assert_eq!(value_to_sql("Some(\"it's\")"), "'it''s'");
    assert_eq!(value_to_sql("42"), "'42'");
}

#[test]
fn build_update_sql_sets_changed_columns_only() {
    let cols = vec!["id".to_string(), "name".to_string(), "note".to_string()];
    let before = vec!["1".to_string(), "\"Alice\"".to_string(), "None".to_string()];
    let after = vec!["1".to_string(), "\"Alise\"".to_string(), "None".to_string()];

    let sql = build_update_sql("users", &cols, &before, &after);
    assert_eq!(
        sql,
        "UPDATE users SET name = 'Alise' WHERE id = '1' AND name = 'Alice' AND note IS NULL"
    );
}

#[test]
fn parquet_load_sql_lists_quoted_files() {
    let sql = build_parquet_load_sql(
        "test_table",
        &vec!["a.parquet".to_string(), "b.parquet".to_string()],
    );
    assert_eq!(
        sql,
        "CREATE TABLE test_table AS SELECT * FROM read_parquet(['a.parquet', 'b.parquet']);"
    );
}

#[test]
fn parquet_load_error_messages_name_their_stage() {
    let c = ParquetLoadError::ConnectionError("boom".to_string());
    let e = ParquetLoadError::ExecutionError("bad sql".to_string());
    assert_eq!(c.message(), "Connection error: boom");
    assert_eq!(e.message(), "Execution error: bad sql");
}
