use pensieve::operation::{BinlogOperation, OperationType};

fn sample_insert() -> BinlogOperation {
    BinlogOperation {
        timestamp: Some("251020 10:00:00".to_string()),
        position: Some(100),
        operation_type: OperationType::Insert,
        table_name: "users".to_string(),
        database: "main".to_string(),
        columns: vec!["id".to_string(), "name".to_string()],
        before_values: None,
        after_values: Some(vec!["10".to_string(), "'NewUser'".to_string()]),
    }
}

#[test]
fn test_invert_insert_to_delete() {
    let insert_op = sample_insert();

    let inverted = insert_op.invert();

    assert_eq!(inverted.operation_type, OperationType::Delete);
    assert_eq!(inverted.before_values, insert_op.after_values);
    assert!(inverted.after_values.is_none());
    assert_eq!(inverted.table_name, insert_op.table_name);
}

#[test]
fn test_invert_update_swaps_before_after() {
    let update_op = BinlogOperation {
        timestamp: Some("251020 10:00:00".to_string()),
        position: Some(200),
        operation_type: OperationType::Update,
        table_name: "users".to_string(),
        database: "main".to_string(),
        columns: vec!["id".to_string(), "name".to_string()],
        before_values: Some(vec!["1".to_string(), "'Alice'".to_string()]),
        after_values: Some(vec!["1".to_string(), "'Alice Smith'".to_string()]),
    };

    let inverted = update_op.invert();

    assert_eq!(inverted.operation_type, OperationType::Update);
    assert_eq!(inverted.before_values, update_op.after_values);
    assert_eq!(inverted.after_values, update_op.before_values);
}

#[test]
fn test_invert_delete_to_insert() {
    let delete_op = BinlogOperation {
        timestamp: Some("251020 10:00:00".to_string()),
        position: Some(300),
        operation_type: OperationType::Delete,
        table_name: "users".to_string(),
        database: "main".to_string(),
        columns: vec!["id".to_string(), "name".to_string()],
        before_values: Some(vec!["3".to_string(), "'Charlie'".to_string()]),
        after_values: None,
    };

    let inverted = delete_op.invert();

    assert_eq!(inverted.operation_type, OperationType::Insert);
    assert!(inverted.before_values.is_none());
    assert_eq!(inverted.after_values, delete_op.before_values);
}

#[test]
fn describe_names_the_operation() {
    let op = sample_insert();
    assert_eq!(op.describe(), "251020 10:00:00 100 INSERT main users");

    let mut bare = sample_insert();
    bare.timestamp = None;
    bare.position = None;
    assert_eq!(bare.describe(), "null 0 INSERT main users");
}

#[test]
fn invert_twice_restores_the_operation() {
    let op = sample_insert();
    let back = op.invert().invert();
    assert_eq!(back.operation_type, op.operation_type);
    assert_eq!(back.timestamp, op.timestamp);
    assert_eq!(back.position, op.position);
    assert_eq!(back.table_name, op.table_name);
    assert_eq!(back.database, op.database);
    assert_eq!(back.columns, op.columns);
    assert_eq!(back.before_values, op.before_values);
    assert_eq!(back.after_values, op.after_values);
}
