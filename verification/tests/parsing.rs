use pensieve::operation::OperationType;
use pensieve::parser::TextBinlogParser;

fn users_parser() -> TextBinlogParser {
    let mut parser = TextBinlogParser::new();
    parser.insert_schema(
        "users".to_string(),
        vec![
            "id".to_string(),
            "name".to_string(),
            "email".to_string(),
            "age".to_string(),
            "balance".to_string(),
            "is_active".to_string(),
            "created_at".to_string(),
        ],
    );
    parser
}

fn to_lines(content: &str) -> Vec<String> {
    content.split('\n').map(|l| l.to_string()).collect()
}

#[test]
fn test_parse_update_to_structured_data() {
    let parser = users_parser();

    let binlog_content = r#"
#251020 19:43:32 server id 123  end_log_pos 1000
BEGIN
### UPDATE `main`.`users`
### WHERE
###   @1=1
###   @2='Alice'
###   @3='alice@example.com'
###   @4=30
###   @5=1000.50
###   @6=1
###   @7='2024-01-01 10:00:00'
### SET
###   @1=1
###   @2='Alice Smith'
###   @3='alice@example.com'
###   @4=31
###   @5=1000.50
###   @6=1
###   @7='2024-01-01 10:00:00'
COMMIT
"#;

    let operations = parser.parse_lines(&to_lines(binlog_content)).unwrap();

    assert_eq!(operations.len(), 1, "Should parse exactly one operation");
    let op = &operations[0];

    assert_eq!(op.operation_type, OperationType::Update);
    assert_eq!(op.table_name, "users");
    assert_eq!(op.database, "main");
    assert_eq!(op.timestamp, Some("251020 19:43:32".to_string()));
    assert_eq!(op.position, Some(1000));

    assert_eq!(op.columns.len(), 7);
    assert!(op.before_values.is_some());
    assert!(op.after_values.is_some());

    let before = op.before_values.as_ref().unwrap();
    assert_eq!(before[0], "1");
    assert_eq!(before[1], "'Alice'");
    assert_eq!(before[3], "30");

    let after = op.after_values.as_ref().unwrap();
    assert_eq!(after[0], "1");
    assert_eq!(after[1], "'Alice Smith'");
    assert_eq!(after[3], "31");
}

#[test]
fn test_parse_insert_to_structured_data() {
    let parser = users_parser();

    let binlog_content = r#"
#251020 19:43:32 server id 123  end_log_pos 2000
BEGIN
### INSERT INTO `main`.`users`
### SET
###   @1=4
###   @2='David'
###   @3='david@example.com'
###   @4=28
###   @5=750.25
###   @6=1
###   @7='2024-01-04 13:00:00'
COMMIT
"#;

    let operations = parser.parse_lines(&to_lines(binlog_content)).unwrap();

    assert_eq!(operations.len(), 1);
    let op = &operations[0];

    assert_eq!(op.operation_type, OperationType::Insert);
    assert_eq!(op.table_name, "users");
    assert!(op.before_values.is_none(), "INSERT should have no before-image");
    assert!(op.after_values.is_some());

    let after = op.after_values.as_ref().unwrap();
    assert_eq!(after[0], "4");
    assert_eq!(after[1], "'David'");
    assert_eq!(after[3], "28");
}

#[test]
fn test_parse_delete_to_structured_data() {
    let parser = users_parser();

    let binlog_content = r#"
#251020 19:43:32 server id 123  end_log_pos 3000
BEGIN
### DELETE FROM `main`.`users`
### WHERE
###   @1=3
###   @2='Charlie'
###   @3='charlie@example.com'
###   @4=35
###   @5=1500.75
###   @6=0
###   @7='2024-01-03 12:00:00'
COMMIT
"#;

    let operations = parser.parse_lines(&to_lines(binlog_content)).unwrap();

    assert_eq!(operations.len(), 1);
    let op = &operations[0];

    assert_eq!(op.operation_type, OperationType::Delete);
    assert_eq!(op.table_name, "users");
    assert!(op.before_values.is_some());
    assert!(op.after_values.is_none(), "DELETE should have no after-image");

    let before = op.before_values.as_ref().unwrap();
    assert_eq!(before[0], "3");
    assert_eq!(before[1], "'Charlie'");
    assert_eq!(before[4], "1500.75");
}

#[test]
fn rolled_back_transaction_contributes_nothing() {
    let parser = users_parser();

    let binlog_content = r#"
#251020 19:43:32 server id 123  end_log_pos 1000
BEGIN
### UPDATE `main`.`users`
### WHERE
###   @1=1
###   @2='Alice'
### SET
###   @1=1
###   @2='Alice Smith'
ROLLBACK
"#;

    let operations = parser.parse_lines(&to_lines(binlog_content)).unwrap();
    assert_eq!(operations.len(), 0);
}

#[test]
fn committed_transaction_keeps_encounter_order() {
    let parser = users_parser();

    let binlog_content = r#"
BEGIN
### INSERT INTO `main`.`users`
### SET
###   @1=4
### INSERT INTO `main`.`users`
### SET
###   @1=5
COMMIT
"#;

    let operations = parser.parse_lines(&to_lines(binlog_content)).unwrap();
    assert_eq!(operations.len(), 2);
    assert_eq!(operations[0].after_values.as_ref().unwrap()[0], "4");
    assert_eq!(operations[1].after_values.as_ref().unwrap()[0], "5");
}

#[test]
fn operation_outside_transaction_is_not_emitted() {
    let parser = users_parser();

    let binlog_content = r#"
### INSERT INTO `main`.`users`
### SET
###   @1=4
"#;

    let operations = parser.parse_lines(&to_lines(binlog_content)).unwrap();
    assert_eq!(operations.len(), 0);
}

#[test]
fn unknown_table_is_skipped() {
    let parser = users_parser();

    let binlog_content = r#"
BEGIN
### INSERT INTO `main`.`ghosts`
### SET
###   @1=4
### INSERT INTO `main`.`users`
### SET
###   @1=9
COMMIT
"#;

    let operations = parser.parse_lines(&to_lines(binlog_content)).unwrap();
    assert_eq!(operations.len(), 1);
    assert_eq!(operations[0].after_values.as_ref().unwrap()[0], "9");
}

#[test]
fn update_without_set_gets_all_null_after_image() {
    let parser = users_parser();

    let binlog_content = r#"
BEGIN
### UPDATE `main`.`users`
### WHERE
###   @1=1
COMMIT
"#;

    let operations = parser.parse_lines(&to_lines(binlog_content)).unwrap();
    assert_eq!(operations.len(), 1);
    let after = operations[0].after_values.as_ref().unwrap();
    assert_eq!(after.len(), 7);
    for v in after {
        assert_eq!(v, "NULL");
    }
    assert_eq!(operations[0].before_values.as_ref().unwrap()[0], "1");
}

#[test]
fn absent_columns_read_as_null() {
    let parser = users_parser();

    let binlog_content = r#"
BEGIN
### INSERT INTO `main`.`users`
### SET
###   @2='Eve'
COMMIT
"#;

    let operations = parser.parse_lines(&to_lines(binlog_content)).unwrap();
    let after = operations[0].after_values.as_ref().unwrap();
    assert_eq!(after[0], "NULL");
    assert_eq!(after[1], "'Eve'");
    assert_eq!(after[6], "NULL");
}

#[test]
fn oversized_column_index_is_an_error() {
    let parser = users_parser();

    let binlog_content = r#"
BEGIN
### INSERT INTO `main`.`users`
### SET
###   @99999999999999999999999999999=1
COMMIT
"#;

    let r = parser.parse_lines(&to_lines(binlog_content));
    assert!(r.is_err());
    assert!(r.unwrap_err().message().contains("column index"));
}

#[test]
fn column_index_beyond_schema_is_ignored() {
    let parser = users_parser();

    let binlog_content = r#"
BEGIN
### INSERT INTO `main`.`users`
### SET
###   @1=7
###   @8='overflow'
COMMIT
"#;

    let operations = parser.parse_lines(&to_lines(binlog_content)).unwrap();
    assert_eq!(operations.len(), 1);
    assert_eq!(operations[0].after_values.as_ref().unwrap().len(), 7);
}

#[test]
fn set_marker_inside_a_value_switches_sections() {
    let parser = users_parser();

    // The section switch fires on any line containing the SET marker, even
    // inside a quoted value, and that line's value is not recorded.
    let binlog_content = r#"
BEGIN
### UPDATE `main`.`users`
### WHERE
###   @1=1
###   @2='x ### SET y'
###   @3='after-side'
COMMIT
"#;

    let operations = parser.parse_lines(&to_lines(binlog_content)).unwrap();
    assert_eq!(operations.len(), 1);
    let op = &operations[0];
    let before = op.before_values.as_ref().unwrap();
    let after = op.after_values.as_ref().unwrap();
    assert_eq!(before[0], "1");
    assert_eq!(before[1], "NULL");
    assert_eq!(after[2], "'after-side'");
}

#[test]
fn position_updates_from_any_line_holding_the_marker() {
    let parser = users_parser();

    let binlog_content = r#"
# at 4 end_log_pos 500
BEGIN
### INSERT INTO `main`.`users`
### SET
###   @1=1
COMMIT
"#;

    let operations = parser.parse_lines(&to_lines(binlog_content)).unwrap();
    assert_eq!(operations[0].position, Some(500));
    assert_eq!(operations[0].timestamp, None);
}

#[test]
fn header_time_tolerates_trailing_text() {
    let parser = users_parser();

    let binlog_content = r#"
#251020 19:43:321 server id 1
BEGIN
### INSERT INTO `main`.`users`
### SET
###   @1=1
COMMIT
"#;

    let operations = parser.parse_lines(&to_lines(binlog_content)).unwrap();
    assert_eq!(operations[0].timestamp, Some("251020 19:43:32".to_string()));
}

#[test]
fn one_digit_header_hour_is_accepted() {
    let parser = users_parser();

    let binlog_content = r#"
#251020  9:43:32 server id 1
BEGIN
### INSERT INTO `main`.`users`
### SET
###   @1=1
COMMIT
"#;

    let operations = parser.parse_lines(&to_lines(binlog_content)).unwrap();
    assert_eq!(operations[0].timestamp, Some("251020 9:43:32".to_string()));
}

#[test]
fn empty_input_yields_no_operations() {
    let parser = users_parser();
    let operations = parser.parse_lines(&Vec::new()).unwrap();
    assert_eq!(operations.len(), 0);
}

#[test]
fn table_path_without_backticks_keeps_whole_path() {
    let mut parser = TextBinlogParser::new();
    parser.insert_schema("plain_table".to_string(), vec!["id".to_string()]);

    let binlog_content = r#"
BEGIN
### INSERT INTO plain_table
### SET
###   @1=1
COMMIT
"#;

    let operations = parser.parse_lines(&to_lines(binlog_content)).unwrap();
    assert_eq!(operations.len(), 1);
    assert_eq!(operations[0].database, "");
    assert_eq!(operations[0].table_name, "plain_table");
}
