use pensieve::timestamp::BinlogTimestamp;

#[test]
fn test_parse_valid_timestamp() {
    let ts = BinlogTimestamp::parse("251108 17:03:00").unwrap();
    assert_eq!(ts.to_binlog_format(), "251108 17:03:00");
}

#[test]
fn test_parse_invalid_format() {
    assert!(BinlogTimestamp::parse("invalid").is_err());
    assert!(BinlogTimestamp::parse("25110817:03:00").is_err());
    assert!(BinlogTimestamp::parse("251108 17:03").is_err());
}

#[test]
fn test_add_hours_within_day() {
    let ts = BinlogTimestamp::parse("251108 10:00:00").unwrap();
    let new_ts = ts.add_hours(5);
    assert_eq!(new_ts.to_binlog_format(), "251108 15:00:00");
}

#[test]
fn test_add_hours_across_days() {
    let ts = BinlogTimestamp::parse("251108 20:00:00").unwrap();
    let new_ts = ts.add_hours(6);
    assert_eq!(new_ts.to_binlog_format(), "251109 02:00:00");
}

#[test]
fn test_add_hours_across_months() {
    let ts = BinlogTimestamp::parse("251130 20:00:00").unwrap();
    let new_ts = ts.add_hours(6);
    assert_eq!(new_ts.to_binlog_format(), "251201 02:00:00");
}

#[test]
fn test_subtract_hours_within_day() {
    let ts = BinlogTimestamp::parse("251108 15:00:00").unwrap();
    let new_ts = ts.subtract_hours(5);
    assert_eq!(new_ts.to_binlog_format(), "251108 10:00:00");
}

#[test]
fn test_subtract_hours_across_days() {
    let ts = BinlogTimestamp::parse("251108 02:00:00").unwrap();
    let new_ts = ts.subtract_hours(6);
    assert_eq!(new_ts.to_binlog_format(), "251107 20:00:00");
}

#[test]
fn test_large_hour_addition() {
    let ts = BinlogTimestamp::parse("251108 10:00:00").unwrap();
    let new_ts = ts.add_hours(100);
    assert_eq!(new_ts.to_binlog_format(), "251112 14:00:00");
}

#[test]
fn test_comparison() {
    let ts1 = BinlogTimestamp::parse("251108 10:00:00").unwrap();
    let ts2 = BinlogTimestamp::parse("251108 15:00:00").unwrap();
    let ts3 = BinlogTimestamp::parse("251109 10:00:00").unwrap();

    assert!(ts1 < ts2);
    assert!(ts2 < ts3);
    assert!(ts1 < ts3);
}

#[test]
fn test_display() {
    let ts = BinlogTimestamp::parse("251108 17:03:00").unwrap();
    assert_eq!(ts.to_binlog_format(), "251108 17:03:00");
}

#[test]
fn leap_year_day_is_accepted() {
    assert!(BinlogTimestamp::parse("240229 00:00:00").is_ok());
    assert!(BinlogTimestamp::parse("250229 00:00:00").is_err());
}

#[test]
fn comparison_method_matches_order() {
    let a = BinlogTimestamp::parse("251108 10:00:00").unwrap();
    let b = BinlogTimestamp::parse("251108 10:00:01").unwrap();
    assert!(a.le(&b));
    assert!(!b.le(&a));
    assert!(a.le(&a));
}
