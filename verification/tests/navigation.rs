use pensieve::manager::SnapshotManager;
use pensieve::normaliser::TimestampNormaliser;
use pensieve::operation::{BinlogOperation, OperationType};
use pensieve::pensieve::Pensieve;
use pensieve::script::{LastNonNullScript, LastValues};
use pensieve::strutil::fmt_i64;

fn op_at(i: u32, ts: &str) -> BinlogOperation {
    BinlogOperation {
        timestamp: Some(ts.to_string()),
        position: Some(i),
        operation_type: OperationType::Insert,
        table_name: "users".to_string(),
        database: "main".to_string(),
        columns: vec!["id".to_string()],
        before_values: None,
        after_values: Some(vec![format!("{}", i)]),
    }
}

fn stream() -> Vec<BinlogOperation> {
    vec![
        op_at(0, "251108 10:00:00"),
        op_at(1, "251108 11:00:00"),
        op_at(2, "251108 12:00:00"),
        op_at(3, "251108 13:00:00"),
    ]
}

#[test]
fn step_forward_then_backward_round_trips() {
    let mut m = SnapshotManager::new(stream(), 1);

    let fwd = m.step_forward().expect("should step forward");
    assert_eq!(m.get_position(), 2);

    let back = m.step_backward().expect("should step backward");
    assert_eq!(m.get_position(), 1);

    // The backward action is exactly the inverse of the forward action.
    let inverse = fwd.invert();
    assert_eq!(back.operation_type, inverse.operation_type);
    assert_eq!(back.before_values, inverse.before_values);
    assert_eq!(back.after_values, inverse.after_values);
}

#[test]
fn step_backward_at_zero_does_nothing() {
    let mut m = SnapshotManager::new(stream(), 0);
    assert!(m.step_backward().is_none());
    assert_eq!(m.get_position(), 0);
}

#[test]
fn step_forward_at_last_does_nothing() {
    let mut m = SnapshotManager::new(stream(), 3);
    assert!(m.step_forward().is_none());
    assert_eq!(m.get_position(), 3);
}

#[test]
fn step_by_stops_at_the_boundary() {
    let mut m = SnapshotManager::new(stream(), 1);
    let taken = m.step_forward_by(10);
    assert_eq!(taken.len(), 2);
    assert_eq!(m.get_position(), 3);

    let taken_back = m.step_backward_by(10);
    assert_eq!(taken_back.len(), 3);
    assert_eq!(m.get_position(), 0);
}

#[test]
fn goto_position_walks_and_returns() {
    let mut m = SnapshotManager::new(stream(), 0);

    let out = m.goto_position(3).unwrap();
    assert_eq!(out.len(), 3);
    assert_eq!(m.get_position(), 3);

    let back = m.goto_position(0).unwrap();
    assert_eq!(back.len(), 3);
    assert_eq!(m.get_position(), 0);

    // Out of bounds is an error and moves nothing.
    assert!(m.goto_position(4).is_err());
    assert_eq!(m.get_position(), 0);
}

#[test]
fn goto_position_twice_lands_where_one_does() {
    let mut a = SnapshotManager::new(stream(), 0);
    a.goto_position(2).unwrap();
    a.goto_position(3).unwrap();
    a.goto_position(2).unwrap();

    let mut b = SnapshotManager::new(stream(), 0);
    b.goto_position(2).unwrap();

    assert_eq!(a.get_position(), b.get_position());
}

#[test]
fn goto_timestamp_prefers_the_exact_match() {
    let mut m = SnapshotManager::new(stream(), 0);
    m.goto_timestamp("251108 12:00:00").unwrap();
    assert_eq!(m.get_position(), 2);
}

#[test]
fn goto_timestamp_without_match_lands_on_first_stamped() {
    let mut m = SnapshotManager::new(stream(), 2);
    m.goto_timestamp("991231 23:59:59").unwrap();
    assert_eq!(m.get_position(), 0);
}

#[test]
fn manager_exposes_operations() {
    let m = SnapshotManager::new(stream(), 1);
    assert_eq!(m.operation_count(), 4);
    assert_eq!(m.get_timestamp(), Some(&"251108 11:00:00".to_string()));
    assert!(m.get_operation(3).is_some());
    assert!(m.get_operation(4).is_none());
    let range = m.get_operations_range(1, 99);
    assert_eq!(range.len(), 3);
    assert_eq!(range[0].position, Some(1));
}

#[test]
fn normalize_picks_the_median_in_window_index() {
    let ops: Vec<BinlogOperation> = (0..10u32)
        .map(|i| op_at(i, &format!("251108 {:02}:30:00", 7 + i)))
        .collect();
    // Window 12:00 +/- 5h covers all ten operations.
    let plan = TimestampNormaliser::normalize(&ops, "251108 12:00:00", 5).unwrap();
    assert_eq!(plan.tx_zero_idx, 5);
    assert_eq!(plan.forward, vec![0, 1, 2, 3, 4, 5]);
    assert_eq!(plan.backward, vec![9, 8, 7, 6]);
}

#[test]
fn normalize_with_partial_window() {
    let ops = stream();
    // Window 11:30 +/- 1h covers indices 1 and 2; the median of two is the
    // later one.
    let plan = TimestampNormaliser::normalize(&ops, "251108 11:30:00", 1).unwrap();
    assert_eq!(plan.tx_zero_idx, 2);
    assert_eq!(plan.forward, vec![1, 2]);
    assert!(plan.backward.is_empty());
}

#[test]
fn empty_window_anchors_to_the_last_index() {
    let ops = stream();
    let plan = TimestampNormaliser::normalize(&ops, "301231 00:00:00", 1).unwrap();
    assert_eq!(plan.tx_zero_idx, 3);
    assert!(plan.forward.is_empty());
    assert!(plan.backward.is_empty());
}

#[test]
fn empty_stream_anchors_to_zero() {
    let ops: Vec<BinlogOperation> = Vec::new();
    let plan = TimestampNormaliser::normalize(&ops, "251108 12:00:00", 1).unwrap();
    assert_eq!(plan.tx_zero_idx, 0);
    assert!(plan.forward.is_empty());
    assert!(plan.backward.is_empty());
}

#[test]
fn normalize_rejects_a_bad_timestamp() {
    let ops = stream();
    assert!(TimestampNormaliser::normalize(&ops, "yesterday", 1).is_err());
}

#[test]
fn pensieve_exposes_the_aligned_snapshot() {
    let manager = SnapshotManager::new(stream(), 2);
    let mut p = Pensieve::new(manager, "users".to_string());
    assert_eq!(p.get_snapshot_position(), 2);
    assert_eq!(p.get_table_name(), "users");
    assert_eq!(p.get_snapshot_timestamp(), Some(&"251108 12:00:00".to_string()));

    p.get_manager_mut().step_forward().unwrap();
    assert_eq!(p.get_snapshot_position(), 3);

    let m = p.into_manager();
    assert_eq!(m.get_position(), 3);
}

#[test]
fn last_values_keeps_the_newest_value_per_id() {
    let script = LastNonNullScript {
        table_name: "files".to_string(),
        column_name: "note".to_string(),
    };
    let mut last = LastValues::new();
    script.observe_rows(&mut last, vec![(2, "b".to_string()), (1, "a".to_string())]);
    script.observe_rows(&mut last, vec![(2, "c".to_string())]);

    let results = script.collect_results(&last);
    assert_eq!(results.len(), 2);
    assert_eq!(results[0].columns, vec!["id", "last_non_null_value"]);
    assert_eq!(results[0].values, vec!["1", "a"]);
    assert_eq!(results[1].values, vec!["2", "c"]);
}

#[test]
fn last_non_null_query_names_table_and_column() {
    let script = LastNonNullScript {
        table_name: "files".to_string(),
        column_name: "note".to_string(),
    };
    assert_eq!(
        script.build_query(),
        "SELECT id, CAST(note AS VARCHAR) FROM files WHERE note IS NOT NULL"
    );
}

#[test]
fn fmt_i64_renders_decimals() {
    assert_eq!(fmt_i64(0), "0");
    assert_eq!(fmt_i64(1024), "1024");
    assert_eq!(fmt_i64(-37), "-37");
    assert_eq!(fmt_i64(i64::MIN), "-9223372036854775808");
}
