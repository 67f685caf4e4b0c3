use iedb::server::federation::sql::{parse_statements, Condition, SetTree, StatementTree};
use iedb::server::federation::time_filter::{
    extract_time_range, merge_max, merge_min, TimeRange,
};

fn where_of(sql: &str) -> Condition {
    match parse_statements(sql).unwrap().remove(0) {
        StatementTree::Select(q) => match q.body {
            SetTree::Select(_, selection) => selection.unwrap(),
            _ => panic!("not a select"),
        },
        StatementTree::Other => panic!("not a query"),
    }
}

#[test]
fn test_both_bounds() {
    let w = where_of("SELECT * FROM t WHERE time >= 100 AND time <= 200");
    let r = extract_time_range(&w).unwrap();
    assert_eq!(r.start_ns, Some(100));
    assert_eq!(r.end_ns, Some(200));
}

#[test]
fn test_exclusive_bounds_adjusted() {
    let w = where_of("SELECT * FROM t WHERE time > 100 AND time < 200");
    let r = extract_time_range(&w).unwrap();
    assert_eq!(r.start_ns, Some(101));
    assert_eq!(r.end_ns, Some(199));
}

#[test]
fn test_gt_i64_max_saturates() {
    let w = where_of("SELECT * FROM t WHERE time > 9223372036854775807");
    let r = extract_time_range(&w).unwrap();
    assert_eq!(r.start_ns, Some(i64::MAX));
    assert_eq!(r.end_ns, None);
}

#[test]
fn test_lt_i64_min_saturates() {
    let w = where_of("SELECT * FROM t WHERE time < '-9223372036854775808'");
    let r = extract_time_range(&w).unwrap();
    assert_eq!(r.start_ns, None);
    assert_eq!(r.end_ns, Some(i64::MIN));
}

#[test]
fn test_qualified_column() {
    let w = where_of("SELECT * FROM t WHERE db.t.time >= 5");
    let r = extract_time_range(&w).unwrap();
    assert_eq!(r.start_ns, Some(5));
    assert_eq!(r.end_ns, None);
}

#[test]
fn test_string_literal_bound() {
    let w = where_of("SELECT * FROM t WHERE time <= '1000'");
    let r = extract_time_range(&w).unwrap();
    assert_eq!(r.end_ns, Some(1000));
}

#[test]
fn test_or_yields_nothing() {
    let w = where_of("SELECT * FROM t WHERE time > 100 OR host = 'a'");
    assert!(extract_time_range(&w).is_none());
}

#[test]
fn test_and_with_unrelated_condition_partial() {
    let w = where_of("SELECT * FROM t WHERE time > 100 AND usage > 0.5");
    let r = extract_time_range(&w).unwrap();
    assert_eq!(r.start_ns, Some(101));
    assert_eq!(r.end_ns, None);
}

#[test]
fn test_non_time_column_yields_nothing() {
    let w = where_of("SELECT * FROM t WHERE usage > 0.5");
    assert!(extract_time_range(&w).is_none());
}

#[test]
fn test_function_yields_nothing() {
    let w = where_of("SELECT * FROM t WHERE time > now() - 300");
    assert!(extract_time_range(&w).is_none());
}

#[test]
fn test_no_where_yields_nothing() {
    assert!(extract_time_range(&Condition::Other).is_none());
    let w = where_of("SELECT * FROM t WHERE true");
    assert!(extract_time_range(&w).is_none());
}

#[test]
fn bounds_narrow_each_other() {
    let w = where_of("SELECT * FROM t WHERE time >= 10 AND (time > 5) AND time > 20 AND time < 90 AND time <= 80");
    assert_eq!(
        extract_time_range(&w),
        Some(TimeRange { start_ns: Some(21), end_ns: Some(80) })
    );
    assert_eq!(merge_max(Some(1), Some(2)), Some(2));
    assert_eq!(merge_max(None, Some(2)), Some(2));
    assert_eq!(merge_max(None, None), None);
    assert_eq!(merge_min(Some(1), Some(2)), Some(1));
    assert_eq!(merge_min(Some(1), None), Some(1));
    let equal = where_of("SELECT * FROM t WHERE time = 5");
    assert!(extract_time_range(&equal).is_none());
    let flipped = where_of("SELECT * FROM t WHERE 5 < time");
    assert!(extract_time_range(&flipped).is_none());
}
