use agreed_time_backend::interval::{TimeRangeRequest, merge_time_ranges};

fn range(start_at: i64, end_at: i64) -> TimeRangeRequest {
    TimeRangeRequest { start_at, end_at }
}

#[test]
fn test_merge_time_ranges_no_overlap() {
    let ranges = vec![range(1000, 2000), range(3000, 4000)];
    let merged = merge_time_ranges(ranges);
    assert_eq!(merged.len(), 2);
}

#[test]
fn test_merge_time_ranges_overlap() {
    let ranges = vec![range(1000, 3000), range(2000, 4000)];
    let merged = merge_time_ranges(ranges);
    assert_eq!(merged.len(), 1);
    assert_eq!(merged[0].start_at, 1000);
    assert_eq!(merged[0].end_at, 4000);
}

#[test]
fn test_merge_gap_kept_unchanged() {
    let merged = merge_time_ranges(vec![range(1000, 2000), range(3000, 4000)]);
    assert_eq!(merged, vec![range(1000, 2000), range(3000, 4000)]);
}

#[test]
fn test_merge_touching_ranges_join() {
    let merged = merge_time_ranges(vec![range(1000, 2000), range(2000, 3000)]);
    assert_eq!(merged, vec![range(1000, 3000)]);
}

#[test]
fn test_merge_nested_range_absorbed() {
    let merged = merge_time_ranges(vec![range(1000, 5000), range(2000, 3000)]);
    assert_eq!(merged, vec![range(1000, 5000)]);
}

#[test]
fn test_merge_empty_input() {
    let merged = merge_time_ranges(Vec::new());
    assert!(merged.is_empty());
}

#[test]
fn test_merge_single_range_unchanged() {
    let merged = merge_time_ranges(vec![range(7, 9)]);
    assert_eq!(merged, vec![range(7, 9)]);
}

#[test]
fn test_merge_unsorted_input() {
    let merged = merge_time_ranges(vec![range(3000, 4000), range(1000, 2500), range(2000, 3000)]);
    assert_eq!(merged, vec![range(1000, 4000)]);
}

#[test]
fn test_merge_idempotent_on_result() {
    let once = merge_time_ranges(vec![range(5, 8), range(1, 3), range(2, 6), range(10, 12)]);
    let twice = merge_time_ranges(once.clone());
    assert_eq!(twice, once);
}

#[test]
fn test_merge_order_independent() {
    let a = merge_time_ranges(vec![range(1, 4), range(3, 6), range(8, 9)]);
    let b = merge_time_ranges(vec![range(8, 9), range(3, 6), range(1, 4)]);
    assert_eq!(a, b);
}
