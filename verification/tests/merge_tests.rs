use line_diff::{merge_adjacent_changes, should_merge, ChangeType, LineChange};

fn change(
    change_type: ChangeType,
    original_start: usize,
    original_end: usize,
    modified_start: usize,
    modified_end: usize,
) -> LineChange {
    LineChange {
        original_start,
        original_end,
        modified_start,
        modified_end,
        change_type,
        char_changes: None,
    }
}

#[test]
fn test_deleted_then_added_promotes() {
    let ops = vec![
        change(ChangeType::Deleted, 0, 1, 0, 0),
        change(ChangeType::Added, 1, 1, 0, 1),
    ];
    let merged = merge_adjacent_changes(ops);
    assert_eq!(merged.len(), 1);
    assert_eq!(merged[0].change_type, ChangeType::Modified);
    assert_eq!(merged[0].original_start, 0);
    assert_eq!(merged[0].original_end, 1);
    assert_eq!(merged[0].modified_start, 0);
    assert_eq!(merged[0].modified_end, 1);
}

#[test]
fn test_contiguous_same_type_merges() {
    let ops = vec![
        change(ChangeType::Added, 0, 0, 0, 1),
        change(ChangeType::Added, 0, 0, 1, 2),
    ];
    let merged = merge_adjacent_changes(ops);
    assert_eq!(merged.len(), 1);
    assert_eq!(merged[0].change_type, ChangeType::Added);
    assert_eq!(merged[0].modified_start, 0);
    assert_eq!(merged[0].modified_end, 2);
}

#[test]
fn test_gap_keeps_changes_separate() {
    let ops = vec![
        change(ChangeType::Deleted, 0, 1, 0, 0),
        change(ChangeType::Deleted, 2, 3, 0, 0),
    ];
    let merged = merge_adjacent_changes(ops);
    assert_eq!(merged.len(), 2);
}

#[test]
fn test_should_merge_rules() {
    let del = change(ChangeType::Deleted, 0, 1, 0, 0);
    let add_far = change(ChangeType::Added, 5, 5, 3, 4);
    // A Deleted followed by an Added merges regardless of position.
    assert!(should_merge(&del, &add_far));
    // The other direction does not.
    assert!(!should_merge(&add_far, &del));
    // Same type needs contiguity on both axes.
    let del2 = change(ChangeType::Deleted, 1, 2, 0, 0);
    assert!(should_merge(&del, &del2));
    let del3 = change(ChangeType::Deleted, 2, 3, 0, 0);
    assert!(!should_merge(&del, &del3));
}

#[test]
fn test_empty_input_empty_output() {
    let merged = merge_adjacent_changes(Vec::new());
    assert_eq!(merged.len(), 0);
}
