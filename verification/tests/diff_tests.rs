use line_diff::{
    compute_char_diff, compute_diff, get_line_range, merge_adjacent_changes, ChangeType,
    DiffOptions,
};

fn options(ignore_whitespace: bool, ignore_case: bool, budget_ms: u64, chars: bool) -> DiffOptions {
    DiffOptions {
        ignore_whitespace,
        ignore_case,
        max_computation_time_ms: budget_ms,
        compute_char_changes: chars,
    }
}

#[test]
fn test_identical_files() {
    let lines1 = vec!["line1".to_string(), "line2".to_string()];
    let lines2 = vec!["line1".to_string(), "line2".to_string()];
    let options = DiffOptions {
        ignore_whitespace: false,
        ignore_case: false,
        max_computation_time_ms: 5000,
        compute_char_changes: false,
    };

    let changes = compute_diff(&lines1, &lines2, options);
    assert_eq!(changes.len(), 0);
}

#[test]
fn test_simple_addition() {
    let lines1 = vec!["line1".to_string()];
    let lines2 = vec!["line1".to_string(), "line2".to_string()];
    let options = DiffOptions {
        ignore_whitespace: false,
        ignore_case: false,
        max_computation_time_ms: 5000,
        compute_char_changes: false,
    };

    let changes = compute_diff(&lines1, &lines2, options);
    assert_eq!(changes.len(), 1);
    assert_eq!(changes[0].change_type, ChangeType::Added);
}

#[test]
fn test_simple_deletion() {
    let lines1 = vec!["line1".to_string(), "line2".to_string()];
    let lines2 = vec!["line1".to_string()];
    let options = DiffOptions {
        ignore_whitespace: false,
        ignore_case: false,
        max_computation_time_ms: 5000,
        compute_char_changes: false,
    };

    let changes = compute_diff(&lines1, &lines2, options);
    assert_eq!(changes.len(), 1);
    assert_eq!(changes[0].change_type, ChangeType::Deleted);
}

#[test]
fn test_addition_range() {
    let lines1 = vec!["line1".to_string()];
    let lines2 = vec!["line1".to_string(), "line2".to_string()];
    let changes = compute_diff(&lines1, &lines2, options(false, false, 5000, false));
    assert_eq!(changes.len(), 1);
    assert_eq!(changes[0].change_type, ChangeType::Added);
    assert_eq!(changes[0].modified_start, 1);
    assert_eq!(changes[0].modified_end, 2);
    assert_eq!(changes[0].original_start, 1);
    assert_eq!(changes[0].original_end, 1);
}

#[test]
fn test_deletion_range() {
    let lines1 = vec!["line1".to_string(), "line2".to_string()];
    let lines2 = vec!["line1".to_string()];
    let changes = compute_diff(&lines1, &lines2, options(false, false, 5000, false));
    assert_eq!(changes.len(), 1);
    assert_eq!(changes[0].change_type, ChangeType::Deleted);
    assert_eq!(changes[0].original_start, 1);
    assert_eq!(changes[0].original_end, 2);
    assert_eq!(changes[0].modified_start, 1);
    assert_eq!(changes[0].modified_end, 1);
}

#[test]
fn test_modification_promotion() {
    // The backtracker emits the Deleted for "X" before the Added for
    // "Y" here, so the merger promotes the pair to one Modified change.
    let lines1 = vec!["X".to_string(), "b".to_string()];
    let lines2 = vec!["b".to_string(), "Y".to_string()];
    let changes = compute_diff(&lines1, &lines2, options(false, false, 5000, false));
    assert_eq!(changes.len(), 1);
    assert_eq!(changes[0].change_type, ChangeType::Modified);
    assert_eq!(changes[0].original_start, 0);
    assert_eq!(changes[0].original_end, 2);
    assert_eq!(changes[0].modified_start, 0);
    assert_eq!(changes[0].modified_end, 2);
}

#[test]
fn test_single_line_replacement() {
    // With the fixed deletion-preferring tie-break, replacing the only
    // line recovers the Added before the Deleted, and the merger keeps
    // them as two changes.
    let lines1 = vec!["A".to_string()];
    let lines2 = vec!["B".to_string()];
    let changes = compute_diff(&lines1, &lines2, options(false, false, 5000, false));
    assert_eq!(changes.len(), 2);
    assert_eq!(changes[0].change_type, ChangeType::Added);
    assert_eq!(changes[1].change_type, ChangeType::Deleted);
}

#[test]
fn test_ignore_case() {
    let lines1 = vec!["Hello".to_string()];
    let lines2 = vec!["hello".to_string()];
    let changes = compute_diff(&lines1, &lines2, options(false, true, 5000, false));
    assert_eq!(changes.len(), 0);
}

#[test]
fn test_ignore_whitespace() {
    let lines1 = vec!["  x".to_string()];
    let lines2 = vec!["x".to_string()];
    let changes = compute_diff(&lines1, &lines2, options(true, false, 5000, false));
    assert_eq!(changes.len(), 0);
}

#[test]
fn test_sensitive_by_default() {
    // With both normalization flags off the pairs differ; the one-line
    // replacement surfaces as an Added and a Deleted.
    let changes1 = compute_diff(
        &vec!["Hello".to_string()],
        &vec!["hello".to_string()],
        options(false, false, 5000, false),
    );
    assert_eq!(changes1.len(), 2);
    assert_eq!(changes1[0].change_type, ChangeType::Added);
    assert_eq!(changes1[1].change_type, ChangeType::Deleted);
    let changes2 = compute_diff(
        &vec!["  x".to_string()],
        &vec!["x".to_string()],
        options(false, false, 5000, false),
    );
    assert_eq!(changes2.len(), 2);
}

#[test]
fn test_zero_budget_is_maximal_for_unrelated_inputs() {
    // With no shared line the table is all zero whether or not the
    // budget expires, so the result is deterministic: one Added
    // covering the modified side, one Deleted covering the original.
    let lines1 = vec!["a".to_string(), "b".to_string()];
    let lines2 = vec!["x".to_string(), "y".to_string(), "z".to_string()];
    let changes = compute_diff(&lines1, &lines2, options(false, false, 0, false));
    assert_eq!(changes.len(), 2);
    assert_eq!(changes[0].change_type, ChangeType::Added);
    assert_eq!(changes[0].original_start, 0);
    assert_eq!(changes[0].original_end, 0);
    assert_eq!(changes[0].modified_start, 0);
    assert_eq!(changes[0].modified_end, 3);
    assert_eq!(changes[1].change_type, ChangeType::Deleted);
    assert_eq!(changes[1].original_start, 0);
    assert_eq!(changes[1].original_end, 2);
    assert_eq!(changes[1].modified_start, 3);
    assert_eq!(changes[1].modified_end, 3);
}

#[test]
fn test_merge_idempotent_on_own_output() {
    let lines1 = vec!["a".to_string(), "b".to_string()];
    let lines2 = vec!["x".to_string(), "a".to_string(), "c".to_string()];
    let changes = compute_diff(&lines1, &lines2, options(false, false, 5000, false));
    let remerged = merge_adjacent_changes(changes.clone());
    assert_eq!(remerged.len(), changes.len());
    for (a, b) in changes.iter().zip(remerged.iter()) {
        assert_eq!(a.original_start, b.original_start);
        assert_eq!(a.original_end, b.original_end);
        assert_eq!(a.modified_start, b.modified_start);
        assert_eq!(a.modified_end, b.modified_end);
        assert_eq!(a.change_type, b.change_type);
    }
}

#[test]
fn test_char_changes_exact() {
    let lines1 = vec!["X".to_string(), "b".to_string()];
    let lines2 = vec!["b".to_string(), "Y".to_string()];
    let changes = compute_diff(&lines1, &lines2, options(false, false, 5000, true));
    assert_eq!(changes.len(), 1);
    assert_eq!(changes[0].change_type, ChangeType::Modified);
    // Spans are "X\nb" and "b\nY": the first characters differ, the
    // newlines match, the last characters differ.
    let cc = changes[0].char_changes.as_ref().expect("char detail");
    assert_eq!(cc.len(), 2);
    assert_eq!(cc[0].original_start, 0);
    assert_eq!(cc[0].original_length, 1);
    assert_eq!(cc[0].modified_start, 0);
    assert_eq!(cc[0].modified_length, 1);
    assert_eq!(cc[1].original_start, 2);
    assert_eq!(cc[1].original_length, 1);
    assert_eq!(cc[1].modified_start, 2);
    assert_eq!(cc[1].modified_length, 1);
}

#[test]
fn test_char_diff_exact() {
    let cc = compute_char_diff("abc", "abd");
    assert_eq!(cc.len(), 1);
    assert_eq!(cc[0].original_start, 2);
    assert_eq!(cc[0].original_length, 1);
    assert_eq!(cc[0].modified_start, 2);
    assert_eq!(cc[0].modified_length, 1);
}

#[test]
fn test_char_changes_contained() {
    let lines1 = vec!["kitten".to_string(), "common".to_string()];
    let lines2 = vec!["common".to_string(), "sitting".to_string()];
    let changes = compute_diff(&lines1, &lines2, options(false, false, 5000, true));
    for change in &changes {
        if change.change_type == ChangeType::Modified {
            let orig_len: usize = get_line_range(&lines1, change.original_start, change.original_end)
                .chars()
                .count();
            let mod_len: usize = get_line_range(&lines2, change.modified_start, change.modified_end)
                .chars()
                .count();
            let cc = change.char_changes.as_ref().expect("char detail");
            for c in cc {
                assert!(c.original_start + c.original_length <= orig_len);
                assert!(c.modified_start + c.modified_length <= mod_len);
                assert!(c.original_length > 0 || c.modified_length > 0);
            }
        } else {
            assert!(change.char_changes.is_none());
        }
    }
}

#[test]
fn test_char_diff_pure_deletion() {
    let cc = compute_char_diff("abc", "ac");
    assert_eq!(cc.len(), 1);
    assert_eq!(cc[0].original_start, 1);
    assert_eq!(cc[0].original_length, 1);
    assert_eq!(cc[0].modified_length, 0);
}

#[test]
fn test_char_diff_empty_inputs() {
    let cc = compute_char_diff("", "");
    assert_eq!(cc.len(), 0);
}

#[test]
fn test_get_line_range_joins_with_newline() {
    let lines = vec!["a".to_string(), "b".to_string(), "c".to_string()];
    assert_eq!(get_line_range(&lines, 0, 2), "a\nb");
    assert_eq!(get_line_range(&lines, 1, 2), "b");
    assert_eq!(get_line_range(&lines, 1, 1), "");
}

#[test]
fn test_empty_against_nonempty() {
    let lines1: Vec<String> = vec![];
    let lines2 = vec!["x".to_string()];
    let changes = compute_diff(&lines1, &lines2, options(false, false, 5000, false));
    assert_eq!(changes.len(), 1);
    assert_eq!(changes[0].change_type, ChangeType::Added);
    assert_eq!(changes[0].modified_start, 0);
    assert_eq!(changes[0].modified_end, 1);
}
