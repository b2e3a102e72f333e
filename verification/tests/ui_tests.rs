use line_diff::{
    format_range, format_unified_diff, hash_lines, preprocess_lines, ChangeType, DiffOptions,
    LineChange,
};

#[test]
fn test_format_range() {
    assert_eq!(format_range(0, 0), "0,0");
    assert_eq!(format_range(0, 1), "1");
    assert_eq!(format_range(5, 10), "6,5");
}

#[test]
fn test_format_range_empty_at_offset() {
    assert_eq!(format_range(7, 7), "7,0");
    assert_eq!(format_range(3, 4), "4");
}

#[test]
fn test_format_unified_diff_identical() {
    let changes: Vec<LineChange> = vec![];
    let report = format_unified_diff("a.txt", "b.txt", &changes);
    assert_eq!(report, "--- a.txt\n+++ b.txt\n\nFiles are identical\n");
}

#[test]
fn test_format_unified_diff_added() {
    let changes = vec![LineChange {
        original_start: 1,
        original_end: 1,
        modified_start: 1,
        modified_end: 2,
        change_type: ChangeType::Added,
        char_changes: None,
    }];
    let report = format_unified_diff("a.txt", "b.txt", &changes);
    assert_eq!(report, "--- a.txt\n+++ b.txt\n\n@@ -1,0 +2 @@\n+1 line(s) added\n");
}

#[test]
fn test_format_unified_diff_deleted_and_modified() {
    let changes = vec![
        LineChange {
            original_start: 0,
            original_end: 2,
            modified_start: 0,
            modified_end: 0,
            change_type: ChangeType::Deleted,
            char_changes: None,
        },
        LineChange {
            original_start: 3,
            original_end: 4,
            modified_start: 1,
            modified_end: 2,
            change_type: ChangeType::Modified,
            char_changes: Some(vec![]),
        },
    ];
    let report = format_unified_diff("a.txt", "b.txt", &changes);
    assert_eq!(
        report,
        "--- a.txt\n+++ b.txt\n\
         \n@@ -1,2 +0,0 @@\n-2 line(s) deleted\n\
         \n@@ -4 +2 @@\n~1 line(s) modified\n  (0 character-level changes)\n"
    );
}

#[test]
fn test_preprocess_lines_trims_and_folds() {
    let lines = vec!["  Mixed Case  ".to_string(), "".to_string()];
    let options = DiffOptions {
        ignore_whitespace: true,
        ignore_case: true,
        max_computation_time_ms: 5000,
        compute_char_changes: false,
    };
    let processed = preprocess_lines(&lines, &options);
    assert_eq!(processed.len(), 2);
    assert_eq!(processed[0], "mixed case");
    assert_eq!(processed[1], "");
}

#[test]
fn test_hash_lines_equal_lines_equal_surrogates() {
    let lines = vec!["same".to_string(), "other".to_string(), "same".to_string()];
    let hashes = hash_lines(&lines);
    assert_eq!(hashes.len(), 3);
    assert_eq!(hashes[0], hashes[2]);
    assert_ne!(hashes[0], hashes[1]);
}
