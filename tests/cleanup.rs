use staggered_backup::{identify_files_to_delete, identify_files_to_keep, BackupFile, FileNameMetadata};

fn file(year: u32, month: u32, day: u32, counter: u32, path: &str) -> BackupFile {
    BackupFile {
        metadata: FileNameMetadata { year, month, day, counter },
        path: String::from(path),
    }
}

fn sample() -> Vec<BackupFile> {
    vec![
        file(2025, 8, 1, 1, "a"),
        file(2025, 9, 1, 1, "b"),
        file(2025, 10, 1, 1, "c"),
        file(2025, 10, 2, 1, "e"),
        file(2025, 10, 1, 2, "d"),
        file(2025, 9, 2, 1, "f"),
        file(2023, 8, 1, 1, "g"),
        file(2025, 8, 2, 1, "h"),
    ]
}

#[test]
fn test_files_to_keep_latest() {
    let files = sample();
    assert_eq!(
        identify_files_to_keep(&files, Some(3), None, None, None),
        vec![
            file(2025, 10, 1, 1, "c"),
            file(2025, 10, 1, 2, "d"),
            file(2025, 10, 2, 1, "e"),
        ]
    )
}

#[test]
fn test_files_to_keep_daily() {
    let files = sample();
    assert_eq!(
        identify_files_to_keep(&files, None, Some(4), None, None),
        vec![
            file(2025, 9, 1, 1, "b"),
            file(2025, 9, 2, 1, "f"),
            file(2025, 10, 1, 1, "c"),
            file(2025, 10, 2, 1, "e"),
        ]
    )
}

#[test]
fn test_files_to_keep_monthly() {
    let files = sample();
    assert_eq!(
        identify_files_to_keep(&files, None, None, Some(3), None),
        vec![
            file(2025, 8, 1, 1, "a"),
            file(2025, 9, 1, 1, "b"),
            file(2025, 10, 1, 1, "c"),
        ]
    )
}

#[test]
fn test_files_to_keep_yearly() {
    let files = sample();
    assert_eq!(
        identify_files_to_keep(&files, None, None, None, Some(2)),
        vec![file(2023, 8, 1, 1, "g"), file(2025, 8, 1, 1, "a")]
    )
}

#[test]
fn test_files_to_keep_multi() {
    let files = sample();
    assert_eq!(
        identify_files_to_keep(&files, Some(3), Some(4), Some(3), Some(2)),
        vec![
            file(2023, 8, 1, 1, "g"),
            file(2025, 8, 1, 1, "a"),
            file(2025, 9, 1, 1, "b"),
            file(2025, 9, 2, 1, "f"),
            file(2025, 10, 1, 1, "c"),
            file(2025, 10, 1, 2, "d"),
            file(2025, 10, 2, 1, "e"),
        ]
    )
}

#[test]
fn test_files_to_delete() {
    let files = sample();
    let keep = vec![
        file(2023, 8, 1, 1, "g"),
        file(2025, 8, 1, 1, "a"),
        file(2025, 10, 1, 2, "d"),
        file(2025, 10, 2, 1, "e"),
    ];
    assert_eq!(
        identify_files_to_delete(files, &keep),
        vec![
            file(2025, 9, 1, 1, "b"),
            file(2025, 10, 1, 1, "c"),
            file(2025, 9, 2, 1, "f"),
            file(2025, 8, 2, 1, "h"),
        ]
    );
}

#[test]
fn keep_set_is_sorted_subset_without_duplicates() {
    let files = sample();
    let keep = identify_files_to_keep(&files, Some(2), Some(2), Some(2), Some(1));
    for f in &keep {
        assert!(files.contains(f));
    }
    for w in keep.windows(2) {
        assert!(w[0].metadata < w[1].metadata);
    }
    for (i, f) in keep.iter().enumerate() {
        assert!(!keep[i + 1..].contains(f));
    }
}

#[test]
fn classifying_the_keep_set_again_changes_nothing() {
    let files = sample();
    let policies = [
        (Some(3), Some(4), Some(3), Some(2)),
        (Some(1), None, Some(1), None),
        (None, Some(2), None, Some(5)),
        (Some(0), Some(0), Some(0), Some(0)),
    ];
    for (l, d, m, y) in policies {
        let keep = identify_files_to_keep(&files, l, d, m, y);
        assert_eq!(identify_files_to_keep(&keep, l, d, m, y), keep);
    }
}

#[test]
fn keep_and_delete_partition_the_input() {
    let files = sample();
    let keep = identify_files_to_keep(&files, Some(1), Some(2), None, Some(1));
    let delete = identify_files_to_delete(files.clone(), &keep);
    assert_eq!(keep.len() + delete.len(), files.len());
    for f in &files {
        assert!(keep.contains(f) != delete.contains(f));
    }
}

#[test]
fn keep_latest_beyond_the_count_keeps_everything() {
    let files = sample();
    let keep = identify_files_to_keep(&files, Some(100), None, None, None);
    assert_eq!(keep.len(), files.len());
    assert_eq!(
        keep.iter().map(|f| f.path.as_str()).collect::<Vec<_>>(),
        vec!["g", "a", "h", "b", "f", "c", "d", "e"]
    );
}

#[test]
fn keep_latest_zero_keeps_nothing() {
    let files = sample();
    assert!(identify_files_to_keep(&files, Some(0), None, None, None).is_empty());
    assert_eq!(
        identify_files_to_keep(&files, Some(0), Some(2), None, None),
        identify_files_to_keep(&files, None, Some(2), None, None)
    );
}

#[test]
fn empty_input_keeps_nothing() {
    assert!(identify_files_to_keep(&vec![], Some(3), Some(3), Some(3), Some(3)).is_empty());
}

#[test]
fn no_rule_keeps_nothing() {
    assert!(identify_files_to_keep(&sample(), None, None, None, None).is_empty());
}

#[test]
fn daily_rule_keeps_first_backup_of_the_day() {
    let files = vec![
        file(2025, 10, 1, 2, "late"),
        file(2025, 10, 1, 1, "early"),
    ];
    assert_eq!(
        identify_files_to_keep(&files, None, Some(1), None, None),
        vec![file(2025, 10, 1, 1, "early")]
    );
}

#[test]
fn equal_dates_with_distinct_paths_are_distinct_records() {
    let files = vec![
        file(2025, 10, 1, 1, "x"),
        file(2025, 10, 1, 1, "y"),
        file(2025, 10, 1, 1, "x"),
    ];
    assert_eq!(
        identify_files_to_keep(&files, Some(3), None, None, None),
        vec![file(2025, 10, 1, 1, "x"), file(2025, 10, 1, 1, "y")]
    );
    assert_eq!(
        identify_files_to_keep(&files, Some(1), Some(1), None, None),
        vec![file(2025, 10, 1, 1, "x")]
    );
}
