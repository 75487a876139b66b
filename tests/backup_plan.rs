use staggered_backup::{
    date_from_unix_days, files_to_trash, metadata_from_directory, next_backup_metadata,
    parse_str_to_source_pathbuf, parse_str_to_target_pathbuf, target_file_name, BackupFile,
    DirectoryEntry, FileNameMetadata, PathStatus,
};

fn entry(name: &str, is_file: bool) -> DirectoryEntry {
    DirectoryEntry {
        file_name: String::from(name),
        path: format!("/backups/{name}"),
        is_file,
    }
}

#[test]
fn new_backup_takes_the_next_counter_of_its_day() {
    let listing = vec![
        entry("2025-09-27_00_x", true),
        entry("2025-09-27_01_y", true),
        entry("2025-09-27_01_y.sha256", true),
        entry("2025-09-26_07_z", true),
    ];
    let existing = metadata_from_directory(&listing);
    let (year, month, day) = date_from_unix_days(20358);
    let next = next_backup_metadata(&existing, year, month, day).unwrap();
    assert_eq!(target_file_name(&next, "report", Some("pdf")), "2025-09-27_02_report.pdf");
    assert_eq!(target_file_name(&next, "report", None), "2025-09-27_02_report");
}

#[test]
fn first_backup_of_a_day_has_counter_zero() {
    let existing = vec![BackupFile {
        metadata: FileNameMetadata { year: 2025, month: 9, day: 26, counter: 4 },
        path: String::from("old"),
    }];
    assert_eq!(
        next_backup_metadata(&existing, 2025, 9, 27),
        Some(FileNameMetadata { year: 2025, month: 9, day: 27, counter: 0 })
    );
}

#[test]
fn counter_that_cannot_grow_is_refused() {
    let existing = vec![BackupFile {
        metadata: FileNameMetadata { year: 2025, month: 9, day: 27, counter: u32::MAX },
        path: String::from("full"),
    }];
    assert_eq!(next_backup_metadata(&existing, 2025, 9, 27), None);
}

#[test]
fn scan_keeps_only_decodable_regular_files() {
    let listing = vec![
        entry("2025-09-27_00_x.txt", true),
        entry("2025-09-27_00_x.txt.sha256", true),
        entry("2025-09-28_00_dir", false),
        entry("notes.txt", true),
        entry("2025-09-29_05_y", true),
    ];
    let found = metadata_from_directory(&listing);
    assert_eq!(
        found,
        vec![
            BackupFile {
                metadata: FileNameMetadata { year: 2025, month: 9, day: 27, counter: 0 },
                path: String::from("/backups/2025-09-27_00_x.txt"),
            },
            BackupFile {
                metadata: FileNameMetadata { year: 2025, month: 9, day: 29, counter: 5 },
                path: String::from("/backups/2025-09-29_05_y"),
            },
        ]
    );
}

#[test]
fn trash_list_holds_backups_then_sidecars() {
    let files = vec![
        BackupFile {
            metadata: FileNameMetadata { year: 2025, month: 1, day: 1, counter: 0 },
            path: String::from("/b/2025-01-01_00_a"),
        },
        BackupFile {
            metadata: FileNameMetadata { year: 2025, month: 1, day: 2, counter: 0 },
            path: String::from("/b/2025-01-02_00_a"),
        },
    ];
    assert_eq!(
        files_to_trash(&files),
        vec![
            "/b/2025-01-01_00_a",
            "/b/2025-01-02_00_a",
            "/b/2025-01-01_00_a.sha256",
            "/b/2025-01-02_00_a.sha256",
        ]
    );
    assert!(files_to_trash(&vec![]).is_empty());
}

#[test]
fn unix_days_to_calendar_dates() {
    assert_eq!(date_from_unix_days(0), (1970, 1, 1));
    assert_eq!(date_from_unix_days(20358), (2025, 9, 27));
    assert_eq!(date_from_unix_days(19782), (2024, 2, 29));
    assert_eq!(date_from_unix_days(11017), (2000, 3, 1));
    assert_eq!(date_from_unix_days(19722), (2023, 12, 31));
}

#[test]
fn source_path_must_be_an_existing_file() {
    let file = PathStatus { is_file: true, is_dir: false, exists: Ok(true) };
    let dir = PathStatus { is_file: false, is_dir: true, exists: Ok(true) };
    let broken = PathStatus { is_file: true, is_dir: false, exists: Err(String::from("denied")) };
    assert_eq!(parse_str_to_source_pathbuf("a.txt", &file), Ok(String::from("a.txt")));
    assert_eq!(
        parse_str_to_source_pathbuf("d", &dir),
        Err(String::from("Source is not a file"))
    );
    assert_eq!(parse_str_to_source_pathbuf("a.txt", &broken), Err(String::from("denied")));
}

#[test]
fn target_path_must_be_an_existing_directory() {
    let file = PathStatus { is_file: true, is_dir: false, exists: Ok(true) };
    let dir = PathStatus { is_file: false, is_dir: true, exists: Ok(true) };
    let gone = PathStatus { is_file: false, is_dir: true, exists: Ok(false) };
    assert_eq!(parse_str_to_target_pathbuf("d", &dir), Ok(String::from("d")));
    assert_eq!(
        parse_str_to_target_pathbuf("a.txt", &file),
        Err(String::from("Target folder path is not a directory"))
    );
    assert_eq!(
        parse_str_to_target_pathbuf("d", &gone),
        Err(String::from("Target folder path is not a directory"))
    );
}
