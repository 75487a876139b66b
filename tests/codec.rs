use staggered_backup::{metadata_from_file_name, target_file_name, FileNameMetadata};

fn meta(year: u32, month: u32, day: u32, counter: u32) -> FileNameMetadata {
    FileNameMetadata { year, month, day, counter }
}

#[test]
fn encodes_date_counter_basename_and_extension() {
    assert_eq!(
        target_file_name(&meta(2025, 9, 27, 2), "notes", Some("txt")),
        "2025-09-27_02_notes.txt"
    );
}

#[test]
fn encodes_without_extension() {
    assert_eq!(target_file_name(&meta(2025, 1, 5, 0), "db", None), "2025-01-05_00_db");
}

#[test]
fn encodes_wide_numbers_in_full() {
    assert_eq!(target_file_name(&meta(987, 1, 2, 100), "x", None), "0987-01-02_100_x");
    assert_eq!(target_file_name(&meta(12345, 10, 31, 7), "x", None), "12345-10-31_07_x");
}

#[test]
fn decoding_an_encoded_name_gives_the_identity_back() {
    let cases = [
        (meta(2025, 9, 27, 2), "notes", Some("txt")),
        (meta(1999, 12, 31, 99), "archive.tar", Some("gz")),
        (meta(0, 0, 0, 0), "", None),
        (meta(2024, 2, 29, 10), "a b_c-d", Some("")),
    ];
    for (m, base, ext) in cases {
        let name = target_file_name(&m, base, ext);
        assert_eq!(metadata_from_file_name(&name), Some(m));
    }
}

#[test]
fn decoding_does_not_check_date_ranges() {
    assert_eq!(metadata_from_file_name("2025-13-45_00_x"), Some(meta(2025, 13, 45, 0)));
}

#[test]
fn foreign_names_do_not_decode() {
    let names = [
        "",
        "notes.txt",
        "2025-09-27",
        "2025-09-27_03",
        "2025-09-27_03x",
        "2025-09-27_3_x",
        "2025-9-27_03_x",
        "2025_09_27_03_x",
        "2025-09-27-03_x",
        "20a5-09-27_03_x",
        "2025-09-27_03_line\nbreak",
        "\u{0662}025-09-27_03_x",
    ];
    for name in names {
        assert_eq!(metadata_from_file_name(name), None, "{name:?}");
    }
}

#[test]
fn decoding_accepts_any_rest() {
    assert_eq!(metadata_from_file_name("2025-09-27_03_"), Some(meta(2025, 9, 27, 3)));
    assert_eq!(metadata_from_file_name("2025-09-27_03_ü.sha"), Some(meta(2025, 9, 27, 3)));
}

#[test]
fn decoding_agrees_with_the_name_pattern() {
    let pattern =
        regex::Regex::new(r"^(?<year>\d{4})\-(?<month>\d{2})\-(?<day>\d{2})\_(?<counter>\d{2})\_.*$")
            .unwrap();
    let names = [
        "2025-09-27_03_file1.txt.sha256",
        "23-09-27_file1.txt.sha256",
        "2025-09-27_03_a\nb",
        "0000-00-00_00_",
        "2025-09-27_003_x",
        "2025-09-27_03_x\r",
    ];
    for name in names {
        let expected = pattern.captures(name).and_then(|c| {
            Some(FileNameMetadata {
                year: c.name("year")?.as_str().parse().ok()?,
                month: c.name("month")?.as_str().parse().ok()?,
                day: c.name("day")?.as_str().parse().ok()?,
                counter: c.name("counter")?.as_str().parse().ok()?,
            })
        });
        assert_eq!(metadata_from_file_name(name), expected, "{name:?}");
    }
}
