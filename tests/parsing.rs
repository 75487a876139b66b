use staggered_backup::{metadata_from_file_name, FileNameMetadata};

#[test]
fn parsing_test_parse_file_name_valid() {
    let file_name = "2025-09-27_03_file1.txt.sha256";

    let result = metadata_from_file_name(file_name);

    assert_eq!(
        result,
        Some(FileNameMetadata {
            year: 2025,
            month: 09,
            day: 27,
            counter: 03
        })
    )
}

#[test]
fn parsing_test_parse_file_name_invalid() {
    let file_name = "23-09-27_file1.txt.sha256";

    let result = metadata_from_file_name(file_name);

    assert_eq!(result, None)
}

#[test]
fn test_ordering() {
    let mut entries = vec![
        FileNameMetadata {
            year: 2025,
            month: 08,
            day: 01,
            counter: 02,
        },
        FileNameMetadata {
            year: 2025,
            month: 09,
            day: 01,
            counter: 00,
        },
        FileNameMetadata {
            year: 2025,
            month: 08,
            day: 01,
            counter: 01,
        },
        FileNameMetadata {
            year: 2025,
            month: 08,
            day: 02,
            counter: 03,
        },
    ];

    entries.sort();

    assert_eq!(
        entries,
        vec![
            FileNameMetadata {
                year: 2025,
                month: 08,
                day: 01,
                counter: 01,
            },
            FileNameMetadata {
                year: 2025,
                month: 08,
                day: 01,
                counter: 02,
            },
            FileNameMetadata {
                year: 2025,
                month: 08,
                day: 02,
                counter: 03,
            },
            FileNameMetadata {
                year: 2025,
                month: 09,
                day: 01,
                counter: 00,
            },
        ]
    )
}

#[test]
fn partial_cmp_agrees_with_derived_order() {
    let a = FileNameMetadata { year: 2025, month: 8, day: 1, counter: 2 };
    let b = FileNameMetadata { year: 2025, month: 8, day: 2, counter: 0 };
    let c = FileNameMetadata { year: 2024, month: 12, day: 31, counter: 99 };
    for x in [a, b, c] {
        for y in [a, b, c] {
            assert_eq!(x.partial_cmp(&y), Some(x.cmp(&y)));
            assert_eq!(x.precedes(&y), x < y);
        }
    }
}
