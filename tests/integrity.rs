use staggered_backup::{
    generate_sha256_file_content, hash_file, sidecar_file_name, verify_copy, IntegrityError,
};

#[test]
fn digest_is_upper_case_sha256() {
    assert_eq!(
        hash_file(b"abc"),
        "BA7816BF8F01CFEA414140DE5DAE2223B00361A396177A9CB410FF61F20015AD"
    );
    assert_eq!(
        hash_file(b""),
        "E3B0C44298FC1C149AFBF4C8996FB92427AE41E4649B934CA495991B7852B855"
    );
}

#[test]
fn sidecar_line_format() {
    assert_eq!(
        generate_sha256_file_content("ABCD", "2025-09-27_00_x.txt"),
        "ABCD *2025-09-27_00_x.txt\n"
    );
}

#[test]
fn sidecar_name_appends_suffix() {
    assert_eq!(sidecar_file_name("dir/2025-09-27_00_x"), "dir/2025-09-27_00_x.sha256");
}

#[test]
fn matching_copy_yields_sidecar() {
    let source = hash_file(b"payload");
    let target = hash_file(b"payload");
    let content = verify_copy(&source, &target, "2025-09-27_00_p").unwrap();
    assert_eq!(content, format!("{source} *2025-09-27_00_p\n"));
    assert_eq!(content.len(), 64 + 2 + "2025-09-27_00_p".len() + 1);
}

#[test]
fn corrupted_copy_is_refused_without_sidecar() {
    let source_bytes = b"important data".to_vec();
    let mut copy = source_bytes.clone();
    copy[3] ^= 0x01;
    let source = hash_file(&source_bytes);
    let target = hash_file(&copy);
    assert_ne!(source, target);
    let outcome = verify_copy(&source, &target, "2025-09-27_00_important");
    assert_eq!(
        outcome,
        Err(IntegrityError::HashMismatch { source_hash: source, target_hash: target })
    );
}
