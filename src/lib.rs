//! Staggered file backups: a filename codec that carries each backup's date
//! and per-day counter, a grandfather-father-son retention classifier, and the
//! integrity checks that guard every copy.

pub mod calendar;
pub mod cli;
pub mod codec;
pub mod integrity;
pub mod laws;
pub mod metadata;
pub mod plan;
pub mod retention;
pub mod scan;

pub use calendar::date_from_unix_days;
pub use cli::{parse_str_to_source_pathbuf, parse_str_to_target_pathbuf, PathStatus};
pub use codec::{metadata_from_file_name, target_file_name};
pub use integrity::{
    generate_sha256_file_content, hash_file, sidecar_file_name, verify_copy, IntegrityError,
};
pub use metadata::{BackupFile, FileNameMetadata};
pub use plan::{files_to_trash, next_backup_metadata};
pub use retention::{identify_files_to_delete, identify_files_to_keep, RetentionPolicy};
pub use scan::{metadata_from_directory, DirectoryEntry};
