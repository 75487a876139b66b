//! Which entries of a backup directory are backups, and what they say of themselves.
use vstd::prelude::*;

use crate::codec::{decode_name, metadata_from_file_name};
use crate::integrity::sidecar_name;
use crate::metadata::{records, BackupFile, BackupRecord};

verus! {

/// One entry of a directory listing, as the file system reported it.
#[derive(Debug, Clone)]
pub struct DirectoryEntry {
    /// The entry's name within the directory.
    pub file_name: String,
    /// The entry's full path.
    pub path: String,
    /// Whether the entry is a regular file.
    pub is_file: bool,
}

/// Whether `name` is the name of a sidecar digest file: it ends in `.sha256`.
pub open spec fn is_sidecar_name(name: Seq<char>) -> bool {
    exists|stem: Seq<char>| name == sidecar_name(stem)
}

/// The backup record that a directory entry stands for, if it stands for one: a
/// regular file, not a sidecar, whose name decodes.
pub open spec fn entry_record(e: DirectoryEntry) -> Option<BackupRecord> {
    if e.is_file && !is_sidecar_name(e.file_name@) {
        match decode_name(e.file_name@) {
            Some(m) => Some(BackupRecord { metadata: m, path: e.path@ }),
            None => None,
        }
    } else {
        None
    }
}

/// The backup records of a listing, in its order.
pub open spec fn scanned(entries: Seq<DirectoryEntry>) -> Seq<BackupRecord>
    decreases entries.len(),
{
    if entries.len() == 0 {
        Seq::empty()
    } else {
        match entry_record(entries.last()) {
            Some(r) => scanned(entries.drop_last()).push(r),
            None => scanned(entries.drop_last()),
        }
    }
}

/// Whether `name` ends in `.sha256`.
pub fn has_sidecar_suffix(name: &str) -> (r: bool)
    ensures
        r == is_sidecar_name(name@),
{
    let len = name.unicode_len();
    let ghost suffix = seq!['.', 's', 'h', 'a', '2', '5', '6'];
    if len < 7 {
        proof {
            if is_sidecar_name(name@) {
                let stem = choose|stem: Seq<char>| name@ == sidecar_name(stem);
                assert(name@.len() == stem.len() + 7);
            }
        }
        return false;
    }
    let s = len - 7;
    let r = name.get_char(s) == '.' && name.get_char(s + 1) == 's' && name.get_char(s + 2) == 'h'
        && name.get_char(s + 3) == 'a' && name.get_char(s + 4) == '2' && name.get_char(s + 5)
        == '5' && name.get_char(s + 6) == '6';
    proof {
        let stem = name@.subrange(0, s as int);
        if r {
            assert(name@ =~= sidecar_name(stem));
        }
        if is_sidecar_name(name@) {
            let st = choose|st: Seq<char>| name@ == sidecar_name(st);
            assert(st.len() == s);
            assert(name@[s + 0] == '.');
            assert(name@[s + 1] == 's');
            assert(name@[s + 2] == 'h');
            assert(name@[s + 3] == 'a');
            assert(name@[s + 4] == '2');
            assert(name@[s + 5] == '5');
            assert(name@[s + 6] == '6');
        }
    }
    r
}

/// The backups in a directory listing, in its order: each regular file that is not a
/// sidecar digest file and whose name decodes. Other entries are passed over.
pub fn metadata_from_directory(entries: &Vec<DirectoryEntry>) -> (r: Vec<BackupFile>)
    ensures
        records(r@) == scanned(entries@),
{
    let mut found: Vec<BackupFile> = Vec::new();
    let mut i: usize = 0;
    while i < entries.len()
        invariant
            i <= entries@.len(),
            records(found@) == scanned(entries@.subrange(0, i as int)),
        decreases entries.len() - i,
    {
        let e = &entries[i];
        let ghost prefix = entries@.subrange(0, i + 1);
        proof {
            assert(prefix.drop_last() =~= entries@.subrange(0, i as int));
            assert(prefix.last() == *e);
        }
        if e.is_file && !has_sidecar_suffix(e.file_name.as_str()) {
            if let Some(m) = metadata_from_file_name(e.file_name.as_str()) {
                let f = BackupFile::new(m, e.path.clone());
                let ghost before = found@;
                found.push(f);
                proof {
                    assert(records(found@) =~= records(before).push(f@));
                }
            }
        }
        i = i + 1;
    }
    proof {
        assert(entries@.subrange(0, entries@.len() as int) =~= entries@);
    }
    found
}

} // verus!
