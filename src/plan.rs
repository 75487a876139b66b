//! The decisions of a backup run: the new backup's counter, what goes to the trash,
//! and which command-line paths are acceptable.
use vstd::prelude::*;

use crate::integrity::{sidecar_file_name, sidecar_name};
use crate::metadata::{records, BackupFile, BackupRecord, FileNameMetadata};

verus! {

pub open spec fn on_day(m: FileNameMetadata, year: u32, month: u32, day: u32) -> bool {
    m.year == year && m.month == month && m.day == day
}

/// Date and counter of a new backup on day `(year, month, day)`: one more than the
/// highest counter of that day among `existing`, or 0 when that day has none. `None`
/// when that counter would not fit.
pub fn next_backup_metadata(existing: &Vec<BackupFile>, year: u32, month: u32, day: u32) -> (r:
    Option<FileNameMetadata>)
    ensures
        r is None <==> exists|k: int|
            0 <= k < existing@.len() && on_day(#[trigger] existing@[k].metadata, year, month, day)
                && existing@[k].metadata.counter == u32::MAX,
        r matches Some(m) ==> {
            &&& m.year == year && m.month == month && m.day == day
            &&& forall|k: int|
                0 <= k < existing@.len() && on_day(#[trigger] existing@[k].metadata, year, month, day)
                    ==> existing@[k].metadata.counter < m.counter
            &&& m.counter == 0 || exists|k: int|
                0 <= k < existing@.len() && on_day(#[trigger] existing@[k].metadata, year, month, day)
                    && existing@[k].metadata.counter + 1 == m.counter
        },
{
    let mut next: u32 = 0;
    let mut i: usize = 0;
    while i < existing.len()
        invariant
            i <= existing@.len(),
            forall|k: int|
                0 <= k < i && on_day(#[trigger] existing@[k].metadata, year, month, day)
                    ==> existing@[k].metadata.counter < next,
            next == 0 || exists|k: int|
                0 <= k < i && on_day(#[trigger] existing@[k].metadata, year, month, day)
                    && existing@[k].metadata.counter + 1 == next,
        decreases existing.len() - i,
    {
        let m = existing[i].metadata;
        if m.year == year && m.month == month && m.day == day && m.counter >= next {
            if m.counter == u32::MAX {
                return None;
            }
            next = m.counter + 1;
        }
        i = i + 1;
    }
    Some(FileNameMetadata { year, month, day, counter: next })
}

/// The paths to move to the trash for the backups `files`: each backup's path, in
/// order, then each one's sidecar digest file.
pub open spec fn trash_list(files: Seq<BackupRecord>) -> Seq<Seq<char>> {
    files.map_values(|r: BackupRecord| r.path) + files.map_values(
        |r: BackupRecord| sidecar_name(r.path),
    )
}

pub open spec fn string_views(v: Seq<String>) -> Seq<Seq<char>> {
    v.map_values(|s: String| s@)
}

/// The paths to move to the trash when `files` are deleted, sidecars included.
pub fn files_to_trash(files: &Vec<BackupFile>) -> (r: Vec<String>)
    ensures
        string_views(r@) == trash_list(records(files@)),
{
    let ghost rs = records(files@);
    let mut paths: Vec<String> = Vec::new();
    let mut i: usize = 0;
    while i < files.len()
        invariant
            i <= files@.len(),
            rs == records(files@),
            string_views(paths@) == rs.subrange(0, i as int).map_values(|r: BackupRecord| r.path),
        decreases files.len() - i,
    {
        let ghost before = paths@;
        paths.push(files[i].path.clone());
        proof {
            assert(rs[i as int] == files@[i as int]@);
            assert(string_views(paths@) =~= string_views(before).push(rs[i as int].path));
            assert(rs.subrange(0, i + 1).map_values(|r: BackupRecord| r.path) =~= rs.subrange(
                0,
                i as int,
            ).map_values(|r: BackupRecord| r.path).push(rs[i as int].path));
        }
        i = i + 1;
    }
    let ghost first = string_views(paths@);
    let mut j: usize = 0;
    while j < files.len()
        invariant
            j <= files@.len(),
            rs == records(files@),
            first == rs.map_values(|r: BackupRecord| r.path),
            string_views(paths@) == first + rs.subrange(0, j as int).map_values(
                |r: BackupRecord| sidecar_name(r.path),
            ),
        decreases files.len() - j,
    {
        let ghost before = paths@;
        paths.push(sidecar_file_name(files[j].path.as_str()));
        proof {
            assert(rs[j as int] == files@[j as int]@);
            assert(string_views(paths@) =~= string_views(before).push(sidecar_name(rs[j as int].path)));
            assert(rs.subrange(0, j + 1).map_values(|r: BackupRecord| sidecar_name(r.path)) =~= rs.subrange(
                0,
                j as int,
            ).map_values(|r: BackupRecord| sidecar_name(r.path)).push(sidecar_name(rs[j as int].path)));
        }
        j = j + 1;
    }
    proof {
        assert(rs.subrange(0, rs.len() as int) =~= rs);
    }
    paths
}

} // verus!
