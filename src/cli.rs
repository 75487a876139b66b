//! Acceptance of the source and target paths given on the command line.
use vstd::prelude::*;

verus! {

/// What the file system reports of a path.
#[derive(Debug)]
pub struct PathStatus {
    /// Whether the path names a regular file.
    pub is_file: bool,
    /// Whether the path names a directory.
    pub is_dir: bool,
    /// Whether the path exists, or why that could not be found out.
    pub exists: Result<bool, String>,
}

/// The path `s` when it is of the right kind and exists; else the reason to refuse it:
/// `refusal`, or the error met while looking for it.
pub open spec fn path_verdict(
    s: Seq<char>,
    right_kind: bool,
    exists: Result<bool, String>,
    refusal: Seq<char>,
) -> Result<Seq<char>, Seq<char>> {
    if !right_kind {
        Err(refusal)
    } else {
        match exists {
            Ok(true) => Ok(s),
            Ok(false) => Err(refusal),
            Err(e) => Err(e@),
        }
    }
}

pub open spec fn result_view(r: Result<String, String>) -> Result<Seq<char>, Seq<char>> {
    match r {
        Ok(p) => Ok(p@),
        Err(m) => Err(m@),
    }
}

/// Accepts `s` as the file to back up when it names an existing regular file; else
/// says why not.
pub fn parse_str_to_source_pathbuf(s: &str, status: &PathStatus) -> (r: Result<String, String>)
    ensures
        result_view(r) == path_verdict(s@, status.is_file, status.exists, "Source is not a file"@),
{
    accept_path(s, status.is_file, &status.exists, "Source is not a file")
}

/// Accepts `s` as the directory to hold the backups when it names an existing
/// directory; else says why not.
pub fn parse_str_to_target_pathbuf(s: &str, status: &PathStatus) -> (r: Result<String, String>)
    ensures
        result_view(r) == path_verdict(
            s@,
            status.is_dir,
            status.exists,
            "Target folder path is not a directory"@,
        ),
{
    accept_path(s, status.is_dir, &status.exists, "Target folder path is not a directory")
}

fn accept_path(s: &str, right_kind: bool, exists: &Result<bool, String>, refusal: &str) -> (r: Result<
    String,
    String,
>)
    ensures
        result_view(r) == path_verdict(s@, right_kind, *exists, refusal@),
{
    if !right_kind {
        return Err(String::from_str(refusal));
    }
    match exists {
        Ok(true) => Ok(String::from_str(s)),
        Ok(false) => Err(String::from_str(refusal)),
        Err(e) => Err(e.clone()),
    }
}

} // verus!
