use vstd::prelude::*;

verus! {

/// Date and per-day counter of one backup, as encoded in its file name.
///
/// Ordered by `(year, month, day, counter)`, ascending.
#[derive(Debug, Clone, Copy, PartialEq, Eq, Structural, Ord, Hash)]
pub struct FileNameMetadata {
    pub year: u32,
    pub month: u32,
    pub day: u32,
    pub counter: u32,
}

/// Lexicographic `<` on `(year, month, day, counter)`.
pub open spec fn key_lt(a: FileNameMetadata, b: FileNameMetadata) -> bool {
    a.year < b.year || (a.year == b.year && (a.month < b.month || (a.month == b.month && (
    a.day < b.day || (a.day == b.day && a.counter < b.counter)))))
}

/// Lexicographic `<=` on `(year, month, day, counter)`.
pub open spec fn key_le(a: FileNameMetadata, b: FileNameMetadata) -> bool {
    key_lt(a, b) || a == b
}

pub open spec fn ordering_of(a: FileNameMetadata, b: FileNameMetadata) -> core::cmp::Ordering {
    if key_lt(a, b) {
        core::cmp::Ordering::Less
    } else if a == b {
        core::cmp::Ordering::Equal
    } else {
        core::cmp::Ordering::Greater
    }
}

impl FileNameMetadata {
    /// Whether `self` sorts strictly before `other`.
    pub fn precedes(&self, other: &FileNameMetadata) -> (r: bool)
        ensures
            r == key_lt(*self, *other),
    {
        if self.year != other.year {
            self.year < other.year
        } else if self.month != other.month {
            self.month < other.month
        } else if self.day != other.day {
            self.day < other.day
        } else {
            self.counter < other.counter
        }
    }
}

impl PartialOrd for FileNameMetadata {
    fn partial_cmp(&self, other: &FileNameMetadata) -> (r: Option<core::cmp::Ordering>)
        ensures
            r == Some(ordering_of(*self, *other)),
    {
        if self.precedes(other) {
            Some(core::cmp::Ordering::Less)
        } else if *self == *other {
            Some(core::cmp::Ordering::Equal)
        } else {
            Some(core::cmp::Ordering::Greater)
        }
    }
}

impl vstd::std_specs::cmp::PartialOrdSpecImpl for FileNameMetadata {
    open spec fn obeys_partial_cmp_spec() -> bool {
        true
    }

    open spec fn partial_cmp_spec(&self, other: &FileNameMetadata) -> Option<core::cmp::Ordering> {
        Some(ordering_of(*self, *other))
    }
}

/// One backup file on disk: the identity decoded from its name, and its path.
#[derive(Debug, Clone)]
pub struct BackupFile {
    pub metadata: FileNameMetadata,
    pub path: String,
}

/// What a `BackupFile` is, mathematically.
pub struct BackupRecord {
    pub metadata: FileNameMetadata,
    pub path: Seq<char>,
}

impl View for BackupFile {
    type V = BackupRecord;

    open spec fn view(&self) -> BackupRecord {
        BackupRecord { metadata: self.metadata, path: self.path@ }
    }
}

/// The records that a sequence of backup files stands for.
pub open spec fn records(files: Seq<BackupFile>) -> Seq<BackupRecord> {
    files.map_values(|f: BackupFile| f@)
}

impl BackupFile {
    pub fn new(metadata: FileNameMetadata, path: String) -> (r: BackupFile)
        ensures
            r@ == (BackupRecord { metadata, path: path@ }),
    {
        BackupFile { metadata, path }
    }

    /// A copy that is the same record.
    pub fn duplicate(&self) -> (r: BackupFile)
        ensures
            r@ == self@,
    {
        BackupFile { metadata: self.metadata, path: self.path.clone() }
    }

    /// Whether both files are the same record: same date, counter and path.
    pub fn same_record(&self, other: &BackupFile) -> (r: bool)
        ensures
            r == (self@ == other@),
    {
        self.metadata == other.metadata && self.path == other.path
    }
}

impl PartialEq for BackupFile {
    fn eq(&self, other: &BackupFile) -> (r: bool)
        ensures
            r == (self@ == other@),
    {
        self.same_record(other)
    }
}

impl vstd::std_specs::cmp::PartialEqSpecImpl for BackupFile {
    open spec fn obeys_eq_spec() -> bool {
        true
    }

    open spec fn eq_spec(&self, other: &BackupFile) -> bool {
        self@ == other@
    }
}

impl Eq for BackupFile {
}

} // verus!
