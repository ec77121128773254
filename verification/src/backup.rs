//! Planning of a backup archive: its names, and which walked entries go in.

use vstd::prelude::*;
use crate::text::{has_substring, str_contains};

verus! {

/// How the archive is to be compressed.
#[derive(Clone, Copy, Debug, PartialEq, Eq, Structural)]
pub enum CompressionType {
    Gzip,
    Bzip2,
    Xz,
    /// No compression (`none` on the command line).
    Plain,
}

impl CompressionType {
    /// The file name suffix of an archive compressed this way.
    pub open spec fn suffix(self) -> Seq<char> {
        match self {
            CompressionType::Gzip => ".tar.gz"@,
            CompressionType::Bzip2 => ".tar.bz2"@,
            CompressionType::Xz => ".tar.xz"@,
            CompressionType::Plain => ".tar"@,
        }
    }

    /// The file name suffix of an archive compressed this way.
    pub fn suffix_text(&self) -> (r: String)
        ensures
            r@ == self.suffix(),
    {
        match self {
            CompressionType::Gzip => ".tar.gz".to_owned(),
            CompressionType::Bzip2 => ".tar.bz2".to_owned(),
            CompressionType::Xz => ".tar.xz".to_owned(),
            CompressionType::Plain => ".tar".to_owned(),
        }
    }
}

/// What to back up, where, and how. The paths are held as they are shown
/// to the user (a path's `display()`); the files themselves are reached
/// through the paths the caller keeps.
#[derive(Debug)]
pub struct BackupConfig {
    pub source_path: String,
    pub output_dir: String,
    pub compression: CompressionType,
    pub compression_level: u8,
    pub exclude_patterns: Vec<String>,
}

/// A path is excluded when any of the patterns occurs in it.
pub open spec fn excluded(path: Seq<char>, patterns: Seq<String>) -> bool {
    exists|i: int| 0 <= i < patterns.len() && has_substring(path, #[trigger] patterns[i]@)
}

/// Whether `path` (as text) contains any of `patterns`.
pub fn should_exclude(path: &str, patterns: &Vec<String>) -> (r: bool)
    ensures
        r == excluded(path@, patterns@),
{
    let mut i: usize = 0;
    while i < patterns.len()
        invariant
            i <= patterns@.len(),
            forall|j: int| 0 <= j < i ==> !has_substring(path@, #[trigger] patterns@[j]@),
        decreases patterns@.len() - i,
    {
        if str_contains(path, patterns[i].as_str()) {
            return true;
        }
        i = i + 1;
    }
    false
}

/// The name the archive is written under: `backup_<timestamp>.tar`.
pub open spec fn archive_name(timestamp: Seq<char>) -> Seq<char> {
    "backup_"@ + timestamp + ".tar"@
}

/// The name the finished archive is given: `backup_<timestamp>` and the
/// suffix of its compression.
pub open spec fn final_archive_name(timestamp: Seq<char>, c: CompressionType) -> Seq<char> {
    "backup_"@ + timestamp + c.suffix()
}

/// The finished archive's name is the written name with the compression's
/// own extension after it, and different compressions give different
/// names.
pub proof fn lemma_final_names(timestamp: Seq<char>, c: CompressionType, d: CompressionType)
    ensures
        final_archive_name(timestamp, c) == archive_name(timestamp) + match c {
            CompressionType::Gzip => ".gz"@,
            CompressionType::Bzip2 => ".bz2"@,
            CompressionType::Xz => ".xz"@,
            CompressionType::Plain => Seq::<char>::empty(),
        },
        c != d ==> final_archive_name(timestamp, c) != final_archive_name(timestamp, d),
{
    reveal_strlit(".tar.gz");
    reveal_strlit(".tar.bz2");
    reveal_strlit(".tar.xz");
    reveal_strlit(".tar");
    reveal_strlit(".gz");
    reveal_strlit(".bz2");
    reveal_strlit(".xz");
    let base = "backup_"@ + timestamp;
    assert(final_archive_name(timestamp, c) =~= archive_name(timestamp) + match c {
        CompressionType::Gzip => ".gz"@,
        CompressionType::Bzip2 => ".bz2"@,
        CompressionType::Xz => ".xz"@,
        CompressionType::Plain => Seq::<char>::empty(),
    });
    if c != d {
        let x = final_archive_name(timestamp, c);
        let y = final_archive_name(timestamp, d);
        assert(x == base + c.suffix());
        assert(y == base + d.suffix());
        if x == y {
            assert(x.len() == y.len());
            assert(c.suffix().len() == d.suffix().len());
            let k: int = base.len() + 5int;
            assert(x[k] == c.suffix()[5]);
            assert(y[k] == d.suffix()[5]);
        }
    }
}

/// The error reported when the source does not exist.
pub open spec fn missing_source(path: Seq<char>) -> Seq<char> {
    "Source path does not exist: "@ + path
}

/// What to do with an entry met while walking the source.
#[derive(Clone, Copy, Debug, PartialEq, Eq, Structural)]
pub enum EntryAction {
    /// The entry matches an exclusion pattern.
    Skip,
    /// A regular file: add it to the archive.
    Append,
    /// Anything else (a directory, a link): nothing to add.
    Pass,
}

impl BackupConfig {
    /// The name the archive is written under for a backup taken at `timestamp`.
    pub fn archive_name(&self, timestamp: &str) -> (r: String)
        ensures
            r@ == archive_name(timestamp@),
    {
        let mut s = "backup_".to_owned();
        s.append(timestamp);
        s.append(".tar");
        s
    }

    /// The name the finished archive is renamed to.
    pub fn final_name(&self, timestamp: &str) -> (r: String)
        ensures
            r@ == final_archive_name(timestamp@, self.compression),
    {
        let mut s = "backup_".to_owned();
        s.append(timestamp);
        let suffix = self.compression.suffix_text();
        s.append(suffix.as_str());
        s
    }

    /// The error when the source path does not exist.
    pub fn missing_source_message(&self) -> (r: String)
        ensures
            r@ == missing_source(self.source_path@),
    {
        let mut s = "Source path does not exist: ".to_owned();
        s.append(self.source_path.as_str());
        s
    }

    /// What to do with the walked entry at `path`.
    pub fn entry_action(&self, path: &str, is_file: bool) -> (r: EntryAction)
        ensures
            r == (if excluded(path@, self.exclude_patterns@) {
                EntryAction::Skip
            } else if is_file {
                EntryAction::Append
            } else {
                EntryAction::Pass
            }),
    {
        if should_exclude(path, &self.exclude_patterns) {
            EntryAction::Skip
        } else if is_file {
            EntryAction::Append
        } else {
            EntryAction::Pass
        }
    }
}

} // verus!
