//! The values the library exchanges with the file system and the user:
//! directory entries, file metadata and the output port.
use vstd::prelude::*;

use std::path::PathBuf;

verus! {

/// A path of the file system, carried through the library unchanged.
#[verifier::external_type_specification]
#[verifier::external_body]
pub struct ExPathBuf(PathBuf);

/// Structured directory entry: the path, the name and the kind of an
/// element of a directory.
#[derive(Debug)]
pub struct DirEntry {
    /// Full path to the entry.
    pub path: PathBuf,
    /// File or directory name.
    pub name: String,
    /// Whether it is a directory.
    pub is_dir: bool,
    /// Whether it is a regular file.
    pub is_file: bool,
}

/// The name and the directory flag of each entry.
pub open spec fn entries_view(entries: Seq<DirEntry>) -> Seq<(Seq<char>, bool)> {
    entries.map_values(|e: DirEntry| (e.name@, e.is_dir))
}

/// Structured file metadata.
#[derive(Debug, Clone, Copy)]
#[non_exhaustive]
pub struct FileMetadata {
    /// File size in bytes.
    pub len: u64,
}

impl FileMetadata {
    /// The metadata of a file of `len` bytes.
    pub fn new(len: u64) -> (r: Self)
        ensures
            r.len == len,
    {
        FileMetadata { len }
    }
}

/// Output port: user feedback, which the application routes to its console
/// or log.
pub trait OutputPort {
    /// Log an informational message.
    fn info(&self, msg: &str);
    /// Log a warning message.
    fn warn(&self, msg: &str);
    /// Log an error message.
    fn error(&self, msg: &str);
}

} // verus!
