//! The decisions behind each page: request checks, links, paging and the
//! assembly of what is shown.

pub mod archive;
pub mod blob;
pub mod commit;
pub mod errors;
pub mod log;
pub mod refs;
pub mod repo;
pub mod tree;
pub mod util;

use vstd::prelude::*;

verus! {

/// The query of an archive download: the reference to pack.
pub struct ArchiveQuery {
    pub ref_name: Option<String>,
}

/// The query of a directory listing: the reference and the directory.
pub struct TreeQuery {
    pub ref_name: Option<String>,
    pub path: Option<String>,
}

/// The query of a file view: the reference, the file, and whether the raw
/// content is asked for (`raw=1`).
pub struct BlobQuery {
    pub ref_name: Option<String>,
    pub path: String,
    pub raw: Option<u8>,
}

/// The query of a paged list: the reference and the page.
pub struct LogQuery {
    pub ref_name: Option<String>,
    pub page: Option<usize>,
}

/// The query of a commit page: the reference shown in its links.
pub struct CommitQuery {
    pub ref_name: Option<String>,
}

/// The query of one file's diff in a commit: the reference and the file.
pub struct CommitDiffQuery {
    pub ref_name: Option<String>,
    pub path: String,
}

impl BlobQuery {
    /// Whether the raw content is asked for.
    pub fn is_raw(&self) -> (r: bool)
        ensures
            r == (self.raw == Some(1u8)),
    {
        match self.raw {
            Some(v) => v == 1,
            None => false,
        }
    }
}

} // verus!
