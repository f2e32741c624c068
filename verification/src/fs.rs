//! The file-system questions that the library's decisions depend on, and the
//! answers it is handed back. The library never touches a disk itself: a
//! caller performs each request and reports the reply.
use vstd::prelude::*;

verus! {

/// What is known of a file-system entry from its metadata.
#[derive(Debug)]
pub struct FileMeta {
    pub is_file: bool,
    pub is_dir: bool,
    pub len: u64,
}

/// One entry of a directory listing. `is_dir` is `None` when the entry's
/// type could not be determined.
#[derive(Debug)]
pub struct DirEntry {
    pub name: String,
    pub is_dir: Option<bool>,
}

/// Why a directory could not be listed.
#[derive(Debug)]
pub enum ListingError {
    /// The directory could not be opened.
    Open(String),
    /// Reading the next entry failed.
    Next(String),
}

/// A file-system operation the library asks its caller to perform.
#[derive(Debug)]
pub enum FsRequest {
    /// Resolve a path to its absolute, symlink-free form.
    Canonicalize(String),
    /// Whether a path names an existing entry.
    Exists(String),
    /// The metadata of a path.
    Metadata(String),
    /// The contents of a file, as text.
    ReadToString(String),
    /// Replace the contents of a file, creating it if needed.
    Write { path: String, contents: String },
    /// The entries of a directory.
    ReadDir(String),
    /// Where a path leads when it is itself a symbolic link (the link is not
    /// followed): its target as stored, or `None` when the path is no link.
    ReadLink(String),
}

/// The outcome of an [`FsRequest`]; error texts are the operating system's.
#[derive(Debug)]
pub enum FsReply {
    Canonical(Result<String, String>),
    Exists(bool),
    Metadata(Result<FileMeta, String>),
    Text(Result<String, String>),
    Written(Result<(), String>),
    Entries(Result<Vec<DirEntry>, ListingError>),
    Link(Result<Option<String>, String>),
}

/// The path whose contents or metadata a request reads or changes; requests
/// that only resolve a path touch no file.
pub open spec fn touched_path(q: FsRequest) -> Option<Seq<char>> {
    match q {
        FsRequest::Metadata(p) => Some(p@),
        FsRequest::ReadToString(p) => Some(p@),
        FsRequest::Write { path, .. } => Some(path@),
        FsRequest::ReadDir(p) => Some(p@),
        FsRequest::Canonicalize(_) => None,
        FsRequest::Exists(_) => None,
        FsRequest::ReadLink(_) => None,
    }
}

} // verus!
