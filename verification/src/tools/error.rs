//! Errors that the file tools report to the model.
use vstd::prelude::*;
use crate::sandbox::PathError;
use crate::text::{decimal, push_decimal};

verus! {

/// Largest file, in bytes, that the read tool returns.
pub const MAX_FILE_SIZE: u64 = 1024 * 1024;

/// Largest contents, in bytes, that the write tool accepts.
pub const MAX_WRITE_SIZE: usize = 1024 * 1024;

/// The file tools.
#[derive(Clone, Copy, PartialEq, Eq, Debug)]
pub enum ToolKind {
    Edit,
    Write,
    Read,
    List,
}

/// Why a tool call failed.
#[derive(Debug)]
pub enum ToolError {
    /// The call's arguments did not have the tool's shape.
    InvalidArguments { tool: ToolKind, detail: String },
    /// The requested path was refused.
    Path(PathError),
    /// The metadata of `path` could not be read.
    StatFailed { path: String, detail: String },
    /// The file to edit is not a regular file.
    NotARegularFile { path: String },
    /// The file at `path` could not be read.
    ReadFailed { path: String, detail: String },
    /// The text to replace does not occur in the file.
    NoMatch { path: String },
    /// The text to replace occurs `count` times in the file.
    AmbiguousMatch { path: String, count: usize },
    /// The file at `path` could not be written.
    WriteFailed { path: String, detail: String },
    /// The contents to write are `len` bytes, more than the tool accepts.
    ContentsTooLarge { len: usize },
    /// The path to read is not a regular file.
    NotAFile { path: String },
    /// The file to read is `size` bytes, more than the tool returns.
    FileTooLarge { size: u64 },
    /// The path to list is not a directory.
    NotADirectory { path: String },
    /// Reading an entry of a directory failed.
    ListingFailed { detail: String },
}

/// What a tool's argument error is prefixed with.
pub open spec fn invalid_arguments_context(tool: ToolKind) -> Seq<char> {
    match tool {
        ToolKind::Edit => "Invalid argument to edit"@,
        ToolKind::Write => "Invalid argument for write"@,
        ToolKind::Read => "Invalid arguments for read_file"@,
        ToolKind::List => "Invalid arguments for list_directory"@,
    }
}

impl ToolError {
    /// The error's text, each context followed by its cause.
    pub open spec fn text(&self) -> Seq<char> {
        match self {
            ToolError::InvalidArguments { tool, detail } => invalid_arguments_context(*tool)
                + ": "@ + detail@,
            ToolError::Path(e) => e.text(),
            ToolError::StatFailed { path, detail } => "Failed to stat "@ + path@ + ": "@
                + detail@,
            ToolError::NotARegularFile { path } => "Failed to stat "@ + path@,
            ToolError::ReadFailed { path, detail } => "Failed to read "@ + path@ + ": "@
                + detail@,
            ToolError::NoMatch { path } => "old_str not found in "@ + path@
                + ". The text must match exactly, including whitespace."@,
            ToolError::AmbiguousMatch { path, count } => "old_str matched "@ + decimal(
                *count as nat,
            ) + " time in "@ + path@
                + ". It must match exactly once. Include more surrounding context (3-5 lines) to make the match unique."@,
            ToolError::WriteFailed { path, detail } => "Failed to write "@ + path@ + ": "@
                + detail@,
            ToolError::ContentsTooLarge { len } => "Contents too large ("@ + decimal(*len as nat)
                + " bytes, max "@ + decimal(MAX_WRITE_SIZE as nat) + " bytes)"@,
            ToolError::NotAFile { path } => "Path is not a file: "@ + path@,
            ToolError::FileTooLarge { size } => "File is too large ("@ + decimal(*size as nat)
                + " bytes, max "@ + decimal(MAX_FILE_SIZE as nat) + " bytes)"@,
            ToolError::NotADirectory { path } => "Path is not a directory: "@ + path@,
            ToolError::ListingFailed { detail } => detail@,
        }
    }

    /// The error's text.
    pub fn message(&self) -> (r: String)
        ensures
            r@ == self.text(),
    {
        let mut r = String::new();
        match self {
            ToolError::InvalidArguments { tool, detail } => {
                match tool {
                    ToolKind::Edit => r.push_str("Invalid argument to edit"),
                    ToolKind::Write => r.push_str("Invalid argument for write"),
                    ToolKind::Read => r.push_str("Invalid arguments for read_file"),
                    ToolKind::List => r.push_str("Invalid arguments for list_directory"),
                }
                r.push_str(": ");
                r.push_str(detail.as_str());
            },
            ToolError::Path(e) => {
                r = e.message();
            },
            ToolError::StatFailed { path, detail } => {
                r.push_str("Failed to stat ");
                r.push_str(path.as_str());
                r.push_str(": ");
                r.push_str(detail.as_str());
            },
            ToolError::NotARegularFile { path } => {
                r.push_str("Failed to stat ");
                r.push_str(path.as_str());
            },
            ToolError::ReadFailed { path, detail } => {
                r.push_str("Failed to read ");
                r.push_str(path.as_str());
                r.push_str(": ");
                r.push_str(detail.as_str());
            },
            ToolError::NoMatch { path } => {
                r.push_str("old_str not found in ");
                r.push_str(path.as_str());
                r.push_str(". The text must match exactly, including whitespace.");
            },
            ToolError::AmbiguousMatch { path, count } => {
                r.push_str("old_str matched ");
                push_decimal(&mut r, *count as u64);
                r.push_str(" time in ");
                r.push_str(path.as_str());
                r.push_str(
                    ". It must match exactly once. Include more surrounding context (3-5 lines) to make the match unique.",
                );
            },
            ToolError::WriteFailed { path, detail } => {
                r.push_str("Failed to write ");
                r.push_str(path.as_str());
                r.push_str(": ");
                r.push_str(detail.as_str());
            },
            ToolError::ContentsTooLarge { len } => {
                r.push_str("Contents too large (");
                push_decimal(&mut r, *len as u64);
                r.push_str(" bytes, max ");
                push_decimal(&mut r, MAX_WRITE_SIZE as u64);
                r.push_str(" bytes)");
            },
            ToolError::NotAFile { path } => {
                r.push_str("Path is not a file: ");
                r.push_str(path.as_str());
            },
            ToolError::FileTooLarge { size } => {
                r.push_str("File is too large (");
                push_decimal(&mut r, *size);
                r.push_str(" bytes, max ");
                push_decimal(&mut r, MAX_FILE_SIZE);
                r.push_str(" bytes)");
            },
            ToolError::NotADirectory { path } => {
                r.push_str("Path is not a directory: ");
                r.push_str(path.as_str());
            },
            ToolError::ListingFailed { detail } => {
                r = detail.clone();
            },
        }
        r
    }
}

} // verus!
