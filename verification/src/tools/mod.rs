//! The file tools offered to the model: their names, descriptions, and the
//! decisions each makes while it runs.
pub mod edit_file;
pub mod error;
pub mod list_directory;
pub mod read_file;
pub mod write_file;

use vstd::prelude::*;
use crate::fs::FsRequest;
use crate::tools::error::ToolError;

verus! {

/// What follows a step of a tool run.
pub enum ToolStep<S> {
    /// Perform the request and hand its reply to the new run state.
    Ask(S, FsRequest),
    /// The tool call is over, with its output or its error.
    Finish(Result<String, ToolError>),
}

} // verus!
