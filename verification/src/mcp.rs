//! Errors of the MCP server and their stable codes.
use vstd::prelude::*;

verus! {

/// An error reported to MCP clients. Outside errors (I/O, internal) are
/// carried as their message.
#[derive(Debug, Clone)]
pub enum McpError {
    Search(String),
    Index(String),
    Model(String),
    Io(String),
    InvalidPath(String),
    Cancelled,
    Internal(String),
}

/// The code of each kind of error.
pub open spec fn mcp_error_code(e: McpError) -> Seq<char> {
    match e {
        McpError::Search(_) => "SEARCH_ERROR"@,
        McpError::Index(_) => "INDEX_ERROR"@,
        McpError::Model(_) => "MODEL_ERROR"@,
        McpError::Io(_) => "IO_ERROR"@,
        McpError::InvalidPath(_) => "INVALID_PATH"@,
        McpError::Cancelled => "CANCELLED"@,
        McpError::Internal(_) => "INTERNAL_ERROR"@,
    }
}

impl McpError {
    /// The stable code clients see for this error.
    pub fn error_code(&self) -> (r: &'static str)
        ensures
            r@ == mcp_error_code(*self),
    {
        match self {
            McpError::Search(_) => "SEARCH_ERROR",
            McpError::Index(_) => "INDEX_ERROR",
            McpError::Model(_) => "MODEL_ERROR",
            McpError::Io(_) => "IO_ERROR",
            McpError::InvalidPath(_) => "INVALID_PATH",
            McpError::Cancelled => "CANCELLED",
            McpError::Internal(_) => "INTERNAL_ERROR",
        }
    }
}

} // verus!
