//! Types of the editor-integration adapter.

use vstd::prelude::*;
use vstd::string::StringExecFns;

verus! {

/// Context attached to an editor request.
#[derive(Clone, Debug)]
pub struct CursorContext {
    pub files: Option<Vec<FileContext>>,
    pub selection: Option<SelectionContext>,
    pub conversation_history: Option<Vec<ConversationTurn>>,
    pub workspace_path: Option<String>,
}

/// One file the editor holds open.
#[derive(Clone, Debug)]
pub struct FileContext {
    pub path: String,
    pub content: Option<String>,
    pub language: Option<String>,
    pub is_active: Option<bool>,
}

/// The current selection in the editor.
#[derive(Clone, Debug)]
pub struct SelectionContext {
    pub file_path: String,
    pub start_line: u32,
    pub end_line: u32,
    pub content: String,
}

/// One prior turn of the editor conversation.
#[derive(Clone, Debug)]
pub struct ConversationTurn {
    pub role: String,
    pub content: String,
    pub timestamp: Option<String>,
}

/// How the adapter reaches the editor service.
#[derive(Clone, Debug)]
pub struct CursorAdapterConfig {
    pub base_url: String,
    pub port: u16,
    pub host: String,
    pub persona: String,
    pub timeout_ms: Option<u64>,
    pub max_retries: Option<u32>,
}

impl Default for CursorAdapterConfig {
    /// The local editor service on port 3001.
    fn default() -> (r: Self)
        ensures
            r.base_url@ == "http://localhost:3001"@,
            r.port == 3001,
            r.host@ == "localhost"@,
            r.persona@ == "Cursor Agent"@,
            r.timeout_ms == Some(30000u64),
            r.max_retries == Some(3u32),
    {
        CursorAdapterConfig {
            base_url: String::from_str("http://localhost:3001"),
            port: 3001,
            host: String::from_str("localhost"),
            persona: String::from_str("Cursor Agent"),
            timeout_ms: Some(30000),
            max_retries: Some(3),
        }
    }
}

/// Errors of the editor adapter.
#[derive(Debug)]
pub enum CursorError {
    ConnectionError(String),
    TimeoutError(String),
    ResponseError(String),
    SerializationError(String),
    NotAvailable(String),
}

impl CursorError {
    /// A short description of the error kind.
    pub fn kind(&self) -> (r: &'static str)
        ensures
            (self is TimeoutError) ==> r@ == "timeout"@,
    {
        match self {
            CursorError::ConnectionError(_) => "connection error",
            CursorError::TimeoutError(_) => "timeout",
            CursorError::ResponseError(_) => "response error",
            CursorError::SerializationError(_) => "serialization error",
            CursorError::NotAvailable(_) => "cursor not available",
        }
    }
}

} // verus!
