//! Plain values exchanged with the transport layer: requests, results,
//! status reports and the errors a tool call can end in.

use vstd::prelude::*;
use vstd::string::StringExecFns;

verus! {

/// The number of results a request gets when it names none.
pub const DEFAULT_MAX_RESULTS: u64 = 1000;

/// A search request as it arrives from a client, before any validation.
#[derive(Debug, Clone)]
pub struct SearchRequest {
    /// The text to look for; how it is read depends on `mode`.
    pub pattern: String,
    /// One of `exact`, `glob`, `regex`, `substring`, `fuzzy`, `smart`.
    pub mode: Option<String>,
    /// Text that the full path must contain, compared case-insensitively.
    pub path_contains: Option<String>,
    /// The drive letter, or `*` for every known volume.
    pub drive: Option<String>,
    /// Upper bound on the number of results.
    pub max_results: Option<u64>,
    /// One of `any`, `file`, `directory`.
    pub kind: Option<String>,
    /// Extensions to keep; leading dots and the case are ignored.
    pub extensions: Option<Vec<String>>,
    /// The name of a document class.
    pub doc_class: Option<String>,
    /// Smallest size, as digits with an optional unit: `512`, `10KB`, `1G`.
    pub min_size: Option<String>,
    /// Largest size, written like `min_size`.
    pub max_size: Option<String>,
    /// A day, written `YYYY-MM-DD`.
    pub modified_after: Option<String>,
}

/// One entry of a search response.
#[derive(Debug, Clone)]
pub struct SearchResult {
    pub id: u64,
    pub name: String,
    pub path: String,
    pub size: u64,
    pub is_directory: bool,
    pub modified: i64,
    pub extension: Option<String>,
}

/// Counters reported by a volume's engine.
#[derive(Debug, Clone, Default)]
pub struct SearchStats {
    pub file_count: u64,
    pub files_processed: u64,
    pub memory_usage_bytes: u64,
    pub last_update: i64,
    pub drive: char,
    pub last_applied_usn: i64,
    pub journal_id: u64,
}

/// What is known of the background service.
#[derive(Debug, Clone)]
pub enum ServiceStatus {
    /// Service is running normally.
    Running,
    /// Service is not running.
    Stopped,
    /// Service is running but not responding.
    Unresponsive,
    /// Service is in an error state.
    Error(String),
}

impl Default for ServiceStatus {
    fn default() -> (r: Self)
        ensures
            r is Stopped,
    {
        ServiceStatus::Stopped
    }
}

/// How a tool call can fail.
#[derive(Debug)]
pub enum McpError {
    Internal(String),
    InvalidParams(String),
    NotFound,
}

impl McpError {
    /// The text shown to a client for this error.
    pub open spec fn message_text(self) -> Seq<char> {
        match self {
            McpError::Internal(msg) => "Internal error: "@ + msg@,
            McpError::InvalidParams(msg) => "Invalid parameters: "@ + msg@,
            McpError::NotFound => "Not found"@,
        }
    }

    /// The text shown to a client for this error.
    pub fn message(&self) -> (r: String)
        ensures
            r@ == self.message_text(),
    {
        match self {
            McpError::Internal(msg) => String::from_str("Internal error: ").concat(msg.as_str()),
            McpError::InvalidParams(msg) => String::from_str("Invalid parameters: ").concat(
                msg.as_str(),
            ),
            McpError::NotFound => String::from_str("Not found"),
        }
    }
}

/// Settings of the HTTP adaptor.
#[derive(Debug, Clone)]
pub struct WebApiConfig {
    /// The port to bind the server to.
    pub port: u16,
    /// Whether to enable CORS.
    pub enable_cors: bool,
    /// Default number of results to return if not specified.
    pub default_max_results: usize,
}

impl Default for WebApiConfig {
    fn default() -> (r: Self)
        ensures
            r.port == 8080,
            r.enable_cors,
            r.default_max_results == 100,
    {
        WebApiConfig { port: 8080, enable_cors: true, default_max_results: 100 }
    }
}

/// One entry of an HTTP search response.
#[derive(Debug, Clone)]
pub struct FileResult {
    pub name: String,
    pub path: String,
    pub full_path: String,
    pub size: u64,
    pub is_directory: bool,
    pub size_formatted: String,
}

/// The HTTP adaptor's answer to a status request.
#[derive(Debug, Clone)]
pub struct StatusResponse {
    pub success: bool,
    pub status: String,
    pub message: String,
}

/// What the host's service manager reports of the service.
#[derive(Debug, Clone)]
pub struct ServiceStatusResponse {
    pub service_name: String,
    pub display_name: String,
    pub is_installed: bool,
    pub is_running: bool,
    pub pipe_accessible: bool,
    pub state: Option<String>,
    pub pid: Option<u32>,
    pub start_type: Option<String>,
    pub binary_path: Option<String>,
    pub last_check: String,
}

/// The number of results a request gets when it names none.
pub fn default_max_results() -> (r: u64)
    ensures
        r == DEFAULT_MAX_RESULTS,
{
    DEFAULT_MAX_RESULTS
}

/// The ticks of 100 ns between 1601-01-01 and 1970-01-01.
pub const FILETIME_UNIX_DIFF: i64 = 116_444_736_000_000_000;

/// The seconds since 1970-01-01 of a time in ticks of 100 ns since
/// 1601-01-01; 0 for a time that is not after the start of 1970.
pub open spec fn unix_seconds(ticks: i64) -> u64 {
    if ticks > FILETIME_UNIX_DIFF {
        ((ticks - FILETIME_UNIX_DIFF) / 10_000_000) as u64
    } else {
        0
    }
}

/// Converts a time of the file table to seconds since 1970-01-01.
pub fn filetime_to_unix(ticks: i64) -> (r: u64)
    ensures
        r == unix_seconds(ticks),
{
    if ticks > FILETIME_UNIX_DIFF {
        ((ticks - FILETIME_UNIX_DIFF) / 10_000_000) as u64
    } else {
        0
    }
}

impl ServiceStatusResponse {
    /// The service is installed and running, and its pipe can be opened.
    pub open spec fn is_healthy(self) -> bool {
        self.is_installed && self.is_running && self.pipe_accessible
    }

    /// The exit code of a status check: 0 for a healthy service, else 1.
    pub fn exit_code(&self) -> (r: i32)
        ensures
            r == if self.is_healthy() {
                0i32
            } else {
                1i32
            },
    {
        if self.is_installed && self.is_running && self.pipe_accessible {
            0
        } else {
            1
        }
    }

    /// One line that sums the status up.
    pub fn summary(&self) -> (r: &'static str)
        ensures
            r@ == if self.is_healthy() {
                "Service is running and accessible"@
            } else if self.is_installed && self.is_running {
                "Service is running but pipe is not accessible"@
            } else if self.is_installed {
                "Service is installed but not running"@
            } else {
                "Service is not installed"@
            },
    {
        if self.is_installed && self.is_running && self.pipe_accessible {
            "Service is running and accessible"
        } else if self.is_installed && self.is_running {
            "Service is running but pipe is not accessible"
        } else if self.is_installed {
            "Service is installed but not running"
        } else {
            "Service is not installed"
        }
    }
}

} // verus!
