use fastsearch::file_types::DocumentType;
use fastsearch::journal::{
    journal_was_reset, next_phase, poll_decision, Phase, WatchAction, WatchEvent, WatchState,
};
use fastsearch::query::{ErrorKind, KindFilter, MatchMode, QueryError};
use fastsearch::types::{
    default_max_results, filetime_to_unix, McpError, SearchRequest, ServiceStatus,
    ServiceStatusResponse, WebApiConfig,
};
use fastsearch::validation::{
    parse_drive, parse_kind, parse_mode, parse_request, parse_size, validate_date_format,
    validate_search_args, validate_size_format, RequestError,
};

fn request(pattern: &str) -> SearchRequest {
    SearchRequest {
        pattern: pattern.to_string(),
        mode: None,
        path_contains: None,
        drive: None,
        max_results: None,
        kind: None,
        extensions: None,
        doc_class: None,
        min_size: None,
        max_size: None,
        modified_after: None,
    }
}

#[test]
fn defaults_are_filled_in() {
    let q = parse_request(&request("report")).unwrap();
    assert_eq!(q.pattern, "report");
    assert_eq!(q.mode, MatchMode::Smart);
    assert_eq!(q.drive, 'C');
    assert_eq!(q.max_results, 1000);
    assert_eq!(default_max_results(), 1000);
    assert_eq!(q.kind_filter, KindFilter::Any);
    assert_eq!(q.path_contains, None);
    assert_eq!(q.extensions, None);
    assert_eq!(q.doc_class, None);
    assert_eq!(q.min_size, None);
    assert_eq!(q.max_size, None);
}

#[test]
fn every_field_is_read() {
    let mut r = request("*.RS");
    r.mode = Some("glob".to_string());
    r.path_contains = Some("\\Src\\".to_string());
    r.drive = Some("d:".to_string());
    r.max_results = Some(10000);
    r.kind = Some("file".to_string());
    r.extensions = Some(vec![".RS".to_string(), "toml".to_string()]);
    r.doc_class = Some("Code".to_string());
    r.min_size = Some("1KB".to_string());
    r.max_size = Some("2M".to_string());
    r.modified_after = Some("2025-07-17".to_string());
    let q = parse_request(&r).unwrap();
    assert_eq!(q.mode, MatchMode::Glob);
    assert_eq!(q.path_contains, Some("\\Src\\".to_string()));
    assert_eq!(q.drive, 'D');
    assert_eq!(q.max_results, 10000);
    assert_eq!(q.kind_filter, KindFilter::File);
    assert_eq!(q.extensions, Some(vec![".RS".to_string(), "toml".to_string()]));
    assert_eq!(q.doc_class, Some(DocumentType::Code));
    assert_eq!(q.min_size, Some(1024));
    assert_eq!(q.max_size, Some(2 * 1024 * 1024));
    assert_eq!(validate_search_args(&r), Ok(()));
}

#[test]
fn faults_are_reported_in_order() {
    let mut r = request("");
    r.mode = Some("nonsense".to_string());
    assert_eq!(parse_request(&r).err(), Some(RequestError::Query(QueryError::EmptyPattern)));
    r.pattern = "x".repeat(1001);
    assert_eq!(parse_request(&r).err(), Some(RequestError::Query(QueryError::PatternTooLong)));
    r.pattern = "..\\..\\etc".to_string();
    assert_eq!(parse_request(&r).err(), Some(RequestError::Query(QueryError::PathTraversal)));
    assert_eq!(validate_search_args(&r), Err(RequestError::Query(QueryError::PathTraversal)));
    r.pattern = "ok".to_string();
    r.max_results = Some(0);
    r.kind = Some("folder".to_string());
    assert_eq!(parse_request(&r).err(), Some(RequestError::BadMode));
    r.mode = Some("fuzzy".to_string());
    assert_eq!(parse_request(&r).err(), Some(RequestError::Query(QueryError::BadMaxResults)));
    r.max_results = Some(10001);
    assert_eq!(parse_request(&r).err(), Some(RequestError::Query(QueryError::BadMaxResults)));
    r.max_results = Some(1);
    r.drive = Some("CD".to_string());
    assert_eq!(parse_request(&r).err(), Some(RequestError::BadKind));
    r.kind = Some("directory".to_string());
    r.doc_class = Some("movies".to_string());
    assert_eq!(parse_request(&r).err(), Some(RequestError::BadDrive));
    r.drive = Some("*".to_string());
    r.min_size = Some("ten".to_string());
    assert_eq!(parse_request(&r).err(), Some(RequestError::BadDocClass));
    r.doc_class = Some("video".to_string());
    r.modified_after = Some("17.07.2025".to_string());
    assert_eq!(parse_request(&r).err(), Some(RequestError::BadSize));
    r.min_size = Some("10".to_string());
    r.max_size = Some("10XB".to_string());
    assert_eq!(parse_request(&r).err(), Some(RequestError::BadSize));
    r.max_size = None;
    assert_eq!(parse_request(&r).err(), Some(RequestError::BadDate));
    r.modified_after = None;
    let q = parse_request(&r).unwrap();
    assert_eq!(q.mode, MatchMode::Substring);
    assert_eq!(q.drive, '*');
    assert_eq!(q.kind_filter, KindFilter::Directory);
    r.mode = Some("regex".to_string());
    r.pattern = "(".to_string();
    assert_eq!(parse_request(&r).err(), Some(RequestError::Query(QueryError::BadRegex)));
}

#[test]
fn errors_have_a_kind_and_a_message() {
    assert_eq!(RequestError::BadSize.kind(), ErrorKind::InvalidPattern);
    assert_eq!(RequestError::Query(QueryError::PathTraversal).kind(), ErrorKind::InvalidPattern);
    assert_eq!(RequestError::Query(QueryError::BadMaxResults).kind(), ErrorKind::InvalidArgument);
    for e in [
        RequestError::BadMode,
        RequestError::BadKind,
        RequestError::BadDocClass,
        RequestError::BadDrive,
        RequestError::BadDate,
    ] {
        assert_eq!(e.kind(), ErrorKind::InvalidArgument);
        assert!(!e.message().is_empty());
    }
    assert_eq!(RequestError::BadSize.message(), "Invalid size format. Use: 1KB, 10MB, 1GB, etc.");
    assert_eq!(
        RequestError::Query(QueryError::EmptyPattern).message(),
        "Pattern cannot be empty"
    );
}

#[test]
fn sizes_are_digits_with_an_optional_unit() {
    assert_eq!(parse_size("0"), Some(0));
    assert_eq!(parse_size("512"), Some(512));
    assert_eq!(parse_size("007"), Some(7));
    assert_eq!(parse_size("5B"), Some(5));
    assert_eq!(parse_size("5BB"), Some(5));
    assert_eq!(parse_size("1K"), Some(1024));
    assert_eq!(parse_size("1KB"), Some(1024));
    assert_eq!(parse_size("10MB"), Some(10 * 1024 * 1024));
    assert_eq!(parse_size("3G"), Some(3 * 1024 * 1024 * 1024));
    assert_eq!(parse_size("2TB"), Some(2 * 1024u64.pow(4)));
    assert_eq!(parse_size("18446744073709551615"), Some(u64::MAX));
    assert_eq!(parse_size("16777215TB"), Some(16777215 * 1024u64.pow(4)));
    for bad in [
        "", "B", "KB", "K", "1kb", "1 KB", "1.5MB", "-1", "+1", "1KBB", "1BK", "1PB", "MB1",
        "18446744073709551616", "16777216TB", "99999999999999999999",
    ] {
        assert_eq!(parse_size(bad), None, "{}", bad);
        assert_eq!(validate_size_format(bad), Err(RequestError::BadSize));
    }
    assert_eq!(validate_size_format("1GB"), Ok(()));
}

#[test]
fn dates_are_four_two_and_two_digits() {
    assert_eq!(validate_date_format("2025-07-17"), Ok(()));
    assert_eq!(validate_date_format("0000-00-00"), Ok(()));
    for bad in ["", "2025-7-17", "2025/07/17", "2025-07-17 ", "20250717", "2025-07-1x", "abcd-ef-gh"] {
        assert_eq!(validate_date_format(bad), Err(RequestError::BadDate));
    }
}

#[test]
fn names_of_modes_kinds_and_drives() {
    assert_eq!(parse_mode("exact"), Some(MatchMode::Exact));
    assert_eq!(parse_mode("glob"), Some(MatchMode::Glob));
    assert_eq!(parse_mode("regex"), Some(MatchMode::Regex));
    assert_eq!(parse_mode("substring"), Some(MatchMode::Substring));
    assert_eq!(parse_mode("fuzzy"), Some(MatchMode::Substring));
    assert_eq!(parse_mode("smart"), Some(MatchMode::Smart));
    // The names are taken as they are written.
    for other in ["", "SMART", "Regex", "FUZZY", "Glob", " exact", "exact "] {
        assert_eq!(parse_mode(other), None, "{}", other);
    }
    assert_eq!(parse_kind("any"), Some(KindFilter::Any));
    assert_eq!(parse_kind("file"), Some(KindFilter::File));
    assert_eq!(parse_kind("directory"), Some(KindFilter::Directory));
    for other in ["", "ANY", "File", "dir"] {
        assert_eq!(parse_kind(other), None, "{}", other);
    }
    assert_eq!(parse_drive("c"), Some('C'));
    assert_eq!(parse_drive("Z:"), Some('Z'));
    assert_eq!(parse_drive("*"), Some('*'));
    for bad in ["", "1", "c:\\", "*:", "cc", ":", "\u{e9}"] {
        assert_eq!(parse_drive(bad), None);
    }
}

#[test]
fn watcher_follows_its_state_machine() {
    assert_eq!(next_phase(Phase::Idle, WatchEvent::Start), (Phase::Reading, WatchAction::Read));
    assert_eq!(
        next_phase(Phase::Reading, WatchEvent::BatchApplied),
        (Phase::Reading, WatchAction::PersistAndRead)
    );
    assert_eq!(
        next_phase(Phase::Reading, WatchEvent::JournalReset),
        (Phase::Rebuilding, WatchAction::Rebuild)
    );
    assert_eq!(
        next_phase(Phase::Rebuilding, WatchEvent::RebuildSucceeded),
        (Phase::Reading, WatchAction::Read)
    );
    assert_eq!(next_phase(Phase::Rebuilding, WatchEvent::RebuildFailed), (Phase::Idle, WatchAction::Halt));
    assert_eq!(next_phase(Phase::Reading, WatchEvent::Stop), (Phase::Idle, WatchAction::Halt));
    assert_eq!(next_phase(Phase::Rebuilding, WatchEvent::Stop), (Phase::Idle, WatchAction::Halt));
    assert_eq!(next_phase(Phase::Idle, WatchEvent::Stop), (Phase::Idle, WatchAction::Nothing));
    assert_eq!(next_phase(Phase::Idle, WatchEvent::JournalReset), (Phase::Idle, WatchAction::Nothing));
    assert_eq!(next_phase(Phase::Reading, WatchEvent::Start), (Phase::Reading, WatchAction::Nothing));
    assert_eq!(
        next_phase(Phase::Rebuilding, WatchEvent::BatchApplied),
        (Phase::Rebuilding, WatchAction::Nothing)
    );
    let state = WatchState { last_applied_usn: 5, journal_id: 7, pending_rename: None };
    assert!(!journal_was_reset(&state, Some(7)));
    assert!(journal_was_reset(&state, Some(8)));
    assert!(journal_was_reset(&state, None));
    assert_eq!(poll_decision(None, 100), (100, false));
    assert_eq!(poll_decision(None, 0), (0, false));
    // A journal that starts at 0 reports its first change too.
    assert_eq!(poll_decision(Some(0), 8), (8, true));
    assert_eq!(poll_decision(Some(100), 150), (150, true));
    assert_eq!(poll_decision(Some(150), 150), (150, false));
    assert_eq!(poll_decision(Some(150), 10), (150, false));
}

#[test]
fn transport_values_have_their_defaults() {
    let config = WebApiConfig::default();
    assert_eq!(config.port, 8080);
    assert!(config.enable_cors);
    assert_eq!(config.default_max_results, 100);
    assert!(matches!(ServiceStatus::default(), ServiceStatus::Stopped));
    assert_eq!(McpError::Internal("disk".to_string()).message(), "Internal error: disk");
    assert_eq!(McpError::InvalidParams("pattern".to_string()).message(), "Invalid parameters: pattern");
    assert_eq!(McpError::NotFound.message(), "Not found");
}

#[test]
fn file_table_times_become_unix_seconds() {
    assert_eq!(filetime_to_unix(116_444_736_000_000_000), 0);
    assert_eq!(filetime_to_unix(116_444_736_010_000_000), 1);
    assert_eq!(filetime_to_unix(116_444_736_009_999_999), 0);
    assert_eq!(filetime_to_unix(133_000_000_000_000_000), 1_655_526_400);
    assert_eq!(filetime_to_unix(0), 0);
    assert_eq!(filetime_to_unix(-5), 0);
    assert_eq!(filetime_to_unix(i64::MAX), 910_692_730_085);
}

#[test]
fn status_is_summed_up() {
    let mut status = ServiceStatusResponse {
        service_name: "FastSearchService".to_string(),
        display_name: "FastSearch NTFS Service".to_string(),
        is_installed: true,
        is_running: true,
        pipe_accessible: true,
        state: Some("Running".to_string()),
        pid: Some(4242),
        start_type: None,
        binary_path: None,
        last_check: "2025-07-17T00:00:00Z".to_string(),
    };
    assert_eq!(status.exit_code(), 0);
    assert_eq!(status.summary(), "Service is running and accessible");
    status.pipe_accessible = false;
    assert_eq!(status.exit_code(), 1);
    assert_eq!(status.summary(), "Service is running but pipe is not accessible");
    status.is_running = false;
    status.pipe_accessible = true;
    assert_eq!(status.exit_code(), 1);
    assert_eq!(status.summary(), "Service is installed but not running");
    status.is_installed = false;
    status.is_running = true;
    assert_eq!(status.exit_code(), 1);
    assert_eq!(status.summary(), "Service is not installed");
}

#[test]
fn a_mode_in_another_case_is_refused() {
    let mut r = request("a");
    r.mode = Some("SMART".to_string());
    assert_eq!(validate_search_args(&r), Err(RequestError::BadMode));
    r.mode = Some("smart".to_string());
    r.kind = Some("FILE".to_string());
    assert_eq!(validate_search_args(&r), Err(RequestError::BadKind));
    r.kind = Some("file".to_string());
    assert_eq!(validate_search_args(&r), Ok(()));
    // The name of a document class is taken in any case.
    r.doc_class = Some("CODE".to_string());
    assert_eq!(validate_search_args(&r), Ok(()));
}
