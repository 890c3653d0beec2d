use fastsearch::builder::BuildError;
use fastsearch::cache_format::CacheError;
use fastsearch::entry::FileEntry;
use fastsearch::journal::{JournalRecord, Reason};
use fastsearch::mft_cache::{ConfigError, ErrorReport, MftCache, MftCacheConfig};
use fastsearch::query::{ErrorKind, KindFilter, MatchMode, QueryError, QuerySpec};
use std::mem::size_of;

fn entry(id: u64, parent_id: u64, name: &str, is_directory: bool, size: u64, attributes: u32) -> FileEntry {
    FileEntry { id, parent_id, name: name.to_string(), size, is_directory, attributes, created: 1, modified: 2, accessed: 3 }
}

fn filled() -> MftCache {
    let mut cache = MftCache::with_config('C', MftCacheConfig::default());
    assert!(cache.insert(entry(5, 5, "", true, 0, 0x10)).is_ok());
    assert!(cache.insert(entry(1, 5, "test.txt", false, 1024, 0)).is_ok());
    cache
}

#[test]
fn test_file_entry_size() {
    const EXPECTED_SIZE: usize = 120;
    const TOLERANCE: usize = 32;
    let actual_size = size_of::<FileEntry>();
    assert!(
        actual_size <= EXPECTED_SIZE + TOLERANCE,
        "FileEntry size ({}) is larger than expected (expected ~{} ± {} bytes)",
        actual_size,
        EXPECTED_SIZE,
        TOLERANCE
    );
}

#[test]
fn test_cache_config_defaults() {
    let config = MftCacheConfig::default();
    assert!(config.parallel_processing);
    assert!(config.persistence_enabled);
    assert!(config.max_memory_permille > 0);
    assert!(config.max_memory_permille <= 1000);
    assert!(config.num_threads > 0);
    assert!(config.save_interval_secs > 0);
    assert!(config.max_cache_versions > 0);
}

#[test]
fn test_cache_creation() {
    let cache = MftCache::with_config('C', MftCacheConfig::default());
    assert_eq!(cache.drive_letter(), 'C');
    assert!(cache.is_empty());
    assert_eq!(cache.len(), 0);
    assert_eq!(cache.size_in_bytes(), 0);
    let stats = cache.stats();
    assert_eq!(stats.file_count, 0);
    assert_eq!(stats.files_processed, 0);
    assert_eq!(stats.memory_usage_bytes, 0);
    assert_eq!(stats.drive_letter, 'C');
}

#[test]
fn test_cache_clear() {
    let mut cache = MftCache::with_config('C', MftCacheConfig::default());
    assert!(cache.insert(entry(1, 1, "test.txt", false, 1024, 0)).is_ok());
    assert!(!cache.is_empty());
    cache.clear(99);
    assert!(cache.is_empty());
    assert_eq!(cache.len(), 0);
    assert_eq!(cache.size_in_bytes(), 0);
    assert_eq!(cache.last_update(), 99);
}

#[test]
fn mft_cache_tests_test_cache_persistence() {
    let config = MftCacheConfig::default().with_cache_dir("unused".to_string()).with_save_interval(1);
    let mut cache = MftCache::with_config('C', config.clone());
    assert!(cache.insert(entry(1, 1, "test.txt", false, 1024, 0)).is_ok());
    let saved = cache.save_bytes(1700000000).expect("Failed to save cache");
    let loaded_cache = MftCache::from_cache('C', config, &saved.meta, &saved.data, 0)
        .expect("Failed to create cache with loading from disk");
    assert!(!loaded_cache.is_empty());
    assert_eq!(loaded_cache.len(), 1);
}

#[test]
fn cache_persistence_test_cache_persistence() {
    let mut cache = MftCache::new('C');
    let saved = cache.save_bytes(5).unwrap();
    let loaded_cache = MftCache::from_cache('C', MftCacheConfig::default(), &saved.meta, &saved.data, 0).unwrap();
    assert!(loaded_cache.is_empty());
    assert_eq!(loaded_cache.last_update(), 5);
}

#[test]
fn test_cache_rebuild() {
    let config = MftCacheConfig::default().with_memory_usage(0).unwrap();
    let mut cache = MftCache::with_config('C', config);
    let files = vec![entry(5, 5, "", true, 0, 0), entry(9, 5, "a.txt", false, 1, 0)];
    let result = cache.rebuild(&files, 7, 1000, 42);
    if let Err(e) = result {
        assert_eq!(e, BuildError::OutOfMemory);
        assert!(cache.is_empty());
    } else {
        assert_eq!(cache.len(), 2);
    }
}

fn any_query() -> QuerySpec {
    QuerySpec {
        pattern: "a".to_string(),
        mode: MatchMode::Substring,
        path_contains: None,
        drive: 'C',
        max_results: 10,
        kind_filter: KindFilter::Any,
        extensions: None,
        doc_class: None,
        min_size: None,
        max_size: None,
    }
}

#[test]
fn an_engine_whose_build_failed_is_not_open() {
    // A look at the memory after every entry, and no memory allowed.
    let mut config = MftCacheConfig::default().with_memory_usage(0).unwrap();
    config.max_files_before_memcheck = 1;
    let mut cache = MftCache::with_config('C', config);
    assert_eq!(cache.last_error(), None);
    assert!(cache.query(&any_query()).is_ok());
    let files = vec![entry(5, 5, "", true, 0, 0), entry(9, 5, "a.txt", false, 1, 0)];
    match cache.rebuild(&files, 7, 1000, 42) {
        Err(e) => {
            assert_eq!(cache.last_error(), Some(ErrorReport { error: e, at: 42 }));
            assert_eq!(cache.query(&any_query()).err(), Some(QueryError::EngineNotOpen));
            assert_eq!(QueryError::EngineNotOpen.message(), "engine not open");
            assert_eq!(QueryError::EngineNotOpen.kind(), ErrorKind::InvalidArgument);
            assert_eq!(cache.stats().last_processed_usn, 0);
            assert_eq!(cache.last_update(), 42);
        }
        Ok(sound) => {
            assert!(sound);
            assert_eq!(cache.last_error(), None);
            assert_eq!(cache.query(&any_query()).unwrap().results.len(), 1);
        }
    }
}

#[test]
fn a_build_without_a_due_look_at_the_memory_succeeds() {
    // No memory allowed, but the first look would be due after three entries.
    let mut config = MftCacheConfig::default().with_memory_usage(0).unwrap();
    config.max_files_before_memcheck = 3;
    let mut cache = MftCache::with_config('C', config);
    let files = vec![entry(5, 5, "", true, 0, 0), entry(9, 5, "a.txt", false, 1, 0)];
    assert_eq!(cache.rebuild(&files, 7, 1000, 42), Ok(true));
    assert_eq!(cache.len(), 2);
    let mut never = MftCacheConfig::default().with_memory_usage(0).unwrap();
    never.max_files_before_memcheck = 0;
    let mut cache = MftCache::with_config('C', never);
    assert_eq!(cache.rebuild(&files, 7, 1000, 42), Ok(true));
}

#[test]
fn a_build_reports_whether_the_store_keeps_its_invariants() {
    let mut cache = MftCache::new('C');
    let sound = vec![entry(5, 5, "", true, 0, 0), entry(9, 5, "a.txt", false, 1, 0)];
    assert_eq!(cache.rebuild(&sound, 7, 1000, 42), Ok(true));
    // A parent that is no directory.
    let file_parent = vec![
        entry(5, 5, "", true, 0, 0),
        entry(9, 5, "a.txt", false, 1, 0),
        entry(10, 9, "inside", false, 1, 0),
    ];
    assert_eq!(cache.rebuild(&file_parent, 7, 1000, 42), Ok(false));
    assert_eq!(cache.len(), 3);
    // Two ids with one path.
    let shared = vec![
        entry(5, 5, "", true, 0, 0),
        entry(9, 5, "a.txt", false, 1, 0),
        entry(10, 5, "A.TXT", false, 1, 0),
    ];
    assert_eq!(cache.rebuild(&shared, 7, 1000, 42), Ok(false));
    // A missing parent.
    let orphan = vec![entry(9, 5, "a.txt", false, 1, 0)];
    assert_eq!(cache.rebuild(&orphan, 7, 1000, 42), Ok(false));
    assert_eq!(cache.rebuild(&Vec::new(), 7, 1000, 42), Ok(true));
}

#[test]
fn a_parallel_build_gives_the_store_of_the_parts_in_a_row() {
    let mut cache = MftCache::new('C');
    let parts = vec![
        vec![entry(9, 5, "a.txt", false, 1, 0), entry(12, 9, "bad", false, 1, 0)],
        vec![],
        vec![entry(5, 5, "", true, 0, 0), entry(12, 5, "late.txt", false, 2, 0)],
    ];
    assert!(cache.rebuild_parallel(&parts, 8, 2000, 77));
    assert_eq!(cache.len(), 3);
    assert_eq!(cache.get_files().full_path(12), Ok("C:\\late.txt".to_string()));
    let stats = cache.stats();
    assert_eq!((stats.files_processed, stats.journal_id, stats.last_processed_usn), (3, 8, 2000));
    assert_eq!(cache.last_update(), 77);
    assert!(cache.needs_save());
    let broken = vec![vec![entry(9, 5, "a.txt", false, 1, 0)]];
    assert!(!cache.rebuild_parallel(&broken, 8, 2000, 78));
}

#[test]
fn a_build_that_succeeds_opens_the_engine() {
    let mut cache = MftCache::new('C');
    let files = vec![entry(5, 5, "", true, 0, 0), entry(9, 5, "a.txt", false, 1, 0)];
    assert!(cache.rebuild(&files, 7, 1000, 42).is_ok());
    assert_eq!(cache.last_error(), None);
    assert_eq!(cache.query(&any_query()).unwrap().results.len(), 1);
}

#[test]
fn test_cache_stats() {
    let mut cache = MftCache::with_config('C', MftCacheConfig::default());
    let files = vec![
        entry(5, 5, "", true, 0, 0x10),
        entry(1, 5, "test1.txt", false, 1024, 0),
    ];
    assert!(cache.rebuild(&files, 7, 1000, 1_700_000_000).is_ok());
    let stats = cache.stats();
    assert_eq!(stats.file_count, 2);
    assert_eq!(stats.files_processed, 2);
    assert!(stats.memory_usage_bytes > 0);
    assert_eq!(stats.drive_letter, 'C');
    let stats_str = stats.report();
    assert!(stats_str.contains("MFT Cache Statistics"));
    assert!(stats_str.contains("Files:           2"));
    assert!(stats_str.contains("Files Processed: 2"));
    assert!(stats_str.contains("Memory Usage:"));
    assert!(stats_str.contains("Last Updated:"));
}

#[test]
fn report_is_written_in_full() {
    let mut cache = filled();
    cache.clear(0);
    let files = vec![entry(5, 5, "", true, 0, 0), entry(1, 5, "a", false, 1, 0), entry(2, 5, "b", false, 1, 0)];
    assert!(cache.rebuild(&files, 7, 1000, 1_518_563_287).is_ok());
    let stats = cache.stats();
    assert_eq!(stats.memory_usage_bytes, 3072);
    assert_eq!(stats.last_processed_usn, 1000);
    assert_eq!(stats.journal_id, 7);
    assert_eq!(
        stats.report(),
        "MFT Cache Statistics (C:)\n  Files:           3\n  Files Processed: 3\n  Memory Usage:    0.00 MB\n  Last Updated:    2018-02-13T23:08:07Z"
    );
    assert_eq!(
        stats.report_with("never"),
        "MFT Cache Statistics (C:)\n  Files:           3\n  Files Processed: 3\n  Memory Usage:    0.00 MB\n  Last Updated:    never"
    );
    let mut late = stats.clone();
    late.last_update = 253_402_300_800;
    late.memory_usage_bytes = 1_572_864 + 5243;
    assert!(late.report().ends_with("Memory Usage:    1.51 MB\n  Last Updated:    253402300800"));
    late.last_update = 253_402_300_799;
    late.memory_usage_bytes = 123 * 1024 * 1024 + 52429;
    assert!(late.report().ends_with("Memory Usage:    123.05 MB\n  Last Updated:    9999-12-31T23:59:59Z"));
}

#[test]
fn drive_letter_is_upper_case() {
    assert_eq!(MftCache::new('d').drive_letter(), 'D');
    assert_eq!(MftCache::new('D').drive_letter(), 'D');
    assert_eq!(MftCache::new('1').drive_letter(), '1');
}

#[test]
fn settings_are_built_step_by_step() {
    let config = MftCacheConfig::new()
        .with_threads(4)
        .with_parallel_processing(false)
        .with_cache_dir("D:\\cache".to_string())
        .with_persistence(false)
        .with_save_interval(60)
        .with_max_versions(5)
        .with_memory_usage(500)
        .unwrap();
    assert_eq!(config.num_threads, 4);
    assert!(!config.parallel_processing);
    assert_eq!(config.cache_dir, "D:\\cache");
    assert!(!config.persistence_enabled);
    assert_eq!(config.save_interval_secs, 60);
    assert_eq!(config.max_cache_versions, 5);
    assert_eq!(config.max_memory_permille, 500);
    assert_eq!(config.max_files_before_memcheck, 100_000);
    assert_eq!(MftCacheConfig::new().with_memory_usage(1001).err(), Some(ConfigError::MemoryShareOutOfRange));
    assert!(MftCacheConfig::new().with_memory_usage(1000).is_ok());
    let defaults = MftCacheConfig::new();
    assert_eq!(defaults.max_memory_permille, 800);
    assert_eq!(defaults.save_interval_secs, 300);
    assert_eq!(defaults.max_cache_versions, 3);
    assert_eq!(defaults.cache_dir, "cache");
}

#[test]
fn automatic_settings_follow_the_machine() {
    let config = MftCacheConfig::auto(8, Some(16 * 1024 * 1024 * 1024));
    assert_eq!(config.num_threads, 7);
    // 80 % of 16 GiB at 1024 bytes an entry.
    assert_eq!(config.max_files_before_memcheck, 13_421_772);
    let config = MftCacheConfig::auto(1, None);
    assert_eq!(config.num_threads, 1);
    assert_eq!(config.max_files_before_memcheck, 100_000);
    assert_eq!(MftCacheConfig::auto(0, Some(0)).max_files_before_memcheck, 0);
}

#[test]
fn rebuild_takes_the_journal_position_from_before_the_read() {
    let mut cache = MftCache::new('C');
    let files = vec![entry(5, 5, "", true, 0, 0), entry(9, 5, "a.txt", false, 1, 0)];
    assert!(cache.rebuild(&files, 77, 5000, 100).is_ok());
    assert!(cache.needs_save());
    assert_eq!(cache.last_update(), 100);
    // A record from before the build is skipped, a later one is applied.
    let batch = vec![
        JournalRecord { usn: 5000, reason: Reason::Delete, entry: entry(9, 5, "a.txt", false, 1, 0) },
        JournalRecord { usn: 5001, reason: Reason::Create, entry: entry(10, 5, "b.txt", false, 1, 0) },
    ];
    assert_eq!(cache.apply_changes(&batch, 200), 1);
    assert_eq!(cache.len(), 3);
    assert_eq!(cache.last_update(), 200);
    assert_eq!(cache.stats().last_processed_usn, 5001);
    assert_eq!(cache.apply_changes(&batch, 300), 0);
    assert_eq!(cache.last_update(), 200);
}

#[test]
fn a_save_is_due_only_after_a_change() {
    let mut cache = MftCache::new('C');
    assert!(!cache.needs_save());
    assert!(cache.insert(entry(5, 5, "", true, 0, 0)).is_ok());
    assert!(cache.needs_save());
    assert!(cache.save_bytes(1).is_ok());
    assert!(!cache.needs_save());
    assert_eq!(cache.apply_changes(&Vec::new(), 2), 0);
    assert!(!cache.needs_save());
    assert!(cache.insert(entry(6, 5, "X", false, 0, 0)).is_ok());
    assert!(cache.insert(entry(7, 5, "x", false, 0, 0)).is_err());
    assert!(cache.needs_save());
}

#[test]
fn a_cache_of_another_journal_or_drive_is_not_loaded() {
    let mut cache = filled();
    assert!(cache.rebuild(&vec![entry(5, 5, "", true, 0, 0), entry(8, 5, "k", false, 9, 0)], 7, 123, 50).is_ok());
    let saved = cache.save_bytes(60).unwrap();
    let config = MftCacheConfig::default();
    let loaded = MftCache::from_cache('c', config.clone(), &saved.meta, &saved.data, 7).unwrap();
    assert_eq!(loaded.len(), 2);
    assert_eq!(loaded.drive_letter(), 'C');
    assert_eq!(loaded.stats().last_processed_usn, 123);
    assert_eq!(loaded.stats().journal_id, 7);
    assert_eq!(loaded.last_update(), 60);
    assert!(!loaded.needs_save());
    assert_eq!(loaded.get_files().full_path(8), Ok("C:\\k".to_string()));
    assert!(MftCache::from_cache('C', config.clone(), &saved.meta, &saved.data, 8).is_none());
    assert!(MftCache::from_cache('D', config.clone(), &saved.meta, &saved.data, 7).is_none());
    assert!(MftCache::from_cache('C', config.clone(), &saved.meta[1..], &saved.data, 7).is_none());
    assert!(MftCache::from_cache('C', config.clone(), &saved.meta, &saved.data[1..], 7).is_none());
    // A data file with fewer entries than the header says.
    assert!(MftCache::from_cache('C', config.clone(), &saved.meta, &[], 7).is_none());
    let mut odd = MftCache::new('\u{e9}');
    assert_eq!(odd.save_bytes(1).err(), Some(CacheError::DriveNotAscii));
}

#[test]
fn queries_run_against_the_engine() {
    let cache = filled();
    let q = QuerySpec {
        pattern: "TEST".to_string(),
        mode: MatchMode::Substring,
        path_contains: None,
        drive: 'C',
        max_results: 10,
        kind_filter: KindFilter::File,
        extensions: None,
        doc_class: None,
        min_size: None,
        max_size: None,
    };
    let found = cache.query(&q).unwrap();
    assert_eq!(found.results.len(), 1);
    assert_eq!(found.results[0].path, "C:\\test.txt");
    assert_eq!(found.search_info.index_size, 2);
}
