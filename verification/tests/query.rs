use fastsearch::entry::FileEntry;
use fastsearch::file_types::DocumentType;
use fastsearch::pattern::glob_to_regex;
use fastsearch::query::{
    evaluate, normalize_extension, search_multiple_drives, validate, ErrorKind, KindFilter, MatchMode,
    QueryError, QuerySpec,
};
use fastsearch::store::IndexStore;

fn entry(id: u64, parent_id: u64, name: &str, is_directory: bool, size: u64) -> FileEntry {
    FileEntry {
        id,
        parent_id,
        name: name.to_string(),
        size,
        is_directory,
        attributes: 0,
        created: 0,
        modified: 1234,
        accessed: 0,
    }
}

fn query(pattern: &str, mode: MatchMode) -> QuerySpec {
    QuerySpec {
        pattern: pattern.to_string(),
        mode,
        path_contains: None,
        drive: 'C',
        max_results: 1000,
        kind_filter: KindFilter::Any,
        extensions: None,
        doc_class: None,
        min_size: None,
        max_size: None,
    }
}

fn store_with(files: &[(u64, &str, u64)]) -> IndexStore {
    let mut store = IndexStore::new('C');
    assert_eq!(store.insert(entry(1, 1, "", true, 0)), Ok(()));
    assert_eq!(store.insert(entry(2, 1, "docs", true, 0)), Ok(()));
    for (id, name, size) in files {
        assert_eq!(store.insert(entry(*id, 2, name, false, *size)), Ok(()));
    }
    store
}

fn ids(store: &IndexStore, q: &QuerySpec) -> Vec<u64> {
    evaluate(store, q).unwrap().results.iter().map(|r| r.id).collect()
}

#[test]
fn exact_hit_carries_path_and_size() {
    let store = store_with(&[(10, "README.md", 42)]);
    let found = evaluate(&store, &query("README.md", MatchMode::Exact)).unwrap();
    assert_eq!(found.results.len(), 1);
    assert_eq!(found.results[0].id, 10);
    assert_eq!(found.results[0].path, "C:\\docs\\README.md");
    assert_eq!(found.results[0].name, "README.md");
    assert_eq!(found.results[0].size, 42);
    assert_eq!(found.results[0].modified, 1234);
    assert!(!found.results[0].is_directory);
    assert_eq!(found.results[0].extension, Some("md".to_string()));
    assert_eq!(found.search_info.match_type.as_str(), "exact");
    assert_eq!(found.search_info.index_size, 3);
    assert_eq!(found.search_info.pattern, "README.md");
    assert!(found.search_info.ntfs_mode);
}

#[test]
fn exact_ignores_case_and_nothing_else() {
    let store = store_with(&[(10, "README.md", 42), (11, "README.mdx", 1), (12, "xREADME.md", 1)]);
    assert_eq!(ids(&store, &query("readme.MD", MatchMode::Exact)), vec![10]);
    assert_eq!(ids(&store, &query("readme", MatchMode::Exact)), Vec::<u64>::new());
}

#[test]
fn glob_stops_at_max_results_in_id_order() {
    let store = store_with(&[
        (20, "d.log", 1),
        (5, "a.log", 1),
        (11, "c.LOG", 1),
        (7, "b.log", 1),
        (8, "b.txt", 1),
        (30, "never.log", 1),
    ]);
    let mut q = query("*.log", MatchMode::Glob);
    q.max_results = 3;
    let found = evaluate(&store, &q).unwrap();
    let got: Vec<u64> = found.results.iter().map(|r| r.id).collect();
    assert_eq!(got, vec![5, 7, 11]);
    assert_eq!(found.search_info.match_type.as_str(), "glob");
    assert_eq!(found.search_info.match_type, MatchMode::Glob);
    // Entries 1, 2, 5, 7, 8 and 11 were looked at, and none after the third hit.
    assert_eq!(found.search_info.scanned, 6);
}

#[test]
fn one_result_ends_the_scan_at_the_first_match() {
    let store = store_with(&[(5, "a.log", 1), (7, "b.log", 1), (9, "c.log", 1)]);
    let mut q = query("*.log", MatchMode::Glob);
    q.max_results = 1;
    let found = evaluate(&store, &q).unwrap();
    assert_eq!(found.results.len(), 1);
    assert_eq!(found.results[0].id, 5);
    assert_eq!(found.search_info.scanned, 3);
}

#[test]
fn a_scan_without_enough_matches_sees_every_entry() {
    let store = store_with(&[(5, "a.log", 1), (7, "b.txt", 1)]);
    let mut q = query("*.log", MatchMode::Glob);
    q.max_results = 2;
    let found = evaluate(&store, &q).unwrap();
    assert_eq!(found.results.len(), 1);
    assert_eq!(found.search_info.scanned, 4);
}

#[test]
fn smart_without_wildcard_is_a_substring_search() {
    let store = store_with(&[(99, "unit_test.js", 1), (100, "unittest.js", 1)]);
    let found = evaluate(&store, &query("unit_test", MatchMode::Smart)).unwrap();
    assert_eq!(found.results.len(), 1);
    assert_eq!(found.results[0].id, 99);
    assert_eq!(found.search_info.match_type, MatchMode::Substring);
    assert_eq!(found.search_info.mode, MatchMode::Smart);
}

#[test]
fn smart_with_wildcard_is_a_glob() {
    let store = store_with(&[(99, "unit_test.js", 1), (100, "my_unit_test.js", 1)]);
    let found = evaluate(&store, &query("unit?test.*", MatchMode::Smart)).unwrap();
    let got: Vec<u64> = found.results.iter().map(|r| r.id).collect();
    assert_eq!(got, vec![99]);
    assert_eq!(found.search_info.match_type, MatchMode::Glob);
}

#[test]
fn substring_ignores_case() {
    let store = store_with(&[(3, "Report-FINAL.docx", 1), (4, "final", 1), (6, "fin", 1)]);
    assert_eq!(ids(&store, &query("Final", MatchMode::Substring)), vec![3, 4]);
}

#[test]
fn extensions_override_the_document_class() {
    let store = store_with(&[(3, "main.rs", 1), (4, "tool.py", 1), (5, "lib.RS", 1), (6, "rs", 1)]);
    let mut q = query("*", MatchMode::Glob);
    q.doc_class = Some(DocumentType::Code);
    q.extensions = Some(vec!["rs".to_string()]);
    assert_eq!(ids(&store, &q), vec![3, 5]);
    q.extensions = Some(vec![".RS".to_string()]);
    assert_eq!(ids(&store, &q), vec![3, 5]);
    q.extensions = None;
    assert_eq!(ids(&store, &q), vec![3, 4, 5]);
}

#[test]
fn an_empty_extension_list_keeps_only_names_without_extension() {
    let store = store_with(&[(3, "main.rs", 1), (4, "Makefile", 1)]);
    let mut q = query("*", MatchMode::Glob);
    q.extensions = Some(vec![]);
    q.kind_filter = KindFilter::File;
    assert_eq!(ids(&store, &q), vec![4]);
}

#[test]
fn path_traversal_is_refused() {
    let store = store_with(&[(3, "etc", 1)]);
    let q = query("..\\..\\etc", MatchMode::Substring);
    assert_eq!(evaluate(&store, &q).err(), Some(QueryError::PathTraversal));
    assert_eq!(validate(&q), Err(QueryError::PathTraversal));
    assert_eq!(QueryError::PathTraversal.kind(), ErrorKind::InvalidPattern);
    assert_eq!(QueryError::PathTraversal.message(), "Path traversal patterns not allowed");
}

#[test]
fn faulty_queries_are_refused() {
    let store = store_with(&[]);
    assert_eq!(evaluate(&store, &query("", MatchMode::Smart)).err(), Some(QueryError::EmptyPattern));
    let long = "a".repeat(1001);
    assert_eq!(
        evaluate(&store, &query(&long, MatchMode::Substring)).err(),
        Some(QueryError::PatternTooLong)
    );
    assert!(evaluate(&store, &query(&"a".repeat(1000), MatchMode::Substring)).is_ok());
    assert_eq!(evaluate(&store, &query("(", MatchMode::Regex)).err(), Some(QueryError::BadRegex));
    assert!(evaluate(&store, &query("(", MatchMode::Glob)).is_ok());
    let mut q = query("a", MatchMode::Exact);
    q.max_results = 0;
    assert_eq!(evaluate(&store, &q).err(), Some(QueryError::BadMaxResults));
    q.max_results = 10001;
    assert_eq!(evaluate(&store, &q).err(), Some(QueryError::BadMaxResults));
    q.max_results = 10000;
    assert!(evaluate(&store, &q).is_ok());
    assert_eq!(QueryError::BadMaxResults.kind(), ErrorKind::InvalidArgument);
    assert_eq!(QueryError::EmptyPattern.kind(), ErrorKind::InvalidPattern);
    assert_eq!(QueryError::PatternTooLong.kind(), ErrorKind::InvalidPattern);
    assert_eq!(QueryError::BadRegex.kind(), ErrorKind::InvalidPattern);
}

#[test]
fn regex_must_match_the_whole_name() {
    let store = store_with(&[(3, "img001.png", 1), (4, "img001.png.bak", 1), (5, "IMG777.PNG", 1)]);
    assert_eq!(ids(&store, &query("img\\d+\\.png", MatchMode::Regex)), vec![3, 5]);
    assert_eq!(ids(&store, &query("img|bak", MatchMode::Regex)), Vec::<u64>::new());
}

#[test]
fn glob_of_a_plain_name_matches_that_name_only() {
    assert_eq!(glob_to_regex("README.md"), "^(?i)README\\.md$");
    let mut store = store_with(&[(3, "README.md", 1), (4, "READMEXmd", 1), (6, "README.md2", 1)]);
    assert_eq!(store.insert(entry(5, 1, "readme.MD", false, 1)), Ok(()));
    assert_eq!(ids(&store, &query("README.md", MatchMode::Glob)), vec![3, 5]);
}

#[test]
fn glob_translation_escapes_metacharacters() {
    assert_eq!(glob_to_regex("*.log"), "^(?i).*\\.log$");
    assert_eq!(glob_to_regex("a?c"), "^(?i)a.c$");
    assert_eq!(glob_to_regex(""), "^(?i)$");
    assert_eq!(
        glob_to_regex(".+()[]{}|^$\\"),
        "^(?i)\\.\\+\\(\\)\\[\\]\\{\\}\\|\\^\\$\\\\$"
    );
    let store = store_with(&[(3, "a+b(1).txt", 1), (4, "aab(1).txt", 1)]);
    assert_eq!(ids(&store, &query("a+b(1).txt", MatchMode::Glob)), vec![3]);
}

#[test]
fn kind_size_and_path_filters_apply() {
    let mut store = store_with(&[(10, "small.bin", 10), (11, "large.bin", 5000)]);
    assert_eq!(store.insert(entry(3, 1, "bin", true, 0)), Ok(()));
    assert_eq!(store.insert(entry(12, 3, "tool.bin", false, 700)), Ok(()));
    let mut q = query("bin", MatchMode::Substring);
    assert_eq!(ids(&store, &q), vec![3, 10, 11, 12]);
    q.kind_filter = KindFilter::Directory;
    assert_eq!(ids(&store, &q), vec![3]);
    q.kind_filter = KindFilter::File;
    assert_eq!(ids(&store, &q), vec![10, 11, 12]);
    q.min_size = Some(700);
    assert_eq!(ids(&store, &q), vec![11, 12]);
    q.max_size = Some(700);
    assert_eq!(ids(&store, &q), vec![12]);
    q.min_size = None;
    q.max_size = None;
    q.path_contains = Some("\\DOCS\\".to_string());
    assert_eq!(ids(&store, &q), vec![10, 11]);
    q.path_contains = Some("c:\\bin".to_string());
    assert_eq!(ids(&store, &q), vec![12]);
}

#[test]
fn entries_without_a_path_are_not_returned() {
    let mut store = store_with(&[(10, "a.txt", 1)]);
    assert_eq!(store.insert(entry(50, 49, "lost.txt", false, 1)), Ok(()));
    assert_eq!(ids(&store, &query("txt", MatchMode::Substring)), vec![10]);
}

#[test]
fn extensions_are_normalized() {
    assert_eq!(normalize_extension(".RS"), vec!['r', 's']);
    assert_eq!(normalize_extension("..Tar"), vec!['t', 'a', 'r']);
    assert_eq!(normalize_extension("md"), vec!['m', 'd']);
    assert_eq!(normalize_extension("."), Vec::<char>::new());
}

fn volume(drive: char, files: &[(u64, &str)]) -> IndexStore {
    let mut store = IndexStore::new(drive);
    assert_eq!(store.insert(entry(5, 5, "", true, 0)), Ok(()));
    for (id, name) in files {
        assert_eq!(store.insert(entry(*id, 5, name, false, 1)), Ok(()));
    }
    store
}

#[test]
fn all_volumes_answer_in_order_until_the_list_is_full() {
    let stores = vec![
        volume('C', &[(10, "a.log"), (11, "b.log"), (12, "c.txt")]),
        volume('D', &[(30, "d.log")]),
        volume('E', &[(7, "e.log"), (8, "f.log"), (9, "g.log")]),
    ];
    let mut q = query("*.log", MatchMode::Glob);
    q.drive = '*';
    q.max_results = 4;
    let found = search_multiple_drives(&stores, &q).unwrap();
    let paths: Vec<&str> = found.iter().map(|r| r.path.as_str()).collect();
    assert_eq!(paths, vec!["C:\\a.log", "C:\\b.log", "D:\\d.log", "E:\\e.log"]);
    q.max_results = 100;
    assert_eq!(search_multiple_drives(&stores, &q).unwrap().len(), 6);
    q.max_results = 2;
    let found = search_multiple_drives(&stores, &q).unwrap();
    let ids: Vec<u64> = found.iter().map(|r| r.id).collect();
    assert_eq!(ids, vec![10, 11]);
}

#[test]
fn one_volume_is_asked_by_its_letter() {
    let stores = vec![
        volume('C', &[(10, "a.log")]),
        volume('D', &[(30, "d.log")]),
        volume('D', &[(31, "second.log")]),
    ];
    let mut q = query("log", MatchMode::Substring);
    q.drive = 'D';
    let found = search_multiple_drives(&stores, &q).unwrap();
    let ids: Vec<u64> = found.iter().map(|r| r.id).collect();
    assert_eq!(ids, vec![30, 31]);
    q.drive = 'Z';
    assert!(search_multiple_drives(&stores, &q).unwrap().is_empty());
    q.drive = '*';
    assert!(search_multiple_drives(&Vec::new(), &q).unwrap().is_empty());
    q.pattern = "..".to_string();
    assert_eq!(search_multiple_drives(&stores, &q).err(), Some(QueryError::PathTraversal));
}

#[test]
fn names_are_compared_by_the_unicode_rules() {
    let store = store_with(&[(3, "\u{c4}RGER.TXT", 1), (4, "STRASSE.\u{212A}T", 1)]);
    assert_eq!(ids(&store, &query("\u{e4}rger.txt", MatchMode::Exact)), vec![3]);
    assert_eq!(ids(&store, &query("\u{e4}RG", MatchMode::Substring)), vec![3]);
    assert_eq!(store.candidates_by_name("\u{e4}rger.txt"), vec![3]);
    assert_eq!(store.candidates_by_extension("kt"), vec![4]);
    assert_eq!(store.lookup_by_id(4).unwrap().extension(), Some("kt".to_string()));
    assert_eq!(store.lookup_by_path("c:\\docs\\\u{e4}rger.txt"), Some(3));
    let mut q = query("*", MatchMode::Glob);
    q.doc_class = Some(DocumentType::Code);
    assert_eq!(ids(&store, &q), vec![4]);
    q.doc_class = None;
    q.extensions = Some(vec![".\u{212A}T".to_string()]);
    assert_eq!(ids(&store, &q), vec![4]);
    assert_eq!(normalize_extension(".\u{c4}B"), vec!['\u{e4}', 'b']);
}
