use fastsearch::builder::build;
use fastsearch::entry::FileEntry;
use fastsearch::journal::{apply_batch, apply_record, JournalRecord, Reason, WatchState};
use fastsearch::store::IndexStore;

fn entry(id: u64, parent_id: u64, name: &str, is_directory: bool, size: u64) -> FileEntry {
    FileEntry {
        id,
        parent_id,
        name: name.to_string(),
        size,
        is_directory,
        attributes: 0,
        created: 10,
        modified: 20,
        accessed: 30,
    }
}

fn record(usn: i64, reason: Reason, e: FileEntry) -> JournalRecord {
    JournalRecord { usn, reason, entry: e }
}

fn start() -> (IndexStore, WatchState) {
    let mut store = IndexStore::new('C');
    assert_eq!(store.insert(entry(5, 5, "", true, 0)), Ok(()));
    assert_eq!(store.insert(entry(40, 5, "logs", true, 0)), Ok(()));
    assert_eq!(store.insert(entry(41, 40, "old.log", false, 100)), Ok(()));
    (store, WatchState { last_applied_usn: 1000, journal_id: 7, pending_rename: None })
}

fn dump(store: &IndexStore) -> Vec<(u64, u64, String, u64, bool, u32, i64, i64, i64)> {
    let mut out = Vec::new();
    for i in 0..store.len() {
        let e = store.entry_at(i);
        out.push((
            e.id,
            e.parent_id,
            e.name.clone(),
            e.size,
            e.is_directory,
            e.attributes,
            e.created,
            e.modified,
            e.accessed,
        ));
    }
    out
}

#[test]
fn create_inserts_and_delete_removes() {
    let (mut store, mut state) = start();
    assert!(apply_record(&mut store, &mut state, &record(1001, Reason::Create, entry(42, 40, "new.log", false, 5))));
    assert_eq!(store.full_path(42), Ok("C:\\logs\\new.log".to_string()));
    assert_eq!(state.last_applied_usn, 1001);
    assert!(apply_record(&mut store, &mut state, &record(1002, Reason::Delete, entry(41, 40, "old.log", false, 0))));
    assert!(store.lookup_by_id(41).is_none());
    // Deleting what is not there changes nothing.
    assert!(apply_record(&mut store, &mut state, &record(1003, Reason::Delete, entry(99, 40, "ghost", false, 0))));
    assert_eq!(store.len(), 3);
    assert_eq!(state.last_applied_usn, 1003);
    assert_eq!(state.journal_id, 7);
}

#[test]
fn a_replayed_record_is_skipped() {
    let (mut store, mut state) = start();
    let r = record(1001, Reason::Create, entry(42, 40, "new.log", false, 5));
    assert!(apply_record(&mut store, &mut state, &r));
    let once = dump(&store);
    let state_once = state;
    assert!(!apply_record(&mut store, &mut state, &r));
    assert_eq!(dump(&store), once);
    assert_eq!(state, state_once);
    // A record at or below the last applied number is skipped too.
    assert!(!apply_record(&mut store, &mut state, &record(1000, Reason::Delete, entry(42, 40, "new.log", false, 0))));
    assert!(!apply_record(&mut store, &mut state, &record(-3, Reason::Delete, entry(42, 40, "new.log", false, 0))));
    assert_eq!(dump(&store), once);
}

#[test]
fn rename_keeps_the_old_name_until_the_new_one_arrives() {
    let (mut store, mut state) = start();
    assert!(apply_record(&mut store, &mut state, &record(1001, Reason::RenameOldName, entry(41, 40, "old.log", false, 100))));
    assert_eq!(state.pending_rename, Some(41));
    assert_eq!(store.full_path(41), Ok("C:\\logs\\old.log".to_string()));
    assert!(apply_record(&mut store, &mut state, &record(1002, Reason::RenameNewName, entry(41, 5, "moved.log", false, 100))));
    assert_eq!(state.pending_rename, None);
    assert_eq!(store.full_path(41), Ok("C:\\moved.log".to_string()));
    assert_eq!(store.lookup_by_path("c:\\logs\\old.log"), None);
    assert_eq!(store.candidates_by_name("moved.log"), vec![41]);
}

#[test]
fn a_created_file_evicts_what_holds_its_path() {
    let (mut store, mut state) = start();
    assert!(apply_record(&mut store, &mut state, &record(1001, Reason::Create, entry(50, 40, "OLD.LOG", false, 1))));
    assert!(store.lookup_by_id(41).is_none());
    assert_eq!(store.lookup_by_path("C:\\logs\\old.log"), Some(50));
    assert_eq!(store.len(), 3);
    assert!(store.check_invariants());
}

#[test]
fn size_and_info_changes_touch_existing_entries_only() {
    let (mut store, mut state) = start();
    let mut bigger = entry(41, 0, "ignored", true, 4096);
    bigger.attributes = 0xFF;
    assert!(apply_record(&mut store, &mut state, &record(1001, Reason::DataExtend, bigger)));
    let e = store.lookup_by_id(41).unwrap();
    assert_eq!((e.size, e.parent_id, e.name.as_str(), e.is_directory, e.attributes), (4096, 40, "old.log", false, 0));
    assert!(apply_record(&mut store, &mut state, &record(1002, Reason::DataTruncate, entry(41, 40, "old.log", false, 7))));
    assert_eq!(store.lookup_by_id(41).unwrap().size, 7);
    let mut info = entry(41, 0, "ignored", true, 999);
    info.attributes = 0x22;
    info.created = -1;
    info.modified = -2;
    info.accessed = -3;
    assert!(apply_record(&mut store, &mut state, &record(1003, Reason::BasicInfoChange, info)));
    let e = store.lookup_by_id(41).unwrap();
    assert_eq!((e.attributes, e.created, e.modified, e.accessed), (0x22, -1, -2, -3));
    assert_eq!((e.size, e.name.as_str(), e.parent_id), (7, "old.log", 40));
    assert!(apply_record(&mut store, &mut state, &record(1004, Reason::DataExtend, entry(77, 40, "nobody", false, 1))));
    assert!(apply_record(&mut store, &mut state, &record(1005, Reason::BasicInfoChange, entry(77, 40, "nobody", false, 1))));
    assert!(apply_record(&mut store, &mut state, &record(1006, Reason::Close, entry(41, 40, "old.log", false, 1))));
    assert!(store.lookup_by_id(77).is_none());
    assert_eq!(store.len(), 3);
    assert_eq!(state.last_applied_usn, 1006);
}

#[test]
fn a_batch_is_applied_in_order_and_counts_what_it_applied() {
    let (mut store, mut state) = start();
    let batch = vec![
        record(1001, Reason::Create, entry(42, 40, "a.log", false, 1)),
        record(1001, Reason::Create, entry(43, 40, "dup.log", false, 1)),
        record(1002, Reason::Close, entry(42, 40, "a.log", false, 1)),
        record(900, Reason::Delete, entry(42, 40, "a.log", false, 1)),
        record(1005, Reason::Delete, entry(41, 40, "old.log", false, 1)),
    ];
    assert_eq!(apply_batch(&mut store, &mut state, &batch), 3);
    assert_eq!(state.last_applied_usn, 1005);
    assert!(store.contains(42));
    assert!(!store.contains(43));
    assert!(!store.contains(41));
    assert_eq!(apply_batch(&mut store, &mut state, &batch), 0);
    assert_eq!(apply_batch(&mut store, &mut state, &Vec::new()), 0);
}

#[test]
fn journal_apply_then_rebuild_equivalence() {
    // Store A at a known position.
    let (mut b, mut state) = start();
    // One create, one rename, one delete.
    let batch = vec![
        record(1001, Reason::Create, entry(42, 40, "new.log", false, 5)),
        record(1002, Reason::RenameOldName, entry(42, 40, "new.log", false, 5)),
        record(1003, Reason::RenameNewName, entry(42, 5, "kept.log", false, 5)),
        record(1004, Reason::Delete, entry(41, 40, "old.log", false, 100)),
    ];
    assert_eq!(apply_batch(&mut b, &mut state, &batch), 4);
    // A fresh build from the file system as it is after those changes.
    let files = vec![
        entry(42, 5, "kept.log", false, 5),
        entry(40, 5, "logs", true, 0),
        entry(5, 5, "", true, 0),
    ];
    let c = build('C', &files, 0, 800).unwrap().store;
    assert_eq!(dump(&b), dump(&c));
    for id in [5u64, 40, 42] {
        assert_eq!(b.full_path(id), c.full_path(id));
    }
    assert!(b.check_invariants());
    assert!(c.check_invariants());
}
