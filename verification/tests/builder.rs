use fastsearch::builder::{
    build, governor_allows, memory_verdict, merge, split_even, worker_count, MemorySample,
    MemoryVerdict,
};
use fastsearch::entry::FileEntry;
use fastsearch::store::IndexStore;

fn entry(id: u64, parent_id: u64, name: &str, is_directory: bool, size: u64) -> FileEntry {
    FileEntry {
        id,
        parent_id,
        name: name.to_string(),
        size,
        is_directory,
        attributes: 0,
        created: 0,
        modified: 0,
        accessed: 0,
    }
}

fn files(n: u64) -> Vec<FileEntry> {
    let mut list = vec![entry(5, 5, "", true, 0)];
    for i in 0..n {
        // Descending ids: the table has to sort them.
        let id = 1000 - i;
        list.push(entry(id, 5, &format!("f{}.dat", id), false, id));
    }
    list
}

fn ids(store: &IndexStore) -> Vec<u64> {
    (0..store.len()).map(|i| store.entry_at(i).id).collect()
}

#[test]
fn build_sorts_by_id_and_keeps_the_later_of_two() {
    let mut list = files(4);
    list.push(entry(999, 5, "again.dat", false, 1));
    let out = build('c', &list, 0, 800).unwrap();
    assert_eq!(out.files_processed, 6);
    assert_eq!(ids(&out.store), vec![5, 997, 998, 999, 1000]);
    assert_eq!(out.store.lookup_by_id(999).unwrap().name, "again.dat");
    assert_eq!(out.store.full_path(1000), Ok("c:\\f1000.dat".to_string()));
    assert!(out.store.check_invariants());
}

#[test]
fn build_without_a_due_sample_succeeds() {
    let list = files(9);
    // Ten entries, a sample every eleven: none is due.
    assert!(build('C', &list, 11, 0).is_ok());
    assert!(build('C', &Vec::new(), 1, 0).is_ok());
    assert!(build('C', &list, 0, 0).is_ok());
}

#[test]
fn governor_follows_the_thresholds() {
    let at = |used: u64| MemorySample { total: 1000, free: 1000 - used };
    // Limit 800 thousandths: warn above 80 %, abort above 88 %.
    assert_eq!(memory_verdict(at(800), 800), MemoryVerdict::Fine);
    assert_eq!(memory_verdict(at(801), 800), MemoryVerdict::Warn);
    assert_eq!(memory_verdict(at(880), 800), MemoryVerdict::Warn);
    assert_eq!(memory_verdict(at(881), 800), MemoryVerdict::Abort);
    assert_eq!(memory_verdict(at(0), 0), MemoryVerdict::Fine);
    assert_eq!(memory_verdict(at(1), 0), MemoryVerdict::Abort);
    assert_eq!(memory_verdict(at(1000), 1000), MemoryVerdict::Fine);
    // More free than total counts as nothing in use.
    assert_eq!(memory_verdict(MemorySample { total: 10, free: 20 }, 0), MemoryVerdict::Fine);
    assert_eq!(memory_verdict(MemorySample { total: 0, free: 0 }, 800), MemoryVerdict::Fine);
    let big = MemorySample { total: u64::MAX, free: 0 };
    assert_eq!(memory_verdict(big, u32::MAX), MemoryVerdict::Fine);
    assert_eq!(memory_verdict(big, 900), MemoryVerdict::Abort);
    assert_eq!(memory_verdict(big, 950), MemoryVerdict::Warn);
    assert!(governor_allows(None, 0));
    assert!(governor_allows(Some(at(880)), 800));
    assert!(!governor_allows(Some(at(881)), 800));
}

#[test]
fn a_build_that_samples_the_memory_ends_either_way() {
    let list = files(9);
    // With a limit of nothing every sample that shows memory in use aborts;
    // with the whole memory allowed none does.
    match build('C', &list, 5, 1000) {
        Ok(out) => assert_eq!(out.store.len(), 10),
        Err(_) => panic!("a build within the whole memory was stopped"),
    }
    if let Ok(out) = build('C', &list, 5, 0) {
        assert_eq!(out.store.len(), 10);
    }
}

#[test]
fn workers_leave_one_core_free() {
    assert_eq!(worker_count(0), 1);
    assert_eq!(worker_count(1), 1);
    assert_eq!(worker_count(2), 1);
    assert_eq!(worker_count(8), 7);
}

fn parts_of(list: &Vec<FileEntry>, workers: usize) -> Vec<Vec<FileEntry>> {
    split_even(list.len(), workers).iter().map(|(a, b)| list[*a..*b].to_vec()).collect()
}

#[test]
fn split_cuts_the_records_into_even_ranges() {
    assert_eq!(split_even(10, 3), vec![(0, 4), (4, 8), (8, 10)]);
    assert_eq!(split_even(10, 1), vec![(0, 10)]);
    assert_eq!(split_even(10, 0), vec![(0, 10)]);
    assert_eq!(split_even(10, 2), vec![(0, 5), (5, 10)]);
    assert_eq!(split_even(3, 8), vec![(0, 1), (1, 2), (2, 3)]);
    assert_eq!(split_even(1, 1), vec![(0, 1)]);
    assert_eq!(split_even(0, 4), Vec::<(usize, usize)>::new());
    for n in 0..40usize {
        for workers in 0..12usize {
            let ranges = split_even(n, workers);
            assert!(ranges.len() <= workers.max(1));
            let mut at = 0;
            for (a, b) in &ranges {
                assert_eq!(*a, at);
                assert!(a < b);
                assert!(b - a <= ranges[0].1 - ranges[0].0);
                at = *b;
            }
            assert_eq!(at, n);
        }
    }
}

#[test]
fn merging_the_parts_gives_the_sequential_build() {
    let mut list = files(20);
    list.push(entry(990, 5, "later.dat", false, 3));
    let whole = build('C', &list, 0, 800).unwrap().store;
    for workers in [1usize, 2, 3, 8, 64] {
        let merged = merge('C', &parts_of(&list, workers));
        assert_eq!(ids(&merged), ids(&whole));
        assert_eq!(merged.lookup_by_id(990).unwrap().name, "later.dat");
        assert_eq!(merged.full_path(990), whole.full_path(990));
    }
}
