use fastsearch::cache_format::{encode_meta, CacheMeta};
use fastsearch::retention::{
    cache_file_name, complete_versions, decimal_of, newest_version, parse_decimal,
    parse_version_name, pick_version, versions_to_prune, Candidate, Suffix,
};

fn names(list: &[&str]) -> Vec<String> {
    list.iter().map(|s| s.to_string()).collect()
}

#[test]
fn file_names_carry_the_timestamp() {
    assert_eq!(cache_file_name(1700000000, Suffix::Data), "mft_cache_1700000000.bin");
    assert_eq!(cache_file_name(1700000000, Suffix::Meta), "mft_cache_1700000000.meta");
    assert_eq!(cache_file_name(0, Suffix::Data), "mft_cache_0.bin");
    assert_eq!(
        cache_file_name(u64::MAX, Suffix::Meta),
        "mft_cache_18446744073709551615.meta"
    );
}

#[test]
fn file_names_are_read_back() {
    for t in [0u64, 7, 10, 1700000000, u64::MAX] {
        for s in [Suffix::Data, Suffix::Meta] {
            assert_eq!(parse_version_name(&cache_file_name(t, s)), Some((t, s)));
        }
    }
}

#[test]
fn other_names_are_not_versions() {
    for name in [
        "",
        "mft_cache_.bin",
        "mft_cache_12",
        "mft_cache_12.tmp",
        "mft_cache_12.bin.tmp",
        ".mft_cache_12.tmp",
        "mft_cache_012.bin",
        "mft_cache_00.meta",
        "mft_cache_+12.bin",
        "mft_cache_-1.bin",
        "mft_cache_1 2.bin",
        "mft_cache_12.BIN",
        "MFT_CACHE_12.bin",
        "mft_cache_18446744073709551616.bin",
        "mft_cache_99999999999999999999999.meta",
        "xmft_cache_12.bin",
        "mft_cache_12.metaa",
        ".bin",
        ".meta",
    ] {
        assert_eq!(parse_version_name(name), None, "{}", name);
    }
}

#[test]
fn numerals_are_written_and_read() {
    assert_eq!(decimal_of(0), vec!['0']);
    assert_eq!(decimal_of(9), vec!['9']);
    assert_eq!(decimal_of(10), vec!['1', '0']);
    assert_eq!(decimal_of(12345).iter().collect::<String>(), "12345");
    let text: Vec<char> = "x4096y".chars().collect();
    assert_eq!(parse_decimal(&text, 1, 5), Some(4096));
    assert_eq!(parse_decimal(&text, 1, 6), None);
    assert_eq!(parse_decimal(&text, 2, 2), None);
    assert_eq!(parse_decimal(&text, 2, 3), Some(0));
    assert_eq!(parse_decimal(&text, 2, 4), None);
}

#[test]
fn a_version_without_its_data_file_is_torn() {
    let listing = names(&[
        "mft_cache_30.meta",
        "mft_cache_10.bin",
        "mft_cache_20.meta",
        "readme.txt",
        "mft_cache_20.bin",
        "mft_cache_10.meta",
        ".mft_cache_40.tmp",
        "mft_cache_50.bin",
        "mft_cache_20.meta",
    ]);
    assert_eq!(complete_versions(&listing), vec![20, 10]);
    let more = names(&[
        "mft_cache_7.meta",
        "mft_cache_300.bin",
        "mft_cache_300.meta",
        "mft_cache_7.bin",
        "mft_cache_45.meta",
        "mft_cache_45.bin",
        "mft_cache_7.meta",
    ]);
    // Newest first, whatever the order of the listing.
    assert_eq!(complete_versions(&more), vec![300, 45, 7]);
    assert_eq!(complete_versions(&Vec::new()), Vec::<u64>::new());
}

#[test]
fn the_newest_versions_are_kept() {
    let versions = vec![30u64, 10, 50, 20, 40];
    assert_eq!(versions_to_prune(&versions, 3), vec![10, 20]);
    assert_eq!(versions_to_prune(&versions, 5), Vec::<u64>::new());
    assert_eq!(versions_to_prune(&versions, 9), Vec::<u64>::new());
    assert_eq!(versions_to_prune(&versions, 1), vec![30, 10, 20, 40]);
    assert_eq!(versions_to_prune(&versions, 0), versions);
    assert_eq!(versions_to_prune(&Vec::new(), 3), Vec::<u64>::new());
    assert_eq!(newest_version(&versions), Some(50));
    assert_eq!(newest_version(&vec![4]), Some(4));
    assert_eq!(newest_version(&Vec::new()), None);
}

#[test]
fn the_newest_readable_version_of_the_live_journal_is_picked() {
    let meta = |drive: u8, journal_id: u64| {
        encode_meta(&CacheMeta {
            created: 1,
            drive,
            journal_id,
            last_applied_usn: 0,
            file_count: 0,
            total_size: 0,
        })
    };
    let candidates = vec![
        Candidate { timestamp: 10, meta: meta(b'C', 7) },
        Candidate { timestamp: 50, meta: meta(b'C', 8) },
        Candidate { timestamp: 30, meta: meta(b'C', 7) },
        Candidate { timestamp: 40, meta: meta(b'D', 7) },
        Candidate { timestamp: 60, meta: vec![1, 2, 3] },
        Candidate { timestamp: 20, meta: meta(b'C', 7) },
    ];
    assert_eq!(pick_version(&candidates, b'C', 7), Some(2));
    assert_eq!(pick_version(&candidates, b'C', 8), Some(1));
    assert_eq!(pick_version(&candidates, b'D', 7), Some(3));
    assert_eq!(pick_version(&candidates, b'E', 7), None);
    assert_eq!(pick_version(&candidates, b'C', 9), None);
    assert_eq!(pick_version(&Vec::new(), b'C', 7), None);
}
