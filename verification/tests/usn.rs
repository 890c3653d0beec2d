use fastsearch::journal::Reason;
use fastsearch::usn::{
    parse_usn_buffer, primary_reason, read_usn_record, to_journal_record, UsnError, UsnRecord,
    REASON_BASIC_INFO_CHANGE, REASON_CLOSE, REASON_DATA_EXTEND, REASON_DATA_TRUNCATION,
    REASON_FILE_CREATE, REASON_FILE_DELETE, REASON_MASK, REASON_RENAME_NEW_NAME,
    REASON_RENAME_OLD_NAME,
};

fn record_bytes(id: u64, parent: u64, usn: i64, reason: u32, attributes: u32, name: &[u16], padding: usize) -> Vec<u8> {
    let name_len = name.len() * 2;
    let length = 60 + name_len + padding;
    let mut b = Vec::new();
    b.extend_from_slice(&(length as u32).to_le_bytes());
    b.extend_from_slice(&2u16.to_le_bytes());
    b.extend_from_slice(&0u16.to_le_bytes());
    b.extend_from_slice(&id.to_le_bytes());
    b.extend_from_slice(&parent.to_le_bytes());
    b.extend_from_slice(&usn.to_le_bytes());
    b.extend_from_slice(&132_000_000_000_000_000i64.to_le_bytes());
    b.extend_from_slice(&reason.to_le_bytes());
    b.extend_from_slice(&0u32.to_le_bytes());
    b.extend_from_slice(&0u32.to_le_bytes());
    b.extend_from_slice(&attributes.to_le_bytes());
    b.extend_from_slice(&(name_len as u16).to_le_bytes());
    b.extend_from_slice(&60u16.to_le_bytes());
    for u in name {
        b.extend_from_slice(&u.to_le_bytes());
    }
    b.extend(std::iter::repeat(0u8).take(padding));
    b
}

fn units(s: &str) -> Vec<u16> {
    s.encode_utf16().collect()
}

#[test]
fn a_buffer_is_the_next_number_and_its_records() {
    let mut buffer = Vec::new();
    buffer.extend_from_slice(&5000i64.to_le_bytes());
    // The sequence number of the file reference is cut off.
    buffer.extend(record_bytes(0x0007_0000_0000_002A, 0x0001_0000_0000_0005, 4096, REASON_FILE_CREATE | REASON_CLOSE, 0x20, &units("r\u{e9}sum\u{e9} \u{1F600}.txt"), 4));
    buffer.extend(record_bytes(43, 42, -1, REASON_FILE_DELETE, 0x10, &units("d"), 6));
    let batch = parse_usn_buffer(&buffer).unwrap();
    assert_eq!(batch.next_usn, 5000);
    assert_eq!(batch.records.len(), 2);
    let r = &batch.records[0];
    assert_eq!((r.id, r.parent_id, r.usn, r.timestamp), (42, 5, 4096, 132_000_000_000_000_000));
    assert_eq!((r.reason, r.attributes), (REASON_FILE_CREATE | REASON_CLOSE, 0x20));
    assert_eq!(r.name, "r\u{e9}sum\u{e9} \u{1F600}.txt");
    let r = &batch.records[1];
    assert_eq!((r.id, r.parent_id, r.usn, r.name.as_str()), (43, 42, -1, "d"));
    let only_number = parse_usn_buffer(&8i64.to_le_bytes()).unwrap();
    assert_eq!((only_number.next_usn, only_number.records.len()), (8, 0));
}

#[test]
fn unpaired_surrogates_become_the_replacement_character() {
    let name = [0x0041, 0xD800, 0x0042, 0xDC00, 0xD83D, 0xDE00, 0xDBFF];
    let bytes = record_bytes(1, 5, 1, REASON_CLOSE, 0, &name, 0);
    let (rec, next) = read_usn_record(&bytes, 0).unwrap();
    assert_eq!(rec.name, "A\u{FFFD}B\u{FFFD}\u{1F600}\u{FFFD}");
    assert_eq!(next, bytes.len());
}

#[test]
fn damaged_buffers_are_corrupt() {
    assert_eq!(parse_usn_buffer(&[]).err(), Some(UsnError::Corrupt));
    assert_eq!(parse_usn_buffer(&[0; 7]).err(), Some(UsnError::Corrupt));
    let good = record_bytes(1, 5, 1, REASON_CLOSE, 0, &units("ab"), 0);
    let with = |change: &dyn Fn(&mut Vec<u8>)| {
        let mut buffer = 0i64.to_le_bytes().to_vec();
        let mut rec = good.clone();
        change(&mut rec);
        buffer.extend(rec);
        parse_usn_buffer(&buffer).map(|b| b.records.len()).map_err(|e| e)
    };
    assert_eq!(with(&|_| {}), Ok(1));
    assert_eq!(with(&|r| r[4] = 3), Err(UsnError::Corrupt));
    assert_eq!(with(&|r| r[0] = 59), Err(UsnError::Corrupt));
    assert_eq!(with(&|r| r[0] = 65), Err(UsnError::Corrupt));
    assert_eq!(with(&|r| r[56] = 3), Err(UsnError::Corrupt));
    assert_eq!(with(&|r| r[56] = 6), Err(UsnError::Corrupt));
    assert_eq!(with(&|r| r[58] = 58), Err(UsnError::Corrupt));
    assert_eq!(with(&|r| r[58] = 62), Err(UsnError::Corrupt));
    assert_eq!(with(&|r| { r.pop(); }), Err(UsnError::Corrupt));
    assert_eq!(with(&|r| r.push(0)), Err(UsnError::Corrupt));
    assert!(read_usn_record(&good[..59], 0).is_none());
    assert!(read_usn_record(&good, good.len()).is_none());
}

#[test]
fn the_weightiest_reason_decides() {
    assert_eq!(primary_reason(0), None);
    assert_eq!(primary_reason(0x0000_0001), None);
    assert_eq!(primary_reason(REASON_CLOSE), Some(Reason::Close));
    assert_eq!(primary_reason(REASON_BASIC_INFO_CHANGE | REASON_CLOSE), Some(Reason::BasicInfoChange));
    assert_eq!(primary_reason(REASON_DATA_EXTEND | REASON_BASIC_INFO_CHANGE), Some(Reason::DataExtend));
    assert_eq!(primary_reason(REASON_DATA_EXTEND | REASON_DATA_TRUNCATION), Some(Reason::DataTruncate));
    assert_eq!(primary_reason(REASON_FILE_CREATE | REASON_DATA_EXTEND | REASON_CLOSE), Some(Reason::Create));
    assert_eq!(primary_reason(REASON_RENAME_OLD_NAME | REASON_FILE_CREATE), Some(Reason::RenameOldName));
    assert_eq!(primary_reason(REASON_RENAME_NEW_NAME | REASON_RENAME_OLD_NAME), Some(Reason::RenameNewName));
    assert_eq!(primary_reason(REASON_MASK), Some(Reason::Delete));
    assert_eq!(
        REASON_MASK,
        REASON_DATA_EXTEND | REASON_DATA_TRUNCATION | REASON_FILE_CREATE | REASON_FILE_DELETE
            | REASON_RENAME_OLD_NAME | REASON_RENAME_NEW_NAME | REASON_BASIC_INFO_CHANGE | REASON_CLOSE
    );
}

#[test]
fn a_journal_record_becomes_a_record_for_the_store() {
    let rec = UsnRecord {
        id: 42,
        parent_id: 5,
        usn: 77,
        timestamp: 9,
        reason: REASON_FILE_CREATE | REASON_CLOSE,
        attributes: 0x20,
        name: "a.txt".to_string(),
    };
    let j = to_journal_record(&rec, 1234).unwrap();
    assert_eq!((j.usn, j.reason), (77, Reason::Create));
    let e = &j.entry;
    assert_eq!((e.id, e.parent_id, e.name.as_str(), e.size, e.is_directory), (42, 5, "a.txt", 1234, false));
    assert_eq!((e.attributes, e.created, e.modified, e.accessed), (0x20, 9, 9, 9));
    let dir = UsnRecord { attributes: 0x30, ..rec.clone() };
    let j = to_journal_record(&dir, 1234).unwrap();
    assert_eq!((j.entry.is_directory, j.entry.size), (true, 0));
    let silent = UsnRecord { reason: 0x40, ..rec };
    assert!(to_journal_record(&silent, 0).is_none());
}
