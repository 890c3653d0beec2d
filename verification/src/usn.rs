//! The buffer that a read of the change journal fills: the next sequence
//! number, then records of version 2, each with its own length.

use crate::entry::FileEntry;
use crate::journal::{JournalRecord, Reason};
use vstd::bytes::{
    spec_u16_from_le_bytes, spec_u32_from_le_bytes, spec_u64_from_le_bytes, u16_from_le_bytes,
    u32_from_le_bytes, u64_from_le_bytes,
};
use vstd::prelude::*;
use vstd::slice::slice_subrange;

verus! {

pub const REASON_DATA_EXTEND: u32 = 0x0000_0002;

pub const REASON_DATA_TRUNCATION: u32 = 0x0000_0004;

pub const REASON_FILE_CREATE: u32 = 0x0000_0100;

pub const REASON_FILE_DELETE: u32 = 0x0000_0200;

pub const REASON_RENAME_OLD_NAME: u32 = 0x0000_1000;

pub const REASON_RENAME_NEW_NAME: u32 = 0x0000_2000;

pub const REASON_BASIC_INFO_CHANGE: u32 = 0x0000_8000;

pub const REASON_CLOSE: u32 = 0x8000_0000;

/// The reasons that the watcher asks the journal for.
pub const REASON_MASK: u32 = 0x8000_B306;

/// The attribute bit of a directory.
pub const ATTRIBUTE_DIRECTORY: u32 = 0x10;

/// The length of a record without its name, in bytes.
pub const USN_HEADER_LEN: usize = 60;

/// The record version that this module reads.
pub const USN_MAJOR_VERSION: u16 = 2;

/// One record of the change journal, as the volume wrote it.
#[derive(Debug, Clone)]
pub struct UsnRecord {
    /// Record number of the file: the low 48 bits of its reference.
    pub id: u64,
    /// Record number of the parent directory.
    pub parent_id: u64,
    pub usn: i64,
    /// Time of the change, in 100 ns ticks since 1601-01-01 UTC.
    pub timestamp: i64,
    /// The reason bits.
    pub reason: u32,
    /// The attribute bits of the file.
    pub attributes: u32,
    pub name: String,
}

/// The mathematical value of a `UsnRecord`.
pub ghost struct UsnModel {
    pub id: u64,
    pub parent_id: u64,
    pub usn: i64,
    pub timestamp: i64,
    pub reason: u32,
    pub attributes: u32,
    pub name: Seq<char>,
}

impl View for UsnRecord {
    type V = UsnModel;

    open spec fn view(&self) -> UsnModel {
        UsnModel {
            id: self.id,
            parent_id: self.parent_id,
            usn: self.usn,
            timestamp: self.timestamp,
            reason: self.reason,
            attributes: self.attributes,
            name: self.name@,
        }
    }
}

/// What a journal read gave.
#[derive(Debug, Clone)]
pub struct UsnBatch {
    /// The sequence number at which the next read starts.
    pub next_usn: i64,
    pub records: Vec<UsnRecord>,
}

/// Why a buffer could not be read.
#[derive(Debug, Clone, Copy, PartialEq, Eq, Structural)]
pub enum UsnError {
    /// The buffer is not what a journal read fills.
    Corrupt,
}

/// `u` is the first half of a surrogate pair.
pub open spec fn is_high_surrogate(u: u16) -> bool {
    0xD800 <= u <= 0xDBFF
}

/// `u` is the second half of a surrogate pair.
pub open spec fn is_low_surrogate(u: u16) -> bool {
    0xDC00 <= u <= 0xDFFF
}

/// The character that a surrogate pair stands for.
pub open spec fn pair_char(high: u16, low: u16) -> char {
    (0x10000 + (high - 0xD800) * 0x400 + (low - 0xDC00)) as char
}

/// The text that UTF-16 code units stand for, with U+FFFD in place of
/// every surrogate that has no partner.
pub open spec fn decode_utf16_lossy(units: Seq<u16>) -> Seq<char>
    decreases units.len(),
{
    if units.len() == 0 {
        Seq::empty()
    } else if is_high_surrogate(units[0]) && units.len() >= 2 && is_low_surrogate(units[1]) {
        seq![pair_char(units[0], units[1])] + decode_utf16_lossy(units.skip(2))
    } else if is_high_surrogate(units[0]) || is_low_surrogate(units[0]) {
        seq!['\u{FFFD}'] + decode_utf16_lossy(units.skip(1))
    } else {
        seq![units[0] as char] + decode_utf16_lossy(units.skip(1))
    }
}

/// `String::from_utf16_lossy` decodes UTF-16 and puts U+FFFD in place of
/// every surrogate that has no partner.
pub assume_specification[ String::from_utf16_lossy ](v: &[u16]) -> (r: String)
    ensures
        r@ == decode_utf16_lossy(v@),
;

/// The code units that the bytes hold, two bytes each, little endian.
pub open spec fn units_of(bytes: Seq<u8>) -> Seq<u16>
    decreases bytes.len(),
{
    if bytes.len() < 2 {
        Seq::empty()
    } else {
        units_of(bytes.take(bytes.len() - 2)).push(
            spec_u16_from_le_bytes(bytes.subrange(bytes.len() - 2, bytes.len() as int)),
        )
    }
}

/// The low 48 bits of a file reference: the record number.
pub open spec fn record_number_of(reference: u64) -> u64 {
    reference & 0x0000_FFFF_FFFF_FFFF
}

/// The record at the head of `b`, and its length. A record is at least 60
/// bytes long, of major version 2, as long as its first four bytes say, and
/// holds its name, an even number of bytes, within that length behind the
/// fixed fields.
pub open spec fn parse_usn_record(b: Seq<u8>) -> Option<(UsnModel, int)> {
    if b.len() < USN_HEADER_LEN {
        None
    } else {
        let length = spec_u32_from_le_bytes(b.subrange(0, 4)) as int;
        let major = spec_u16_from_le_bytes(b.subrange(4, 6));
        let name_len = spec_u16_from_le_bytes(b.subrange(56, 58)) as int;
        let name_off = spec_u16_from_le_bytes(b.subrange(58, 60)) as int;
        if length < USN_HEADER_LEN || length > b.len() || major != USN_MAJOR_VERSION || name_off
            < USN_HEADER_LEN || name_off + name_len > length || name_len % 2 != 0 {
            None
        } else {
            Some(
                (
                    UsnModel {
                        id: record_number_of(spec_u64_from_le_bytes(b.subrange(8, 16))),
                        parent_id: record_number_of(spec_u64_from_le_bytes(b.subrange(16, 24))),
                        usn: spec_u64_from_le_bytes(b.subrange(24, 32)) as i64,
                        timestamp: spec_u64_from_le_bytes(b.subrange(32, 40)) as i64,
                        reason: spec_u32_from_le_bytes(b.subrange(40, 44)),
                        attributes: spec_u32_from_le_bytes(b.subrange(52, 56)),
                        name: decode_utf16_lossy(
                            units_of(b.subrange(name_off, name_off + name_len)),
                        ),
                    },
                    length,
                ),
            )
        }
    }
}

/// The records that `b` holds, if it is a run of records up to its last byte.
pub open spec fn parse_usn_records(b: Seq<u8>) -> Option<Seq<UsnModel>>
    decreases b.len(),
{
    if b.len() == 0 {
        Some(Seq::empty())
    } else {
        match parse_usn_record(b) {
            None => None,
            Some((r, used)) => if used <= 0 || used > b.len() {
                None
            } else {
                match parse_usn_records(b.skip(used)) {
                    None => None,
                    Some(rest) => Some(seq![r] + rest),
                }
            },
        }
    }
}

/// The values of a list of records.
pub open spec fn usn_models(list: Seq<UsnRecord>) -> Seq<UsnModel> {
    list.map_values(|r: UsnRecord| r@)
}

/// The code units of the bytes from `from` up to `to`.
fn read_units(bytes: &[u8], from: usize, to: usize) -> (r: Vec<u16>)
    requires
        from <= to <= bytes@.len(),
        (to - from) % 2 == 0,
    ensures
        r@ == units_of(bytes@.subrange(from as int, to as int)),
{
    let ghost all = bytes@.subrange(from as int, to as int);
    let mut out: Vec<u16> = Vec::new();
    let mut i: usize = from;
    assert(all.take(0) =~= Seq::<u8>::empty());
    while i < to
        invariant
            from <= i <= to <= bytes@.len(),
            (to - i) % 2 == 0,
            all == bytes@.subrange(from as int, to as int),
            out@ == units_of(all.take(i - from)),
        decreases to - i,
    {
        proof {
            let next = all.take(i - from + 2);
            assert(next.take(next.len() - 2) == all.take(i - from));
            assert(next.subrange(next.len() - 2, next.len() as int) == bytes@.subrange(
                i as int,
                i + 2,
            ));
        }
        out.push(u16_from_le_bytes(slice_subrange(bytes, i, i + 2)));
        i += 2;
    }
    assert(all.take(to - from) == all);
    out
}

/// Reads the record that starts at `pos`. Returns it with the position of
/// the byte after it, or `None` where no record stands there.
pub fn read_usn_record(bytes: &[u8], pos: usize) -> (r: Option<(UsnRecord, usize)>)
    requires
        pos <= bytes@.len(),
    ensures
        match r {
            Some((rec, next)) => pos < next <= bytes@.len() && parse_usn_record(
                bytes@.skip(pos as int),
            ) == Some((rec@, next - pos)),
            None => parse_usn_record(bytes@.skip(pos as int)) is None,
        },
{
    let ghost b = bytes@.skip(pos as int);
    if bytes.len() - pos < USN_HEADER_LEN {
        return None;
    }
    proof {
        assert(b.subrange(0, 4) == bytes@.subrange(pos as int, pos + 4));
        assert(b.subrange(4, 6) == bytes@.subrange(pos + 4, pos + 6));
        assert(b.subrange(8, 16) == bytes@.subrange(pos + 8, pos + 16));
        assert(b.subrange(16, 24) == bytes@.subrange(pos + 16, pos + 24));
        assert(b.subrange(24, 32) == bytes@.subrange(pos + 24, pos + 32));
        assert(b.subrange(32, 40) == bytes@.subrange(pos + 32, pos + 40));
        assert(b.subrange(40, 44) == bytes@.subrange(pos + 40, pos + 44));
        assert(b.subrange(52, 56) == bytes@.subrange(pos + 52, pos + 56));
        assert(b.subrange(56, 58) == bytes@.subrange(pos + 56, pos + 58));
        assert(b.subrange(58, 60) == bytes@.subrange(pos + 58, pos + 60));
    }
    let length = u32_from_le_bytes(slice_subrange(bytes, pos, pos + 4)) as usize;
    let major = u16_from_le_bytes(slice_subrange(bytes, pos + 4, pos + 6));
    let name_len = u16_from_le_bytes(slice_subrange(bytes, pos + 56, pos + 58)) as usize;
    let name_off = u16_from_le_bytes(slice_subrange(bytes, pos + 58, pos + 60)) as usize;
    if length < USN_HEADER_LEN || length > bytes.len() - pos || major != USN_MAJOR_VERSION
        || name_off < USN_HEADER_LEN || name_off + name_len > length || name_len % 2 != 0 {
        return None;
    }
    proof {
        assert(b.subrange(name_off as int, name_off + name_len) == bytes@.subrange(
            pos + name_off,
            pos + name_off + name_len,
        ));
    }
    let units = read_units(bytes, pos + name_off, pos + name_off + name_len);
    let rec = UsnRecord {
        id: u64_from_le_bytes(slice_subrange(bytes, pos + 8, pos + 16)) & 0x0000_FFFF_FFFF_FFFF,
        parent_id: u64_from_le_bytes(slice_subrange(bytes, pos + 16, pos + 24))
            & 0x0000_FFFF_FFFF_FFFF,
        usn: signed(u64_from_le_bytes(slice_subrange(bytes, pos + 24, pos + 32))),
        timestamp: signed(u64_from_le_bytes(slice_subrange(bytes, pos + 32, pos + 40))),
        reason: u32_from_le_bytes(slice_subrange(bytes, pos + 40, pos + 44)),
        attributes: u32_from_le_bytes(slice_subrange(bytes, pos + 52, pos + 56)),
        name: String::from_utf16_lossy(units.as_slice()),
    };
    Some((rec, pos + length))
}

fn signed(u: u64) -> (x: i64)
    ensures
        x == u as i64,
{
    #[verifier::truncate]
    (u as i64)
}

/// Reads the buffer of a journal read: the next sequence number in its
/// first eight bytes, then the records up to the last byte. `Corrupt` where
/// the buffer is shorter than eight bytes or its rest is no run of records.
pub fn parse_usn_buffer(bytes: &[u8]) -> (r: Result<UsnBatch, UsnError>)
    ensures
        match r {
            Ok(batch) => bytes@.len() >= 8 && batch.next_usn == spec_u64_from_le_bytes(
                bytes@.subrange(0, 8),
            ) as i64 && parse_usn_records(bytes@.skip(8)) == Some(usn_models(batch.records@)),
            Err(e) => e == UsnError::Corrupt && (bytes@.len() < 8 || parse_usn_records(
                bytes@.skip(8),
            ) is None),
        },
{
    if bytes.len() < 8 {
        return Err(UsnError::Corrupt);
    }
    let next_usn = signed(u64_from_le_bytes(slice_subrange(bytes, 0, 8)));
    let mut out: Vec<UsnRecord> = Vec::new();
    let mut pos: usize = 8;
    let ghost body = bytes@.skip(8);
    assert(usn_models(out@) =~= Seq::<UsnModel>::empty());
    assert(body.skip(0) == body);
    while pos < bytes.len()
        invariant
            8 <= pos <= bytes@.len(),
            body == bytes@.skip(8),
            parse_usn_records(body) == match parse_usn_records(bytes@.skip(pos as int)) {
                Some(rest) => Some(usn_models(out@) + rest),
                None => None,
            },
        decreases bytes@.len() - pos,
    {
        match read_usn_record(bytes, pos) {
            None => {
                return Err(UsnError::Corrupt);
            },
            Some((rec, next)) => {
                proof {
                    assert(bytes@.skip(pos as int).skip(next - pos) == bytes@.skip(next as int));
                    let rest = parse_usn_records(bytes@.skip(next as int));
                    if rest is Some {
                        assert(usn_models(out@.push(rec)) + rest->0 =~= usn_models(out@) + (
                        seq![rec@] + rest->0));
                    }
                }
                out.push(rec);
                pos = next;
            },
        }
    }
    proof {
        assert(bytes@.skip(pos as int).len() == 0);
        assert(usn_models(out@) + Seq::<UsnModel>::empty() =~= usn_models(out@));
    }
    Ok(UsnBatch { next_usn, records: out })
}

/// The reason bit `bit` is set in `bits`.
pub open spec fn has_reason(bits: u32, bit: u32) -> bool {
    bits & bit != 0
}

/// What a record with the given reason bits is applied as: the first that
/// is set of delete, new name, old name, create, truncation, extension,
/// change of basic information, close.
pub open spec fn primary_reason_spec(bits: u32) -> Option<Reason> {
    if has_reason(bits, REASON_FILE_DELETE) {
        Some(Reason::Delete)
    } else if has_reason(bits, REASON_RENAME_NEW_NAME) {
        Some(Reason::RenameNewName)
    } else if has_reason(bits, REASON_RENAME_OLD_NAME) {
        Some(Reason::RenameOldName)
    } else if has_reason(bits, REASON_FILE_CREATE) {
        Some(Reason::Create)
    } else if has_reason(bits, REASON_DATA_TRUNCATION) {
        Some(Reason::DataTruncate)
    } else if has_reason(bits, REASON_DATA_EXTEND) {
        Some(Reason::DataExtend)
    } else if has_reason(bits, REASON_BASIC_INFO_CHANGE) {
        Some(Reason::BasicInfoChange)
    } else if has_reason(bits, REASON_CLOSE) {
        Some(Reason::Close)
    } else {
        None
    }
}

/// What a record with the given reason bits is applied as, if as anything.
pub fn primary_reason(bits: u32) -> (r: Option<Reason>)
    ensures
        r == primary_reason_spec(bits),
{
    if bits & REASON_FILE_DELETE != 0 {
        Some(Reason::Delete)
    } else if bits & REASON_RENAME_NEW_NAME != 0 {
        Some(Reason::RenameNewName)
    } else if bits & REASON_RENAME_OLD_NAME != 0 {
        Some(Reason::RenameOldName)
    } else if bits & REASON_FILE_CREATE != 0 {
        Some(Reason::Create)
    } else if bits & REASON_DATA_TRUNCATION != 0 {
        Some(Reason::DataTruncate)
    } else if bits & REASON_DATA_EXTEND != 0 {
        Some(Reason::DataExtend)
    } else if bits & REASON_BASIC_INFO_CHANGE != 0 {
        Some(Reason::BasicInfoChange)
    } else if bits & REASON_CLOSE != 0 {
        Some(Reason::Close)
    } else {
        None
    }
}

/// The record for the store that a record of the journal stands for. The
/// journal does not say how large the file is: `size` is what the caller
/// found. A directory has size 0. `None` for a record with none of the
/// reasons that the watcher asks for.
pub fn to_journal_record(rec: &UsnRecord, size: u64) -> (r: Option<JournalRecord>)
    ensures
        match r {
            Some(j) => primary_reason_spec(rec.reason) == Some(j.reason) && j.usn == rec.usn
                && j.entry.id == rec.id && j.entry.parent_id == rec.parent_id && j.entry.name@
                == rec.name@ && j.entry.is_directory == has_reason(
                rec.attributes,
                ATTRIBUTE_DIRECTORY,
            ) && j.entry.size == (if j.entry.is_directory {
                0
            } else {
                size
            }) && j.entry.attributes == rec.attributes && j.entry.created == rec.timestamp
                && j.entry.modified == rec.timestamp && j.entry.accessed == rec.timestamp,
            None => primary_reason_spec(rec.reason) is None,
        },
{
    let reason = match primary_reason(rec.reason) {
        Some(reason) => reason,
        None => {
            return None;
        },
    };
    let is_directory = rec.attributes & ATTRIBUTE_DIRECTORY != 0;
    Some(
        JournalRecord {
            usn: rec.usn,
            reason,
            entry: FileEntry {
                id: rec.id,
                parent_id: rec.parent_id,
                name: rec.name.clone(),
                size: if is_directory {
                    0
                } else {
                    size
                },
                is_directory,
                attributes: rec.attributes,
                created: rec.timestamp,
                modified: rec.timestamp,
                accessed: rec.timestamp,
            },
        },
    )
}

} // verus!
