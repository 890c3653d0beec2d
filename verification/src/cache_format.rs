//! The on-disk form of a store: a fixed-size header that describes a data
//! file, and the data file itself, a run of entries. Everything is little
//! endian; names are UTF-8.

use crate::entry::{EntryModel, FileEntry};
use crate::store::{
    build_spec, consistent, lemma_build_of_sorted, models, sorted_by_id, IndexStore,
};
use vstd::bytes::{
    lemma_auto_spec_u16_to_from_le_bytes, lemma_auto_spec_u32_to_from_le_bytes,
    lemma_auto_spec_u64_to_from_le_bytes, spec_u16_from_le_bytes, spec_u16_to_le_bytes, spec_u32_from_le_bytes, spec_u32_to_le_bytes,
    spec_u64_from_le_bytes, spec_u64_to_le_bytes, u16_from_le_bytes, u16_to_le_bytes,
    u32_from_le_bytes, u32_to_le_bytes, u64_from_le_bytes, u64_to_le_bytes,
};
use vstd::prelude::*;
use vstd::slice::{slice_subrange, slice_to_vec};
use vstd::string::StringSliceAdditionalSpecFns;
use vstd::utf8::{
    decode_utf8, encode_utf8, encode_utf8_decode_utf8, encode_utf8_valid_utf8, valid_utf8,
};

verus! {

/// The first four bytes of a header, read as a little-endian number.
pub const CACHE_MAGIC: u32 = 0x4D465443;

/// The version of the format that this module writes and reads.
pub const CACHE_VERSION: u32 = 1;

/// The length of a header in bytes.
pub const META_LEN: usize = 50;

/// The length of an entry without its name, in bytes.
pub const ENTRY_FIXED_LEN: usize = 55;

/// Why bytes could not be written or read.
#[derive(Debug, Clone, Copy, PartialEq, Eq, Structural)]
pub enum CacheError {
    /// The bytes are not what this module writes.
    Corrupt,
    /// A name takes more than 65535 bytes in UTF-8.
    NameTooLong,
    /// The drive letter does not fit the one byte that the header has for it.
    DriveNotAscii,
}

/// What the header of a cache version says of its data file.
#[derive(Debug, Clone, Copy, PartialEq, Eq, Structural)]
pub struct CacheMeta {
    /// When the version was written, in seconds since 1970-01-01 UTC.
    pub created: u64,
    /// The drive letter, as one byte.
    pub drive: u8,
    pub journal_id: u64,
    pub last_applied_usn: i64,
    pub file_count: u64,
    /// The sum of the sizes of all entries, capped at the largest `u64`.
    pub total_size: u64,
}

/// The error of `String::from_utf8`.
#[verifier::external_type_specification]
#[verifier::external_body]
pub struct ExFromUtf8Error(std::string::FromUtf8Error);

/// `String::from_utf8` succeeds exactly on well-formed UTF-8 and then
/// returns the text that the bytes encode.
pub assume_specification[ String::from_utf8 ](bytes: Vec<u8>) -> (r: Result<
    String,
    std::string::FromUtf8Error,
>)
    ensures
        r is Ok <==> valid_utf8(bytes@),
        r matches Ok(s) ==> s@ == decode_utf8(bytes@),
;

/// The bits of a signed number, read as an unsigned one.
pub open spec fn i64_bits(x: i64) -> u64 {
    x as u64
}

/// The signed number that the bits stand for.
pub open spec fn bits_i64(u: u64) -> i64 {
    u as i64
}

/// The two readings of 64 bits are inverse to each other.
pub proof fn lemma_i64_bits(x: i64, u: u64)
    ensures
        bits_i64(i64_bits(x)) == x,
        i64_bits(bits_i64(u)) == u,
{
    assert((x as u64) as i64 == x) by (bit_vector);
    assert((u as i64) as u64 == u) by (bit_vector);
}

fn bits_of(x: i64) -> (u: u64)
    ensures
        u == i64_bits(x),
{
    #[verifier::truncate]
    (x as u64)
}

fn signed_of(u: u64) -> (x: i64)
    ensures
        x == bits_i64(u),
{
    #[verifier::truncate]
    (u as i64)
}

/// The bytes of a header.
pub open spec fn meta_bytes(m: CacheMeta) -> Seq<u8> {
    spec_u32_to_le_bytes(CACHE_MAGIC) + spec_u32_to_le_bytes(CACHE_VERSION) + spec_u64_to_le_bytes(
        m.created,
    ) + seq![m.drive, 0u8] + spec_u64_to_le_bytes(m.journal_id) + spec_u64_to_le_bytes(
        i64_bits(m.last_applied_usn),
    ) + spec_u64_to_le_bytes(m.file_count) + spec_u64_to_le_bytes(m.total_size)
}

/// The header that the bytes hold, if they are one: 50 bytes that start with
/// the magic number and the version. The byte after the drive letter is not
/// looked at.
pub open spec fn parse_meta(b: Seq<u8>) -> Option<CacheMeta> {
    if b.len() != META_LEN || spec_u32_from_le_bytes(b.subrange(0, 4)) != CACHE_MAGIC
        || spec_u32_from_le_bytes(b.subrange(4, 8)) != CACHE_VERSION {
        None
    } else {
        Some(
            CacheMeta {
                created: spec_u64_from_le_bytes(b.subrange(8, 16)),
                drive: b[16],
                journal_id: spec_u64_from_le_bytes(b.subrange(18, 26)),
                last_applied_usn: bits_i64(spec_u64_from_le_bytes(b.subrange(26, 34))),
                file_count: spec_u64_from_le_bytes(b.subrange(34, 42)),
                total_size: spec_u64_from_le_bytes(b.subrange(42, 50)),
            },
        )
    }
}

/// The flag byte of an entry: bit 0 says that it is a directory.
pub open spec fn flags_of(e: EntryModel) -> u8 {
    if e.is_directory {
        1
    } else {
        0
    }
}

/// The name of the entry fits the two bytes that hold its length.
pub open spec fn name_fits(e: EntryModel) -> bool {
    encode_utf8(e.name).len() <= u16::MAX
}

/// The bytes of an entry before its name.
pub open spec fn entry_fixed(e: EntryModel) -> Seq<u8> {
    spec_u64_to_le_bytes(e.id) + spec_u64_to_le_bytes(e.parent_id) + spec_u32_to_le_bytes(
        e.attributes,
    ) + spec_u64_to_le_bytes(e.size) + spec_u64_to_le_bytes(i64_bits(e.created))
        + spec_u64_to_le_bytes(i64_bits(e.modified)) + spec_u64_to_le_bytes(i64_bits(e.accessed))
        + seq![flags_of(e)] + spec_u16_to_le_bytes(encode_utf8(e.name).len() as u16)
}

/// The bytes of an entry.
pub open spec fn entry_bytes(e: EntryModel) -> Seq<u8> {
    entry_fixed(e) + encode_utf8(e.name)
}

/// The bytes of a data file: the entries one after the other.
pub open spec fn entries_bytes(s: Seq<EntryModel>) -> Seq<u8>
    decreases s.len(),
{
    if s.len() == 0 {
        Seq::empty()
    } else {
        entries_bytes(s.drop_last()) + entry_bytes(s.last())
    }
}

/// The entry at the head of `b`, and the number of bytes that it takes.
pub open spec fn parse_entry(b: Seq<u8>) -> Option<(EntryModel, int)> {
    if b.len() < ENTRY_FIXED_LEN {
        None
    } else {
        let name_len = spec_u16_from_le_bytes(b.subrange(53, 55)) as int;
        let name = b.subrange(55, 55 + name_len);
        if b.len() < 55 + name_len || b[52] > 1 || !valid_utf8(name) {
            None
        } else {
            Some(
                (
                    EntryModel {
                        id: spec_u64_from_le_bytes(b.subrange(0, 8)),
                        parent_id: spec_u64_from_le_bytes(b.subrange(8, 16)),
                        name: decode_utf8(name),
                        size: spec_u64_from_le_bytes(b.subrange(20, 28)),
                        is_directory: b[52] == 1,
                        attributes: spec_u32_from_le_bytes(b.subrange(16, 20)),
                        created: bits_i64(spec_u64_from_le_bytes(b.subrange(28, 36))),
                        modified: bits_i64(spec_u64_from_le_bytes(b.subrange(36, 44))),
                        accessed: bits_i64(spec_u64_from_le_bytes(b.subrange(44, 52))),
                    },
                    55 + name_len,
                ),
            )
        }
    }
}

/// The entries that a data file holds, if it is a run of entries up to its
/// last byte.
pub open spec fn parse_entries(b: Seq<u8>) -> Option<Seq<EntryModel>>
    decreases b.len(),
{
    if b.len() == 0 {
        Some(Seq::empty())
    } else {
        match parse_entry(b) {
            None => None,
            Some((e, used)) => if used <= 0 || used > b.len() {
                None
            } else {
                match parse_entries(b.skip(used)) {
                    None => None,
                    Some(rest) => Some(seq![e] + rest),
                }
            },
        }
    }
}

/// Writes a header.
pub fn encode_meta(m: &CacheMeta) -> (r: Vec<u8>)
    ensures
        r@ == meta_bytes(*m),
        r@.len() == META_LEN,
{
    let mut out = u32_to_le_bytes(CACHE_MAGIC);
    let mut part = u32_to_le_bytes(CACHE_VERSION);
    out.append(&mut part);
    let mut part = u64_to_le_bytes(m.created);
    out.append(&mut part);
    out.push(m.drive);
    out.push(0u8);
    assert(out@ == spec_u32_to_le_bytes(CACHE_MAGIC) + spec_u32_to_le_bytes(CACHE_VERSION)
        + spec_u64_to_le_bytes(m.created) + seq![m.drive, 0u8]);
    let mut part = u64_to_le_bytes(m.journal_id);
    out.append(&mut part);
    let mut part = u64_to_le_bytes(bits_of(m.last_applied_usn));
    out.append(&mut part);
    let mut part = u64_to_le_bytes(m.file_count);
    out.append(&mut part);
    let mut part = u64_to_le_bytes(m.total_size);
    out.append(&mut part);
    out
}

/// Appends the bytes of `e` to `out`. Where the name does not fit, nothing
/// is appended and `false` is returned.
pub fn encode_entry(e: &FileEntry, out: &mut Vec<u8>) -> (ok: bool)
    ensures
        ok == name_fits(e@),
        ok ==> final(out)@ == old(out)@ + entry_bytes(e@),
        !ok ==> final(out)@ == old(out)@,
{
    let name = e.name.as_str().as_bytes();
    if name.len() > 65535 {
        return false;
    }
    let ghost before = out@;
    let mut part = u64_to_le_bytes(e.id);
    out.append(&mut part);
    let mut part = u64_to_le_bytes(e.parent_id);
    out.append(&mut part);
    let mut part = u32_to_le_bytes(e.attributes);
    out.append(&mut part);
    let mut part = u64_to_le_bytes(e.size);
    out.append(&mut part);
    let mut part = u64_to_le_bytes(bits_of(e.created));
    out.append(&mut part);
    let mut part = u64_to_le_bytes(bits_of(e.modified));
    out.append(&mut part);
    let mut part = u64_to_le_bytes(bits_of(e.accessed));
    out.append(&mut part);
    out.push(if e.is_directory { 1u8 } else { 0u8 });
    let mut part = u16_to_le_bytes(name.len() as u16);
    out.append(&mut part);
    assert(out@ == before + entry_fixed(e@));
    let mut i: usize = 0;
    while i < name.len()
        invariant
            i <= name@.len(),
            name@ == encode_utf8(e.name@),
            out@ == before + entry_fixed(e@) + name@.take(i as int),
        decreases name@.len() - i,
    {
        out.push(name[i]);
        assert(name@.take(i + 1) == name@.take(i as int).push(name@[i as int]));
        i += 1;
    }
    assert(name@.take(name@.len() as int) == name@);
    true
}

/// Writes the data file of a store: its entries by ascending id.
/// `NameTooLong` where some name does not fit.
pub fn save_cache(store: &IndexStore) -> (r: Result<Vec<u8>, CacheError>)
    requires
        store.wf(),
    ensures
        match r {
            Ok(bytes) => bytes@ == entries_bytes(store@) && forall|i: int|
                0 <= i < store@.len() ==> name_fits(#[trigger] store@[i]),
            Err(e) => e == CacheError::NameTooLong && exists|i: int|
                0 <= i < store@.len() && !name_fits(#[trigger] store@[i]),
        },
{
    let mut out: Vec<u8> = Vec::new();
    let n = store.len();
    let mut i: usize = 0;
    while i < n
        invariant
            i <= n,
            n == store@.len(),
            store.wf(),
            out@ == entries_bytes(store@.take(i as int)),
            forall|k: int| 0 <= k < i ==> name_fits(#[trigger] store@[k]),
        decreases n - i,
    {
        proof {
            assert(store@.take(i + 1).drop_last() == store@.take(i as int));
            assert(store@.take(i + 1).last() == store@[i as int]);
        }
        if !encode_entry(store.entry_at(i), &mut out) {
            return Err(CacheError::NameTooLong);
        }
        i += 1;
    }
    assert(store@.take(n as int) == store@);
    Ok(out)
}

/// Reads a header.
pub fn decode_meta(bytes: &[u8]) -> (r: Result<CacheMeta, CacheError>)
    ensures
        match r {
            Ok(m) => parse_meta(bytes@) == Some(m),
            Err(e) => e == CacheError::Corrupt && parse_meta(bytes@) is None,
        },
{
    if bytes.len() != META_LEN {
        return Err(CacheError::Corrupt);
    }
    if u32_from_le_bytes(slice_subrange(bytes, 0, 4)) != CACHE_MAGIC {
        return Err(CacheError::Corrupt);
    }
    if u32_from_le_bytes(slice_subrange(bytes, 4, 8)) != CACHE_VERSION {
        return Err(CacheError::Corrupt);
    }
    Ok(
        CacheMeta {
            created: u64_from_le_bytes(slice_subrange(bytes, 8, 16)),
            drive: bytes[16],
            journal_id: u64_from_le_bytes(slice_subrange(bytes, 18, 26)),
            last_applied_usn: signed_of(u64_from_le_bytes(slice_subrange(bytes, 26, 34))),
            file_count: u64_from_le_bytes(slice_subrange(bytes, 34, 42)),
            total_size: u64_from_le_bytes(slice_subrange(bytes, 42, 50)),
        },
    )
}

/// Reads the entry that starts at `pos`. Returns it with the position of
/// the byte after it, or `None` where no entry stands there.
pub fn decode_entry(bytes: &[u8], pos: usize) -> (r: Option<(FileEntry, usize)>)
    requires
        pos <= bytes@.len(),
    ensures
        match r {
            Some((e, next)) => pos < next <= bytes@.len() && parse_entry(bytes@.skip(pos as int))
                == Some((e@, next - pos)),
            None => parse_entry(bytes@.skip(pos as int)) is None,
        },
{
    let ghost b = bytes@.skip(pos as int);
    if bytes.len() - pos < ENTRY_FIXED_LEN {
        return None;
    }
    proof {
        assert(b.subrange(0, 8) == bytes@.subrange(pos as int, pos + 8));
        assert(b.subrange(8, 16) == bytes@.subrange(pos + 8, pos + 16));
        assert(b.subrange(16, 20) == bytes@.subrange(pos + 16, pos + 20));
        assert(b.subrange(20, 28) == bytes@.subrange(pos + 20, pos + 28));
        assert(b.subrange(28, 36) == bytes@.subrange(pos + 28, pos + 36));
        assert(b.subrange(36, 44) == bytes@.subrange(pos + 36, pos + 44));
        assert(b.subrange(44, 52) == bytes@.subrange(pos + 44, pos + 52));
        assert(b.subrange(53, 55) == bytes@.subrange(pos + 53, pos + 55));
        assert(b[52] == bytes@[pos + 52]);
    }
    let name_len = u16_from_le_bytes(slice_subrange(bytes, pos + 53, pos + 55)) as usize;
    let flags = bytes[pos + 52];
    if bytes.len() - pos - ENTRY_FIXED_LEN < name_len || flags > 1 {
        return None;
    }
    let start = pos + ENTRY_FIXED_LEN;
    let next = start + name_len;
    proof {
        assert(b.subrange(55, 55 + name_len) == bytes@.subrange(start as int, next as int));
    }
    let name = match String::from_utf8(slice_to_vec(slice_subrange(bytes, start, next))) {
        Ok(name) => name,
        Err(_) => {
            return None;
        },
    };
    let e = FileEntry {
        id: u64_from_le_bytes(slice_subrange(bytes, pos, pos + 8)),
        parent_id: u64_from_le_bytes(slice_subrange(bytes, pos + 8, pos + 16)),
        name,
        size: u64_from_le_bytes(slice_subrange(bytes, pos + 20, pos + 28)),
        is_directory: flags == 1,
        attributes: u32_from_le_bytes(slice_subrange(bytes, pos + 16, pos + 20)),
        created: signed_of(u64_from_le_bytes(slice_subrange(bytes, pos + 28, pos + 36))),
        modified: signed_of(u64_from_le_bytes(slice_subrange(bytes, pos + 36, pos + 44))),
        accessed: signed_of(u64_from_le_bytes(slice_subrange(bytes, pos + 44, pos + 52))),
    };
    Some((e, next))
}

/// Reads a data file: entry after entry up to the last byte. `Corrupt`
/// where the bytes are not a run of entries.
pub fn decode_entries(bytes: &[u8]) -> (r: Result<Vec<FileEntry>, CacheError>)
    ensures
        match r {
            Ok(list) => parse_entries(bytes@) == Some(models(list@)),
            Err(e) => e == CacheError::Corrupt && parse_entries(bytes@) is None,
        },
{
    let mut out: Vec<FileEntry> = Vec::new();
    let mut pos: usize = 0;
    assert(bytes@.skip(0) == bytes@);
    assert(models(out@) =~= Seq::<EntryModel>::empty());
    while pos < bytes.len()
        invariant
            pos <= bytes@.len(),
            parse_entries(bytes@) == match parse_entries(bytes@.skip(pos as int)) {
                Some(rest) => Some(models(out@) + rest),
                None => None,
            },
        decreases bytes@.len() - pos,
    {
        match decode_entry(bytes, pos) {
            None => {
                return Err(CacheError::Corrupt);
            },
            Some((e, next)) => {
                proof {
                    assert(bytes@.skip(pos as int).skip(next - pos) == bytes@.skip(next as int));
                    let rest = parse_entries(bytes@.skip(next as int));
                    if rest is Some {
                        assert(models(out@.push(e)) + rest->0 =~= models(out@) + (seq![e@]
                            + rest->0));
                    }
                }
                out.push(e);
                pos = next;
            },
        }
    }
    proof {
        assert(bytes@.skip(pos as int).len() == 0);
        assert(models(out@) + Seq::<EntryModel>::empty() =~= models(out@));
    }
    Ok(out)
}

/// Builds the store that a data file holds. The entries are read, put into
/// a fresh store, and the store's invariants are checked; a data file that
/// cannot be read, or whose store is not consistent, is `Corrupt`.
pub fn load_cache(drive: char, bytes: &[u8]) -> (r: Result<IndexStore, CacheError>)
    ensures
        match r {
            Ok(store) => store.wf() && store.drive() == drive && parse_entries(bytes@) is Some
                && store@ == build_spec(parse_entries(bytes@)->0) && consistent(store@, drive),
            Err(e) => e == CacheError::Corrupt && (parse_entries(bytes@) is None || !consistent(
                build_spec(parse_entries(bytes@)->0),
                drive,
            )),
        },
{
    let list = match decode_entries(bytes) {
        Ok(list) => list,
        Err(e) => {
            return Err(e);
        },
    };
    let store = IndexStore::from_entries(drive, &list);
    if store.check_invariants() {
        Ok(store)
    } else {
        Err(CacheError::Corrupt)
    }
}

/// A header that was written is read back as it was.
pub proof fn lemma_meta_roundtrip(m: CacheMeta)
    ensures
        meta_bytes(m).len() == META_LEN,
        parse_meta(meta_bytes(m)) == Some(m),
{
    lemma_auto_spec_u32_to_from_le_bytes();
    lemma_auto_spec_u64_to_from_le_bytes();
    lemma_i64_bits(m.last_applied_usn, 0);
    let b = meta_bytes(m);
    assert(b.subrange(0, 4) == spec_u32_to_le_bytes(CACHE_MAGIC));
    assert(b.subrange(4, 8) == spec_u32_to_le_bytes(CACHE_VERSION));
    assert(b.subrange(8, 16) == spec_u64_to_le_bytes(m.created));
    assert(b[16] == m.drive);
    assert(b.subrange(18, 26) == spec_u64_to_le_bytes(m.journal_id));
    assert(b.subrange(26, 34) == spec_u64_to_le_bytes(i64_bits(m.last_applied_usn)));
    assert(b.subrange(34, 42) == spec_u64_to_le_bytes(m.file_count));
    assert(b.subrange(42, 50) == spec_u64_to_le_bytes(m.total_size));
}

/// An entry that was written, whatever follows it, is read back as it was.
pub proof fn lemma_entry_roundtrip(e: EntryModel, rest: Seq<u8>)
    requires
        name_fits(e),
    ensures
        entry_bytes(e).len() == ENTRY_FIXED_LEN + encode_utf8(e.name).len(),
        parse_entry(entry_bytes(e) + rest) == Some((e, entry_bytes(e).len() as int)),
{
    lemma_auto_spec_u16_to_from_le_bytes();
    lemma_auto_spec_u32_to_from_le_bytes();
    lemma_auto_spec_u64_to_from_le_bytes();
    lemma_i64_bits(e.created, 0);
    lemma_i64_bits(e.modified, 0);
    lemma_i64_bits(e.accessed, 0);
    encode_utf8_valid_utf8(e.name);
    encode_utf8_decode_utf8(e.name);
    let name = encode_utf8(e.name);
    let b = entry_bytes(e) + rest;
    assert(entry_fixed(e).len() == 55);
    assert(b.subrange(0, 8) == spec_u64_to_le_bytes(e.id));
    assert(b.subrange(8, 16) == spec_u64_to_le_bytes(e.parent_id));
    assert(b.subrange(16, 20) == spec_u32_to_le_bytes(e.attributes));
    assert(b.subrange(20, 28) == spec_u64_to_le_bytes(e.size));
    assert(b.subrange(28, 36) == spec_u64_to_le_bytes(i64_bits(e.created)));
    assert(b.subrange(36, 44) == spec_u64_to_le_bytes(i64_bits(e.modified)));
    assert(b.subrange(44, 52) == spec_u64_to_le_bytes(i64_bits(e.accessed)));
    assert(b[52] == flags_of(e));
    assert(b.subrange(53, 55) == spec_u16_to_le_bytes(name.len() as u16));
    assert(spec_u16_from_le_bytes(b.subrange(53, 55)) == name.len());
    assert(b.subrange(55, 55 + name.len() as int) == name);
    let (parsed, used) = parse_entry(b)->0;
    assert(parsed.name == e.name);
    assert(parsed == e);
}

/// The bytes of a data file start with the bytes of its first entry.
pub proof fn lemma_entries_bytes_front(s: Seq<EntryModel>)
    requires
        s.len() > 0,
    ensures
        entries_bytes(s) == entry_bytes(s[0]) + entries_bytes(s.drop_first()),
    decreases s.len(),
{
    if s.len() == 1 {
        assert(s.drop_last() =~= Seq::<EntryModel>::empty());
        assert(s.drop_first() =~= Seq::<EntryModel>::empty());
        assert(entries_bytes(s) =~= entry_bytes(s[0]) + entries_bytes(s.drop_first()));
    } else {
        let t = s.drop_last();
        lemma_entries_bytes_front(t);
        assert(t.drop_first() == s.drop_first().drop_last());
        assert(s.drop_first().last() == s.last());
        assert(entries_bytes(s) =~= entry_bytes(s[0]) + entries_bytes(s.drop_first()));
    }
}

/// A data file that was written is read back as the entries it was written from.
pub proof fn lemma_entries_roundtrip(s: Seq<EntryModel>)
    requires
        forall|i: int| 0 <= i < s.len() ==> name_fits(#[trigger] s[i]),
    ensures
        parse_entries(entries_bytes(s)) == Some(s),
    decreases s.len(),
{
    if s.len() > 0 {
        let rest = s.drop_first();
        lemma_entries_bytes_front(s);
        lemma_entry_roundtrip(s[0], entries_bytes(rest));
        assert forall|i: int| 0 <= i < rest.len() implies name_fits(#[trigger] rest[i]) by {
            assert(rest[i] == s[i + 1]);
        }
        lemma_entries_roundtrip(rest);
        let b = entries_bytes(s);
        let used = entry_bytes(s[0]).len() as int;
        assert(b.skip(used) =~= entries_bytes(rest));
        assert(seq![s[0]] + rest =~= s);
    }
}

/// Saving a store and loading what was saved gives back the same entries:
/// ids, names, parents, sizes, attributes and timestamps, and with them the
/// full paths. The bytes read back are those of a table sorted by id, so
/// building the store from them changes nothing.
pub proof fn lemma_reload_restores(s: Seq<EntryModel>)
    requires
        sorted_by_id(s),
        forall|i: int| 0 <= i < s.len() ==> name_fits(#[trigger] s[i]),
    ensures
        parse_entries(entries_bytes(s)) == Some(s),
        build_spec(parse_entries(entries_bytes(s))->0) == s,
{
    lemma_entries_roundtrip(s);
    lemma_build_of_sorted(s);
}

/// Saving, loading and saving again writes the same data file.
pub proof fn lemma_resave_is_identical(s: Seq<EntryModel>)
    requires
        sorted_by_id(s),
        forall|i: int| 0 <= i < s.len() ==> name_fits(#[trigger] s[i]),
    ensures
        entries_bytes(build_spec(parse_entries(entries_bytes(s))->0)) == entries_bytes(s),
{
    lemma_reload_restores(s);
}

} // verus!
