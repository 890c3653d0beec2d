//! From the records of a volume's file table to the entries of the index:
//! which records are taken, and which of a record's names is the entry's.

use crate::entry::{EntryModel, FileEntry};
use crate::text::chars_of;
use vstd::prelude::*;

verus! {

/// The record number from which on records belong to the user's files; the
/// records below it are the file system's own.
pub const FIRST_USER_RECORD: u64 = 24;

/// The namespace of a file name.
#[derive(Debug, Clone, Copy, PartialEq, Eq, Structural)]
pub enum Namespace {
    Posix,
    Win32,
    Dos,
    Win32AndDos,
}

/// One name of a record, with what the name attribute holds beside it.
#[derive(Debug, Clone)]
pub struct RawName {
    pub namespace: Namespace,
    /// Record number of the parent directory.
    pub parent_id: u64,
    pub name: String,
    pub created: i64,
    pub modified: i64,
    pub accessed: i64,
}

/// One record of the file table, as far as the index needs it.
#[derive(Debug, Clone)]
pub struct RawRecord {
    pub record_number: u64,
    /// The "in use" flag of the record header.
    pub in_use: bool,
    /// The "is directory" flag of the record header.
    pub is_directory: bool,
    /// The names of the record, in the order of its name attributes.
    pub names: Vec<RawName>,
    /// The attribute bits of the standard information, where the record has it.
    pub attributes: Option<u32>,
    /// The size of the unnamed data stream, where the record has one.
    pub data_size: Option<u64>,
}

/// How much a namespace is preferred: Win32 names first, short DOS names last.
pub open spec fn rank(ns: Namespace) -> int {
    match ns {
        Namespace::Win32 => 3,
        Namespace::Win32AndDos => 2,
        Namespace::Posix => 1,
        Namespace::Dos => 0,
    }
}

/// The name at position `i` is the one that stands for the record: it is
/// not empty, no other name that is not empty has a preferred namespace, and
/// of those with its namespace it is the first.
pub open spec fn is_best_name(names: Seq<RawName>, i: int) -> bool {
    &&& 0 <= i < names.len()
    &&& names[i].name@.len() > 0
    &&& forall|j: int|
        0 <= j < names.len() && (#[trigger] names[j]).name@.len() > 0 ==> rank(names[j].namespace)
            < rank(names[i].namespace) || (rank(names[j].namespace) == rank(names[i].namespace)
            && j >= i)
}

/// The record has a name that is not empty.
pub open spec fn has_name(names: Seq<RawName>) -> bool {
    exists|j: int| 0 <= j < names.len() && (#[trigger] names[j]).name@.len() > 0
}

/// The name is one that the index leaves out: `.`, `..`, and the names of
/// the file system's own files, which start with `$`.
pub open spec fn is_reserved_name(name: Seq<char>) -> bool {
    name == seq!['.'] || name == seq!['.', '.'] || (name.len() > 0 && name[0] == '$')
}

/// The entry that the record gives with the name at position `i`. A
/// directory has size 0; a file without data stream too; a record without
/// standard information has no attribute bits set.
pub open spec fn entry_with_name(raw: RawRecord, i: int) -> EntryModel {
    let n = raw.names@[i];
    EntryModel {
        id: raw.record_number,
        parent_id: n.parent_id,
        name: n.name@,
        size: if raw.is_directory {
            0
        } else {
            match raw.data_size {
                Some(size) => size,
                None => 0,
            }
        },
        is_directory: raw.is_directory,
        attributes: match raw.attributes {
            Some(bits) => bits,
            None => 0,
        },
        created: n.created,
        modified: n.modified,
        accessed: n.accessed,
    }
}

/// The record is taken with the name at position `i`: it is in use, the
/// name is its best, and either it is the root directory, the record that
/// names itself as parent, or its number is not below `FIRST_USER_RECORD`
/// and its name is not reserved.
pub open spec fn taken_with(raw: RawRecord, i: int) -> bool {
    &&& raw.in_use
    &&& is_best_name(raw.names@, i)
    &&& (raw.names@[i].parent_id == raw.record_number || (raw.record_number >= FIRST_USER_RECORD
        && !is_reserved_name(raw.names@[i].name@)))
}

/// The record gives an entry.
pub open spec fn is_taken(raw: RawRecord) -> bool {
    exists|i: int| taken_with(raw, i)
}

/// A record has one best name at most.
pub proof fn lemma_best_name_is_unique(names: Seq<RawName>, i: int, k: int)
    requires
        is_best_name(names, i),
        is_best_name(names, k),
    ensures
        i == k,
{
}

/// The position of the name that stands for the record, if it has one.
pub fn best_name(names: &Vec<RawName>) -> (r: Option<usize>)
    ensures
        match r {
            Some(i) => is_best_name(names@, i as int),
            None => !has_name(names@),
        },
{
    let mut best: Option<usize> = None;
    let mut j: usize = 0;
    while j < names.len()
        invariant
            j <= names@.len(),
            match best {
                Some(i) => i < j && names@[i as int].name@.len() > 0 && forall|k: int|
                    0 <= k < j && (#[trigger] names@[k]).name@.len() > 0 ==> rank(
                        names@[k].namespace,
                    ) < rank(names@[i as int].namespace) || (rank(names@[k].namespace) == rank(
                        names@[i as int].namespace,
                    ) && k >= i),
                None => forall|k: int| 0 <= k < j ==> (#[trigger] names@[k]).name@.len() == 0,
            },
        decreases names@.len() - j,
    {
        if names[j].name.as_str().unicode_len() > 0 {
            let better = match best {
                Some(i) => rank_of(names[j].namespace) > rank_of(names[i].namespace),
                None => true,
            };
            if better {
                best = Some(j);
            }
        }
        j += 1;
    }
    best
}

fn rank_of(ns: Namespace) -> (r: u8)
    ensures
        r == rank(ns),
{
    match ns {
        Namespace::Win32 => 3,
        Namespace::Win32AndDos => 2,
        Namespace::Posix => 1,
        Namespace::Dos => 0,
    }
}

/// The name is `.`, `..` or starts with `$`.
pub fn name_is_reserved(name: &str) -> (r: bool)
    ensures
        r == is_reserved_name(name@),
{
    let s = chars_of(name);
    if s.len() == 0 {
        return false;
    }
    if s[0] == '$' {
        return true;
    }
    if s[0] != '.' {
        return false;
    }
    if s.len() == 1 {
        assert(s@ =~= seq!['.']);
        return true;
    }
    if s.len() == 2 && s[1] == '.' {
        assert(s@ =~= seq!['.', '.']);
        return true;
    }
    false
}

/// The entry that a record of the file table gives, if it gives one.
/// Records that are not in use give none, nor records without a name; of the
/// records below `FIRST_USER_RECORD` only the root directory is taken, and
/// above it every record but those with a reserved name.
pub fn entry_from_record(raw: &RawRecord) -> (r: Option<FileEntry>)
    ensures
        match r {
            Some(e) => exists|i: int| taken_with(*raw, i) && e@ == entry_with_name(*raw, i),
            None => !is_taken(*raw),
        },
{
    if !raw.in_use {
        return None;
    }
    let i = match best_name(&raw.names) {
        Some(i) => i,
        None => {
            return None;
        },
    };
    let n = &raw.names[i];
    let root = n.parent_id == raw.record_number;
    if !root && (raw.record_number < FIRST_USER_RECORD || name_is_reserved(n.name.as_str())) {
        proof {
            assert forall|k: int| !taken_with(*raw, k) by {
                if taken_with(*raw, k) {
                    lemma_best_name_is_unique(raw.names@, i as int, k);
                }
            }
        }
        return None;
    }
    let e = FileEntry {
        id: raw.record_number,
        parent_id: n.parent_id,
        name: n.name.clone(),
        size: if raw.is_directory {
            0
        } else {
            match raw.data_size {
                Some(size) => size,
                None => 0,
            }
        },
        is_directory: raw.is_directory,
        attributes: match raw.attributes {
            Some(bits) => bits,
            None => 0,
        },
        created: n.created,
        modified: n.modified,
        accessed: n.accessed,
    };
    assert(taken_with(*raw, i as int));
    assert(e@ == entry_with_name(*raw, i as int));
    Some(e)
}

/// The entry of a record that is taken.
pub open spec fn entry_of(raw: RawRecord) -> EntryModel {
    entry_with_name(raw, choose|i: int| taken_with(raw, i))
}

/// The entries that the records give, in the order of the records.
pub open spec fn entries_of(records: Seq<RawRecord>) -> Seq<EntryModel>
    decreases records.len(),
{
    if records.len() == 0 {
        Seq::empty()
    } else if is_taken(records.last()) {
        entries_of(records.drop_last()).push(entry_of(records.last()))
    } else {
        entries_of(records.drop_last())
    }
}

/// The entries of the index for the records of a file table: each record
/// that is taken gives one, in the order of the records.
pub fn parse_records(records: &Vec<RawRecord>) -> (r: Vec<FileEntry>)
    ensures
        crate::store::models(r@) == entries_of(records@),
{
    let mut out: Vec<FileEntry> = Vec::new();
    let mut i: usize = 0;
    assert(records@.take(0) =~= Seq::<RawRecord>::empty());
    assert(crate::store::models(out@) =~= Seq::<EntryModel>::empty());
    while i < records.len()
        invariant
            i <= records@.len(),
            crate::store::models(out@) == entries_of(records@.take(i as int)),
        decreases records@.len() - i,
    {
        proof {
            assert(records@.take(i + 1).drop_last() == records@.take(i as int));
            assert(records@.take(i + 1).last() == records@[i as int]);
        }
        let ghost before = out@;
        match entry_from_record(&records[i]) {
            Some(e) => {
                proof {
                    let raw = records@[i as int];
                    let k = choose|k: int| taken_with(raw, k) && e@ == entry_with_name(raw, k);
                    let c = choose|c: int| taken_with(raw, c);
                    lemma_best_name_is_unique(raw.names@, k, c);
                }
                out.push(e);
                assert(crate::store::models(out@) =~= crate::store::models(before).push(e@));
            },
            None => {},
        }
        i += 1;
    }
    assert(records@.take(records@.len() as int) == records@);
    out
}

} // verus!
