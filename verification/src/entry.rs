//! One indexed file or directory, and what is derived from its name.

use crate::text::{chars_of, lower, string_of, tail_of, to_lower_vec};
use vstd::prelude::*;

verus! {

/// One record of the volume's file table: a file or a directory.
#[derive(Debug, Clone)]
pub struct FileEntry {
    /// Record number, unique per volume.
    pub id: u64,
    /// Record number of the parent directory; the root names itself.
    pub parent_id: u64,
    /// Name as seen in the parent directory.
    pub name: String,
    /// Logical size in bytes; 0 for directories.
    pub size: u64,
    pub is_directory: bool,
    /// Raw attribute bits.
    pub attributes: u32,
    /// Creation time, in 100 ns ticks since 1601-01-01 UTC.
    pub created: i64,
    /// Time of the last change, same unit.
    pub modified: i64,
    /// Time of the last access, same unit.
    pub accessed: i64,
}

/// The mathematical value of a `FileEntry`.
pub ghost struct EntryModel {
    pub id: u64,
    pub parent_id: u64,
    pub name: Seq<char>,
    pub size: u64,
    pub is_directory: bool,
    pub attributes: u32,
    pub created: i64,
    pub modified: i64,
    pub accessed: i64,
}

impl View for FileEntry {
    type V = EntryModel;

    open spec fn view(&self) -> EntryModel {
        EntryModel {
            id: self.id,
            parent_id: self.parent_id,
            name: self.name@,
            size: self.size,
            is_directory: self.is_directory,
            attributes: self.attributes,
            created: self.created,
            modified: self.modified,
            accessed: self.accessed,
        }
    }
}

/// Position of the last `.` in `name`, or -1 where it has none.
pub open spec fn last_dot(name: Seq<char>) -> int
    decreases name.len(),
{
    if name.len() == 0 {
        -1
    } else if name.last() == '.' {
        name.len() - 1
    } else {
        last_dot(name.drop_last())
    }
}

/// The extension of a name: what follows its last dot, lower-cased. A name
/// without a dot has none, and neither has a name that ends with a dot.
pub open spec fn extension_of(name: Seq<char>) -> Option<Seq<char>> {
    let dot = last_dot(name);
    if dot < 0 || dot == name.len() - 1 {
        None
    } else {
        Some(lower(name.subrange(dot + 1, name.len() as int)))
    }
}

impl EntryModel {
    /// The entry is the root of its volume: it names itself as parent.
    pub open spec fn is_root(self) -> bool {
        self.parent_id == self.id
    }

    /// The lower-cased name, the key of the name index.
    pub open spec fn name_key(self) -> Seq<char> {
        lower(self.name)
    }

    /// The extension derived from the name.
    pub open spec fn extension(self) -> Option<Seq<char>> {
        extension_of(self.name)
    }
}

/// `last_dot` is the position of a dot after which no dot follows.
pub proof fn lemma_last_dot(name: Seq<char>)
    ensures
        -1 <= last_dot(name) < name.len(),
        last_dot(name) >= 0 ==> name[last_dot(name)] == '.',
        forall|j: int| last_dot(name) < j < name.len() ==> name[j] != '.',
    decreases name.len(),
{
    if name.len() > 0 && name.last() != '.' {
        lemma_last_dot(name.drop_last());
        assert forall|j: int| last_dot(name) < j < name.len() implies name[j] != '.' by {
            if j < name.len() - 1 {
                assert(name.drop_last()[j] == name[j]);
            }
        }
    }
}

/// A name without any dot has no extension.
pub proof fn lemma_no_dot_no_extension(name: Seq<char>)
    requires
        forall|i: int| 0 <= i < name.len() ==> name[i] != '.',
    ensures
        extension_of(name) is None,
{
    lemma_last_dot(name);
}

/// A name that ends with a dot has no extension.
pub proof fn lemma_trailing_dot_no_extension(name: Seq<char>)
    requires
        name.len() > 0,
        name.last() == '.',
    ensures
        extension_of(name) is None,
{
}

/// The position of the last dot in `name`, if it has one.
pub fn find_last_dot(name: &Vec<char>) -> (r: Option<usize>)
    ensures
        match r {
            Some(i) => i == last_dot(name@),
            None => last_dot(name@) == -1,
        },
{
    let mut i: usize = name.len();
    proof {
        assert(name@.take(i as int) == name@);
    }
    while i > 0
        invariant
            i <= name.len(),
            last_dot(name@) == last_dot(name@.take(i as int)),
        decreases i,
    {
        if name[i - 1] == '.' {
            assert(name@.take(i as int).last() == '.');
            return Some(i - 1);
        }
        proof {
            assert(name@.take(i as int).drop_last() == name@.take(i - 1));
        }
        i -= 1;
    }
    proof {
        assert(name@.take(0).len() == 0);
    }
    None
}

/// The extension of a name given as characters.
pub fn extension_of_chars(name: &Vec<char>) -> (r: Option<Vec<char>>)
    ensures
        match r {
            Some(e) => extension_of(name@) == Some(e@),
            None => extension_of(name@) is None,
        },
{
    match find_last_dot(name) {
        None => None,
        Some(dot) => {
            proof {
                lemma_last_dot(name@);
            }
            if dot == name.len() - 1 {
                None
            } else {
                let tail = tail_of(name, dot + 1);
                Some(to_lower_vec(&tail))
            }
        },
    }
}

impl FileEntry {
    /// The extension of this entry's name: lower case, without the dot.
    pub fn extension(&self) -> (r: Option<String>)
        ensures
            match r {
                Some(e) => self@.extension() == Some(e@),
                None => self@.extension() is None,
            },
    {
        let name = chars_of(self.name.as_str());
        match extension_of_chars(&name) {
            Some(e) => Some(string_of(&e)),
            None => None,
        }
    }

    /// An independent copy of this entry.
    pub fn snapshot(&self) -> (r: FileEntry)
        ensures
            r@ == self@,
    {
        FileEntry {
            id: self.id,
            parent_id: self.parent_id,
            name: self.name.clone(),
            size: self.size,
            is_directory: self.is_directory,
            attributes: self.attributes,
            created: self.created,
            modified: self.modified,
            accessed: self.accessed,
        }
    }
}

} // verus!
