//! The in-memory index of one volume: every entry once, ordered by record
//! number, with the keys of the three secondary indexes kept beside it.
//!
//! The secondary indexes are stored as key columns aligned with the entry
//! table: the lower-cased name, the extension, and the lower-cased full path
//! of each entry. `by_name_ci`, `by_extension` and `by_full_path_ci` are the
//! maps that these columns represent. Their keys are texts, and of std's
//! maps keyed by text vstd states nothing that a proof could use; the
//! columns keep as the store's invariant what such maps would hold.

use crate::entry::{extension_of, extension_of_chars, EntryModel, FileEntry};
use crate::text::{chars_eq, chars_of, contains_exec, contains_seq, lower, string_of, to_lower_vec};
use vstd::prelude::*;

verus! {

/// Why an operation on the store was refused.
#[derive(Debug, Clone, Copy, PartialEq, Eq, Structural)]
pub enum StoreError {
    /// No entry has the given id.
    NotFound,
    /// A parent chain does not end at the root: it runs in a cycle or
    /// through a missing entry.
    Corrupt,
    /// The full path is already taken by another id.
    Conflict,
}

/// Ids grow strictly along the sequence.
pub open spec fn sorted_by_id(s: Seq<EntryModel>) -> bool {
    forall|i: int, j: int| 0 <= i < j < s.len() ==> s[i].id < s[j].id
}

/// Some entry of `s` has the given id.
pub open spec fn has_id(s: Seq<EntryModel>, id: u64) -> bool {
    exists|i: int| 0 <= i < s.len() && s[i].id == id
}

/// A position in `s` at which the given id stands.
pub open spec fn position_of(s: Seq<EntryModel>, id: u64) -> int {
    choose|i: int| 0 <= i < s.len() && s[i].id == id
}

/// The entry of `s` with the given id.
pub open spec fn entry_with_id(s: Seq<EntryModel>, id: u64) -> EntryModel {
    s[position_of(s, id)]
}

/// The primary index: the entries of `s` by id.
pub open spec fn by_id(s: Seq<EntryModel>) -> Map<u64, EntryModel> {
    Map::new(|id: u64| has_id(s, id), |id: u64| entry_with_id(s, id))
}

/// The number of leading entries of `s` whose id is below `id`, for a sorted `s`.
pub open spec fn lower_bound(s: Seq<EntryModel>, id: u64) -> int
    decreases s.len(),
{
    if s.len() == 0 || s.last().id < id {
        s.len() as int
    } else {
        lower_bound(s.drop_last(), id)
    }
}

/// `s` with `e` put in: in place of the entry with the same id, or else at
/// the position that keeps the ids sorted.
pub open spec fn put_spec(s: Seq<EntryModel>, e: EntryModel) -> Seq<EntryModel> {
    let p = lower_bound(s, e.id);
    if p < s.len() && s[p].id == e.id {
        s.update(p, e)
    } else {
        s.insert(p, e)
    }
}

/// `s` without the entry that has the given id.
pub open spec fn remove_spec(s: Seq<EntryModel>, id: u64) -> Seq<EntryModel> {
    let p = lower_bound(s, id);
    if p < s.len() && s[p].id == id {
        s.remove(p)
    } else {
        s
    }
}

/// The full path of the entry `id`, walking at most `fuel` parents: the
/// root's path is the drive and a colon, any other entry's path is its
/// parent's path, a backslash and its own name. `None` where the walk meets
/// a missing entry or runs out of fuel.
pub open spec fn path_of(s: Seq<EntryModel>, drive: char, id: u64, fuel: nat) -> Option<Seq<char>>
    decreases fuel,
{
    if !has_id(s, id) {
        None
    } else {
        let e = entry_with_id(s, id);
        if e.is_root() {
            Some(seq![drive, ':'])
        } else if fuel == 0 {
            None
        } else {
            match path_of(s, drive, e.parent_id, (fuel - 1) as nat) {
                Some(p) => Some(p + seq!['\\'] + e.name),
                None => None,
            }
        }
    }
}

/// The full path of `id`, with the number of parents walked capped by the
/// number of entries.
pub open spec fn full_path_of(s: Seq<EntryModel>, drive: char, id: u64) -> Result<
    Seq<char>,
    StoreError,
> {
    if !has_id(s, id) {
        Err(StoreError::NotFound)
    } else {
        match path_of(s, drive, id, s.len()) {
            Some(p) => Ok(p),
            None => Err(StoreError::Corrupt),
        }
    }
}

/// The key under which the path index holds `id`: its lower-cased full path.
pub open spec fn path_key_of(s: Seq<EntryModel>, drive: char, id: u64) -> Option<Seq<char>> {
    match path_of(s, drive, id, s.len()) {
        Some(p) => Some(lower(p)),
        None => None,
    }
}

/// In a sorted sequence an id stands at one position only.
pub proof fn lemma_position_unique(s: Seq<EntryModel>, i: int)
    requires
        sorted_by_id(s),
        0 <= i < s.len(),
    ensures
        has_id(s, s[i].id),
        position_of(s, s[i].id) == i,
        entry_with_id(s, s[i].id) == s[i],
{
    let p = position_of(s, s[i].id);
    if p < i {
        assert(s[p].id < s[i].id);
    } else if i < p {
        assert(s[i].id < s[p].id);
    }
}

/// What `lower_bound` is for a sorted sequence: the one position that parts
/// the ids below `id` from the others.
pub proof fn lemma_lower_bound(s: Seq<EntryModel>, id: u64)
    requires
        sorted_by_id(s),
    ensures
        0 <= lower_bound(s, id) <= s.len(),
        forall|i: int| 0 <= i < lower_bound(s, id) ==> s[i].id < id,
        forall|i: int| lower_bound(s, id) <= i < s.len() ==> s[i].id >= id,
    decreases s.len(),
{
    if s.len() == 0 {
    } else if s.last().id < id {
        assert forall|i: int| 0 <= i < s.len() implies s[i].id < id by {
            if i < s.len() - 1 {
                assert(s[i].id < s[s.len() - 1].id);
            }
        }
    } else {
        let t = s.drop_last();
        assert(sorted_by_id(t)) by {
            assert forall|i: int, j: int| 0 <= i < j < t.len() implies t[i].id < t[j].id by {
                assert(s[i].id < s[j].id);
            }
        }
        lemma_lower_bound(t, id);
        assert forall|i: int| 0 <= i < lower_bound(s, id) implies s[i].id < id by {
            assert(t[i] == s[i]);
        }
        assert forall|i: int| lower_bound(s, id) <= i < s.len() implies s[i].id >= id by {
            if i < s.len() - 1 {
                assert(t[i] == s[i]);
            }
        }
    }
}

/// A position that parts the ids below `id` from the others is `lower_bound`.
pub proof fn lemma_lower_bound_is(s: Seq<EntryModel>, id: u64, p: int)
    requires
        sorted_by_id(s),
        0 <= p <= s.len(),
        forall|i: int| 0 <= i < p ==> s[i].id < id,
        forall|i: int| p <= i < s.len() ==> s[i].id >= id,
    ensures
        lower_bound(s, id) == p,
{
    lemma_lower_bound(s, id);
    let q = lower_bound(s, id);
    if q < p {
        assert(s[q].id < id);
    } else if p < q {
        assert(s[p].id < id);
    }
}

/// An id is in a sorted sequence exactly where it stands at its lower bound.
pub proof fn lemma_has_id_at_lower_bound(s: Seq<EntryModel>, id: u64)
    requires
        sorted_by_id(s),
    ensures
        has_id(s, id) <==> (lower_bound(s, id) < s.len() && s[lower_bound(s, id)].id == id),
        has_id(s, id) ==> position_of(s, id) == lower_bound(s, id),
{
    lemma_lower_bound(s, id);
    let p = lower_bound(s, id);
    if has_id(s, id) {
        let q = position_of(s, id);
        if q < p {
            assert(s[q].id < id);
        }
        if q > p {
            assert(s[p].id >= id);
            assert(s[p].id < s[q].id);
        }
    }
}

/// Putting an entry into a sorted sequence keeps it sorted.
pub proof fn lemma_put_sorted(s: Seq<EntryModel>, e: EntryModel)
    requires
        sorted_by_id(s),
    ensures
        sorted_by_id(put_spec(s, e)),
        has_id(s, e.id) ==> put_spec(s, e).len() == s.len(),
        !has_id(s, e.id) ==> put_spec(s, e).len() == s.len() + 1,
        lower_bound(put_spec(s, e), e.id) == lower_bound(s, e.id),
        put_spec(s, e)[lower_bound(s, e.id)] == e,
{
    lemma_lower_bound(s, e.id);
    lemma_has_id_at_lower_bound(s, e.id);
    let p = lower_bound(s, e.id);
    let t = put_spec(s, e);
    if p < s.len() && s[p].id == e.id {
        assert forall|i: int, j: int| 0 <= i < j < t.len() implies t[i].id < t[j].id by {
            assert(s[i].id < s[j].id);
        }
    } else {
        assert forall|i: int, j: int| 0 <= i < j < t.len() implies t[i].id < t[j].id by {
            let i0 = if i < p { i } else { i - 1 };
            let j0 = if j < p { j } else { j - 1 };
            if i != p && j != p {
                assert(s[i0].id < s[j0].id);
            } else if i == p {
                assert(s[j0].id >= e.id);
            } else {
                assert(s[i0].id < e.id);
            }
        }
    }
    assert forall|i: int| 0 <= i < p implies t[i].id < e.id by {
        assert(t[i] == s[i]);
    }
    assert forall|i: int| p <= i < t.len() implies t[i].id >= e.id by {
        if i > p {
            assert(t[p].id < t[i].id);
        }
    }
    lemma_lower_bound_is(t, e.id, p);
}

/// After putting `e` into a sorted sequence, `e` is what is found under its
/// id, and every other id is found as before.
pub proof fn lemma_put_lookup(s: Seq<EntryModel>, e: EntryModel, id: u64)
    requires
        sorted_by_id(s),
    ensures
        has_id(put_spec(s, e), id) <==> (has_id(s, id) || id == e.id),
        has_id(put_spec(s, e), id) ==> entry_with_id(put_spec(s, e), id) == (if id == e.id {
            e
        } else {
            entry_with_id(s, id)
        }),
{
    lemma_put_sorted(s, e);
    lemma_lower_bound(s, e.id);
    let p = lower_bound(s, e.id);
    let t = put_spec(s, e);
    let replaced = p < s.len() && s[p].id == e.id;
    if id == e.id {
        lemma_position_unique(t, p);
    } else {
        if has_id(s, id) {
            let i = position_of(s, id);
            lemma_position_unique(s, i);
            let k = if replaced || i < p { i } else { i + 1 };
            assert(t[k] == s[i]);
            lemma_position_unique(t, k);
        }
        if has_id(t, id) {
            let k = position_of(t, id);
            lemma_position_unique(t, k);
            let i = if replaced || k < p { k } else { k - 1 };
            assert(t[k] == s[i]);
            lemma_position_unique(s, i);
        }
    }
}

/// Putting `e` into a sorted sequence is an insertion into the primary index.
pub proof fn lemma_put_spec(s: Seq<EntryModel>, e: EntryModel)
    requires
        sorted_by_id(s),
    ensures
        sorted_by_id(put_spec(s, e)),
        by_id(put_spec(s, e)) == by_id(s).insert(e.id, e),
{
    lemma_put_sorted(s, e);
    let t = put_spec(s, e);
    assert forall|id: u64| #[trigger] by_id(t).dom().contains(id) <==> by_id(s).insert(e.id, e).dom().contains(id) by {
        lemma_put_lookup(s, e, id);
    }
    assert forall|id: u64| #[trigger] by_id(t).dom().contains(id) implies by_id(t)[id] == by_id(s).insert(e.id, e)[id] by {
        lemma_put_lookup(s, e, id);
    }
    assert(by_id(t) =~= by_id(s).insert(e.id, e));
}

/// Removing an id from a sorted sequence keeps it sorted.
pub proof fn lemma_remove_sorted(s: Seq<EntryModel>, id: u64)
    requires
        sorted_by_id(s),
    ensures
        sorted_by_id(remove_spec(s, id)),
        has_id(s, id) ==> remove_spec(s, id).len() == s.len() - 1,
        !has_id(s, id) ==> remove_spec(s, id) == s,
{
    lemma_lower_bound(s, id);
    lemma_has_id_at_lower_bound(s, id);
    let p = lower_bound(s, id);
    let t = remove_spec(s, id);
    if p < s.len() && s[p].id == id {
        assert forall|i: int, j: int| 0 <= i < j < t.len() implies t[i].id < t[j].id by {
            let i0 = if i < p { i } else { i + 1 };
            let j0 = if j < p { j } else { j + 1 };
            assert(s[i0].id < s[j0].id);
        }
    }
}

/// After removing `id` from a sorted sequence it is gone, and every other id
/// is found as before.
pub proof fn lemma_remove_lookup(s: Seq<EntryModel>, id: u64, x: u64)
    requires
        sorted_by_id(s),
    ensures
        has_id(remove_spec(s, id), x) <==> (has_id(s, x) && x != id),
        has_id(remove_spec(s, id), x) ==> entry_with_id(remove_spec(s, id), x) == entry_with_id(
            s,
            x,
        ),
{
    lemma_remove_sorted(s, id);
    lemma_lower_bound(s, id);
    lemma_has_id_at_lower_bound(s, id);
    let p = lower_bound(s, id);
    let t = remove_spec(s, id);
    if p < s.len() && s[p].id == id {
        lemma_position_unique(s, p);
        if has_id(s, x) && x != id {
            let i = position_of(s, x);
            lemma_position_unique(s, i);
            let k = if i < p { i } else { i - 1 };
            assert(t[k] == s[i]);
            lemma_position_unique(t, k);
        }
        if has_id(t, x) {
            let k = position_of(t, x);
            lemma_position_unique(t, k);
            let i = if k < p { k } else { k + 1 };
            assert(t[k] == s[i]);
            lemma_position_unique(s, i);
        }
    }
}

/// Removing `id` from a sorted sequence is a removal from the primary index.
pub proof fn lemma_remove_spec(s: Seq<EntryModel>, id: u64)
    requires
        sorted_by_id(s),
    ensures
        sorted_by_id(remove_spec(s, id)),
        by_id(remove_spec(s, id)) == by_id(s).remove(id),
{
    lemma_remove_sorted(s, id);
    let t = remove_spec(s, id);
    assert forall|x: u64| #[trigger] by_id(t).dom().contains(x) <==> by_id(s).remove(id).dom().contains(x) by {
        lemma_remove_lookup(s, id, x);
    }
    assert forall|x: u64| #[trigger] by_id(t).dom().contains(x) implies by_id(t)[x] == by_id(s).remove(id)[x] by {
        lemma_remove_lookup(s, id, x);
    }
    assert(by_id(t) =~= by_id(s).remove(id));
}

/// Putting back the entry that `e` replaced restores the sequence.
pub proof fn lemma_put_back(s: Seq<EntryModel>, e: EntryModel)
    requires
        sorted_by_id(s),
        has_id(s, e.id),
    ensures
        put_spec(put_spec(s, e), entry_with_id(s, e.id)) == s,
{
    lemma_put_sorted(s, e);
    lemma_lower_bound(s, e.id);
    lemma_has_id_at_lower_bound(s, e.id);
    let p = lower_bound(s, e.id);
    lemma_position_unique(s, p);
    assert(put_spec(put_spec(s, e), entry_with_id(s, e.id)) =~= s);
}

/// Removing an entry that was newly put in restores the sequence.
pub proof fn lemma_put_undo(s: Seq<EntryModel>, e: EntryModel)
    requires
        sorted_by_id(s),
        !has_id(s, e.id),
    ensures
        remove_spec(put_spec(s, e), e.id) == s,
{
    lemma_put_sorted(s, e);
    lemma_has_id_at_lower_bound(s, e.id);
    lemma_lower_bound(s, e.id);
    let p = lower_bound(s, e.id);
    let t = put_spec(s, e);
    assert(t == s.insert(p, e));
    assert(lower_bound(t, e.id) == p);
    assert(t[p].id == e.id);
    assert(remove_spec(t, e.id) == t.remove(p));
    assert(t.remove(p) =~= s);
}

/// The entry `id` has a full path, and another entry has the same path up to case.
pub open spec fn path_taken_by_other(s: Seq<EntryModel>, drive: char, id: u64) -> bool {
    path_key_of(s, drive, id) is Some && exists|other: u64|
        other != id && has_id(s, other) && #[trigger] path_key_of(s, drive, other) == path_key_of(
            s,
            drive,
            id,
        )
}

/// Putting `e` into `s` would give it a full path that another id already has.
pub open spec fn insert_conflicts(s: Seq<EntryModel>, drive: char, e: EntryModel) -> bool {
    path_taken_by_other(put_spec(s, e), drive, e.id)
}

/// The entry `e` moved under `new_parent_id` with the name `new_name`.
pub open spec fn renamed(e: EntryModel, new_parent_id: u64, new_name: Seq<char>) -> EntryModel {
    EntryModel { parent_id: new_parent_id, name: new_name, ..e }
}

/// The parent chain of `id` runs through `depth + 1` entries of `s`, none of
/// them the root.
pub open spec fn chain_exceeds(s: Seq<EntryModel>, id: u64, depth: nat) -> bool
    decreases depth,
{
    has_id(s, id) && !entry_with_id(s, id).is_root() && (depth == 0 || chain_exceeds(
        s,
        entry_with_id(s, id).parent_id,
        (depth - 1) as nat,
    ))
}

/// The number of parents that the walk for `path_of` steps to.
pub open spec fn parents_walked(s: Seq<EntryModel>, id: u64, fuel: nat) -> nat
    decreases fuel,
{
    if !has_id(s, id) || entry_with_id(s, id).is_root() || fuel == 0 {
        0
    } else {
        1 + parents_walked(s, entry_with_id(s, id).parent_id, (fuel - 1) as nat)
    }
}

/// The walk for a full path steps to at most as many parents as the store
/// has entries.
pub proof fn lemma_walk_is_bounded(s: Seq<EntryModel>, id: u64, fuel: nat)
    ensures
        parents_walked(s, id, fuel) <= fuel,
    decreases fuel,
{
    if has_id(s, id) && !entry_with_id(s, id).is_root() && fuel > 0 {
        lemma_walk_is_bounded(s, entry_with_id(s, id).parent_id, (fuel - 1) as nat);
    }
}

/// A parent chain that is still away from the root after `fuel` parents has
/// no path within that bound.
pub proof fn lemma_long_chain_has_no_path(s: Seq<EntryModel>, drive: char, id: u64, fuel: nat)
    requires
        chain_exceeds(s, id, fuel),
    ensures
        path_of(s, drive, id, fuel) is None,
    decreases fuel,
{
    if fuel > 0 {
        lemma_long_chain_has_no_path(s, drive, entry_with_id(s, id).parent_id, (fuel - 1) as nat);
    }
}

/// A parent chain as deep as the primary index is large is reported as
/// `Corrupt`: the walk ends, whatever the chain does.
pub proof fn lemma_deep_chain_is_corrupt(s: Seq<EntryModel>, drive: char, id: u64)
    requires
        chain_exceeds(s, id, s.len()),
    ensures
        full_path_of(s, drive, id) == Err::<Seq<char>, StoreError>(StoreError::Corrupt),
{
    lemma_long_chain_has_no_path(s, drive, id, s.len());
}

/// Invariants of a store that no single operation can promise: every entry
/// but the root has a directory of the store as parent, every entry has a
/// full path, and no two entries share one up to case.
pub open spec fn consistent(s: Seq<EntryModel>, drive: char) -> bool {
    &&& forall|i: int|
        0 <= i < s.len() && !(#[trigger] s[i]).is_root() ==> has_id(s, s[i].parent_id)
            && entry_with_id(s, s[i].parent_id).is_directory
    &&& forall|i: int| 0 <= i < s.len() ==> path_key_of(s, drive, (#[trigger] s[i]).id) is Some
    &&& forall|i: int, j: int|
        0 <= i < j < s.len() ==> path_key_of(s, drive, (#[trigger] s[i]).id) != path_key_of(
            s,
            drive,
            (#[trigger] s[j]).id,
        )
}

/// The ids of the entries of `s` that `keep` accepts, in the order of `s`.
pub open spec fn ids_where(s: Seq<EntryModel>, keep: spec_fn(EntryModel) -> bool) -> Seq<u64>
    decreases s.len(),
{
    if s.len() == 0 {
        Seq::empty()
    } else if keep(s.last()) {
        ids_where(s.drop_last(), keep).push(s.last().id)
    } else {
        ids_where(s.drop_last(), keep)
    }
}

/// The entries whose extension is `ext`.
pub open spec fn with_extension(ext: Seq<char>) -> spec_fn(EntryModel) -> bool {
    |e: EntryModel| e.extension() == Some(ext)
}

/// The entries whose lower-cased name is `key`.
pub open spec fn with_name_key(key: Seq<char>) -> spec_fn(EntryModel) -> bool {
    |e: EntryModel| e.name_key() == key
}

/// The entries whose lower-cased name contains `part`.
pub open spec fn with_name_part(part: Seq<char>) -> spec_fn(EntryModel) -> bool {
    |e: EntryModel| contains_seq(e.name_key(), part)
}

/// How `ids_where` grows with one more entry.
pub proof fn lemma_ids_where_step(s: Seq<EntryModel>, keep: spec_fn(EntryModel) -> bool, i: int)
    requires
        0 <= i < s.len(),
    ensures
        ids_where(s.take(i + 1), keep) == if keep(s[i]) {
            ids_where(s.take(i), keep).push(s[i].id)
        } else {
            ids_where(s.take(i), keep)
        },
{
    assert(s.take(i + 1).drop_last() == s.take(i));
    assert(s.take(i + 1).last() == s[i]);
}

/// `id` is the id of an entry of `s` that `keep` accepts.
pub open spec fn accepted_id(s: Seq<EntryModel>, keep: spec_fn(EntryModel) -> bool, id: u64) -> bool {
    exists|i: int| 0 <= i < s.len() && keep(s[i]) && s[i].id == id
}

/// Every id that `ids_where` gives is the id of an accepted entry of `s`,
/// every accepted entry's id is given, and the ids ascend where those of `s` do.
pub proof fn lemma_ids_where(s: Seq<EntryModel>, keep: spec_fn(EntryModel) -> bool)
    ensures
        ids_where(s, keep).len() <= s.len(),
        forall|k: int|
            0 <= k < ids_where(s, keep).len() ==> accepted_id(
                s,
                keep,
                #[trigger] ids_where(s, keep)[k],
            ),
        forall|i: int|
            0 <= i < s.len() && keep(#[trigger] s[i]) ==> ids_where(s, keep).contains(s[i].id),
        sorted_by_id(s) ==> forall|a: int, b: int|
            0 <= a < b < ids_where(s, keep).len() ==> ids_where(s, keep)[a] < ids_where(
                s,
                keep,
            )[b],
    decreases s.len(),
{
    if s.len() > 0 {
        let t = s.drop_last();
        let r = ids_where(s, keep);
        let rt = ids_where(t, keep);
        lemma_ids_where(t, keep);
        assert forall|k: int| 0 <= k < r.len() implies accepted_id(s, keep, #[trigger] r[k]) by {
            if k < rt.len() {
                assert(accepted_id(t, keep, rt[k]));
                let i = choose|i: int| 0 <= i < t.len() && keep(t[i]) && t[i].id == rt[k];
                assert(s[i] == t[i]);
            } else {
                assert(s[s.len() - 1].id == r[k]);
            }
        }
        assert forall|i: int| 0 <= i < s.len() && keep(#[trigger] s[i]) implies r.contains(
            s[i].id,
        ) by {
            if i < t.len() {
                assert(t[i] == s[i]);
                let k = choose|k: int| 0 <= k < rt.len() && rt[k] == t[i].id;
                assert(r[k] == s[i].id);
            } else {
                assert(r[r.len() - 1] == s[i].id);
            }
        }
        if sorted_by_id(s) {
            assert(sorted_by_id(t)) by {
                assert forall|i: int, j: int| 0 <= i < j < t.len() implies t[i].id < t[j].id by {
                    assert(s[i].id < s[j].id);
                }
            }
            assert forall|a: int, b: int| 0 <= a < b < r.len() implies r[a] < r[b] by {
                if b < rt.len() {
                    assert(rt[a] < rt[b]);
                } else {
                    assert(accepted_id(t, keep, rt[a]));
                    let i = choose|i: int| 0 <= i < t.len() && keep(t[i]) && t[i].id == rt[a];
                    assert(s[i].id < s[s.len() - 1].id);
                }
            }
        }
    }
}

/// The values of a list of entries.
pub open spec fn models(list: Seq<FileEntry>) -> Seq<EntryModel> {
    list.map_values(|e: FileEntry| e@)
}

/// The table that holds the entries of `list`, each put in after those
/// before it: of two entries with one id the later stays.
pub open spec fn build_spec(list: Seq<EntryModel>) -> Seq<EntryModel>
    decreases list.len(),
{
    if list.len() == 0 {
        Seq::empty()
    } else {
        put_spec(build_spec(list.drop_last()), list.last())
    }
}

/// A table built from a list is sorted by id.
pub proof fn lemma_build_sorted(list: Seq<EntryModel>)
    ensures
        sorted_by_id(build_spec(list)),
    decreases list.len(),
{
    if list.len() > 0 {
        lemma_build_sorted(list.drop_last());
        lemma_put_sorted(build_spec(list.drop_last()), list.last());
    }
}

/// Building a table from a list that is sorted by id gives that list.
pub proof fn lemma_build_of_sorted(s: Seq<EntryModel>)
    requires
        sorted_by_id(s),
    ensures
        build_spec(s) == s,
    decreases s.len(),
{
    if s.len() > 0 {
        let t = s.drop_last();
        assert(sorted_by_id(t)) by {
            assert forall|i: int, j: int| 0 <= i < j < t.len() implies t[i].id < t[j].id by {
                assert(s[i].id < s[j].id);
            }
        }
        lemma_build_of_sorted(t);
        assert forall|i: int| 0 <= i < t.len() implies t[i].id < s.last().id by {
            assert(s[i].id < s[s.len() - 1].id);
        }
        lemma_lower_bound_is(t, s.last().id, t.len() as int);
        assert(put_spec(t, s.last()) =~= s);
    }
}

/// The entry at position `p` of `s` is another entry than `id` with the
/// same full path up to case.
pub open spec fn shares_path_at(s: Seq<EntryModel>, drive: char, id: u64, p: int) -> bool {
    0 <= p < s.len() && s[p].id != id && path_key_of(s, drive, s[p].id) == path_key_of(s, drive, id)
}

/// The first position from `from` on at which another entry shares the
/// full path of `id`, or the length of `s` where there is none.
pub open spec fn first_sharer_from(s: Seq<EntryModel>, drive: char, id: u64, from: int) -> int
    decreases s.len() - from,
{
    if from < 0 || from >= s.len() {
        s.len() as int
    } else if shares_path_at(s, drive, id, from) {
        from
    } else {
        first_sharer_from(s, drive, id, from + 1)
    }
}

/// `s` after the entries that share the full path of `id` have left, one at
/// a time, the one with the smallest id first, until `id` has its path to
/// itself or has none.
pub open spec fn evict_sharers(s: Seq<EntryModel>, drive: char, id: u64) -> Seq<EntryModel>
    decreases s.len(),
{
    let p = first_sharer_from(s, drive, id, 0);
    if path_key_of(s, drive, id) is None || p < 0 || p >= s.len() {
        s
    } else {
        evict_sharers(s.remove(p), drive, id)
    }
}

/// Removing the entry at a position of a sorted sequence is removing its id.
pub proof fn lemma_remove_at(s: Seq<EntryModel>, p: int)
    requires
        sorted_by_id(s),
        0 <= p < s.len(),
    ensures
        remove_spec(s, s[p].id) == s.remove(p),
{
    lemma_position_unique(s, p);
    lemma_has_id_at_lower_bound(s, s[p].id);
}

/// The entry `e` with another size.
pub open spec fn resized(e: EntryModel, size: u64) -> EntryModel {
    EntryModel { size, ..e }
}

/// The entry `e` with other attribute bits and timestamps.
pub open spec fn restamped(
    e: EntryModel,
    attributes: u32,
    created: i64,
    modified: i64,
    accessed: i64,
) -> EntryModel {
    EntryModel { attributes, created, modified, accessed, ..e }
}

/// `s` after the entries of `list` were put in, one after the other.
pub open spec fn put_all_spec(s: Seq<EntryModel>, list: Seq<EntryModel>) -> Seq<EntryModel>
    decreases list.len(),
{
    if list.len() == 0 {
        s
    } else {
        put_spec(put_all_spec(s, list.drop_last()), list.last())
    }
}

/// Putting entries into a sorted table keeps it sorted.
pub proof fn lemma_put_all_sorted(s: Seq<EntryModel>, list: Seq<EntryModel>)
    requires
        sorted_by_id(s),
    ensures
        sorted_by_id(put_all_spec(s, list)),
    decreases list.len(),
{
    if list.len() > 0 {
        lemma_put_all_sorted(s, list.drop_last());
        lemma_put_sorted(put_all_spec(s, list.drop_last()), list.last());
    }
}

/// Building a table is putting the entries into the empty table.
pub proof fn lemma_build_is_put_all(list: Seq<EntryModel>)
    ensures
        build_spec(list) == put_all_spec(Seq::empty(), list),
    decreases list.len(),
{
    if list.len() > 0 {
        lemma_build_is_put_all(list.drop_last());
    }
}

/// Putting in one list and then another is putting in the two in a row.
pub proof fn lemma_put_all_concat(s: Seq<EntryModel>, a: Seq<EntryModel>, b: Seq<EntryModel>)
    ensures
        put_all_spec(put_all_spec(s, a), b) == put_all_spec(s, a + b),
    decreases b.len(),
{
    if b.len() == 0 {
        assert(a + b =~= a);
    } else {
        lemma_put_all_concat(s, a, b.drop_last());
        assert((a + b).drop_last() =~= a + b.drop_last());
        assert((a + b).last() == b.last());
    }
}

/// Two tables that are sorted by id and hold the same entries under the
/// same ids are one table.
pub proof fn lemma_sorted_canonical(a: Seq<EntryModel>, b: Seq<EntryModel>)
    requires
        sorted_by_id(a),
        sorted_by_id(b),
        by_id(a) == by_id(b),
    ensures
        a == b,
    decreases a.len(),
{
    assert forall|id: u64| has_id(a, id) == has_id(b, id) by {
        assert(by_id(a).dom().contains(id) == has_id(a, id));
        assert(by_id(b).dom().contains(id) == has_id(b, id));
    }
    assert forall|id: u64| has_id(a, id) implies entry_with_id(a, id) == entry_with_id(b, id) by {
        assert(by_id(a).dom().contains(id));
        assert(by_id(b).dom().contains(id));
        assert(by_id(a)[id] == entry_with_id(a, id));
        assert(by_id(b)[id] == entry_with_id(b, id));
    }
    if a.len() == 0 {
        if b.len() > 0 {
            assert(has_id(b, b[0].id));
            let i = position_of(a, b[0].id);
        }
        assert(a =~= b);
    } else {
        let la = a.last();
        lemma_position_unique(a, a.len() - 1);
        assert(has_id(b, la.id));
        let q = position_of(b, la.id);
        lemma_position_unique(b, q);
        lemma_position_unique(b, b.len() - 1);
        let lb = b.last();
        assert(has_id(a, lb.id));
        let r = position_of(a, lb.id);
        lemma_position_unique(a, r);
        if r < a.len() - 1 {
            assert(a[r].id < a[a.len() - 1].id);
        }
        if q < b.len() - 1 {
            assert(b[q].id < b[b.len() - 1].id);
        }
        assert(q == b.len() - 1);
        assert(la == lb);
        let a0 = a.drop_last();
        let b0 = b.drop_last();
        assert forall|i: int, j: int| 0 <= i < j < a0.len() implies a0[i].id < a0[j].id by {
            assert(a[i].id < a[j].id);
        }
        assert forall|i: int, j: int| 0 <= i < j < b0.len() implies b0[i].id < b0[j].id by {
            assert(b[i].id < b[j].id);
        }
        assert forall|id: u64| has_id(a0, id) <==> has_id(b0, id) by {
            if has_id(a0, id) {
                let i = position_of(a0, id);
                assert(a[i].id == id);
                assert(a[i].id < a[a.len() - 1].id);
                lemma_position_unique(a, i);
                let k = position_of(b, id);
                assert(k != b.len() - 1);
                assert(b0[k].id == id);
            }
            if has_id(b0, id) {
                let i = position_of(b0, id);
                assert(b[i].id == id);
                assert(b[i].id < b[b.len() - 1].id);
                lemma_position_unique(b, i);
                let k = position_of(a, id);
                assert(k != a.len() - 1);
                assert(a0[k].id == id);
            }
        }
        assert forall|id: u64| has_id(a0, id) implies entry_with_id(a0, id) == entry_with_id(
            b0,
            id,
        ) by {
            let i = position_of(a0, id);
            lemma_position_unique(a0, i);
            lemma_position_unique(a, i);
            let k = position_of(b0, id);
            lemma_position_unique(b0, k);
            lemma_position_unique(b, k);
        }
        assert(by_id(a0) =~= by_id(b0));
        lemma_sorted_canonical(a0, b0);
        assert(a =~= a0.push(la));
        assert(b =~= b0.push(lb));
    }
}

/// The sum of two sizes, capped at the largest `u64`.
pub open spec fn capped_sum(a: u64, b: u64) -> u64 {
    if a + b > u64::MAX {
        u64::MAX
    } else {
        (a + b) as u64
    }
}

/// The sum of the sizes of all entries, capped at the largest `u64`.
pub open spec fn total_size_of(s: Seq<EntryModel>) -> u64
    decreases s.len(),
{
    if s.len() == 0 {
        0
    } else {
        capped_sum(total_size_of(s.drop_last()), s.last().size)
    }
}

/// The files that a list names, by id: of two with one id the later.
pub open spec fn map_of(list: Seq<EntryModel>) -> Map<u64, EntryModel>
    decreases list.len(),
{
    if list.len() == 0 {
        Map::empty()
    } else {
        map_of(list.drop_last()).insert(list.last().id, list.last())
    }
}

/// The primary index of a table built from a list holds the files that the
/// list names.
pub proof fn lemma_build_is_map(list: Seq<EntryModel>)
    ensures
        by_id(build_spec(list)) == map_of(list),
    decreases list.len(),
{
    if list.len() == 0 {
        assert(by_id(build_spec(list)) =~= map_of(list));
    } else {
        lemma_build_is_map(list.drop_last());
        lemma_build_sorted(list.drop_last());
        lemma_put_spec(build_spec(list.drop_last()), list.last());
    }
}

/// A table whose primary index holds the files that a list names is the
/// table that a build from that list gives.
pub proof fn lemma_build_gives_the_table(s: Seq<EntryModel>, list: Seq<EntryModel>)
    requires
        sorted_by_id(s),
        by_id(s) == map_of(list),
    ensures
        build_spec(list) == s,
{
    lemma_build_is_map(list);
    lemma_build_sorted(list);
    lemma_sorted_canonical(build_spec(list), s);
}

/// The view of an optional character vector.
pub open spec fn opt_chars_view(o: Option<Vec<char>>) -> Option<Seq<char>> {
    match o {
        Some(v) => Some(v@),
        None => None,
    }
}

/// The index of one volume.
pub struct IndexStore {
    drive: char,
    /// Every entry once, ids strictly ascending.
    entries: Vec<FileEntry>,
    /// For each entry, at its position, the lower-cased name.
    name_keys: Vec<Vec<char>>,
    /// For each entry, at its position, the extension.
    ext_keys: Vec<Option<Vec<char>>>,
    /// For each entry, at its position, the lower-cased full path, where it has one.
    path_keys: Vec<Option<Vec<char>>>,
}

impl View for IndexStore {
    type V = Seq<EntryModel>;

    closed spec fn view(&self) -> Seq<EntryModel> {
        self.entries@.map_values(|e: FileEntry| e@)
    }
}

impl IndexStore {
    /// The letter of the drive that the store indexes.
    pub closed spec fn drive(&self) -> char {
        self.drive
    }

    /// The entry table is sorted, and the name and extension columns hold
    /// the keys of the entries beside them.
    spec fn rows_ok(&self) -> bool {
        &&& sorted_by_id(self@)
        &&& self.name_keys@.len() == self.entries@.len()
        &&& self.ext_keys@.len() == self.entries@.len()
        &&& forall|i: int|
            0 <= i < self.entries@.len() ==> (#[trigger] self.name_keys@[i])@ == lower(
                self.entries@[i].name@,
            )
        &&& forall|i: int|
            0 <= i < self.entries@.len() ==> opt_chars_view(#[trigger] self.ext_keys@[i])
                == extension_of(self.entries@[i].name@)
    }

    /// The store is well formed: `rows_ok`, and the path column holds for
    /// each entry the lower-cased full path that the parent chain gives it.
    pub closed spec fn wf(&self) -> bool {
        &&& self.rows_ok()
        &&& self.path_keys@.len() == self.entries@.len()
        &&& forall|i: int|
            0 <= i < self.entries@.len() ==> opt_chars_view(#[trigger] self.path_keys@[i])
                == path_key_of(self@, self.drive, self.entries@[i].id)
    }

    /// A well-formed store lists its entries by strictly ascending id.
    pub proof fn lemma_wf_sorted(&self)
        requires
            self.wf(),
        ensures
            sorted_by_id(self@),
    {
    }

    /// An empty store for the given drive.
    pub fn new(drive: char) -> (r: IndexStore)
        ensures
            r.wf(),
            r@ == Seq::<EntryModel>::empty(),
            r.drive() == drive,
    {
        let r = IndexStore {
            drive,
            entries: Vec::new(),
            name_keys: Vec::new(),
            ext_keys: Vec::new(),
            path_keys: Vec::new(),
        };
        assert(r@ =~= Seq::<EntryModel>::empty());
        r
    }

    /// The number of entries.
    pub fn len(&self) -> (r: usize)
        ensures
            r == self@.len(),
    {
        self.entries.len()
    }

    /// The store holds no entry.
    pub fn is_empty(&self) -> (r: bool)
        ensures
            r == (self@.len() == 0),
    {
        self.entries.len() == 0
    }

    /// The letter of the drive that the store indexes.
    pub fn drive_letter(&self) -> (r: char)
        ensures
            r == self.drive(),
    {
        self.drive
    }

    /// The position at which `id` stands, or would have to be put.
    fn locate(&self, id: u64) -> (p: usize)
        requires
            sorted_by_id(self@),
        ensures
            p == lower_bound(self@, id),
            p <= self@.len(),
    {
        let mut lo: usize = 0;
        let mut hi: usize = self.entries.len();
        while lo < hi
            invariant
                lo <= hi <= self.entries@.len(),
                self@.len() == self.entries@.len(),
                sorted_by_id(self@),
                forall|i: int| 0 <= i < lo ==> self@[i].id < id,
                forall|i: int| hi <= i < self@.len() ==> self@[i].id >= id,
            decreases hi - lo,
        {
            let mid: usize = lo + (hi - lo) / 2;
            assert(self@[mid as int].id == self.entries@[mid as int].id);
            if self.entries[mid].id < id {
                assert forall|i: int| 0 <= i < mid + 1 implies self@[i].id < id by {
                    if i < mid {
                        assert(self@[i].id < self@[mid as int].id);
                    }
                }
                lo = mid + 1;
            } else {
                assert forall|i: int| mid <= i < self@.len() implies self@[i].id >= id by {
                    if mid < i {
                        assert(self@[mid as int].id < self@[i].id);
                    }
                }
                hi = mid;
            }
        }
        proof {
            lemma_lower_bound_is(self@, id, lo as int);
        }
        lo
    }

    /// The position of the entry with the given id, if there is one.
    fn find(&self, id: u64) -> (r: Option<usize>)
        requires
            sorted_by_id(self@),
        ensures
            match r {
                Some(p) => p < self@.len() && self@[p as int].id == id && has_id(self@, id)
                    && entry_with_id(self@, id) == self@[p as int],
                None => !has_id(self@, id),
            },
    {
        let p = self.locate(id);
        proof {
            lemma_has_id_at_lower_bound(self@, id);
        }
        if p < self.entries.len() && self.entries[p].id == id {
            proof {
                assert(self@[p as int].id == self.entries@[p as int].id);
                lemma_position_unique(self@, p as int);
            }
            Some(p)
        } else {
            proof {
                if p < self.entries@.len() {
                    assert(self@[p as int].id == self.entries@[p as int].id);
                }
            }
            None
        }
    }

    /// The store has an entry with the given id.
    pub fn contains(&self, id: u64) -> (r: bool)
        requires
            self.wf(),
        ensures
            r == has_id(self@, id),
    {
        self.find(id).is_some()
    }

    /// A copy of the entry with the given id, if there is one.
    pub fn lookup_by_id(&self, id: u64) -> (r: Option<FileEntry>)
        requires
            self.wf(),
        ensures
            match r {
                Some(e) => has_id(self@, id) && e@ == entry_with_id(self@, id),
                None => !has_id(self@, id),
            },
    {
        match self.find(id) {
            Some(p) => {
                let e = self.entries[p].snapshot();
                assert(self@[p as int] == self.entries@[p as int]@);
                Some(e)
            },
            None => None,
        }
    }

    /// The characters of the full path of `id`, walking at most `fuel` parents.
    fn path_chars(&self, id: u64, fuel: usize) -> (r: Option<Vec<char>>)
        requires
            sorted_by_id(self@),
        ensures
            opt_chars_view(r) == path_of(self@, self.drive(), id, fuel as nat),
        decreases fuel,
    {
        match self.find(id) {
            None => None,
            Some(p) => {
                assert(self@[p as int] == self.entries@[p as int]@);
                let e = &self.entries[p];
                if e.parent_id == id {
                    let mut path: Vec<char> = Vec::new();
                    path.push(self.drive);
                    path.push(':');
                    assert(path@ == seq![self.drive, ':']);
                    Some(path)
                } else if fuel == 0 {
                    None
                } else {
                    match self.path_chars(e.parent_id, fuel - 1) {
                        None => None,
                        Some(mut path) => {
                            let ghost parent_path = path@;
                            path.push('\\');
                            let name = chars_of(e.name.as_str());
                            let mut name = name;
                            path.append(&mut name);
                            assert(path@ == parent_path + seq!['\\'] + e.name@);
                            Some(path)
                        },
                    }
                }
            },
        }
    }

    /// The full path of the entry `id`: the drive, a colon, and the names
    /// along the parent chain from the root down, each after a backslash.
    /// At most as many parents are walked as the store has entries; a chain
    /// that does not reach the root within that bound is reported as
    /// `Corrupt`, an unknown id as `NotFound`.
    pub fn full_path(&self, id: u64) -> (r: Result<String, StoreError>)
        requires
            self.wf(),
        ensures
            match r {
                Ok(p) => full_path_of(self@, self.drive(), id) == Ok::<Seq<char>, StoreError>(p@),
                Err(e) => full_path_of(self@, self.drive(), id) == Err::<Seq<char>, StoreError>(e),
            },
    {
        if self.find(id).is_none() {
            return Err(StoreError::NotFound);
        }
        match self.path_chars(id, self.entries.len()) {
            Some(p) => Ok(string_of(&p)),
            None => Err(StoreError::Corrupt),
        }
    }

    /// Puts `entry` into the table and its name and extension keys into
    /// their columns. The path column is left as it is.
    fn put_row(&mut self, entry: FileEntry)
        requires
            old(self).rows_ok(),
        ensures
            final(self).rows_ok(),
            final(self)@ == put_spec(old(self)@, entry@),
            final(self).drive() == old(self).drive(),
    {
        let p = self.locate(entry.id);
        let name = chars_of(entry.name.as_str());
        let key = to_lower_vec(&name);
        let ext = extension_of_chars(&name);
        let ghost e = entry@;
        proof {
            lemma_put_sorted(old(self)@, e);
            if p < self.entries@.len() {
                assert(self@[p as int].id == self.entries@[p as int].id);
            }
        }
        if p < self.entries.len() && self.entries[p].id == entry.id {
            self.entries.set(p, entry);
            self.name_keys.set(p, key);
            self.ext_keys.set(p, ext);
            assert(self@ =~= old(self)@.update(p as int, e));
        } else {
            self.entries.insert(p, entry);
            self.name_keys.insert(p, key);
            self.ext_keys.insert(p, ext);
            assert(self@ =~= old(self)@.insert(p as int, e));
        }
    }

    /// Takes the entry `id` out of the table, with its name and extension
    /// keys. The path column is left as it is.
    fn take_row(&mut self, id: u64) -> (r: bool)
        requires
            old(self).rows_ok(),
        ensures
            final(self).rows_ok(),
            final(self)@ == remove_spec(old(self)@, id),
            final(self).drive() == old(self).drive(),
            r == has_id(old(self)@, id),
    {
        let p = self.locate(id);
        proof {
            lemma_remove_sorted(old(self)@, id);
            lemma_has_id_at_lower_bound(old(self)@, id);
            if p < self.entries@.len() {
                assert(self@[p as int].id == self.entries@[p as int].id);
            }
        }
        if p < self.entries.len() && self.entries[p].id == id {
            self.entries.remove(p);
            self.name_keys.remove(p);
            self.ext_keys.remove(p);
            assert(self@ =~= old(self)@.remove(p as int));
            true
        } else {
            false
        }
    }

    /// Computes the path column anew from the entry table.
    fn refresh_paths(&mut self)
        requires
            old(self).rows_ok(),
        ensures
            final(self).wf(),
            final(self)@ == old(self)@,
            final(self).drive() == old(self).drive(),
    {
        let n = self.entries.len();
        let mut keys: Vec<Option<Vec<char>>> = Vec::new();
        let mut i: usize = 0;
        while i < n
            invariant
                i <= n,
                n == self.entries@.len(),
                self.rows_ok(),
                self@ == old(self)@,
                self.drive() == old(self).drive(),
                keys@.len() == i,
                forall|k: int|
                    0 <= k < i ==> opt_chars_view(#[trigger] keys@[k]) == path_key_of(
                        self@,
                        self.drive(),
                        self.entries@[k].id,
                    ),
            decreases n - i,
        {
            let key = match self.path_chars(self.entries[i].id, n) {
                Some(path) => Some(to_lower_vec(&path)),
                None => None,
            };
            keys.push(key);
            i += 1;
        }
        self.path_keys = keys;
    }

    /// The entry `id` has a full path that another entry has too, up to case.
    fn path_is_shared(&self, id: u64) -> (r: bool)
        requires
            self.wf(),
        ensures
            r == path_taken_by_other(self@, self.drive(), id),
    {
        let p = match self.find(id) {
            Some(p) => p,
            None => {
                return false;
            },
        };
        assert(self@[p as int].id == self.entries@[p as int].id);
        let key = match &self.path_keys[p] {
            Some(key) => key,
            None => {
                return false;
            },
        };
        let mut j: usize = 0;
        while j < self.entries.len()
            invariant
                j <= self.entries@.len(),
                self.wf(),
                p < self.entries@.len(),
                self.entries@[p as int].id == id,
                path_key_of(self@, self.drive(), id) == Some(key@),
                forall|k: int|
                    0 <= k < j && k != p ==> path_key_of(
                        self@,
                        self.drive(),
                        #[trigger] self.entries@[k].id,
                    ) != Some(key@),
            decreases self.entries@.len() - j,
        {
            if j != p {
                let shared = match &self.path_keys[j] {
                    Some(other) => chars_eq(other, key),
                    None => false,
                };
                if shared {
                    proof {
                        let other = self.entries@[j as int].id;
                        assert(self@[j as int].id == other);
                        lemma_position_unique(self@, j as int);
                        lemma_position_unique(self@, p as int);
                        assert(other != id);
                        assert(has_id(self@, other));
                    }
                    return true;
                }
            }
            j += 1;
        }
        proof {
            assert forall|other: u64| other != id && has_id(self@, other) implies path_key_of(
                self@,
                self.drive(),
                other,
            ) != path_key_of(self@, self.drive(), id) by {
                let k = position_of(self@, other);
                assert(self@[k].id == self.entries@[k].id);
            }
        }
        false
    }

    /// Adds `entry` to the primary index and to every secondary index. An
    /// entry with the same id is replaced, its old keys leaving the
    /// secondary indexes. Where the new entry's full path, up to case, is the
    /// full path of another id, nothing changes and `Conflict` is returned.
    pub fn insert(&mut self, entry: FileEntry) -> (r: Result<(), StoreError>)
        requires
            old(self).wf(),
        ensures
            final(self).wf(),
            final(self).drive() == old(self).drive(),
            insert_conflicts(old(self)@, old(self).drive(), entry@) ==> r == Err::<
                (),
                StoreError,
            >(StoreError::Conflict) && final(self)@ == old(self)@,
            !insert_conflicts(old(self)@, old(self).drive(), entry@) ==> r is Ok && final(self)@
                == put_spec(old(self)@, entry@),
    {
        let id = entry.id;
        let ghost e = entry@;
        let previous = self.lookup_by_id(id);
        self.put_row(entry);
        self.refresh_paths();
        if self.path_is_shared(id) {
            match previous {
                Some(before) => {
                    proof {
                        lemma_put_back(old(self)@, e);
                    }
                    self.put_row(before);
                },
                None => {
                    proof {
                        lemma_put_undo(old(self)@, e);
                    }
                    self.take_row(id);
                },
            }
            self.refresh_paths();
            Err(StoreError::Conflict)
        } else {
            Ok(())
        }
    }

    /// Removes the entry `id` from the primary index and from every
    /// secondary index. Returns whether there was such an entry.
    pub fn remove(&mut self, id: u64) -> (r: bool)
        requires
            old(self).wf(),
        ensures
            final(self).wf(),
            final(self).drive() == old(self).drive(),
            final(self)@ == remove_spec(old(self)@, id),
            r == has_id(old(self)@, id),
    {
        let r = self.take_row(id);
        self.refresh_paths();
        r
    }

    /// Moves the entry `id` under `new_parent_id` and gives it `new_name`;
    /// its extension and its full-path key follow. `NotFound` where the store
    /// has no such entry; `Conflict`, with nothing changed, where the new
    /// full path is that of another id.
    pub fn rename(&mut self, id: u64, new_parent_id: u64, new_name: String) -> (r: Result<
        (),
        StoreError,
    >)
        requires
            old(self).wf(),
        ensures
            final(self).wf(),
            final(self).drive() == old(self).drive(),
            !has_id(old(self)@, id) ==> r == Err::<(), StoreError>(StoreError::NotFound)
                && final(self)@ == old(self)@,
            has_id(old(self)@, id) ==> {
                let e = renamed(entry_with_id(old(self)@, id), new_parent_id, new_name@);
                if insert_conflicts(old(self)@, old(self).drive(), e) {
                    r == Err::<(), StoreError>(StoreError::Conflict) && final(self)@ == old(self)@
                } else {
                    r is Ok && final(self)@ == put_spec(old(self)@, e)
                }
            },
    {
        match self.lookup_by_id(id) {
            None => Err(StoreError::NotFound),
            Some(e) => {
                let moved = FileEntry {
                    id: e.id,
                    parent_id: new_parent_id,
                    name: new_name,
                    size: e.size,
                    is_directory: e.is_directory,
                    attributes: e.attributes,
                    created: e.created,
                    modified: e.modified,
                    accessed: e.accessed,
                };
                proof {
                    let p = position_of(self@, id);
                    assert(self@[p].id == id);
                    assert(moved@ == renamed(entry_with_id(self@, id), new_parent_id, new_name@));
                }
                self.insert(moved)
            },
        }
    }

    /// Checks what no single operation can promise: every entry but the root
    /// has a directory of the store as parent, every entry has a full path,
    /// and no two entries share a full path up to case.
    pub fn check_invariants(&self) -> (r: bool)
        requires
            self.wf(),
        ensures
            r == consistent(self@, self.drive()),
    {
        let n = self.entries.len();
        let mut i: usize = 0;
        while i < n
            invariant
                i <= n,
                n == self.entries@.len(),
                self.wf(),
                forall|k: int|
                    0 <= k < i && !(#[trigger] self@[k]).is_root() ==> has_id(
                        self@,
                        self@[k].parent_id,
                    ) && entry_with_id(self@, self@[k].parent_id).is_directory,
                forall|k: int|
                    0 <= k < i ==> path_key_of(self@, self.drive(), (#[trigger] self@[k]).id)
                        is Some,
                forall|a: int, b: int|
                    0 <= a < b < i ==> path_key_of(self@, self.drive(), (#[trigger] self@[a]).id)
                        != path_key_of(self@, self.drive(), (#[trigger] self@[b]).id),
            decreases n - i,
        {
            assert(self@[i as int] == self.entries@[i as int]@);
            let e = &self.entries[i];
            if e.parent_id != e.id {
                match self.find(e.parent_id) {
                    None => {
                        return false;
                    },
                    Some(q) => {
                        assert(self@[q as int] == self.entries@[q as int]@);
                        if !self.entries[q].is_directory {
                            return false;
                        }
                    },
                }
            }
            let key = match &self.path_keys[i] {
                None => {
                    return false;
                },
                Some(key) => key,
            };
            let mut j: usize = 0;
            while j < i
                invariant
                    j <= i < n,
                    n == self.entries@.len(),
                    self.wf(),
                    path_key_of(self@, self.drive(), self@[i as int].id) == Some(key@),
                    forall|a: int|
                        0 <= a < j ==> path_key_of(self@, self.drive(), (#[trigger] self@[a]).id)
                            != Some(key@),
                decreases i - j,
            {
                assert(self@[j as int] == self.entries@[j as int]@);
                let same = match &self.path_keys[j] {
                    Some(other) => chars_eq(other, key),
                    None => false,
                };
                if same {
                    proof {
                        assert(path_key_of(self@, self.drive(), self@[j as int].id) == Some(key@));
                        assert(!consistent(self@, self.drive()));
                    }
                    return false;
                }
                j += 1;
            }
            i += 1;
        }
        true
    }

    /// The name index: for each lower-cased name, the ids that bear it.
    pub closed spec fn by_name_ci(&self) -> Map<Seq<char>, Set<u64>> {
        Map::new(
            |k: Seq<char>|
                exists|i: int| 0 <= i < self.entries@.len() && self.name_keys@[i]@ == k,
            |k: Seq<char>|
                Set::new(
                    |id: u64|
                        exists|i: int|
                            0 <= i < self.entries@.len() && self.name_keys@[i]@ == k
                                && self.entries@[i].id == id,
                ),
        )
    }

    /// The extension index: for each extension, the ids whose name has it.
    pub closed spec fn by_extension(&self) -> Map<Seq<char>, Set<u64>> {
        Map::new(
            |k: Seq<char>|
                exists|i: int|
                    0 <= i < self.entries@.len() && opt_chars_view(self.ext_keys@[i]) == Some(k),
            |k: Seq<char>|
                Set::new(
                    |id: u64|
                        exists|i: int|
                            0 <= i < self.entries@.len() && opt_chars_view(self.ext_keys@[i])
                                == Some(k) && self.entries@[i].id == id,
                ),
        )
    }

    /// The path index: for each lower-cased full path, the ids that have it.
    /// In a consistent store each path has one id.
    pub closed spec fn by_full_path_ci(&self) -> Map<Seq<char>, Set<u64>> {
        Map::new(
            |k: Seq<char>|
                exists|i: int|
                    0 <= i < self.entries@.len() && opt_chars_view(self.path_keys@[i]) == Some(k),
            |k: Seq<char>|
                Set::new(
                    |id: u64|
                        exists|i: int|
                            0 <= i < self.entries@.len() && opt_chars_view(self.path_keys@[i])
                                == Some(k) && self.entries@[i].id == id,
                ),
        )
    }

    /// Every id that a secondary index holds is in the primary index, under
    /// the key that its entry gives it.
    pub proof fn lemma_secondary_ids_are_primary(&self, key: Seq<char>, id: u64)
        requires
            self.wf(),
        ensures
            self.by_name_ci().dom().contains(key) && self.by_name_ci()[key].contains(id)
                ==> has_id(self@, id) && entry_with_id(self@, id).name_key() == key,
            self.by_extension().dom().contains(key) && self.by_extension()[key].contains(id)
                ==> has_id(self@, id) && entry_with_id(self@, id).extension() == Some(key),
            self.by_full_path_ci().dom().contains(key) && self.by_full_path_ci()[key].contains(id)
                ==> has_id(self@, id) && path_key_of(self@, self.drive(), id) == Some(key),
    {
        if self.by_name_ci().dom().contains(key) && self.by_name_ci()[key].contains(id) {
            let i = choose|i: int|
                0 <= i < self.entries@.len() && self.name_keys@[i]@ == key && self.entries@[i].id
                    == id;
            assert(self@[i] == self.entries@[i]@);
            lemma_position_unique(self@, i);
        }
        if self.by_extension().dom().contains(key) && self.by_extension()[key].contains(id) {
            let i = choose|i: int|
                0 <= i < self.entries@.len() && opt_chars_view(self.ext_keys@[i]) == Some(key)
                    && self.entries@[i].id == id;
            assert(self@[i] == self.entries@[i]@);
            lemma_position_unique(self@, i);
        }
        if self.by_full_path_ci().dom().contains(key) && self.by_full_path_ci()[key].contains(id) {
            let i = choose|i: int|
                0 <= i < self.entries@.len() && opt_chars_view(self.path_keys@[i]) == Some(key)
                    && self.entries@[i].id == id;
            assert(self@[i] == self.entries@[i]@);
            lemma_position_unique(self@, i);
        }
    }

    /// Every entry of the primary index is in the name index under its
    /// lower-cased name, in the extension index under its extension where it
    /// has one, and in the path index under its lower-cased full path where
    /// it has one.
    pub proof fn lemma_primary_ids_are_indexed(&self, id: u64)
        requires
            self.wf(),
            has_id(self@, id),
        ensures
            ({
                let key = entry_with_id(self@, id).name_key();
                self.by_name_ci().dom().contains(key) && self.by_name_ci()[key].contains(id)
            }),
            entry_with_id(self@, id).extension() matches Some(key) ==> self.by_extension().dom().contains(
                key,
            ) && self.by_extension()[key].contains(id),
            path_key_of(self@, self.drive(), id) matches Some(key)
                ==> self.by_full_path_ci().dom().contains(key) && self.by_full_path_ci()[key].contains(
                id,
            ),
    {
        let i = position_of(self@, id);
        assert(self@[i] == self.entries@[i]@);
        let name_key = self.name_keys@[i]@;
        assert(name_key == entry_with_id(self@, id).name_key());
        assert(self.by_name_ci().dom().contains(name_key));
        assert(self.by_name_ci()[name_key].contains(id));
        if let Some(key) = entry_with_id(self@, id).extension() {
            assert(opt_chars_view(self.ext_keys@[i]) == Some(key));
            assert(self.by_extension().dom().contains(key));
            assert(self.by_extension()[key].contains(id));
        }
        if let Some(key) = path_key_of(self@, self.drive(), id) {
            assert(opt_chars_view(self.path_keys@[i]) == Some(key));
            assert(self.by_full_path_ci().dom().contains(key));
            assert(self.by_full_path_ci()[key].contains(id));
        }
    }

    /// Every key of a secondary index holds at least one id: no key stays
    /// behind when the last entry that bore it has left.
    pub proof fn lemma_index_keys_hold_ids(&self, key: Seq<char>)
        requires
            self.wf(),
        ensures
            self.by_name_ci().dom().contains(key) ==> exists|id: u64|
                #[trigger] self.by_name_ci()[key].contains(id),
            self.by_extension().dom().contains(key) ==> exists|id: u64|
                #[trigger] self.by_extension()[key].contains(id),
            self.by_full_path_ci().dom().contains(key) ==> exists|id: u64|
                #[trigger] self.by_full_path_ci()[key].contains(id),
    {
        if self.by_name_ci().dom().contains(key) {
            let i = choose|i: int| 0 <= i < self.entries@.len() && self.name_keys@[i]@ == key;
            assert(self.by_name_ci()[key].contains(self.entries@[i].id));
        }
        if self.by_extension().dom().contains(key) {
            let i = choose|i: int|
                0 <= i < self.entries@.len() && opt_chars_view(self.ext_keys@[i]) == Some(key);
            assert(self.by_extension()[key].contains(self.entries@[i].id));
        }
        if self.by_full_path_ci().dom().contains(key) {
            let i = choose|i: int|
                0 <= i < self.entries@.len() && opt_chars_view(self.path_keys@[i]) == Some(key);
            assert(self.by_full_path_ci()[key].contains(self.entries@[i].id));
        }
    }

    /// An entry whose name has no extension is under no key of the
    /// extension index.
    pub proof fn lemma_no_extension_not_indexed(&self, id: u64, key: Seq<char>)
        requires
            self.wf(),
            has_id(self@, id),
            entry_with_id(self@, id).extension() is None,
        ensures
            !(self.by_extension().dom().contains(key) && self.by_extension()[key].contains(id)),
    {
        self.lemma_secondary_ids_are_primary(key, id);
    }

    /// The ids whose extension is `ext`, ascending. `ext` is taken as it is:
    /// lower case, without the dot.
    pub fn candidates_by_extension(&self, ext: &str) -> (r: Vec<u64>)
        requires
            self.wf(),
        ensures
            r@ == ids_where(self@, with_extension(ext@)),
    {
        let key = chars_of(ext);
        let mut out: Vec<u64> = Vec::new();
        let mut i: usize = 0;
        while i < self.entries.len()
            invariant
                i <= self.entries@.len(),
                self.wf(),
                key@ == ext@,
                out@ == ids_where(self@.take(i as int), with_extension(ext@)),
            decreases self.entries@.len() - i,
        {
            proof {
                lemma_ids_where_step(self@, with_extension(ext@), i as int);
                assert(self@[i as int] == self.entries@[i as int]@);
            }
            let hit = match &self.ext_keys[i] {
                Some(e) => chars_eq(e, &key),
                None => false,
            };
            if hit {
                out.push(self.entries[i].id);
            }
            i += 1;
        }
        assert(self@.take(self@.len() as int) == self@);
        out
    }

    /// The ids whose lower-cased name is `name_key`, ascending.
    pub fn candidates_by_name(&self, name_key: &str) -> (r: Vec<u64>)
        requires
            self.wf(),
        ensures
            r@ == ids_where(self@, with_name_key(name_key@)),
    {
        let key = chars_of(name_key);
        let mut out: Vec<u64> = Vec::new();
        let mut i: usize = 0;
        while i < self.entries.len()
            invariant
                i <= self.entries@.len(),
                self.wf(),
                key@ == name_key@,
                out@ == ids_where(self@.take(i as int), with_name_key(name_key@)),
            decreases self.entries@.len() - i,
        {
            proof {
                lemma_ids_where_step(self@, with_name_key(name_key@), i as int);
                assert(self@[i as int] == self.entries@[i as int]@);
            }
            if chars_eq(&self.name_keys[i], &key) {
                out.push(self.entries[i].id);
            }
            i += 1;
        }
        assert(self@.take(self@.len() as int) == self@);
        out
    }

    /// The ids whose lower-cased name contains `lower_substring`, ascending.
    pub fn candidates_by_name_substring(&self, lower_substring: &str) -> (r: Vec<u64>)
        requires
            self.wf(),
        ensures
            r@ == ids_where(self@, with_name_part(lower_substring@)),
    {
        let part = chars_of(lower_substring);
        let mut out: Vec<u64> = Vec::new();
        let mut i: usize = 0;
        while i < self.entries.len()
            invariant
                i <= self.entries@.len(),
                self.wf(),
                part@ == lower_substring@,
                out@ == ids_where(self@.take(i as int), with_name_part(lower_substring@)),
            decreases self.entries@.len() - i,
        {
            proof {
                lemma_ids_where_step(self@, with_name_part(lower_substring@), i as int);
                assert(self@[i as int] == self.entries@[i as int]@);
            }
            if contains_exec(&self.name_keys[i], &part) {
                out.push(self.entries[i].id);
            }
            i += 1;
        }
        assert(self@.take(self@.len() as int) == self@);
        out
    }

    /// The smallest id whose full path is `path` up to case, if there is one.
    pub fn lookup_by_path(&self, path: &str) -> (r: Option<u64>)
        requires
            self.wf(),
        ensures
            match r {
                Some(id) => has_id(self@, id) && path_key_of(self@, self.drive(), id) == Some(
                    lower(path@),
                ) && forall|i: int|
                    0 <= i < self@.len() && (#[trigger] self@[i]).id < id ==> path_key_of(
                        self@,
                        self.drive(),
                        self@[i].id,
                    ) != Some(lower(path@)),
                None => forall|i: int|
                    0 <= i < self@.len() ==> path_key_of(
                        self@,
                        self.drive(),
                        (#[trigger] self@[i]).id,
                    ) != Some(lower(path@)),
            },
    {
        let raw = chars_of(path);
        let key = to_lower_vec(&raw);
        let mut i: usize = 0;
        while i < self.entries.len()
            invariant
                i <= self.entries@.len(),
                self.wf(),
                key@ == lower(path@),
                forall|k: int|
                    0 <= k < i ==> path_key_of(self@, self.drive(), (#[trigger] self@[k]).id)
                        != Some(lower(path@)),
            decreases self.entries@.len() - i,
        {
            assert(self@[i as int] == self.entries@[i as int]@);
            let hit = match &self.path_keys[i] {
                Some(k) => chars_eq(k, &key),
                None => false,
            };
            if hit {
                proof {
                    lemma_position_unique(self@, i as int);
                    assert forall|k: int|
                        0 <= k < self@.len() && (#[trigger] self@[k]).id < self@[i as int].id implies k
                        < i by {
                        if k > i {
                            assert(self@[i as int].id < self@[k].id);
                        }
                    }
                }
                return Some(self.entries[i].id);
            }
            i += 1;
        }
        None
    }

    /// The entry at position `i` of the table, which is sorted by id.
    pub fn entry_at(&self, i: usize) -> (r: &FileEntry)
        requires
            self.wf(),
            i < self@.len(),
        ensures
            r@ == self@[i as int],
    {
        assert(self@[i as int] == self.entries@[i as int]@);
        &self.entries[i]
    }

    /// The name-index key of the entry at position `i`.
    pub fn name_key_at(&self, i: usize) -> (r: &Vec<char>)
        requires
            self.wf(),
            i < self@.len(),
        ensures
            r@ == self@[i as int].name_key(),
    {
        assert(self@[i as int] == self.entries@[i as int]@);
        &self.name_keys[i]
    }

    /// The extension-index key of the entry at position `i`, if it has one.
    pub fn ext_key_at(&self, i: usize) -> (r: &Option<Vec<char>>)
        requires
            self.wf(),
            i < self@.len(),
        ensures
            opt_chars_view(*r) == self@[i as int].extension(),
    {
        assert(self@[i as int] == self.entries@[i as int]@);
        &self.ext_keys[i]
    }

    /// The path-index key of the entry at position `i`, if it has one.
    pub fn path_key_at(&self, i: usize) -> (r: &Option<Vec<char>>)
        requires
            self.wf(),
            i < self@.len(),
        ensures
            opt_chars_view(*r) == path_key_of(self@, self.drive(), self@[i as int].id),
    {
        assert(self@[i as int] == self.entries@[i as int]@);
        &self.path_keys[i]
    }

    /// The full path of the entry at position `i`, if it has one.
    pub fn path_at(&self, i: usize) -> (r: Option<String>)
        requires
            self.wf(),
            i < self@.len(),
        ensures
            match r {
                Some(p) => path_of(self@, self.drive(), self@[i as int].id, self@.len()) == Some(
                    p@,
                ),
                None => path_of(self@, self.drive(), self@[i as int].id, self@.len()) is None,
            },
    {
        assert(self@[i as int] == self.entries@[i as int]@);
        match self.path_chars(self.entries[i].id, self.entries.len()) {
            Some(p) => Some(string_of(&p)),
            None => None,
        }
    }

    /// The store that holds the entries of `list`, put in one after the
    /// other without looking at their paths: of two entries with one id the
    /// later stays. Whether the result is consistent is for
    /// `check_invariants` to say.
    pub fn from_entries(drive: char, list: &Vec<FileEntry>) -> (r: IndexStore)
        ensures
            r.wf(),
            r.drive() == drive,
            r@ == build_spec(models(list@)),
    {
        let mut store = IndexStore::new(drive);
        let mut i: usize = 0;
        while i < list.len()
            invariant
                i <= list@.len(),
                store.rows_ok(),
                store.drive() == drive,
                store@ == build_spec(models(list@).take(i as int)),
            decreases list@.len() - i,
        {
            proof {
                assert(models(list@).take(i + 1).drop_last() == models(list@).take(i as int));
                assert(models(list@).take(i + 1).last() == list@[i as int]@);
            }
            store.put_row(list[i].snapshot());
            i += 1;
        }
        assert(models(list@).take(list@.len() as int) == models(list@));
        store.refresh_paths();
        store
    }

    /// The first position at which another entry shares the full path of `id`.
    fn find_sharer(&self, id: u64) -> (r: Option<usize>)
        requires
            self.wf(),
        ensures
            match r {
                Some(p) => path_key_of(self@, self.drive(), id) is Some && p < self@.len() && p
                    == first_sharer_from(self@, self.drive(), id, 0),
                None => path_key_of(self@, self.drive(), id) is None || first_sharer_from(
                    self@,
                    self.drive(),
                    id,
                    0,
                ) >= self@.len(),
            },
    {
        let p = match self.find(id) {
            Some(p) => p,
            None => {
                return None;
            },
        };
        assert(self@[p as int].id == self.entries@[p as int].id);
        let key = match &self.path_keys[p] {
            Some(key) => key,
            None => {
                return None;
            },
        };
        let mut j: usize = 0;
        while j < self.entries.len()
            invariant
                j <= self.entries@.len(),
                self.wf(),
                p < self.entries@.len(),
                self.entries@[p as int].id == id,
                path_key_of(self@, self.drive(), id) == Some(key@),
                first_sharer_from(self@, self.drive(), id, 0) == first_sharer_from(
                    self@,
                    self.drive(),
                    id,
                    j as int,
                ),
            decreases self.entries@.len() - j,
        {
            assert(self@[j as int] == self.entries@[j as int]@);
            if j != p {
                let shared = match &self.path_keys[j] {
                    Some(other) => chars_eq(other, key),
                    None => false,
                };
                if shared {
                    proof {
                        lemma_position_unique(self@, j as int);
                        lemma_position_unique(self@, p as int);
                    }
                    return Some(j);
                }
            }
            j += 1;
        }
        None
    }

    /// Adds `entry` as `insert` does, but where its full path is taken the
    /// entries that hold it leave the store: one at a time, the smallest id
    /// first, until the new entry has its path to itself. Returns how many
    /// left.
    pub fn insert_evicting(&mut self, entry: FileEntry) -> (evicted: usize)
        requires
            old(self).wf(),
        ensures
            final(self).wf(),
            final(self).drive() == old(self).drive(),
            final(self)@ == evict_sharers(
                put_spec(old(self)@, entry@),
                old(self).drive(),
                entry.id,
            ),
            evicted == put_spec(old(self)@, entry@).len() - final(self)@.len(),
    {
        let id = entry.id;
        let ghost start = put_spec(self@, entry@);
        self.put_row(entry);
        self.refresh_paths();
        let total = self.len();
        let mut evicted: usize = 0;
        loop
            invariant
                self.wf(),
                total == start.len(),
                self.drive() == old(self).drive(),
                evict_sharers(start, self.drive(), id) == evict_sharers(self@, self.drive(), id),
                evicted == start.len() - self@.len(),
            ensures
                self.wf(),
                self.drive() == old(self).drive(),
                self@ == evict_sharers(start, self.drive(), id),
                evicted == start.len() - self@.len(),
            decreases self@.len(),
        {
            match self.find_sharer(id) {
                None => {
                    break ;
                },
                Some(p) => {
                    let other = self.entries[p].id;
                    proof {
                        assert(self@[p as int].id == other);
                        lemma_remove_at(self@, p as int);
                    }
                    self.take_row(other);
                    self.refresh_paths();
                    evicted += 1;
                },
            }
        }
        evicted
    }

    /// Sets the size of the entry `id`. Returns whether there is such an entry.
    pub fn set_size(&mut self, id: u64, size: u64) -> (r: bool)
        requires
            old(self).wf(),
        ensures
            final(self).wf(),
            final(self).drive() == old(self).drive(),
            r == has_id(old(self)@, id),
            r ==> final(self)@ == put_spec(old(self)@, resized(entry_with_id(old(self)@, id), size)),
            !r ==> final(self)@ == old(self)@,
    {
        match self.lookup_by_id(id) {
            None => false,
            Some(e) => {
                let changed = FileEntry {
                    id: e.id,
                    parent_id: e.parent_id,
                    name: e.name,
                    size,
                    is_directory: e.is_directory,
                    attributes: e.attributes,
                    created: e.created,
                    modified: e.modified,
                    accessed: e.accessed,
                };
                proof {
                    let p = position_of(self@, id);
                    assert(self@[p].id == id);
                    assert(changed@ == resized(entry_with_id(self@, id), size));
                }
                self.put_row(changed);
                self.refresh_paths();
                true
            },
        }
    }

    /// Sets the attribute bits and the timestamps of the entry `id`.
    /// Returns whether there is such an entry.
    pub fn set_info(
        &mut self,
        id: u64,
        attributes: u32,
        created: i64,
        modified: i64,
        accessed: i64,
    ) -> (r: bool)
        requires
            old(self).wf(),
        ensures
            final(self).wf(),
            final(self).drive() == old(self).drive(),
            r == has_id(old(self)@, id),
            r ==> final(self)@ == put_spec(
                old(self)@,
                restamped(entry_with_id(old(self)@, id), attributes, created, modified, accessed),
            ),
            !r ==> final(self)@ == old(self)@,
    {
        match self.lookup_by_id(id) {
            None => false,
            Some(e) => {
                let changed = FileEntry {
                    id: e.id,
                    parent_id: e.parent_id,
                    name: e.name,
                    size: e.size,
                    is_directory: e.is_directory,
                    attributes,
                    created,
                    modified,
                    accessed,
                };
                proof {
                    let p = position_of(self@, id);
                    assert(self@[p].id == id);
                    assert(changed@ == restamped(
                        entry_with_id(self@, id),
                        attributes,
                        created,
                        modified,
                        accessed,
                    ));
                }
                self.put_row(changed);
                self.refresh_paths();
                true
            },
        }
    }

    /// Puts the entries of `list` from position `from` up to `to` into the
    /// store, one after the other, without looking at their paths: an entry
    /// replaces the one with its id.
    pub fn absorb_range(&mut self, list: &Vec<FileEntry>, from: usize, to: usize)
        requires
            old(self).wf(),
            from <= to <= list@.len(),
        ensures
            final(self).wf(),
            final(self).drive() == old(self).drive(),
            final(self)@ == put_all_spec(old(self)@, models(list@).subrange(from as int, to as int)),
    {
        let mut i: usize = from;
        while i < to
            invariant
                from <= i <= to <= list@.len(),
                self.rows_ok(),
                self.drive() == old(self).drive(),
                self@ == put_all_spec(old(self)@, models(list@).subrange(from as int, i as int)),
            decreases to - i,
        {
            proof {
                let next = models(list@).subrange(from as int, i + 1);
                assert(next.drop_last() == models(list@).subrange(from as int, i as int));
                assert(next.last() == list@[i as int]@);
            }
            self.put_row(list[i].snapshot());
            i += 1;
        }
        self.refresh_paths();
    }

    /// Puts the entries of `list` into the store, one after the other,
    /// without looking at their paths: an entry replaces the one with its id.
    pub fn absorb(&mut self, list: &Vec<FileEntry>)
        requires
            old(self).wf(),
        ensures
            final(self).wf(),
            final(self).drive() == old(self).drive(),
            final(self)@ == put_all_spec(old(self)@, models(list@)),
    {
        assert(models(list@).subrange(0, list@.len() as int) == models(list@));
        self.absorb_range(list, 0, list.len());
    }

    /// Removes every entry.
    pub fn clear(&mut self)
        requires
            old(self).wf(),
        ensures
            final(self).wf(),
            final(self).drive() == old(self).drive(),
            final(self)@ == Seq::<EntryModel>::empty(),
    {
        self.entries.clear();
        self.name_keys.clear();
        self.ext_keys.clear();
        self.path_keys.clear();
        assert(self@ =~= Seq::<EntryModel>::empty());
    }

    /// The sum of the sizes of all entries, capped at the largest `u64`.
    pub fn total_size(&self) -> (r: u64)
        requires
            self.wf(),
        ensures
            r == total_size_of(self@),
    {
        let mut total: u64 = 0;
        let mut i: usize = 0;
        while i < self.entries.len()
            invariant
                i <= self.entries@.len(),
                total == total_size_of(self@.take(i as int)),
            decreases self.entries@.len() - i,
        {
            proof {
                assert(self@.take(i + 1).drop_last() == self@.take(i as int));
                assert(self@.take(i + 1).last() == self.entries@[i as int]@);
            }
            let size = self.entries[i].size;
            total = if size > u64::MAX - total {
                u64::MAX
            } else {
                total + size
            };
            i += 1;
        }
        assert(self@.take(self@.len() as int) == self@);
        total
    }
}

} // verus!
