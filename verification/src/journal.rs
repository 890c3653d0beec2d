//! The change journal: how one record changes the store, which records are
//! skipped, and what the watcher of a volume does next.

use crate::entry::{EntryModel, FileEntry};
use crate::store::{
    build_spec, by_id, entry_with_id, evict_sharers, first_sharer_from, has_id, insert_conflicts,
    lemma_build_gives_the_table, lemma_put_spec, lemma_remove_spec, map_of, path_key_of, put_spec,
    remove_spec, resized, restamped, shares_path_at, sorted_by_id, IndexStore,
};
use vstd::prelude::*;

verus! {

/// What a journal record reports.
#[derive(Debug, Clone, Copy, PartialEq, Eq, Structural)]
pub enum Reason {
    Create,
    Delete,
    RenameOldName,
    RenameNewName,
    DataExtend,
    DataTruncate,
    BasicInfoChange,
    Close,
}

/// One record of the change journal. `entry` holds what the record says of
/// the file: its id, parent, name, size, attribute bits and timestamps.
#[derive(Debug, Clone)]
pub struct JournalRecord {
    /// The record's sequence number.
    pub usn: i64,
    pub reason: Reason,
    pub entry: FileEntry,
}

/// The mathematical value of a `JournalRecord`.
pub ghost struct RecordModel {
    pub usn: i64,
    pub reason: Reason,
    pub entry: EntryModel,
}

impl View for JournalRecord {
    type V = RecordModel;

    open spec fn view(&self) -> RecordModel {
        RecordModel { usn: self.usn, reason: self.reason, entry: self.entry@ }
    }
}

/// What the watcher of a volume remembers between records.
#[derive(Debug, Clone, Copy, PartialEq, Eq, Structural)]
pub struct WatchState {
    /// The sequence number of the last record that was applied.
    pub last_applied_usn: i64,
    /// The journal instance that the sequence numbers belong to.
    pub journal_id: u64,
    /// The id whose old name was reported and whose new name is awaited.
    pub pending_rename: Option<u64>,
}

/// The watcher's memory after the record `r` was applied.
pub open spec fn state_after(st: WatchState, r: RecordModel) -> WatchState {
    WatchState {
        last_applied_usn: r.usn,
        journal_id: st.journal_id,
        pending_rename: match r.reason {
            Reason::RenameOldName => Some(r.entry.id),
            Reason::RenameNewName => None,
            _ => st.pending_rename,
        },
    }
}

/// The table after the record `r` was applied to `s`. A created or renamed
/// file is put in under its id, and whatever held its full path leaves; a
/// deleted file leaves; a change of size or of attributes touches the entry
/// only where there is one; the old name of a rename and a close change
/// nothing.
pub open spec fn table_after(s: Seq<EntryModel>, drive: char, r: RecordModel) -> Seq<EntryModel> {
    let id = r.entry.id;
    match r.reason {
        Reason::Create | Reason::RenameNewName => evict_sharers(
            put_spec(s, r.entry),
            drive,
            id,
        ),
        Reason::Delete => remove_spec(s, id),
        Reason::DataExtend | Reason::DataTruncate => if has_id(s, id) {
            put_spec(s, resized(entry_with_id(s, id), r.entry.size))
        } else {
            s
        },
        Reason::BasicInfoChange => if has_id(s, id) {
            put_spec(
                s,
                restamped(
                    entry_with_id(s, id),
                    r.entry.attributes,
                    r.entry.created,
                    r.entry.modified,
                    r.entry.accessed,
                ),
            )
        } else {
            s
        },
        Reason::RenameOldName | Reason::Close => s,
    }
}

/// The table and the watcher's memory after the record `r` arrived. A
/// record whose sequence number is not above the last applied one is
/// skipped.
pub open spec fn apply_spec(s: Seq<EntryModel>, drive: char, st: WatchState, r: RecordModel) -> (
    Seq<EntryModel>,
    WatchState,
) {
    if r.usn <= st.last_applied_usn {
        (s, st)
    } else {
        (table_after(s, drive, r), state_after(st, r))
    }
}

/// The table and the watcher's memory after the records of `batch` arrived
/// in order.
pub open spec fn apply_all_spec(
    s: Seq<EntryModel>,
    drive: char,
    st: WatchState,
    batch: Seq<RecordModel>,
) -> (Seq<EntryModel>, WatchState)
    decreases batch.len(),
{
    if batch.len() == 0 {
        (s, st)
    } else {
        let before = apply_all_spec(s, drive, st, batch.drop_last());
        apply_spec(before.0, drive, before.1, batch.last())
    }
}

/// The number of records of `batch` that are applied and not skipped.
pub open spec fn applied_count(
    s: Seq<EntryModel>,
    drive: char,
    st: WatchState,
    batch: Seq<RecordModel>,
) -> nat
    decreases batch.len(),
{
    if batch.len() == 0 {
        0
    } else {
        let before = apply_all_spec(s, drive, st, batch.drop_last());
        applied_count(s, drive, st, batch.drop_last()) + if batch.last().usn
            > before.1.last_applied_usn {
            1nat
        } else {
            0nat
        }
    }
}

/// The values of a batch of records.
pub open spec fn record_models(batch: Seq<JournalRecord>) -> Seq<RecordModel> {
    batch.map_values(|r: JournalRecord| r@)
}

/// Applies one journal record to the store. Returns whether the record was
/// applied; it is skipped where its sequence number is not above the last
/// applied one.
pub fn apply_record(store: &mut IndexStore, state: &mut WatchState, record: &JournalRecord) -> (applied:
    bool)
    requires
        old(store).wf(),
    ensures
        final(store).wf(),
        final(store).drive() == old(store).drive(),
        applied == (record.usn > old(state).last_applied_usn),
        (final(store)@, *final(state)) == apply_spec(
            old(store)@,
            old(store).drive(),
            *old(state),
            record@,
        ),
{
    if record.usn <= state.last_applied_usn {
        return false;
    }
    let id = record.entry.id;
    match record.reason {
        Reason::Create | Reason::RenameNewName => {
            store.insert_evicting(record.entry.snapshot());
        },
        Reason::Delete => {
            store.remove(id);
        },
        Reason::DataExtend | Reason::DataTruncate => {
            store.set_size(id, record.entry.size);
        },
        Reason::BasicInfoChange => {
            store.set_info(
                id,
                record.entry.attributes,
                record.entry.created,
                record.entry.modified,
                record.entry.accessed,
            );
        },
        Reason::RenameOldName | Reason::Close => {},
    }
    let pending = match record.reason {
        Reason::RenameOldName => Some(id),
        Reason::RenameNewName => None,
        _ => state.pending_rename,
    };
    *state = WatchState {
        last_applied_usn: record.usn,
        journal_id: state.journal_id,
        pending_rename: pending,
    };
    true
}

/// Applies the records of one journal read, in order. Returns how many were
/// applied and not skipped.
pub fn apply_batch(store: &mut IndexStore, state: &mut WatchState, batch: &Vec<JournalRecord>) -> (applied:
    usize)
    requires
        old(store).wf(),
    ensures
        final(store).wf(),
        final(store).drive() == old(store).drive(),
        applied == applied_count(
            old(store)@,
            old(store).drive(),
            *old(state),
            record_models(batch@),
        ),
        applied <= batch@.len(),
        (final(store)@, *final(state)) == apply_all_spec(
            old(store)@,
            old(store).drive(),
            *old(state),
            record_models(batch@),
        ),
{
    let mut applied: usize = 0;
    let mut i: usize = 0;
    let ghost drive = store.drive();
    while i < batch.len()
        invariant
            i <= batch@.len(),
            applied <= i,
            applied == applied_count(
                old(store)@,
                drive,
                *old(state),
                record_models(batch@).take(i as int),
            ),
            store.wf(),
            store.drive() == drive,
            drive == old(store).drive(),
            (store@, *state) == apply_all_spec(
                old(store)@,
                drive,
                *old(state),
                record_models(batch@).take(i as int),
            ),
        decreases batch@.len() - i,
    {
        proof {
            let recs = record_models(batch@);
            assert(recs.take(i + 1).drop_last() == recs.take(i as int));
            assert(recs.take(i + 1).last() == batch@[i as int]@);
        }
        if apply_record(store, state, &batch[i]) {
            applied += 1;
        }
        i += 1;
    }
    proof {
        let recs = record_models(batch@);
        assert(recs.take(batch@.len() as int) == recs);
    }
    applied
}

/// A record that arrives a second time is skipped: applying it twice gives
/// what applying it once gives.
pub proof fn lemma_replay_changes_nothing(
    s: Seq<EntryModel>,
    drive: char,
    st: WatchState,
    r: RecordModel,
)
    ensures
        ({
            let once = apply_spec(s, drive, st, r);
            apply_spec(once.0, drive, once.1, r) == once
        }),
{
}

/// After any record the last applied sequence number is not below the
/// record's and not below what it was.
pub proof fn lemma_usn_is_monotonic(s: Seq<EntryModel>, drive: char, st: WatchState, r: RecordModel)
    ensures
        apply_spec(s, drive, st, r).1.last_applied_usn >= st.last_applied_usn,
        apply_spec(s, drive, st, r).1.last_applied_usn >= r.usn,
{
}

/// What a record does to the files of a volume, seen as a map from id to file.
pub open spec fn files_after(files: Map<u64, EntryModel>, r: RecordModel) -> Map<u64, EntryModel> {
    let id = r.entry.id;
    match r.reason {
        Reason::Create | Reason::RenameNewName => files.insert(id, r.entry),
        Reason::Delete => files.remove(id),
        Reason::DataExtend | Reason::DataTruncate => if files.dom().contains(id) {
            files.insert(id, resized(files[id], r.entry.size))
        } else {
            files
        },
        Reason::BasicInfoChange => if files.dom().contains(id) {
            files.insert(
                id,
                restamped(
                    files[id],
                    r.entry.attributes,
                    r.entry.created,
                    r.entry.modified,
                    r.entry.accessed,
                ),
            )
        } else {
            files
        },
        Reason::RenameOldName | Reason::Close => files,
    }
}

/// Where nothing shares the path of `id`, no entry is evicted.
pub proof fn lemma_no_sharer_no_eviction(s: Seq<EntryModel>, drive: char, id: u64, from: int)
    requires
        0 <= from,
        path_key_of(s, drive, id) is Some,
        forall|p: int| from <= p < s.len() ==> !shares_path_at(s, drive, id, p),
    ensures
        first_sharer_from(s, drive, id, from) == s.len(),
    decreases s.len() - from,
{
    if from < s.len() {
        lemma_no_sharer_no_eviction(s, drive, id, from + 1);
    }
}

/// A record that is applied and whose file takes no path from another does
/// to the primary index what it does to the files of the volume: the store
/// follows the file system record by record.
pub proof fn lemma_apply_tracks_files(s: Seq<EntryModel>, drive: char, st: WatchState, r: RecordModel)
    requires
        sorted_by_id(s),
        r.usn > st.last_applied_usn,
        (r.reason == Reason::Create || r.reason == Reason::RenameNewName) ==> !insert_conflicts(
            s,
            drive,
            r.entry,
        ),
    ensures
        sorted_by_id(apply_spec(s, drive, st, r).0),
        by_id(apply_spec(s, drive, st, r).0) == files_after(by_id(s), r),
{
    let id = r.entry.id;
    match r.reason {
        Reason::Create | Reason::RenameNewName => {
            let t = put_spec(s, r.entry);
            lemma_put_spec(s, r.entry);
            if path_key_of(t, drive, id) is Some {
                assert forall|p: int| 0 <= p < t.len() implies !shares_path_at(t, drive, id, p) by {
                    if shares_path_at(t, drive, id, p) {
                        assert(has_id(t, t[p].id));
                    }
                }
                lemma_no_sharer_no_eviction(t, drive, id, 0);
            }
            assert(evict_sharers(t, drive, id) == t);
        },
        Reason::Delete => {
            lemma_remove_spec(s, id);
        },
        Reason::DataExtend | Reason::DataTruncate => {
            if has_id(s, id) {
                lemma_put_spec(s, resized(entry_with_id(s, id), r.entry.size));
            }
        },
        Reason::BasicInfoChange => {
            if has_id(s, id) {
                lemma_put_spec(
                    s,
                    restamped(
                        entry_with_id(s, id),
                        r.entry.attributes,
                        r.entry.created,
                        r.entry.modified,
                        r.entry.accessed,
                    ),
                );
            }
        },
        Reason::RenameOldName | Reason::Close => {},
    }
}

/// What the records of a batch do to the files of a volume, in order.
pub open spec fn files_after_all(files: Map<u64, EntryModel>, batch: Seq<RecordModel>) -> Map<
    u64,
    EntryModel,
>
    decreases batch.len(),
{
    if batch.len() == 0 {
        files
    } else {
        files_after(files_after_all(files, batch.drop_last()), batch.last())
    }
}

/// The batch is one that a journal writes for a volume: every record has a
/// sequence number above those before it, and no created or renamed file
/// takes the path of another.
pub open spec fn well_formed_batch(
    s: Seq<EntryModel>,
    drive: char,
    st: WatchState,
    batch: Seq<RecordModel>,
) -> bool
    decreases batch.len(),
{
    batch.len() > 0 ==> {
        let before = apply_all_spec(s, drive, st, batch.drop_last());
        let r = batch.last();
        &&& well_formed_batch(s, drive, st, batch.drop_last())
        &&& r.usn > before.1.last_applied_usn
        &&& ((r.reason == Reason::Create || r.reason == Reason::RenameNewName)
            ==> !insert_conflicts(before.0, drive, r.entry))
    }
}

/// Over a well-formed batch the primary index follows the files of the
/// volume record by record.
pub proof fn lemma_batch_tracks_files(
    s: Seq<EntryModel>,
    drive: char,
    st: WatchState,
    batch: Seq<RecordModel>,
)
    requires
        sorted_by_id(s),
        well_formed_batch(s, drive, st, batch),
    ensures
        sorted_by_id(apply_all_spec(s, drive, st, batch).0),
        by_id(apply_all_spec(s, drive, st, batch).0) == files_after_all(by_id(s), batch),
    decreases batch.len(),
{
    if batch.len() > 0 {
        lemma_batch_tracks_files(s, drive, st, batch.drop_last());
        let before = apply_all_spec(s, drive, st, batch.drop_last());
        lemma_apply_tracks_files(before.0, drive, before.1, batch.last());
    }
}

/// Eventual consistency: after a well-formed batch the store is the table
/// that a fresh build gives from the files that the volume then holds.
pub proof fn lemma_journal_agrees_with_rebuild(
    s: Seq<EntryModel>,
    drive: char,
    st: WatchState,
    batch: Seq<RecordModel>,
    files: Seq<EntryModel>,
)
    requires
        sorted_by_id(s),
        well_formed_batch(s, drive, st, batch),
        map_of(files) == files_after_all(by_id(s), batch),
    ensures
        build_spec(files) == apply_all_spec(s, drive, st, batch).0,
{
    lemma_batch_tracks_files(s, drive, st, batch);
    lemma_build_gives_the_table(apply_all_spec(s, drive, st, batch).0, files);
}

/// What the watcher of a volume is doing.
#[derive(Debug, Clone, Copy, PartialEq, Eq, Structural)]
pub enum Phase {
    /// Not watching.
    Idle,
    /// Reading the journal and applying what it reports.
    Reading,
    /// Waiting for a full rebuild after the journal was reset.
    Rebuilding,
}

/// What happened to the watcher.
#[derive(Debug, Clone, Copy, PartialEq, Eq, Structural)]
pub enum WatchEvent {
    /// The watcher was told to start.
    Start,
    /// The stop flag was found set.
    Stop,
    /// A journal read was applied to the store.
    BatchApplied,
    /// The journal was deleted, or is another instance than the one that
    /// the last applied sequence number belongs to.
    JournalReset,
    /// The rebuild that was asked for has ended with a store.
    RebuildSucceeded,
    /// The rebuild that was asked for has ended without a store.
    RebuildFailed,
}

/// What the watcher does next.
#[derive(Debug, Clone, Copy, PartialEq, Eq, Structural)]
pub enum WatchAction {
    /// Nothing: the event does not concern this phase.
    Nothing,
    /// Read the journal from the last applied sequence number.
    Read,
    /// Save the header with the new sequence number, then read on.
    PersistAndRead,
    /// Ask the builder for a full rebuild.
    Rebuild,
    /// Leave the loop.
    Halt,
}

/// The watcher's transitions. It starts reading from `Idle`, reads on after
/// every batch, turns to `Rebuilding` when the journal was reset and back to
/// `Reading` when the rebuild gave a store, and is `Idle` again after a stop
/// or a failed rebuild.
pub open spec fn next_phase_spec(phase: Phase, event: WatchEvent) -> (Phase, WatchAction) {
    match (phase, event) {
        (Phase::Idle, WatchEvent::Start) => (Phase::Reading, WatchAction::Read),
        (Phase::Reading, WatchEvent::BatchApplied) => (Phase::Reading, WatchAction::PersistAndRead),
        (Phase::Reading, WatchEvent::JournalReset) => (Phase::Rebuilding, WatchAction::Rebuild),
        (Phase::Reading, WatchEvent::Stop) => (Phase::Idle, WatchAction::Halt),
        (Phase::Rebuilding, WatchEvent::RebuildSucceeded) => (Phase::Reading, WatchAction::Read),
        (Phase::Rebuilding, WatchEvent::RebuildFailed) => (Phase::Idle, WatchAction::Halt),
        (Phase::Rebuilding, WatchEvent::Stop) => (Phase::Idle, WatchAction::Halt),
        (p, _) => (p, WatchAction::Nothing),
    }
}

/// The phase that follows `phase` on `event`, and what the watcher does.
pub fn next_phase(phase: Phase, event: WatchEvent) -> (r: (Phase, WatchAction))
    ensures
        r == next_phase_spec(phase, event),
{
    match (phase, event) {
        (Phase::Idle, WatchEvent::Start) => (Phase::Reading, WatchAction::Read),
        (Phase::Reading, WatchEvent::BatchApplied) => (Phase::Reading, WatchAction::PersistAndRead),
        (Phase::Reading, WatchEvent::JournalReset) => (Phase::Rebuilding, WatchAction::Rebuild),
        (Phase::Reading, WatchEvent::Stop) => (Phase::Idle, WatchAction::Halt),
        (Phase::Rebuilding, WatchEvent::RebuildSucceeded) => (Phase::Reading, WatchAction::Read),
        (Phase::Rebuilding, WatchEvent::RebuildFailed) => (Phase::Idle, WatchAction::Halt),
        (Phase::Rebuilding, WatchEvent::Stop) => (Phase::Idle, WatchAction::Halt),
        (p, _) => (p, WatchAction::Nothing),
    }
}

/// Whether the journal that is live now is another than the one that the
/// watcher remembers. `None` stands for a journal that was deleted.
pub fn journal_was_reset(state: &WatchState, live_journal_id: Option<u64>) -> (r: bool)
    ensures
        r == match live_journal_id {
            Some(id) => id != state.journal_id,
            None => true,
        },
{
    match live_journal_id {
        Some(id) => id != state.journal_id,
        None => true,
    }
}

/// What a poll of the journal's next sequence number means: the number to
/// remember, and whether the store has changes to catch up with. `last` is
/// the number from the poll before, if there was one: the first poll only
/// takes the number, and every later poll reports a number that has grown.
pub fn poll_decision(last: Option<i64>, next_usn: i64) -> (r: (i64, bool))
    ensures
        r.0 == match last {
            Some(l) => if next_usn > l {
                next_usn
            } else {
                l
            },
            None => next_usn,
        },
        r.1 == match last {
            Some(l) => next_usn > l,
            None => false,
        },
{
    match last {
        Some(l) => if next_usn > l {
            (next_usn, true)
        } else {
            (l, false)
        },
        None => (next_usn, false),
    }
}

} // verus!
