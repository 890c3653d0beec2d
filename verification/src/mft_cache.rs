//! The engine of one volume: its store, its settings, what it remembers of
//! the change journal, and the counters that its statistics report.

use crate::builder::{
    build, flatten, merge, worker_count, BuildError, DEFAULT_MAX_FILES_BEFORE_MEMCHECK,
    DEFAULT_MAX_MEMORY_PERMILLE,
};
use crate::cache_format::{
    decode_meta, encode_meta, save_cache, entries_bytes, load_cache, meta_bytes, name_fits,
    parse_entries, parse_meta, CacheError, CacheMeta,
};
use crate::entry::{EntryModel, FileEntry};
use crate::journal::{
    applied_count, apply_all_spec, apply_batch, record_models, JournalRecord, WatchState,
};
use crate::query::{evaluate, QueryError, QueryResult, QuerySpec};
use crate::retention::{decimal, decimal_of};
use crate::store::{build_spec, consistent, models, total_size_of, IndexStore};
use crate::text::{string_of, to_upper_char, upper_char};
use vstd::prelude::*;
use vstd::string::StringExecFns;

verus! {

/// The bytes that one entry is taken to hold in memory.
pub const BYTES_PER_FILE: u64 = 1024;

/// The last second that `report` writes as a date: the end of the year 9999.
pub const LAST_DATE_SECOND: u64 = 253_402_300_799;

/// Why settings are refused.
#[derive(Debug, Clone, Copy, PartialEq, Eq, Structural)]
pub enum ConfigError {
    /// The share of memory is above 1000 thousandths.
    MemoryShareOutOfRange,
}

/// Settings of an engine.
#[derive(Debug, Clone)]
pub struct MftCacheConfig {
    /// Number of entries between two looks at the memory; 0 for never.
    pub max_files_before_memcheck: usize,
    /// Share of the machine's memory that may be in use, in thousandths.
    pub max_memory_permille: u32,
    /// Whether to build with several workers.
    pub parallel_processing: bool,
    /// Number of workers for a parallel build.
    pub num_threads: usize,
    /// Whether the store is saved to disk.
    pub persistence_enabled: bool,
    /// Directory of the cache files.
    pub cache_dir: String,
    /// Seconds between two automatic saves; 0 for none.
    pub save_interval_secs: u64,
    /// Number of cache versions to keep.
    pub max_cache_versions: usize,
}

impl Default for MftCacheConfig {
    fn default() -> (r: Self)
        ensures
            r.max_files_before_memcheck == DEFAULT_MAX_FILES_BEFORE_MEMCHECK,
            r.max_memory_permille == DEFAULT_MAX_MEMORY_PERMILLE,
            r.parallel_processing,
            r.num_threads == 1,
            r.persistence_enabled,
            r.cache_dir@ == "cache"@,
            r.save_interval_secs == 300,
            r.max_cache_versions == 3,
    {
        MftCacheConfig {
            max_files_before_memcheck: DEFAULT_MAX_FILES_BEFORE_MEMCHECK,
            max_memory_permille: DEFAULT_MAX_MEMORY_PERMILLE,
            parallel_processing: true,
            num_threads: 1,
            persistence_enabled: true,
            cache_dir: String::from_str("cache"),
            save_interval_secs: 300,
            max_cache_versions: 3,
        }
    }
}

/// The number of entries after which the memory is looked at, for a machine
/// with `total_memory` bytes of which `permille` thousandths may be used,
/// at `BYTES_PER_FILE` bytes an entry.
pub open spec fn memcheck_interval(total_memory: u64, permille: u32) -> int {
    let files = (total_memory * permille / 1000) / (BYTES_PER_FILE as int);
    if files > usize::MAX {
        usize::MAX as int
    } else {
        files
    }
}

impl MftCacheConfig {
    /// Create a new configuration with default values.
    pub fn new() -> (r: Self)
        ensures
            r.max_files_before_memcheck == DEFAULT_MAX_FILES_BEFORE_MEMCHECK,
            r.max_memory_permille == DEFAULT_MAX_MEMORY_PERMILLE,
            r.parallel_processing,
            r.num_threads == 1,
            r.persistence_enabled,
            r.cache_dir@ == "cache"@,
            r.save_interval_secs == 300,
            r.max_cache_versions == 3,
    {
        MftCacheConfig::default()
    }

    /// A configuration fitted to the machine: one worker for each core but
    /// one, and, where the machine's memory is known, a look at the memory
    /// after as many entries as the allowed share of it holds.
    pub fn auto(cores: usize, total_memory: Option<u64>) -> (r: Self)
        ensures
            r.num_threads >= 1,
            cores >= 2 ==> r.num_threads == cores - 1,
            r.max_memory_permille == DEFAULT_MAX_MEMORY_PERMILLE,
            r.max_files_before_memcheck == match total_memory {
                Some(total) => memcheck_interval(total, DEFAULT_MAX_MEMORY_PERMILLE),
                None => DEFAULT_MAX_FILES_BEFORE_MEMCHECK as int,
            },
            r.parallel_processing,
            r.persistence_enabled,
            r.cache_dir@ == "cache"@,
            r.save_interval_secs == 300,
            r.max_cache_versions == 3,
    {
        let mut config = MftCacheConfig::default();
        config.num_threads = worker_count(cores);
        if let Some(total) = total_memory {
            let target: u128 = (total as u128) * (DEFAULT_MAX_MEMORY_PERMILLE as u128) / 1000;
            let files: u128 = target / (BYTES_PER_FILE as u128);
            config.max_files_before_memcheck = if files > usize::MAX as u128 {
                usize::MAX
            } else {
                files as usize
            };
        }
        config
    }

    /// Set the share of memory that may be in use, in thousandths: 0 to 1000.
    pub fn with_memory_usage(self, permille: u32) -> (r: Result<Self, ConfigError>)
        ensures
            permille > 1000 ==> r == Err::<Self, ConfigError>(ConfigError::MemoryShareOutOfRange),
            permille <= 1000 ==> r == Ok::<Self, ConfigError>(
                MftCacheConfig { max_memory_permille: permille, ..self },
            ),
    {
        if permille > 1000 {
            return Err(ConfigError::MemoryShareOutOfRange);
        }
        let mut config = self;
        config.max_memory_permille = permille;
        Ok(config)
    }

    /// Set the number of workers for a parallel build.
    pub fn with_threads(self, num_threads: usize) -> (r: Self)
        ensures
            r == (MftCacheConfig { num_threads, ..self }),
    {
        let mut config = self;
        config.num_threads = num_threads;
        config
    }

    /// Enable or disable building with several workers.
    pub fn with_parallel_processing(self, enabled: bool) -> (r: Self)
        ensures
            r == (MftCacheConfig { parallel_processing: enabled, ..self }),
    {
        let mut config = self;
        config.parallel_processing = enabled;
        config
    }

    /// Set the directory of the cache files.
    pub fn with_cache_dir(self, dir: String) -> (r: Self)
        ensures
            r == (MftCacheConfig { cache_dir: dir, ..self }),
    {
        let mut config = self;
        config.cache_dir = dir;
        config
    }

    /// Enable or disable saving to disk.
    pub fn with_persistence(self, enabled: bool) -> (r: Self)
        ensures
            r == (MftCacheConfig { persistence_enabled: enabled, ..self }),
    {
        let mut config = self;
        config.persistence_enabled = enabled;
        config
    }

    /// Set the seconds between two automatic saves; 0 disables them.
    pub fn with_save_interval(self, seconds: u64) -> (r: Self)
        ensures
            r == (MftCacheConfig { save_interval_secs: seconds, ..self }),
    {
        let mut config = self;
        config.save_interval_secs = seconds;
        config
    }

    /// Set the number of cache versions to keep.
    pub fn with_max_versions(self, max_versions: usize) -> (r: Self)
        ensures
            r == (MftCacheConfig { max_cache_versions: max_versions, ..self }),
    {
        let mut config = self;
        config.max_cache_versions = max_versions;
        config
    }
}

/// Statistics of an engine.
#[derive(Debug, Clone)]
pub struct CacheStats {
    /// Number of entries in the store.
    pub file_count: usize,
    /// Number of entries that the last build processed.
    pub files_processed: usize,
    /// Estimate of the memory that the store takes, in bytes.
    pub memory_usage_bytes: u64,
    /// When the store was last updated, in seconds since 1970-01-01 UTC.
    pub last_update: u64,
    /// The drive letter this engine is for.
    pub drive_letter: char,
    /// The sequence number of the last journal record that was applied.
    pub last_processed_usn: i64,
    /// The journal instance that the sequence number belongs to.
    pub journal_id: u64,
}

/// The text that `humantime` writes for a point in time: its date and time
/// of day in UTC, to the second.
pub uninterp spec fn rfc3339_text(unix_secs: u64) -> Seq<char>;

/// Formats a point in time with `humantime::format_rfc3339_seconds`. The
/// contract names the text `rfc3339_text`: it depends on the number of
/// seconds alone. Times after the year 9999, which that formatter refuses,
/// are left out.
#[verifier::external_body]
fn rfc3339_seconds(unix_secs: u64) -> (r: String)
    requires
        unix_secs <= LAST_DATE_SECOND,
    ensures
        r@ == rfc3339_text(unix_secs),
{
    let time = std::time::UNIX_EPOCH + std::time::Duration::from_secs(unix_secs);
    format!("{}", humantime::format_rfc3339_seconds(time))
}

/// A number of bytes in hundredths of a mebibyte, rounded to the nearest.
pub open spec fn mebibyte_hundredths(bytes: u64) -> nat {
    ((bytes * 100 + 524288) / 1048576) as nat
}

/// A number of bytes written in mebibytes with two decimals.
pub open spec fn mebibytes_text(bytes: u64) -> Seq<char> {
    let h = mebibyte_hundredths(bytes);
    decimal(h / 100) + seq!['.'] + decimal(h % 100 / 10) + decimal(h % 10)
}

/// The report of the statistics `stats`, with `date` for the time of the
/// last update.
pub open spec fn report_text(stats: CacheStats, date: Seq<char>) -> Seq<char> {
    "MFT Cache Statistics ("@ + seq![stats.drive_letter] + ":)\n  Files:           "@ + decimal(
        stats.file_count as nat,
    ) + "\n  Files Processed: "@ + decimal(stats.files_processed as nat)
        + "\n  Memory Usage:    "@ + mebibytes_text(stats.memory_usage_bytes)
        + " MB\n  Last Updated:    "@ + date
}

impl CacheStats {
    /// The report of these statistics, with `date` for the time of the last
    /// update.
    pub fn report_with(&self, date: &str) -> (r: String)
        ensures
            r@ == report_text(*self, date@),
    {
        let mut out = String::from_str("MFT Cache Statistics (");
        out.push(self.drive_letter);
        out.append(":)\n  Files:           ");
        out.append(string_of(&decimal_of(self.file_count as u64)).as_str());
        out.append("\n  Files Processed: ");
        out.append(string_of(&decimal_of(self.files_processed as u64)).as_str());
        out.append("\n  Memory Usage:    ");
        let h: u128 = ((self.memory_usage_bytes as u128) * 100 + 524288) / 1048576;
        let whole: u64 = (h / 100) as u64;
        let tenths: u64 = (h % 100 / 10) as u64;
        let hundredths: u64 = (h % 10) as u64;
        let ghost before = out@;
        out.append(string_of(&decimal_of(whole)).as_str());
        out.push('.');
        out.append(string_of(&decimal_of(tenths)).as_str());
        out.append(string_of(&decimal_of(hundredths)).as_str());
        assert(out@ == before + mebibytes_text(self.memory_usage_bytes));
        out.append(" MB\n  Last Updated:    ");
        out.append(date);
        out
    }

    /// The report of these statistics. The time of the last update is
    /// written as a date, or, where it lies after the year 9999, as a number
    /// of seconds.
    pub fn report(&self) -> (r: String)
        ensures
            r@ == report_text(
                *self,
                if self.last_update <= LAST_DATE_SECOND {
                    rfc3339_text(self.last_update)
                } else {
                    decimal(self.last_update as nat)
                },
            ),
    {
        if self.last_update <= LAST_DATE_SECOND {
            let date = rfc3339_seconds(self.last_update);
            self.report_with(date.as_str())
        } else {
            let date = string_of(&decimal_of(self.last_update));
            self.report_with(date.as_str())
        }
    }
}

/// The two files are a cache version that the engine of the given drive
/// takes: the header can be read, is of the drive and of the live journal,
/// the data file can be read, holds a consistent store, and that store has
/// as many entries as the header says.
pub open spec fn loadable(drive_letter: char, meta: Seq<u8>, data: Seq<u8>, live_journal_id: u64) -> bool {
    let drive = upper_char(drive_letter);
    &&& drive <= '\u{7f}'
    &&& parse_meta(meta) matches Some(m)
    &&& m.drive == drive as u8
    &&& m.journal_id == live_journal_id
    &&& parse_entries(data) matches Some(list)
    &&& consistent(build_spec(list), drive)
    &&& m.file_count == build_spec(list).len()
}

/// The two files of a cache version, as bytes.
pub struct SavedCache {
    /// The bytes of the data file.
    pub data: Vec<u8>,
    /// The bytes of the header file.
    pub meta: Vec<u8>,
}

/// An error that the engine has not recovered from, and when it happened.
#[derive(Debug, Clone, Copy, PartialEq, Eq, Structural)]
pub struct ErrorReport {
    pub error: BuildError,
    /// Seconds since 1970-01-01 UTC.
    pub at: u64,
}

/// The engine of one volume.
pub struct MftCache {
    store: IndexStore,
    config: MftCacheConfig,
    state: WatchState,
    files_processed: usize,
    last_update: u64,
    dirty: bool,
    failure: Option<ErrorReport>,
}

impl MftCache {
    /// The store is well formed.
    pub closed spec fn wf(&self) -> bool {
        self.store.wf()
    }

    /// The entries of the store, by ascending id.
    pub closed spec fn entries(&self) -> Seq<EntryModel> {
        self.store@
    }

    /// The drive letter.
    pub closed spec fn drive(&self) -> char {
        self.store.drive()
    }

    /// What the engine remembers of the change journal.
    pub closed spec fn watch_state(&self) -> WatchState {
        self.state
    }

    /// The failure of the last build, where it failed: the engine is not
    /// open until a build succeeds.
    pub closed spec fn failure(&self) -> Option<ErrorReport> {
        self.failure
    }

    /// The settings.
    pub closed spec fn settings(&self) -> MftCacheConfig {
        self.config
    }

    /// Whether the store changed since it was last saved.
    pub closed spec fn is_dirty(&self) -> bool {
        self.dirty
    }

    /// When the store was last updated.
    pub closed spec fn updated_at(&self) -> u64 {
        self.last_update
    }

    /// The number of entries that the last build processed.
    pub closed spec fn processed(&self) -> usize {
        self.files_processed
    }

    /// An empty engine for the given drive, with the default settings.
    pub fn new(drive_letter: char) -> (r: Self)
        ensures
            r.wf(),
            r.drive() == upper_char(drive_letter),
            r.entries() == Seq::<EntryModel>::empty(),
            r.watch_state() == (WatchState {
                last_applied_usn: 0,
                journal_id: 0,
                pending_rename: None,
            }),
            !r.is_dirty(),
            r.processed() == 0,
            r.updated_at() == 0,
            r.failure() is None,
    {
        MftCache::with_config(drive_letter, MftCacheConfig::default())
    }

    /// An empty engine for the given drive, written in upper case.
    pub fn with_config(drive_letter: char, config: MftCacheConfig) -> (r: Self)
        ensures
            r.wf(),
            r.drive() == upper_char(drive_letter),
            r.entries() == Seq::<EntryModel>::empty(),
            r.watch_state() == (WatchState {
                last_applied_usn: 0,
                journal_id: 0,
                pending_rename: None,
            }),
            !r.is_dirty(),
            r.processed() == 0,
            r.updated_at() == 0,
            r.settings() == config,
            r.failure() is None,
    {
        MftCache {
            store: IndexStore::new(to_upper_char(drive_letter)),
            config,
            state: WatchState { last_applied_usn: 0, journal_id: 0, pending_rename: None },
            files_processed: 0,
            last_update: 0,
            dirty: false,
            failure: None,
        }
    }

    /// Builds the store anew from the entries of the volume's file table.
    /// `journal_id` and `next_usn` are what the journal said before the table
    /// was read: the journal is caught up from there. `now` is the time of
    /// the build. A build during which no look at the memory is due always
    /// succeeds; where the memory governor stops the build, the store is
    /// left empty. After a build the invariants of the new store are
    /// checked, and the outcome is returned: whether every entry but the
    /// root has a directory as parent, every entry has a full path, and no
    /// two entries share one.
    pub fn rebuild(&mut self, entries: &Vec<FileEntry>, journal_id: u64, next_usn: i64, now: u64) -> (r:
        Result<bool, BuildError>)
        requires
            old(self).wf(),
        ensures
            final(self).wf(),
            final(self).drive() == old(self).drive(),
            final(self).is_dirty(),
            final(self).updated_at() == now,
            final(self).settings() == old(self).settings(),
            r is Err ==> 0 < old(self).settings().max_files_before_memcheck <= entries@.len(),
            match r {
                Ok(sound) => final(self).entries() == build_spec(models(entries@)) && sound
                    == consistent(final(self).entries(), final(self).drive()) && final(self).watch_state() == (WatchState {
                    last_applied_usn: next_usn,
                    journal_id,
                    pending_rename: None,
                }) && final(self).processed() == entries@.len() && final(self).failure() is None,
                Err(e) => e == BuildError::OutOfMemory && final(self).entries() == Seq::<
                    EntryModel,
                >::empty() && final(self).processed() == 0 && final(self).failure() == Some(
                    ErrorReport { error: e, at: now },
                ) && final(self).watch_state() == old(self).watch_state(),
            },
    {
        let drive = self.store.drive_letter();
        self.dirty = true;
        self.last_update = now;
        match build(
            drive,
            entries,
            self.config.max_files_before_memcheck,
            self.config.max_memory_permille,
        ) {
            Ok(out) => {
                self.store = out.store;
                self.files_processed = out.files_processed;
                self.state = WatchState {
                    last_applied_usn: next_usn,
                    journal_id,
                    pending_rename: None,
                };
                self.failure = None;
                Ok(self.store.check_invariants())
            },
            Err(e) => {
                self.store.clear();
                self.files_processed = 0;
                self.failure = Some(ErrorReport { error: e, at: now });
                Err(e)
            },
        }
    }

    /// Builds the store anew from the parts that the workers of a parallel
    /// build hand back, taken in order: the store that `rebuild` gives from
    /// all their entries in a row. The memory is not looked at. Returns
    /// whether the new store keeps its invariants, as `rebuild` does.
    pub fn rebuild_parallel(
        &mut self,
        parts: &Vec<Vec<FileEntry>>,
        journal_id: u64,
        next_usn: i64,
        now: u64,
    ) -> (sound: bool)
        requires
            old(self).wf(),
        ensures
            final(self).wf(),
            final(self).drive() == old(self).drive(),
            final(self).is_dirty(),
            final(self).updated_at() == now,
            final(self).settings() == old(self).settings(),
            final(self).entries() == build_spec(flatten(parts@)),
            sound == consistent(final(self).entries(), final(self).drive()),
            final(self).watch_state() == (WatchState {
                last_applied_usn: next_usn,
                journal_id,
                pending_rename: None,
            }),
            final(self).processed() == final(self).entries().len(),
            final(self).failure() is None,
    {
        let drive = self.store.drive_letter();
        self.store = merge(drive, parts);
        self.files_processed = self.store.len();
        self.state = WatchState { last_applied_usn: next_usn, journal_id, pending_rename: None };
        self.failure = None;
        self.dirty = true;
        self.last_update = now;
        self.store.check_invariants()
    }

    /// Clear all entries and reset the counters.
    pub fn clear(&mut self, now: u64)
        requires
            old(self).wf(),
        ensures
            final(self).wf(),
            final(self).drive() == old(self).drive(),
            final(self).entries() == Seq::<EntryModel>::empty(),
            final(self).processed() == 0,
            final(self).updated_at() == now,
            final(self).is_dirty(),
            final(self).watch_state() == old(self).watch_state(),
            final(self).settings() == old(self).settings(),
            final(self).failure() == old(self).failure(),
    {
        self.store.clear();
        self.files_processed = 0;
        self.last_update = now;
        self.dirty = true;
    }

    /// The number of entries.
    pub fn len(&self) -> (r: usize)
        ensures
            r == self.entries().len(),
    {
        self.store.len()
    }

    /// The engine holds no entry.
    pub fn is_empty(&self) -> (r: bool)
        ensures
            r == (self.entries().len() == 0),
    {
        self.store.is_empty()
    }

    /// An estimate of the memory that the store takes: `BYTES_PER_FILE` for
    /// each entry, capped at the largest `u64`.
    pub fn size_in_bytes(&self) -> (r: u64)
        ensures
            r == if self.entries().len() * BYTES_PER_FILE > u64::MAX {
                u64::MAX as int
            } else {
                self.entries().len() * BYTES_PER_FILE
            },
    {
        let len: u128 = self.store.len() as u128;
        assert(len <= 0xffff_ffff_ffff_ffff);
        assert(BYTES_PER_FILE == 1024);
        let n: u128 = len * 1024;
        if n > u64::MAX as u128 {
            u64::MAX
        } else {
            n as u64
        }
    }

    /// Get cache statistics.
    pub fn stats(&self) -> (r: CacheStats)
        ensures
            r.file_count == self.entries().len(),
            r.files_processed == self.processed(),
            r.memory_usage_bytes == if self.entries().len() * BYTES_PER_FILE > u64::MAX {
                u64::MAX as int
            } else {
                self.entries().len() * BYTES_PER_FILE
            },
            r.last_update == self.updated_at(),
            r.drive_letter == self.drive(),
            r.last_processed_usn == self.watch_state().last_applied_usn,
            r.journal_id == self.watch_state().journal_id,
    {
        CacheStats {
            file_count: self.store.len(),
            files_processed: self.files_processed,
            memory_usage_bytes: self.size_in_bytes(),
            last_update: self.last_update,
            drive_letter: self.store.drive_letter(),
            last_processed_usn: self.state.last_applied_usn,
            journal_id: self.state.journal_id,
        }
    }

    /// Get the last time the store was updated.
    pub fn last_update(&self) -> (r: u64)
        ensures
            r == self.updated_at(),
    {
        self.last_update
    }

    /// Get the drive letter this engine is for.
    pub fn drive_letter(&self) -> (r: char)
        ensures
            r == self.drive(),
    {
        self.store.drive_letter()
    }

    /// Get a reference to the settings.
    pub fn config(&self) -> (r: &MftCacheConfig)
        ensures
            *r == self.settings(),
    {
        &self.config
    }

    /// Get the store, to read it.
    pub fn get_files(&self) -> (r: &IndexStore)
        requires
            self.wf(),
        ensures
            r.wf(),
            r@ == self.entries(),
            r.drive() == self.drive(),
    {
        &self.store
    }

    /// Puts an entry into the store as `IndexStore::insert` does.
    pub fn insert(&mut self, entry: FileEntry) -> (r: Result<(), crate::store::StoreError>)
        requires
            old(self).wf(),
        ensures
            final(self).wf(),
            final(self).drive() == old(self).drive(),
            r is Ok ==> final(self).entries() == crate::store::put_spec(
                old(self).entries(),
                entry@,
            ) && final(self).is_dirty(),
            r is Err ==> final(self).entries() == old(self).entries() && final(self).is_dirty()
                == old(self).is_dirty() && r == Err::<(), crate::store::StoreError>(
                crate::store::StoreError::Conflict,
            ),
            final(self).settings() == old(self).settings(),
            final(self).watch_state() == old(self).watch_state(),
            final(self).failure() == old(self).failure(),
            r is Ok <==> !crate::store::insert_conflicts(
                old(self).entries(),
                old(self).drive(),
                entry@,
            ),
    {
        let r = self.store.insert(entry);
        if r.is_ok() {
            self.dirty = true;
        }
        r
    }

    /// Evaluates a query against the store, as `evaluate` does. An engine
    /// whose last build failed refuses every query.
    pub fn query(&self, q: &QuerySpec) -> (r: Result<QueryResult, QueryError>)
        requires
            self.wf(),
        ensures
            self.failure() is Some ==> r.is_err() && r.unwrap_err() == QueryError::EngineNotOpen,
            self.failure() is None ==> match r {
                Err(e) => crate::query::fault(q) == Some(e),
                Ok(found) => {
                    let positions = crate::query::result_positions(
                        self.entries(),
                        self.drive(),
                        q,
                    );
                    &&& crate::query::fault(q) is None
                    &&& found.results@.len() == positions.len()
                    &&& found.results@.len() <= q.max_results
                    &&& crate::query::shows(
                        found.results@,
                        0,
                        self.entries(),
                        self.drive(),
                        positions,
                    )
                    &&& found.search_info.scanned == crate::query::scanned_count(
                        self.entries(),
                        self.drive(),
                        q,
                    )
                    &&& found.search_info.index_size == self.entries().len()
                    &&& found.search_info.match_type == crate::query::resolved_mode(
                        q.mode,
                        q.pattern@,
                    )
                    &&& found.search_info.mode == q.mode
                    &&& found.search_info.pattern@ == q.pattern@
                    &&& found.search_info.ntfs_mode
                },
            },
    {
        if self.failure.is_some() {
            return Err(QueryError::EngineNotOpen);
        }
        evaluate(&self.store, q)
    }

    /// The error that the engine has not recovered from, if any.
    pub fn last_error(&self) -> (r: Option<ErrorReport>)
        ensures
            r == self.failure(),
    {
        self.failure
    }

    /// Applies the records of one journal read, in order. Returns how many
    /// were applied and not skipped.
    pub fn apply_changes(&mut self, batch: &Vec<JournalRecord>, now: u64) -> (applied: usize)
        requires
            old(self).wf(),
        ensures
            final(self).wf(),
            final(self).drive() == old(self).drive(),
            (final(self).entries(), final(self).watch_state()) == apply_all_spec(
                old(self).entries(),
                old(self).drive(),
                old(self).watch_state(),
                record_models(batch@),
            ),
            applied == applied_count(
                old(self).entries(),
                old(self).drive(),
                old(self).watch_state(),
                record_models(batch@),
            ),
            final(self).settings() == old(self).settings(),
            final(self).failure() == old(self).failure(),
            applied > 0 ==> final(self).is_dirty() && final(self).updated_at() == now,
            applied == 0 ==> final(self).is_dirty() == old(self).is_dirty() && final(self).updated_at() == old(self).updated_at(),
    {
        let applied = apply_batch(&mut self.store, &mut self.state, batch);
        if applied > 0 {
            self.dirty = true;
            self.last_update = now;
        }
        applied
    }

    /// Whether an automatic save has anything to write: the store changed
    /// since the last save.
    pub fn needs_save(&self) -> (r: bool)
        ensures
            r == self.is_dirty(),
    {
        self.dirty
    }

    /// The header that describes the store as it is now.
    pub open spec fn meta_now(&self, now: u64) -> CacheMeta {
        CacheMeta {
            created: now,
            drive: self.drive() as u8,
            journal_id: self.watch_state().journal_id,
            last_applied_usn: self.watch_state().last_applied_usn,
            file_count: self.entries().len() as u64,
            total_size: total_size_of(self.entries()),
        }
    }

    /// Writes the store as the two files of a cache version, and marks the
    /// store as saved.
    pub fn save_bytes(&mut self, now: u64) -> (r: Result<SavedCache, CacheError>)
        requires
            old(self).wf(),
        ensures
            final(self).wf(),
            final(self).entries() == old(self).entries(),
            final(self).drive() == old(self).drive(),
            final(self).watch_state() == old(self).watch_state(),
            final(self).settings() == old(self).settings(),
            final(self).failure() == old(self).failure(),
            match r {
                Ok(saved) => saved.data@ == entries_bytes(old(self).entries()) && saved.meta@
                    == meta_bytes(old(self).meta_now(now)) && !final(self).is_dirty()
                    && old(self).drive() <= '\u{7f}' && forall|i: int|
                    0 <= i < old(self).entries().len() ==> name_fits(
                        #[trigger] old(self).entries()[i],
                    ),
                Err(e) => final(self).is_dirty() == old(self).is_dirty() && if old(self).drive()
                    > '\u{7f}' {
                    e == CacheError::DriveNotAscii
                } else {
                    e == CacheError::NameTooLong && exists|i: int|
                        0 <= i < old(self).entries().len() && !name_fits(
                            #[trigger] old(self).entries()[i],
                        )
                },
            },
    {
        let drive = self.store.drive_letter();
        if drive > '\u{7f}' {
            return Err(CacheError::DriveNotAscii);
        }
        let data = match save_cache(&self.store) {
            Ok(data) => data,
            Err(e) => {
                return Err(e);
            },
        };
        let meta = CacheMeta {
            created: now,
            drive: drive as u8,
            journal_id: self.state.journal_id,
            last_applied_usn: self.state.last_applied_usn,
            file_count: self.store.len() as u64,
            total_size: self.store.total_size(),
        };
        self.dirty = false;
        Ok(SavedCache { data, meta: encode_meta(&meta) })
    }

    /// Restores an engine from the two files of a cache version. `None`,
    /// "no cache available", where the header cannot be read, is of another
    /// drive or of another journal than the live one, where the data file
    /// cannot be read or does not hold as many entries as the header says,
    /// or where the store that it holds is not consistent.
    pub fn from_cache(
        drive_letter: char,
        config: MftCacheConfig,
        meta: &[u8],
        data: &[u8],
        live_journal_id: u64,
    ) -> (r: Option<Self>)
        ensures
            match r {
                Some(cache) => {
                    &&& cache.wf()
                    &&& cache.drive() == upper_char(drive_letter)
                    &&& parse_meta(meta@) matches Some(m)
                    &&& m.drive == cache.drive() as u8
                    &&& m.journal_id == live_journal_id
                    &&& parse_entries(data@) matches Some(list)
                    &&& cache.entries() == build_spec(list)
                    &&& m.file_count == cache.entries().len()
                    &&& consistent(cache.entries(), cache.drive())
                    &&& cache.watch_state() == (WatchState {
                        last_applied_usn: m.last_applied_usn,
                        journal_id: m.journal_id,
                        pending_rename: None,
                    })
                    &&& cache.updated_at() == m.created
                    &&& !cache.is_dirty()
                    &&& cache.settings() == config
                    &&& cache.failure() is None
                },
                None => !loadable(drive_letter, meta@, data@, live_journal_id),
            },
            r is Some ==> loadable(drive_letter, meta@, data@, live_journal_id),
    {
        let drive = to_upper_char(drive_letter);
        if drive > '\u{7f}' {
            return None;
        }
        let m = match decode_meta(meta) {
            Ok(m) => m,
            Err(_) => {
                return None;
            },
        };
        if m.drive != drive as u8 || m.journal_id != live_journal_id {
            return None;
        }
        let store = match load_cache(drive, data) {
            Ok(store) => store,
            Err(_) => {
                return None;
            },
        };
        if store.len() as u64 != m.file_count {
            return None;
        }
        let n = store.len();
        Some(
            MftCache {
                store,
                config,
                state: WatchState {
                    last_applied_usn: m.last_applied_usn,
                    journal_id: m.journal_id,
                    pending_rename: None,
                },
                files_processed: n,
                last_update: m.created,
                dirty: false,
                failure: None,
            },
        )
    }
}

} // verus!
