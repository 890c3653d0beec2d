//! Building a store from the entries of a parsed file table: the memory
//! governor that watches a build, the share of work that each worker gets,
//! and the merge of what the workers hand back.

use crate::entry::{EntryModel, FileEntry};
use crate::store::{
    build_spec, lemma_build_is_put_all, lemma_put_all_concat, models, put_all_spec, IndexStore,
};
use systemstat::Platform;
use vstd::prelude::*;

verus! {

/// Default number of entries between two looks at the memory.
pub const DEFAULT_MAX_FILES_BEFORE_MEMCHECK: usize = 100_000;

/// Default share of the machine's memory that may be in use, in thousandths.
pub const DEFAULT_MAX_MEMORY_PERMILLE: u32 = 800;

/// What the machine says of its memory, in bytes.
#[derive(Debug, Clone, Copy, PartialEq, Eq, Structural)]
pub struct MemorySample {
    pub total: u64,
    pub free: u64,
}

/// What the governor makes of a sample.
#[derive(Debug, Clone, Copy, PartialEq, Eq, Structural)]
pub enum MemoryVerdict {
    /// The memory in use is within the limit.
    Fine,
    /// The limit is passed: worth a warning.
    Warn,
    /// The limit is passed by more than a tenth: the build must stop.
    Abort,
}

/// Why a build ended without a store.
#[derive(Debug, Clone, Copy, PartialEq, Eq, Structural)]
pub enum BuildError {
    /// The memory governor stopped the build.
    OutOfMemory,
}

/// The bytes in use according to a sample.
pub open spec fn used_bytes(sample: MemorySample) -> int {
    if sample.free <= sample.total {
        sample.total - sample.free
    } else {
        0
    }
}

/// The governor's rule. With `limit` the allowed share in thousandths:
/// `Abort` where the share in use is above eleven tenths of the limit,
/// `Warn` where it is above the limit, `Fine` otherwise.
pub open spec fn verdict_spec(sample: MemorySample, max_permille: u32) -> MemoryVerdict {
    if used_bytes(sample) * 10000 > sample.total * max_permille * 11 {
        MemoryVerdict::Abort
    } else if used_bytes(sample) * 1000 > sample.total * max_permille {
        MemoryVerdict::Warn
    } else {
        MemoryVerdict::Fine
    }
}

/// Judges a memory sample against the allowed share, given in thousandths.
pub fn memory_verdict(sample: MemorySample, max_permille: u32) -> (r: MemoryVerdict)
    ensures
        r == verdict_spec(sample, max_permille),
{
    let used: u64 = if sample.free <= sample.total {
        sample.total - sample.free
    } else {
        0
    };
    let used_wide: u128 = used as u128;
    let total_wide: u128 = sample.total as u128;
    let limit_wide: u128 = max_permille as u128;
    assert(total_wide * limit_wide <= 0xffff_ffff_ffff_ffff * 0xffff_ffff) by (nonlinear_arith)
        requires
            total_wide <= 0xffff_ffff_ffff_ffff,
            limit_wide <= 0xffff_ffff,
    ;
    let allowed: u128 = total_wide * limit_wide;
    if used_wide * 10000 > allowed * 11 {
        MemoryVerdict::Abort
    } else if used_wide * 1000 > allowed {
        MemoryVerdict::Warn
    } else {
        MemoryVerdict::Fine
    }
}

/// Asks `systemstat` for the machine's memory, through `Platform::memory`
/// on a fresh `System`. What comes back depends on the machine and the
/// moment, so nothing is claimed of it.
#[verifier::external_body]
fn sample_memory() -> (r: Option<MemorySample>) {
    match systemstat::System::new().memory() {
        Ok(m) => Some(MemorySample { total: m.total.0, free: m.free.0 }),
        Err(_) => None,
    }
}

/// The number of worker threads for a machine with `cores` cores: all but
/// one, and at least one.
pub fn worker_count(cores: usize) -> (r: usize)
    ensures
        r >= 1,
        cores >= 2 ==> r == cores - 1,
        cores < 2 ==> r == 1,
{
    if cores >= 2 {
        cores - 1
    } else {
        1
    }
}

/// What a finished build hands over.
pub struct BuildOutcome {
    pub store: IndexStore,
    /// The number of entries that were processed.
    pub files_processed: usize,
    /// How often the governor warned.
    pub warnings: usize,
}

/// What the governor decides after `processed` entries, given a sample:
/// whether the build goes on. No sample is no reason to stop.
pub fn governor_allows(sample: Option<MemorySample>, max_permille: u32) -> (r: bool)
    ensures
        r == match sample {
            Some(s) => verdict_spec(s, max_permille) != MemoryVerdict::Abort,
            None => true,
        },
{
    match sample {
        Some(s) => match memory_verdict(s, max_permille) {
            MemoryVerdict::Abort => false,
            _ => true,
        },
        None => true,
    }
}

/// Builds the store of a volume from the entries of its file table, taken
/// in order. After every `check_every` entries the machine's memory is
/// sampled and judged; on `Abort` the build ends with `OutOfMemory` and what
/// was built is dropped. With `check_every` 0 the memory is never sampled.
/// A build during which no sample is due always succeeds.
pub fn build(drive: char, entries: &Vec<FileEntry>, check_every: usize, max_permille: u32) -> (r:
    Result<BuildOutcome, BuildError>)
    ensures
        match r {
            Ok(out) => out.store.wf() && out.store.drive() == drive && out.store@ == build_spec(
                models(entries@),
            ) && out.files_processed == entries@.len(),
            Err(e) => e == BuildError::OutOfMemory && 0 < check_every <= entries@.len(),
        },
{
    let n = entries.len();
    let mut store = IndexStore::new(drive);
    let mut warnings: usize = 0;
    let mut pos: usize = 0;
    let ghost all = models(entries@);
    assert(all.subrange(0, 0) =~= Seq::<EntryModel>::empty());
    while pos < n
        invariant
            pos <= n,
            n == entries@.len(),
            all == models(entries@),
            store.wf(),
            store.drive() == drive,
            store@ == put_all_spec(Seq::empty(), all.subrange(0, pos as int)),
            warnings <= pos,
        decreases n - pos,
    {
        let full = check_every > 0 && n - pos >= check_every;
        let end: usize = if full {
            pos + check_every
        } else {
            n
        };
        proof {
            lemma_put_all_concat(
                Seq::empty(),
                all.subrange(0, pos as int),
                all.subrange(pos as int, end as int),
            );
            assert(all.subrange(0, pos as int) + all.subrange(pos as int, end as int)
                =~= all.subrange(0, end as int));
        }
        store.absorb_range(entries, pos, end);
        pos = end;
        if full {
            match sample_memory() {
                Some(sample) => match memory_verdict(sample, max_permille) {
                    MemoryVerdict::Abort => {
                        return Err(BuildError::OutOfMemory);
                    },
                    MemoryVerdict::Warn => {
                        warnings += 1;
                    },
                    MemoryVerdict::Fine => {},
                },
                None => {},
            }
        }
    }
    proof {
        assert(all.subrange(0, n as int) == all);
        lemma_build_is_put_all(all);
    }
    Ok(BuildOutcome { store, files_processed: n, warnings })
}

/// The entries of all parts, in order.
pub open spec fn flatten(parts: Seq<Vec<FileEntry>>) -> Seq<EntryModel>
    decreases parts.len(),
{
    if parts.len() == 0 {
        Seq::empty()
    } else {
        flatten(parts.drop_last()) + models(parts.last()@)
    }
}

/// The ranges are a cut of the positions below `n`: each starts where the
/// one before it ends, the first at 0, the last ends at `n`, none is empty,
/// and all are of one length but the last, which may be shorter.
pub open spec fn is_even_cut(ranges: Seq<(usize, usize)>, n: int) -> bool {
    &&& n == 0 ==> ranges.len() == 0
    &&& n > 0 ==> ranges.len() > 0 && ranges[0].0 == 0 && ranges.last().1 == n
    &&& forall|k: int| 0 <= k < ranges.len() ==> (#[trigger] ranges[k]).0 < ranges[k].1
    &&& forall|k: int| 0 <= k < ranges.len() - 1 ==> (#[trigger] ranges[k]).1 == ranges[k + 1].0
    &&& forall|k: int|
        0 <= k < ranges.len() ==> (#[trigger] ranges[k]).1 - ranges[k].0 <= ranges[0].1
            - ranges[0].0
    &&& forall|k: int|
        0 <= k < ranges.len() - 1 ==> (#[trigger] ranges[k]).1 - ranges[k].0 == ranges[0].1
            - ranges[0].0
}

/// Cuts `n` records into at most `workers` ranges of equal length, but for
/// the last, which may be shorter: the share of each worker of a parallel
/// build. No worker is asked for stands for one.
pub fn split_even(n: usize, workers: usize) -> (ranges: Vec<(usize, usize)>)
    ensures
        is_even_cut(ranges@, n as int),
        workers >= 1 ==> ranges@.len() <= workers,
{
    let mut ranges: Vec<(usize, usize)> = Vec::new();
    if n == 0 {
        return ranges;
    }
    let count: usize = if workers == 0 {
        1
    } else if workers > n {
        n
    } else {
        workers
    };
    assert(n / count <= n && (n % count != 0 ==> n / count < n)) by (nonlinear_arith)
        requires
            1 <= count <= n,
    ;
    // The length of a range: n / count, rounded up.
    let size: usize = if n % count == 0 {
        n / count
    } else {
        n / count + 1
    };
    assert(size >= 1 && n <= count * size) by (nonlinear_arith)
        requires
            1 <= count <= n,
            size == if n % count == 0 {
                (n / count) as int
            } else {
                n / count + 1
            },
    ;
    let mut pos: usize = 0;
    while pos < n
        invariant
            pos <= n,
            size >= 1,
            ranges@.len() <= count,
            n - pos <= (count - ranges@.len()) * size,
            ranges@.len() == 0 ==> pos == 0,
            ranges@.len() > 0 ==> ranges@[0].0 == 0 && ranges@[ranges@.len() - 1].1 == pos,
            forall|k: int| 0 <= k < ranges@.len() ==> (#[trigger] ranges@[k]).0 < ranges@[k].1,
            forall|k: int|
                0 <= k < ranges@.len() - 1 ==> (#[trigger] ranges@[k]).1 == ranges@[k + 1].0,
            forall|k: int|
                0 <= k < ranges@.len() ==> (#[trigger] ranges@[k]).1 - ranges@[k].0 <= size,
            forall|k: int|
                0 <= k < ranges@.len() - 1 ==> (#[trigger] ranges@[k]).1 - ranges@[k].0 == size,
            pos < n && ranges@.len() > 0 ==> ranges@[ranges@.len() - 1].1 - ranges@[ranges@.len()
                - 1].0 == size,
        decreases n - pos,
    {
        let end: usize = if n - pos > size {
            pos + size
        } else {
            n
        };
        proof {
            let left = count - ranges@.len();
            assert(left >= 1) by (nonlinear_arith)
                requires
                    n - pos <= left * size,
                    n - pos > 0,
                    size >= 1,
                    left >= 0,
            ;
            assert((left - 1) * size == left * size - size) by (nonlinear_arith);
            assert((left - 1) * size >= 0) by (nonlinear_arith)
                requires
                    left >= 1,
                    size >= 1,
            ;
        }
        ranges.push((pos, end));
        pos = end;
    }
    ranges
}

/// Builds one store from the parts that the workers hand back, taken in
/// order: the store that a build from all their entries in a row gives.
pub fn merge(drive: char, parts: &Vec<Vec<FileEntry>>) -> (r: IndexStore)
    ensures
        r.wf(),
        r.drive() == drive,
        r@ == build_spec(flatten(parts@)),
{
    let mut store = IndexStore::new(drive);
    let mut i: usize = 0;
    assert(parts@.take(0) =~= Seq::<Vec<FileEntry>>::empty());
    while i < parts.len()
        invariant
            i <= parts@.len(),
            store.wf(),
            store.drive() == drive,
            store@ == put_all_spec(Seq::empty(), flatten(parts@.take(i as int))),
        decreases parts@.len() - i,
    {
        proof {
            assert(parts@.take(i + 1).drop_last() == parts@.take(i as int));
            assert(parts@.take(i + 1).last() == parts@[i as int]);
            lemma_put_all_concat(
                Seq::empty(),
                flatten(parts@.take(i as int)),
                models(parts@[i as int]@),
            );
        }
        store.absorb(&parts[i]);
        i += 1;
    }
    proof {
        assert(parts@.take(parts@.len() as int) == parts@);
        lemma_build_is_put_all(flatten(parts@));
    }
    store
}

} // verus!
