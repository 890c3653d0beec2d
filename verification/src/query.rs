//! The query evaluator: what a query asks for, when it is refused, and which
//! entries of a store answer it.

use crate::entry::EntryModel;
use crate::file_types::{extensions_of, type_has_extension, DocumentType};
use crate::pattern::{
    anchor_regex, anchored_regex, glob_regex, glob_to_regex, has_wildcard, pattern_has_wildcard,
    regex_compiles, regex_is_match, NamePattern,
};
use crate::store::{opt_chars_view, path_key_of, path_of, IndexStore};
use crate::text::{
    chars_eq, chars_of, contains_exec, contains_seq, lower, lower_chars_of, starts_with_exec,
    starts_with_seq, tail_of, to_lower_vec,
};
use crate::types::SearchResult;
use vstd::prelude::*;

verus! {

/// The longest pattern that a query may carry, in characters.
pub const MAX_PATTERN_CHARS: usize = 1000;

/// The largest number of results that a query may ask for.
pub const MAX_RESULTS_LIMIT: usize = 10000;

/// How the pattern of a query is read.
#[derive(Debug, Clone, Copy, PartialEq, Eq, Structural)]
pub enum MatchMode {
    /// The name equals the pattern, case ignored.
    Exact,
    /// The pattern is a glob with `*` and `?`.
    Glob,
    /// The pattern is a regular expression for the whole name.
    Regex,
    /// The name contains the pattern, case ignored.
    Substring,
    /// `Glob` where the pattern has a wildcard, else `Substring`.
    Smart,
}

/// Which kind of entry a query keeps.
#[derive(Debug, Clone, Copy, PartialEq, Eq, Structural)]
pub enum KindFilter {
    Any,
    File,
    Directory,
}

/// Why a query is refused.
#[derive(Debug, Clone, Copy, PartialEq, Eq, Structural)]
pub enum QueryError {
    /// The pattern is empty.
    EmptyPattern,
    /// The pattern has more than `MAX_PATTERN_CHARS` characters.
    PatternTooLong,
    /// The pattern holds `..`.
    PathTraversal,
    /// The regular expression engine refuses the pattern.
    BadRegex,
    /// `max_results` is 0 or above `MAX_RESULTS_LIMIT`.
    BadMaxResults,
    /// The engine that was asked has no store: its last build failed.
    EngineNotOpen,
}

/// The two kinds of refusal that callers tell apart.
#[derive(Debug, Clone, Copy, PartialEq, Eq, Structural)]
pub enum ErrorKind {
    InvalidPattern,
    InvalidArgument,
}

impl QueryError {
    /// The kind of this refusal.
    pub open spec fn kind_spec(self) -> ErrorKind {
        match self {
            QueryError::BadMaxResults => ErrorKind::InvalidArgument,
            QueryError::EngineNotOpen => ErrorKind::InvalidArgument,
            _ => ErrorKind::InvalidPattern,
        }
    }

    /// The kind of this refusal.
    pub fn kind(&self) -> (r: ErrorKind)
        ensures
            r == self.kind_spec(),
    {
        match self {
            QueryError::BadMaxResults => ErrorKind::InvalidArgument,
            QueryError::EngineNotOpen => ErrorKind::InvalidArgument,
            _ => ErrorKind::InvalidPattern,
        }
    }

    /// A sentence for the user.
    pub fn message(&self) -> (r: &'static str)
        ensures
            r@ == match *self {
                QueryError::EmptyPattern => "Pattern cannot be empty"@,
                QueryError::PatternTooLong => "Pattern too long (max 1000 characters)"@,
                QueryError::PathTraversal => "Path traversal patterns not allowed"@,
                QueryError::BadRegex => "Pattern is not a valid regular expression"@,
                QueryError::BadMaxResults => "max_results must be between 1 and 10000"@,
                QueryError::EngineNotOpen => "engine not open"@,
            },
    {
        match self {
            QueryError::EmptyPattern => "Pattern cannot be empty",
            QueryError::PatternTooLong => "Pattern too long (max 1000 characters)",
            QueryError::PathTraversal => "Path traversal patterns not allowed",
            QueryError::BadRegex => "Pattern is not a valid regular expression",
            QueryError::BadMaxResults => "max_results must be between 1 and 10000",
            QueryError::EngineNotOpen => "engine not open",
        }
    }
}

impl MatchMode {
    /// The name of the mode on the wire.
    pub fn as_str(&self) -> (r: &'static str)
        ensures
            r@ == match *self {
                MatchMode::Exact => "exact"@,
                MatchMode::Glob => "glob"@,
                MatchMode::Regex => "regex"@,
                MatchMode::Substring => "substring"@,
                MatchMode::Smart => "smart"@,
            },
    {
        match self {
            MatchMode::Exact => "exact",
            MatchMode::Glob => "glob",
            MatchMode::Regex => "regex",
            MatchMode::Substring => "substring",
            MatchMode::Smart => "smart",
        }
    }
}

/// What a query asks for.
#[derive(Debug, Clone)]
pub struct QuerySpec {
    pub pattern: String,
    pub mode: MatchMode,
    /// Text that the full path must contain, case ignored.
    pub path_contains: Option<String>,
    /// The drive letter, or `*` for every volume.
    pub drive: char,
    pub max_results: usize,
    pub kind_filter: KindFilter,
    /// Extensions to keep; leading dots and case are ignored. Where given,
    /// `doc_class` is not looked at.
    pub extensions: Option<Vec<String>>,
    pub doc_class: Option<DocumentType>,
    /// Smallest size in bytes, bound included.
    pub min_size: Option<u64>,
    /// Largest size in bytes, bound included.
    pub max_size: Option<u64>,
}

/// What a query found, and how.
#[derive(Debug, Clone)]
pub struct SearchInfo {
    pub pattern: String,
    pub mode: MatchMode,
    /// The mode that the names were matched in: never `Smart`.
    pub match_type: MatchMode,
    /// The number of entries in the store.
    pub index_size: usize,
    /// The number of entries that were looked at.
    pub scanned: usize,
    pub ntfs_mode: bool,
}

/// The answer to a query.
#[derive(Debug, Clone)]
pub struct QueryResult {
    pub results: Vec<SearchResult>,
    pub search_info: SearchInfo,
}

/// The mode that names are matched in.
pub open spec fn resolved_mode(mode: MatchMode, pattern: Seq<char>) -> MatchMode {
    match mode {
        MatchMode::Smart => if has_wildcard(pattern) {
            MatchMode::Glob
        } else {
            MatchMode::Substring
        },
        other => other,
    }
}

/// The pattern holds the sequence `..`.
pub open spec fn has_traversal(pattern: Seq<char>) -> bool {
    contains_seq(pattern, seq!['.', '.'])
}

/// What is wrong with the query, as far as its text and numbers show.
pub open spec fn static_fault(q: &QuerySpec) -> Option<QueryError> {
    if q.pattern@.len() == 0 {
        Some(QueryError::EmptyPattern)
    } else if q.pattern@.len() > MAX_PATTERN_CHARS {
        Some(QueryError::PatternTooLong)
    } else if has_traversal(q.pattern@) {
        Some(QueryError::PathTraversal)
    } else if q.max_results < 1 || q.max_results > MAX_RESULTS_LIMIT {
        Some(QueryError::BadMaxResults)
    } else {
        None
    }
}

/// The regular expression that the query hands to the engine, if any.
pub open spec fn regex_text(q: &QuerySpec) -> Option<Seq<char>> {
    match resolved_mode(q.mode, q.pattern@) {
        MatchMode::Glob => Some(glob_regex(q.pattern@)),
        MatchMode::Regex => Some(anchored_regex(q.pattern@)),
        _ => None,
    }
}

/// What is wrong with the query, if anything.
pub open spec fn fault(q: &QuerySpec) -> Option<QueryError> {
    match static_fault(q) {
        Some(f) => Some(f),
        None => match regex_text(q) {
            Some(source) => if regex_compiles(source) {
                None
            } else {
                Some(QueryError::BadRegex)
            },
            None => None,
        },
    }
}

/// `s` without its leading dots.
pub open spec fn strip_dots(s: Seq<char>) -> Seq<char>
    decreases s.len(),
{
    if s.len() > 0 && s[0] == '.' {
        strip_dots(s.drop_first())
    } else {
        s
    }
}

/// An extension as the filter compares it: without leading dots, lower case.
pub open spec fn normal_extension(s: Seq<char>) -> Seq<char> {
    lower(strip_dots(s))
}

/// `ext` is one of the listed extensions.
pub open spec fn extension_listed(list: Seq<String>, ext: Seq<char>) -> bool {
    exists|j: int| 0 <= j < list.len() && normal_extension(#[trigger] list[j]@) == ext
}

/// The extension filter lets an entry with the extension `ext` through.
/// A list of extensions overrides the document class; an entry without
/// extension passes a list only where the list is empty.
pub open spec fn extension_passes(q: &QuerySpec, ext: Option<Seq<char>>) -> bool {
    match q.extensions {
        Some(list) => match ext {
            Some(x) => extension_listed(list@, x),
            None => list@.len() == 0,
        },
        None => match q.doc_class {
            Some(class) => ext matches Some(x) && extensions_of(class).contains(x),
            None => true,
        },
    }
}

/// The name answers the pattern in the query's mode.
pub open spec fn name_matches(q: &QuerySpec, name: Seq<char>) -> bool {
    match resolved_mode(q.mode, q.pattern@) {
        MatchMode::Exact => lower(name) == lower(q.pattern@),
        MatchMode::Substring => contains_seq(lower(name), lower(q.pattern@)),
        MatchMode::Glob => regex_is_match(glob_regex(q.pattern@), name),
        MatchMode::Regex => regex_is_match(anchored_regex(q.pattern@), name),
        MatchMode::Smart => false,
    }
}

/// The kind filter lets the entry through.
pub open spec fn kind_passes(kind: KindFilter, is_directory: bool) -> bool {
    match kind {
        KindFilter::Any => true,
        KindFilter::File => !is_directory,
        KindFilter::Directory => is_directory,
    }
}

/// The entry `e`, whose lower-cased full path is `path_key`, answers the
/// query. An entry without a full path answers none.
pub open spec fn entry_matches(q: &QuerySpec, e: EntryModel, path_key: Option<Seq<char>>) -> bool {
    &&& path_key is Some
    &&& kind_passes(q.kind_filter, e.is_directory)
    &&& (q.min_size matches Some(min) ==> e.size >= min)
    &&& (q.max_size matches Some(max) ==> e.size <= max)
    &&& extension_passes(q, e.extension())
    &&& (q.path_contains matches Some(part) ==> contains_seq(path_key->0, lower(part@)))
    &&& name_matches(q, e.name)
}

/// The positions below `upto` of the entries of `s` that answer the query,
/// ascending.
pub open spec fn hits(s: Seq<EntryModel>, drive: char, q: &QuerySpec, upto: int) -> Seq<int>
    decreases upto,
{
    if upto <= 0 {
        Seq::empty()
    } else if entry_matches(q, s[upto - 1], path_key_of(s, drive, s[upto - 1].id)) {
        hits(s, drive, q, upto - 1).push(upto - 1)
    } else {
        hits(s, drive, q, upto - 1)
    }
}

/// The positions of the first `limit` entries that answer the query.
pub open spec fn limited_hits(s: Seq<EntryModel>, drive: char, q: &QuerySpec, limit: int) -> Seq<
    int,
> {
    let all = hits(s, drive, q, s.len() as int);
    if all.len() > limit {
        all.take(limit)
    } else {
        all
    }
}

/// The positions of the entries that the query returns: the first
/// `max_results` of those that answer it.
pub open spec fn result_positions(s: Seq<EntryModel>, drive: char, q: &QuerySpec) -> Seq<int> {
    limited_hits(s, drive, q, q.max_results as int)
}

/// The number of entries that a scan for `limit` results looks at: up to
/// and including the one that fills the result list, or all of them.
pub open spec fn scanned_upto(s: Seq<EntryModel>, drive: char, q: &QuerySpec, limit: int) -> int {
    let all = hits(s, drive, q, s.len() as int);
    if 1 <= limit <= all.len() {
        all[limit - 1] + 1
    } else {
        s.len() as int
    }
}

/// The number of entries that the evaluator looks at: up to and including
/// the one that fills the result list, or all of them.
pub open spec fn scanned_count(s: Seq<EntryModel>, drive: char, q: &QuerySpec) -> int {
    scanned_upto(s, drive, q, q.max_results as int)
}

/// The results from position `from` on show the entries of `s` at
/// `positions`, one for one, each with its full path.
pub open spec fn shows(
    results: Seq<SearchResult>,
    from: int,
    s: Seq<EntryModel>,
    drive: char,
    positions: Seq<int>,
) -> bool {
    &&& 0 <= from
    &&& from + positions.len() <= results.len()
    &&& forall|k: int|
        0 <= k < positions.len() ==> 0 <= #[trigger] positions[k] < s.len() && path_of(
            s,
            drive,
            s[positions[k]].id,
            s.len(),
        ) is Some && describes(
            results[from + k],
            s[positions[k]],
            path_of(s, drive, s[positions[k]].id, s.len())->0,
        )
}

/// The result `r` shows the entry `e` with the full path `path`.
pub open spec fn describes(r: SearchResult, e: EntryModel, path: Seq<char>) -> bool {
    &&& r.id == e.id
    &&& r.name@ == e.name
    &&& r.path@ == path
    &&& r.size == e.size
    &&& r.is_directory == e.is_directory
    &&& r.modified == e.modified
    &&& match r.extension {
        Some(x) => e.extension() == Some(x@),
        None => e.extension() is None,
    }
}

/// The hits below `a` are the first of the hits below `b`, and hits are
/// positions below their bound, ascending.
pub proof fn lemma_hits_prefix(s: Seq<EntryModel>, drive: char, q: &QuerySpec, a: int, b: int)
    requires
        0 <= a <= b,
    ensures
        hits(s, drive, q, a).len() <= hits(s, drive, q, b).len(),
        hits(s, drive, q, b).take(hits(s, drive, q, a).len() as int) == hits(s, drive, q, a),
        forall|k: int| 0 <= k < hits(s, drive, q, b).len() ==> 0 <= #[trigger] hits(s, drive, q, b)[k] < b,
        hits(s, drive, q, b).len() <= b,
    decreases b,
{
    let hb = hits(s, drive, q, b);
    let ha = hits(s, drive, q, a);
    if b == 0 {
        assert(hb.take(0) =~= ha);
    } else {
        let hp = hits(s, drive, q, b - 1);
        if a == b {
            lemma_hits_prefix(s, drive, q, b - 1, b - 1);
            assert(hb.take(ha.len() as int) =~= ha);
        } else {
            lemma_hits_prefix(s, drive, q, a, b - 1);
            assert(hp.take(ha.len() as int) == ha);
            assert(hb.take(ha.len() as int) =~= hp.take(ha.len() as int));
        }
        assert forall|k: int| 0 <= k < hb.len() implies 0 <= #[trigger] hb[k] < b by {
            if k < hp.len() {
                assert(hb[k] == hp[k]);
            }
        }
    }
}

/// An extension as the filter compares it: without leading dots, lower case.
pub fn normalize_extension(ext: &str) -> (r: Vec<char>)
    ensures
        r@ == normal_extension(ext@),
{
    let raw = chars_of(ext);
    let mut start: usize = 0;
    assert(raw@.subrange(0, raw.len() as int) == raw@);
    while start < raw.len() && raw[start] == '.'
        invariant
            start <= raw.len(),
            strip_dots(raw@) == strip_dots(raw@.subrange(start as int, raw.len() as int)),
        decreases raw.len() - start,
    {
        proof {
            let rest = raw@.subrange(start as int, raw.len() as int);
            assert(rest[0] == '.');
            assert(rest.drop_first() == raw@.subrange(start + 1, raw.len() as int));
        }
        start += 1;
    }
    proof {
        let rest = raw@.subrange(start as int, raw.len() as int);
        if rest.len() > 0 {
            assert(rest[0] == raw@[start as int]);
        }
        assert(strip_dots(rest) == rest);
    }
    let tail = tail_of(&raw, start);
    to_lower_vec(&tail)
}

/// What the evaluator works out once per query.
struct Prepared {
    mode: MatchMode,
    pattern_key: Vec<char>,
    path_part: Option<Vec<char>>,
    extensions: Option<Vec<Vec<char>>>,
    matcher: Option<NamePattern>,
}

impl Prepared {
    /// The prepared values are those of the query `q`.
    spec fn fits(&self, q: &QuerySpec) -> bool {
        &&& self.mode == resolved_mode(q.mode, q.pattern@)
        &&& self.pattern_key@ == lower(q.pattern@)
        &&& match q.path_contains {
            Some(part) => self.path_part matches Some(p) && p@ == lower(part@),
            None => self.path_part is None,
        }
        &&& match q.extensions {
            Some(list) => self.extensions matches Some(norm) && norm@.len() == list@.len()
                && forall|j: int|
                0 <= j < list@.len() ==> (#[trigger] norm@[j])@ == normal_extension(list@[j]@),
            None => self.extensions is None,
        }
        &&& match regex_text(q) {
            Some(source) => self.matcher matches Some(m) && m.wf() && m.source() == source,
            None => self.matcher is None,
        }
    }
}

/// Checks the query and works out what every entry is compared with.
fn prepare(q: &QuerySpec) -> (r: Result<Prepared, QueryError>)
    ensures
        match r {
            Ok(p) => fault(q) is None && p.fits(q),
            Err(e) => fault(q) == Some(e),
        },
{
    let pattern = chars_of(q.pattern.as_str());
    if pattern.len() == 0 {
        return Err(QueryError::EmptyPattern);
    }
    if pattern.len() > MAX_PATTERN_CHARS {
        return Err(QueryError::PatternTooLong);
    }
    let mut dots: Vec<char> = Vec::new();
    dots.push('.');
    dots.push('.');
    assert(dots@ == seq!['.', '.']);
    if contains_exec(&pattern, &dots) {
        return Err(QueryError::PathTraversal);
    }
    if q.max_results < 1 || q.max_results > MAX_RESULTS_LIMIT {
        return Err(QueryError::BadMaxResults);
    }
    let mode = match q.mode {
        MatchMode::Smart => if pattern_has_wildcard(&pattern) {
            MatchMode::Glob
        } else {
            MatchMode::Substring
        },
        MatchMode::Exact => MatchMode::Exact,
        MatchMode::Glob => MatchMode::Glob,
        MatchMode::Regex => MatchMode::Regex,
        MatchMode::Substring => MatchMode::Substring,
    };
    let matcher = match mode {
        MatchMode::Glob => {
            match NamePattern::compile(glob_to_regex(q.pattern.as_str())) {
                Some(m) => Some(m),
                None => {
                    return Err(QueryError::BadRegex);
                },
            }
        },
        MatchMode::Regex => {
            match NamePattern::compile(anchor_regex(q.pattern.as_str())) {
                Some(m) => Some(m),
                None => {
                    return Err(QueryError::BadRegex);
                },
            }
        },
        _ => None,
    };
    let path_part = match &q.path_contains {
        Some(part) => {
            let raw = chars_of(part.as_str());
            Some(to_lower_vec(&raw))
        },
        None => None,
    };
    let extensions = match &q.extensions {
        Some(list) => {
            let mut norm: Vec<Vec<char>> = Vec::new();
            let mut j: usize = 0;
            while j < list.len()
                invariant
                    j <= list@.len(),
                    norm@.len() == j,
                    forall|k: int|
                        0 <= k < j ==> (#[trigger] norm@[k])@ == normal_extension(list@[k]@),
                decreases list@.len() - j,
            {
                norm.push(normalize_extension(list[j].as_str()));
                j += 1;
            }
            Some(norm)
        },
        None => None,
    };
    Ok(Prepared { mode, pattern_key: to_lower_vec(&pattern), path_part, extensions, matcher })
}

/// `ext` is one of the normalized extensions.
fn listed(norm: &Vec<Vec<char>>, ext: &Vec<char>) -> (r: bool)
    ensures
        r == exists|j: int| 0 <= j < norm@.len() && (#[trigger] norm@[j])@ == ext@,
{
    let mut j: usize = 0;
    while j < norm.len()
        invariant
            j <= norm@.len(),
            forall|k: int| 0 <= k < j ==> (#[trigger] norm@[k])@ != ext@,
        decreases norm@.len() - j,
    {
        if chars_eq(&norm[j], ext) {
            return true;
        }
        j += 1;
    }
    false
}

/// The extension filter of `q` lets the extension `ext` through.
fn extension_ok(q: &QuerySpec, p: &Prepared, ext: &Option<Vec<char>>) -> (r: bool)
    requires
        p.fits(q),
    ensures
        r == extension_passes(q, opt_chars_view(*ext)),
{
    match &p.extensions {
        Some(norm) => match ext {
            Some(x) => {
                let r = listed(norm, x);
                proof {
                    let list = q.extensions->0@;
                    if r {
                        let j = choose|j: int| 0 <= j < norm@.len() && (#[trigger] norm@[j])@ == x@;
                        assert(normal_extension(list[j]@) == x@);
                    }
                    if extension_listed(list, x@) {
                        let j = choose|j: int|
                            0 <= j < list.len() && normal_extension(#[trigger] list[j]@) == x@;
                        assert(norm@[j]@ == x@);
                    }
                }
                r
            },
            None => norm.len() == 0,
        },
        None => match q.doc_class {
            Some(class) => match ext {
                Some(x) => type_has_extension(class, x),
                None => false,
            },
            None => true,
        },
    }
}

/// The entry at position `i` of the store answers the query.
fn entry_passes(store: &IndexStore, i: usize, q: &QuerySpec, p: &Prepared) -> (r: bool)
    requires
        store.wf(),
        i < store@.len(),
        p.fits(q),
    ensures
        r == entry_matches(
            q,
            store@[i as int],
            path_key_of(store@, store.drive(), store@[i as int].id),
        ),
{
    let path_key = match store.path_key_at(i) {
        Some(k) => k,
        None => {
            return false;
        },
    };
    let e = store.entry_at(i);
    let kind_ok = match q.kind_filter {
        KindFilter::Any => true,
        KindFilter::File => !e.is_directory,
        KindFilter::Directory => e.is_directory,
    };
    if !kind_ok {
        return false;
    }
    if let Some(min) = q.min_size {
        if e.size < min {
            return false;
        }
    }
    if let Some(max) = q.max_size {
        if e.size > max {
            return false;
        }
    }
    if !extension_ok(q, p, store.ext_key_at(i)) {
        return false;
    }
    if let Some(part) = &p.path_part {
        if !contains_exec(path_key, part) {
            return false;
        }
    }
    match p.mode {
        MatchMode::Exact => chars_eq(store.name_key_at(i), &p.pattern_key),
        MatchMode::Substring => contains_exec(store.name_key_at(i), &p.pattern_key),
        MatchMode::Glob | MatchMode::Regex => match &p.matcher {
            Some(m) => m.matches(e.name.as_str()),
            None => false,
        },
        MatchMode::Smart => false,
    }
}

/// Checks a query without evaluating it.
pub fn validate(q: &QuerySpec) -> (r: Result<(), QueryError>)
    ensures
        match r {
            Ok(_) => fault(q) is None,
            Err(e) => fault(q) == Some(e),
        },
{
    match prepare(q) {
        Ok(_) => Ok(()),
        Err(e) => Err(e),
    }
}

/// Scans the store for the first `limit` entries that answer the query and
/// appends a result for each to `results`. Returns the number of entries
/// that were looked at.
fn scan(
    store: &IndexStore,
    q: &QuerySpec,
    p: &Prepared,
    limit: usize,
    results: &mut Vec<SearchResult>,
) -> (scanned: usize)
    requires
        store.wf(),
        p.fits(q),
        limit >= 1,
    ensures
        final(results)@.len() == old(results)@.len() + limited_hits(
            store@,
            store.drive(),
            q,
            limit as int,
        ).len(),
        final(results)@.take(old(results)@.len() as int) == old(results)@,
        shows(
            final(results)@,
            old(results)@.len() as int,
            store@,
            store.drive(),
            limited_hits(store@, store.drive(), q, limit as int),
        ),
        limited_hits(store@, store.drive(), q, limit as int).len() <= limit,
        scanned == scanned_upto(store@, store.drive(), q, limit as int),
{
    let n = store.len();
    let ghost s = store@;
    let ghost drive = store.drive();
    let ghost start = results@;
    let base = results.len();
    let mut found: usize = 0;
    let ghost mut positions: Seq<int> = Seq::empty();
    let mut i: usize = 0;
    assert(results@.take(base as int) == start);
    while i < n && found < limit
        invariant
            i <= n,
            n == s.len(),
            s == store@,
            drive == store.drive(),
            store.wf(),
            p.fits(q),
            1 <= limit,
            base == start.len(),
            positions == hits(s, drive, q, i as int),
            found == positions.len(),
            found <= i,
            results@.len() == base + found,
            results@.take(base as int) == start,
            found <= limit,
            found == limit ==> i > 0 && positions.last() == i - 1,
            shows(results@, base as int, s, drive, positions),
        decreases n - i,
    {
        if entry_passes(store, i, q, p) {
            let e = store.entry_at(i);
            match store.path_at(i) {
                Some(path) => {
                    let ghost before = results@;
                    results.push(
                        SearchResult {
                            id: e.id,
                            name: e.name.clone(),
                            path,
                            size: e.size,
                            is_directory: e.is_directory,
                            modified: e.modified,
                            extension: e.extension(),
                        },
                    );
                    proof {
                        let grown = positions.push(i as int);
                        assert(results@.take(base as int) =~= before.take(base as int));
                        assert forall|k: int| 0 <= k < grown.len() implies 0 <= #[trigger] grown[k]
                            < s.len() && path_of(s, drive, s[grown[k]].id, s.len()) is Some
                            && describes(
                            results@[base + k],
                            s[grown[k]],
                            path_of(s, drive, s[grown[k]].id, s.len())->0,
                        ) by {
                            if k < positions.len() {
                                assert(grown[k] == positions[k]);
                                assert(results@[base + k] == before[base + k]);
                            }
                        }
                        positions = grown;
                    }
                    found += 1;
                },
                None => {
                    assert(false);
                },
            }
        }
        i += 1;
    }
    proof {
        lemma_hits_prefix(s, drive, q, i as int, n as int);
        let all = hits(s, drive, q, n as int);
        assert(all.take(positions.len() as int) == positions);
        if positions.len() == limit {
            assert(all[limit - 1] == positions.last());
        }
        assert(all.take(all.len() as int) == all);
        assert(limited_hits(s, drive, q, limit as int) == positions);
        assert(scanned_upto(s, drive, q, limit as int) == i);
    }
    i
}

/// Evaluates a query against a store. A faulty query is refused before any
/// entry is looked at. Otherwise the entries are taken by ascending id, each
/// is held against every filter, and the scan stops with the entry that
/// fills the result list. Each result carries the entry's full path. The
/// drive that the query names is not looked at here: it selects among
/// several stores in `search_multiple_drives`.
pub fn evaluate(store: &IndexStore, q: &QuerySpec) -> (r: Result<QueryResult, QueryError>)
    requires
        store.wf(),
    ensures
        match r {
            Err(e) => fault(q) == Some(e),
            Ok(found) => {
                let positions = result_positions(store@, store.drive(), q);
                &&& fault(q) is None
                &&& found.results@.len() == positions.len()
                &&& found.results@.len() <= q.max_results
                &&& shows(found.results@, 0, store@, store.drive(), positions)
                &&& found.search_info.scanned == scanned_count(store@, store.drive(), q)
                &&& found.search_info.index_size == store@.len()
                &&& found.search_info.match_type == resolved_mode(q.mode, q.pattern@)
                &&& found.search_info.mode == q.mode
                &&& found.search_info.pattern@ == q.pattern@
                &&& found.search_info.ntfs_mode
            },
        },
{
    let p = match prepare(q) {
        Ok(p) => p,
        Err(e) => {
            return Err(e);
        },
    };
    let mut results: Vec<SearchResult> = Vec::new();
    let scanned = scan(store, q, &p, q.max_results, &mut results);
    Ok(
        QueryResult {
            results,
            search_info: SearchInfo {
                pattern: q.pattern.clone(),
                mode: q.mode,
                match_type: p.mode,
                index_size: store.len(),
                scanned,
                ntfs_mode: true,
            },
        },
    )
}

/// The query asks for the volume with the given drive letter.
pub open spec fn selects(q: &QuerySpec, drive: char) -> bool {
    q.drive == '*' || q.drive == drive
}

/// The number of results that are still wanted after the first `upto`
/// volumes gave theirs.
pub open spec fn budget_after(stores: Seq<IndexStore>, q: &QuerySpec, upto: int) -> int
    decreases upto,
{
    if upto <= 0 {
        q.max_results as int
    } else {
        let before = budget_after(stores, q, upto - 1);
        let store = stores[upto - 1];
        if selects(q, store.drive()) {
            before - limited_hits(store@, store.drive(), q, before).len()
        } else {
            before
        }
    }
}

/// The results hold, from the position where the volume `k` starts, what
/// that volume gives: the first of its entries that answer the query, as
/// many as were still wanted when its turn came. A volume that the query
/// does not ask for gives nothing.
pub open spec fn volume_part_ok(
    results: Seq<SearchResult>,
    stores: Seq<IndexStore>,
    q: &QuerySpec,
    k: int,
) -> bool {
    let before = budget_after(stores, q, k);
    let store = stores[k];
    selects(q, store.drive()) ==> shows(
        results,
        q.max_results - before,
        store@,
        store.drive(),
        limited_hits(store@, store.drive(), q, before),
    )
}

/// The budget never grows and never falls below zero.
pub proof fn lemma_budget_bounds(stores: Seq<IndexStore>, q: &QuerySpec, upto: int)
    requires
        0 <= upto,
    ensures
        0 <= budget_after(stores, q, upto) <= q.max_results,
        upto > 0 ==> budget_after(stores, q, upto) <= budget_after(stores, q, upto - 1),
    decreases upto,
{
    if upto > 0 {
        lemma_budget_bounds(stores, q, upto - 1);
        let before = budget_after(stores, q, upto - 1);
        let store = stores[upto - 1];
        let all = hits(store@, store.drive(), q, store@.len() as int);
        if all.len() > before {
            assert(all.take(before).len() == before);
        }
    }
}

/// Evaluates a query against several volumes, in the order given: each
/// volume that the query asks for, by its drive letter or by `*`, gives the
/// first of its entries that answer the query, until `max_results` results
/// are found. A faulty query is refused before any entry is looked at.
pub fn search_multiple_drives(stores: &Vec<IndexStore>, q: &QuerySpec) -> (r: Result<
    Vec<SearchResult>,
    QueryError,
>)
    requires
        forall|k: int| 0 <= k < stores@.len() ==> (#[trigger] stores@[k]).wf(),
    ensures
        match r {
            Err(e) => fault(q) == Some(e),
            Ok(results) => {
                &&& fault(q) is None
                &&& results@.len() == q.max_results - budget_after(
                    stores@,
                    q,
                    stores@.len() as int,
                )
                &&& forall|k: int|
                    0 <= k < stores@.len() ==> #[trigger] volume_part_ok(results@, stores@, q, k)
            },
        },
{
    let p = match prepare(q) {
        Ok(p) => p,
        Err(e) => {
            return Err(e);
        },
    };
    let mut results: Vec<SearchResult> = Vec::new();
    let mut remaining: usize = q.max_results;
    let mut i: usize = 0;
    while i < stores.len()
        invariant
            i <= stores@.len(),
            p.fits(q),
            forall|k: int| 0 <= k < stores@.len() ==> (#[trigger] stores@[k]).wf(),
            remaining == budget_after(stores@, q, i as int),
            remaining <= q.max_results,
            results@.len() == q.max_results - remaining,
            forall|k: int| 0 <= k < i ==> #[trigger] volume_part_ok(results@, stores@, q, k),
        decreases stores@.len() - i,
    {
        let store = &stores[i];
        let ghost before = results@;
        if (q.drive == '*' || q.drive == store.drive_letter()) && remaining > 0 {
            scan(store, q, &p, remaining, &mut results);
            let taken = results.len() - (q.max_results - remaining);
            remaining = remaining - taken;
        } else {
            proof {
                if selects(q, store.drive()) {
                    let all = hits(store@, store.drive(), q, store@.len() as int);
                    if all.len() > 0 {
                        assert(all.take(0).len() == 0);
                    }
                    assert(limited_hits(store@, store.drive(), q, 0).len() == 0);
                }
            }
        }
        proof {
            assert forall|k: int| 0 <= k < i + 1 implies #[trigger] volume_part_ok(
                results@,
                stores@,
                q,
                k,
            ) by {
                if k < i {
                    assert(volume_part_ok(before, stores@, q, k));
                    let b = budget_after(stores@, q, k);
                    let st = stores@[k];
                    if selects(q, st.drive()) {
                        lemma_budget_chain(stores@, q, k + 1, i as int);
                        let positions = limited_hits(st@, st.drive(), q, b);
                        assert(budget_after(stores@, q, k + 1) == b - positions.len());
                        assert(q.max_results - b + positions.len() <= before.len());
                        assert forall|x: int| 0 <= x < before.len() implies #[trigger] results@[x]
                            == before[x] by {
                            assert(results@.take(before.len() as int)[x] == results@[x]);
                        }
                    }
                }
            }
        }
        i += 1;
    }
    Ok(results)
}

/// After more volumes the budget is not larger.
pub proof fn lemma_budget_chain(stores: Seq<IndexStore>, q: &QuerySpec, a: int, b: int)
    requires
        0 <= a <= b,
    ensures
        budget_after(stores, q, b) <= budget_after(stores, q, a),
        0 <= budget_after(stores, q, b),
    decreases b - a,
{
    lemma_budget_bounds(stores, q, b);
    if a < b {
        lemma_budget_chain(stores, q, a, b - 1);
    }
}

/// The filter names a path with several parts: it holds a separator.
pub open spec fn has_separator(filter: Seq<char>) -> bool {
    filter.contains('\\') || filter.contains('/')
}

/// Whether anything below `current_path` could still have a path that
/// contains `filter`. Only a filter with a separator can rule a directory
/// out: then the filter must begin with the directory's path, case ignored.
pub open spec fn could_contain(current_path: Seq<char>, filter: Seq<char>) -> bool {
    filter.len() == 0 || !has_separator(filter) || starts_with_seq(
        lower(filter),
        lower(current_path),
    )
}

/// Check if a path could contain the filter, to leave directories out early.
pub fn path_could_contain_filter(current_path: &str, filter: &str) -> (r: bool)
    ensures
        r == could_contain(current_path@, filter@),
{
    let f = chars_of(filter);
    if f.len() == 0 {
        return true;
    }
    let mut separated = false;
    let mut i: usize = 0;
    while i < f.len()
        invariant
            i <= f@.len(),
            separated == exists|k: int| 0 <= k < i && (f@[k] == '\\' || f@[k] == '/'),
        decreases f@.len() - i,
    {
        if f[i] == '\\' || f[i] == '/' {
            separated = true;
        }
        i += 1;
    }
    proof {
        if separated {
            let k = choose|k: int| 0 <= k < f@.len() && (f@[k] == '\\' || f@[k] == '/');
            assert(f@.contains(f@[k]));
        }
        if has_separator(f@) {
            if f@.contains('\\') {
                let k = choose|k: int| 0 <= k < f@.len() && f@[k] == '\\';
            } else {
                let k = choose|k: int| 0 <= k < f@.len() && f@[k] == '/';
            }
        }
    }
    if !separated {
        return true;
    }
    let lowered = lower_chars_of(filter);
    let path = lower_chars_of(current_path);
    starts_with_exec(&lowered, &path)
}

} // verus!
