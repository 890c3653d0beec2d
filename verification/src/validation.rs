//! From a request as a client wrote it to a query that the evaluator takes:
//! every field is read, and the first fault found is reported.

use crate::file_types::{document_type_named, parse_document_type};
use crate::pattern::{anchored_regex, glob_regex, regex_compiles};
use crate::query::{
    fault, has_traversal, resolved_mode, validate, ErrorKind, KindFilter, MatchMode, QueryError,
    QuerySpec, MAX_PATTERN_CHARS, MAX_RESULTS_LIMIT,
};
use crate::retention::{digits_value, is_digit};
use crate::text::{chars_of, contains_exec, lower, str_eq_chars, to_upper_char, upper_char};
use crate::types::{SearchRequest, DEFAULT_MAX_RESULTS};
use vstd::prelude::*;

verus! {

/// Why a request is refused.
#[derive(Debug, Clone, Copy, PartialEq, Eq, Structural)]
pub enum RequestError {
    /// The query itself is faulty.
    Query(QueryError),
    /// `mode` names no mode.
    BadMode,
    /// `kind` is none of `any`, `file`, `directory`.
    BadKind,
    /// `doc_class` names no document class.
    BadDocClass,
    /// `drive` is neither a letter nor `*`.
    BadDrive,
    /// A size is not digits with an optional unit, or does not fit 64 bits.
    BadSize,
    /// `modified_after` is not written `YYYY-MM-DD`.
    BadDate,
}

impl RequestError {
    /// The kind of this refusal.
    pub open spec fn kind_spec(self) -> ErrorKind {
        match self {
            RequestError::Query(e) => e.kind_spec(),
            RequestError::BadSize => ErrorKind::InvalidPattern,
            _ => ErrorKind::InvalidArgument,
        }
    }

    /// The kind of this refusal.
    pub fn kind(&self) -> (r: ErrorKind)
        ensures
            r == self.kind_spec(),
    {
        match self {
            RequestError::Query(e) => e.kind(),
            RequestError::BadSize => ErrorKind::InvalidPattern,
            _ => ErrorKind::InvalidArgument,
        }
    }

    /// A sentence for the user.
    pub fn message(&self) -> (r: &'static str)
        ensures
            r@ == match *self {
                RequestError::Query(e) => match e {
                    QueryError::EmptyPattern => "Pattern cannot be empty"@,
                    QueryError::PatternTooLong => "Pattern too long (max 1000 characters)"@,
                    QueryError::PathTraversal => "Path traversal patterns not allowed"@,
                    QueryError::BadRegex => "Pattern is not a valid regular expression"@,
                    QueryError::BadMaxResults => "max_results must be between 1 and 10000"@,
                    QueryError::EngineNotOpen => "engine not open"@,
                },
                RequestError::BadMode => "Invalid mode. Must be: smart, exact, glob, regex, substring or fuzzy"@,
                RequestError::BadKind => "Invalid kind. Must be: any, file or directory"@,
                RequestError::BadDocClass => "Unknown document class"@,
                RequestError::BadDrive => "Invalid drive. Use a letter, or * for all drives"@,
                RequestError::BadSize => "Invalid size format. Use: 1KB, 10MB, 1GB, etc."@,
                RequestError::BadDate => "Invalid date format. Use YYYY-MM-DD (e.g., 2025-07-17)"@,
            },
    {
        match self {
            RequestError::Query(e) => e.message(),
            RequestError::BadMode => "Invalid mode. Must be: smart, exact, glob, regex, substring or fuzzy",
            RequestError::BadKind => "Invalid kind. Must be: any, file or directory",
            RequestError::BadDocClass => "Unknown document class",
            RequestError::BadDrive => "Invalid drive. Use a letter, or * for all drives",
            RequestError::BadSize => "Invalid size format. Use: 1KB, 10MB, 1GB, etc.",
            RequestError::BadDate => "Invalid date format. Use YYYY-MM-DD (e.g., 2025-07-17)",
        }
    }
}

/// `s` is at least one digit and nothing else.
pub open spec fn all_digits(s: Seq<char>) -> bool {
    s.len() >= 1 && forall|i: int| 0 <= i < s.len() ==> is_digit(#[trigger] s[i])
}

/// The number of bytes that a unit letter stands for.
pub open spec fn unit_factor(c: char) -> Option<nat> {
    if c == 'B' {
        Some(1nat)
    } else if c == 'K' {
        Some(1024nat)
    } else if c == 'M' {
        Some(1048576nat)
    } else if c == 'G' {
        Some(1073741824nat)
    } else if c == 'T' {
        Some(1099511627776nat)
    } else {
        None
    }
}

/// `s` without a `B` at its end.
pub open spec fn without_b(s: Seq<char>) -> Seq<char> {
    if s.len() > 0 && s.last() == 'B' {
        s.drop_last()
    } else {
        s
    }
}

/// The number of bytes that a size in text form stands for: digits, then at
/// most one of the unit letters `B`, `K`, `M`, `G`, `T`, then at most one
/// `B`. Units are powers of 1024. `None` for any other text, and for a
/// number of bytes that does not fit 64 bits.
pub open spec fn size_value(s: Seq<char>) -> Option<u64> {
    let rest = without_b(s);
    let (digits, factor) = if rest.len() > 0 && unit_factor(rest.last()) is Some {
        (rest.drop_last(), unit_factor(rest.last())->0)
    } else {
        (rest, 1nat)
    };
    if all_digits(digits) && digits_value(digits) * factor <= u64::MAX {
        Some((digits_value(digits) * factor) as u64)
    } else {
        None
    }
}

/// `s` is a day written `YYYY-MM-DD`: digits and two hyphens, nothing more
/// is checked.
pub open spec fn is_date_text(s: Seq<char>) -> bool {
    &&& s.len() == 10
    &&& forall|i: int| 0 <= i < 10 && i != 4 && i != 7 ==> is_digit(#[trigger] s[i])
    &&& s[4] == '-'
    &&& s[7] == '-'
}

/// Reads the digits of `s` up to position `to`. `None` where there is none,
/// where another character stands among them, or where the number does not
/// fit 64 bits.
fn read_digits(s: &Vec<char>, to: usize) -> (r: Option<u64>)
    requires
        to <= s@.len(),
    ensures
        match r {
            Some(v) => all_digits(s@.take(to as int)) && v == digits_value(s@.take(to as int)),
            None => !all_digits(s@.take(to as int)) || digits_value(s@.take(to as int))
                > u64::MAX,
        },
{
    let ghost text = s@.take(to as int);
    if to == 0 {
        return None;
    }
    let mut value: u64 = 0;
    let mut i: usize = 0;
    assert(text.take(0) =~= Seq::<char>::empty());
    while i < to
        invariant
            i <= to <= s@.len(),
            text == s@.take(to as int),
            forall|k: int| 0 <= k < i ==> is_digit(#[trigger] text[k]),
            value == digits_value(text.take(i as int)),
        decreases to - i,
    {
        let c = s[i];
        proof {
            assert(text[i as int] == c);
            assert(text.take(i + 1).drop_last() == text.take(i as int));
            assert(text.take(i + 1).last() == c);
        }
        if !('0' <= c && c <= '9') {
            return None;
        }
        let d: u64 = ((c as u8) - 48) as u64;
        if value > (u64::MAX - d) / 10 {
            proof {
                assert(value * 10 + d > u64::MAX) by (nonlinear_arith)
                    requires
                        value > (u64::MAX - d) / 10,
                        d < 10,
                ;
                crate::retention::lemma_digits_value_grows(text, i + 1);
            }
            return None;
        }
        assert(value * 10 + d <= u64::MAX) by (nonlinear_arith)
            requires
                value <= (u64::MAX - d) / 10,
        ;
        value = value * 10 + d;
        i += 1;
    }
    proof {
        assert(text.take(to as int) == text);
    }
    Some(value)
}

/// Reads a size such as `512`, `10KB` or `1G` as a number of bytes.
pub fn parse_size(text: &str) -> (r: Option<u64>)
    ensures
        r == size_value(text@),
{
    let s = chars_of(text);
    let mut end: usize = s.len();
    if end > 0 && s[end - 1] == 'B' {
        end -= 1;
    }
    assert(s@.take(end as int) == without_b(s@));
    let mut factor: u64 = 1;
    if end > 0 {
        let c = s[end - 1];
        assert(s@.take(end as int).last() == c);
        let unit: u64 = if c == 'B' {
            1
        } else if c == 'K' {
            1024
        } else if c == 'M' {
            1048576
        } else if c == 'G' {
            1073741824
        } else if c == 'T' {
            1099511627776
        } else {
            0
        };
        if unit != 0 {
            assert(s@.take(end as int).drop_last() == s@.take(end - 1));
            factor = unit;
            end -= 1;
        }
    }
    match read_digits(&s, end) {
        None => {
            proof {
                let digits = s@.take(end as int);
                if all_digits(digits) {
                    assert(digits_value(digits) * factor >= digits_value(digits))
                        by (nonlinear_arith)
                        requires
                            factor >= 1,
                    ;
                }
            }
            None
        },
        Some(v) => {
            if v > u64::MAX / factor {
                proof {
                    assert(v * factor > u64::MAX) by (nonlinear_arith)
                        requires
                            v > u64::MAX / factor,
                            factor >= 1,
                    ;
                }
                None
            } else {
                assert(v * factor <= u64::MAX) by (nonlinear_arith)
                    requires
                        v <= u64::MAX / factor,
                        factor >= 1,
                ;
                Some(v * factor)
            }
        },
    }
}

/// The text is a size that `parse_size` can read.
pub fn validate_size_format(size: &str) -> (r: Result<(), RequestError>)
    ensures
        r is Ok <==> size_value(size@) is Some,
        r is Err ==> r == Err::<(), RequestError>(RequestError::BadSize),
{
    match parse_size(size) {
        Some(_) => Ok(()),
        None => Err(RequestError::BadSize),
    }
}

/// The text is a day written `YYYY-MM-DD`.
pub fn validate_date_format(date: &str) -> (r: Result<(), RequestError>)
    ensures
        r is Ok <==> is_date_text(date@),
        r is Err ==> r == Err::<(), RequestError>(RequestError::BadDate),
{
    let s = chars_of(date);
    if s.len() != 10 {
        return Err(RequestError::BadDate);
    }
    let mut i: usize = 0;
    while i < 10
        invariant
            i <= 10,
            s@.len() == 10,
            s@ == date@,
            forall|k: int| 0 <= k < i && k != 4 && k != 7 ==> is_digit(#[trigger] s@[k]),
            i > 4 ==> s@[4] == '-',
            i > 7 ==> s@[7] == '-',
        decreases 10 - i,
    {
        let c = s[i];
        if i == 4 || i == 7 {
            if c != '-' {
                return Err(RequestError::BadDate);
            }
        } else if !('0' <= c && c <= '9') {
            assert(!is_digit(s@[i as int]));
            return Err(RequestError::BadDate);
        }
        i += 1;
    }
    Ok(())
}

/// The mode that a name stands for, taken as it is written. `fuzzy` is
/// another name of `substring`.
pub open spec fn mode_named(name: Seq<char>) -> Option<MatchMode> {
    if name == "exact"@ {
        Some(MatchMode::Exact)
    } else if name == "glob"@ {
        Some(MatchMode::Glob)
    } else if name == "regex"@ {
        Some(MatchMode::Regex)
    } else if name == "substring"@ || name == "fuzzy"@ {
        Some(MatchMode::Substring)
    } else if name == "smart"@ {
        Some(MatchMode::Smart)
    } else {
        None
    }
}

/// The kind filter that a name stands for, taken as it is written.
pub open spec fn kind_named(name: Seq<char>) -> Option<KindFilter> {
    if name == "any"@ {
        Some(KindFilter::Any)
    } else if name == "file"@ {
        Some(KindFilter::File)
    } else if name == "directory"@ {
        Some(KindFilter::Directory)
    } else {
        None
    }
}

/// `c` is an ASCII letter.
pub open spec fn is_letter(c: char) -> bool {
    ('a' <= c && c <= 'z') || ('A' <= c && c <= 'Z')
}

/// The drive that a text names: `*` for all drives, or a letter, with or
/// without a colon after it, in upper case.
pub open spec fn drive_named(s: Seq<char>) -> Option<char> {
    if s == seq!['*'] {
        Some('*')
    } else if (s.len() == 1 || (s.len() == 2 && s[1] == ':')) && is_letter(s[0]) {
        Some(upper_char(s[0]))
    } else {
        None
    }
}

/// Reads the name of a mode, as it is written.
pub fn parse_mode(text: &str) -> (r: Option<MatchMode>)
    ensures
        r == mode_named(text@),
{
    let name = chars_of(text);
    if str_eq_chars("exact", &name) {
        Some(MatchMode::Exact)
    } else if str_eq_chars("glob", &name) {
        Some(MatchMode::Glob)
    } else if str_eq_chars("regex", &name) {
        Some(MatchMode::Regex)
    } else if str_eq_chars("substring", &name) || str_eq_chars("fuzzy", &name) {
        Some(MatchMode::Substring)
    } else if str_eq_chars("smart", &name) {
        Some(MatchMode::Smart)
    } else {
        None
    }
}

/// Reads the name of a kind filter, as it is written.
pub fn parse_kind(text: &str) -> (r: Option<KindFilter>)
    ensures
        r == kind_named(text@),
{
    let name = chars_of(text);
    if str_eq_chars("any", &name) {
        Some(KindFilter::Any)
    } else if str_eq_chars("file", &name) {
        Some(KindFilter::File)
    } else if str_eq_chars("directory", &name) {
        Some(KindFilter::Directory)
    } else {
        None
    }
}

/// Reads a drive: a letter, with or without a colon, or `*`.
pub fn parse_drive(text: &str) -> (r: Option<char>)
    ensures
        r == drive_named(text@),
{
    let s = chars_of(text);
    if s.len() == 1 && s[0] == '*' {
        assert(s@ =~= seq!['*']);
        return Some('*');
    }
    if s.len() == 1 || (s.len() == 2 && s[1] == ':') {
        let c = s[0];
        if ('a' <= c && c <= 'z') || ('A' <= c && c <= 'Z') {
            return Some(to_upper_char(c));
        }
    }
    None
}

/// What is wrong with the fields of a request, before the pattern is
/// handed to the regular expression engine: the first fault in the order of
/// this function.
pub open spec fn field_fault(req: &SearchRequest) -> Option<RequestError> {
    if req.pattern@.len() == 0 {
        Some(RequestError::Query(QueryError::EmptyPattern))
    } else if req.pattern@.len() > MAX_PATTERN_CHARS {
        Some(RequestError::Query(QueryError::PatternTooLong))
    } else if has_traversal(req.pattern@) {
        Some(RequestError::Query(QueryError::PathTraversal))
    } else if req.mode matches Some(m) && mode_named(m@) is None {
        Some(RequestError::BadMode)
    } else if req.max_results matches Some(n) && (n < 1 || n > MAX_RESULTS_LIMIT) {
        Some(RequestError::Query(QueryError::BadMaxResults))
    } else if req.kind matches Some(k) && kind_named(k@) is None {
        Some(RequestError::BadKind)
    } else if req.drive matches Some(d) && drive_named(d@) is None {
        Some(RequestError::BadDrive)
    } else if req.doc_class matches Some(c) && document_type_named(lower(c@)) is None {
        Some(RequestError::BadDocClass)
    } else if req.min_size matches Some(s) && size_value(s@) is None {
        Some(RequestError::BadSize)
    } else if req.max_size matches Some(s) && size_value(s@) is None {
        Some(RequestError::BadSize)
    } else if req.modified_after matches Some(d) && !is_date_text(d@) {
        Some(RequestError::BadDate)
    } else {
        None
    }
}

/// The query `q` says what the request `req` says, with the defaults filled
/// in: mode `smart`, drive `C`, 1000 results, any kind.
pub open spec fn query_of(q: &QuerySpec, req: &SearchRequest) -> bool {
    &&& q.pattern@ == req.pattern@
    &&& q.mode == match req.mode {
        Some(m) => mode_named(m@)->0,
        None => MatchMode::Smart,
    }
    &&& match req.path_contains {
        Some(p) => q.path_contains matches Some(qp) && qp@ == p@,
        None => q.path_contains is None,
    }
    &&& q.drive == match req.drive {
        Some(d) => drive_named(d@)->0,
        None => 'C',
    }
    &&& q.max_results == match req.max_results {
        Some(n) => n,
        None => DEFAULT_MAX_RESULTS,
    }
    &&& q.kind_filter == match req.kind {
        Some(k) => kind_named(k@)->0,
        None => KindFilter::Any,
    }
    &&& match req.extensions {
        Some(list) => q.extensions matches Some(ql) && ql@.len() == list@.len() && forall|i: int|
            0 <= i < list@.len() ==> (#[trigger] ql@[i])@ == list@[i]@,
        None => q.extensions is None,
    }
    &&& q.doc_class == match req.doc_class {
        Some(c) => document_type_named(lower(c@)),
        None => None,
    }
    &&& q.min_size == match req.min_size {
        Some(s) => size_value(s@),
        None => None,
    }
    &&& q.max_size == match req.max_size {
        Some(s) => size_value(s@),
        None => None,
    }
}

/// Checks the fields of a request and builds the query that it stands for.
/// The fields are checked in the order of `field_fault`.
pub fn query_from_fields(req: &SearchRequest) -> (r: Result<QuerySpec, RequestError>)
    ensures
        match r {
            Ok(q) => field_fault(req) is None && query_of(&q, req),
            Err(e) => field_fault(req) == Some(e),
        },
{
    let pattern = chars_of(req.pattern.as_str());
    if pattern.len() == 0 {
        return Err(RequestError::Query(QueryError::EmptyPattern));
    }
    if pattern.len() > MAX_PATTERN_CHARS {
        return Err(RequestError::Query(QueryError::PatternTooLong));
    }
    let mut dots: Vec<char> = Vec::new();
    dots.push('.');
    dots.push('.');
    assert(dots@ == seq!['.', '.']);
    if contains_exec(&pattern, &dots) {
        return Err(RequestError::Query(QueryError::PathTraversal));
    }
    let mode = match &req.mode {
        Some(m) => match parse_mode(m.as_str()) {
            Some(mode) => mode,
            None => {
                return Err(RequestError::BadMode);
            },
        },
        None => MatchMode::Smart,
    };
    let max_results: usize = match req.max_results {
        Some(n) => {
            if n < 1 || n > 10000 {
                return Err(RequestError::Query(QueryError::BadMaxResults));
            }
            n as usize
        },
        None => 1000,
    };
    let kind_filter = match &req.kind {
        Some(k) => match parse_kind(k.as_str()) {
            Some(kind) => kind,
            None => {
                return Err(RequestError::BadKind);
            },
        },
        None => KindFilter::Any,
    };
    let drive = match &req.drive {
        Some(d) => match parse_drive(d.as_str()) {
            Some(drive) => drive,
            None => {
                return Err(RequestError::BadDrive);
            },
        },
        None => 'C',
    };
    let doc_class = match &req.doc_class {
        Some(c) => match parse_document_type(c.as_str()) {
            Some(class) => Some(class),
            None => {
                return Err(RequestError::BadDocClass);
            },
        },
        None => None,
    };
    let min_size = match &req.min_size {
        Some(s) => match parse_size(s.as_str()) {
            Some(v) => Some(v),
            None => {
                return Err(RequestError::BadSize);
            },
        },
        None => None,
    };
    let max_size = match &req.max_size {
        Some(s) => match parse_size(s.as_str()) {
            Some(v) => Some(v),
            None => {
                return Err(RequestError::BadSize);
            },
        },
        None => None,
    };
    if let Some(d) = &req.modified_after {
        if validate_date_format(d.as_str()).is_err() {
            return Err(RequestError::BadDate);
        }
    }
    let path_contains = match &req.path_contains {
        Some(p) => Some(p.clone()),
        None => None,
    };
    let extensions = match &req.extensions {
        Some(list) => {
            let mut copy: Vec<String> = Vec::new();
            let mut i: usize = 0;
            while i < list.len()
                invariant
                    i <= list@.len(),
                    copy@.len() == i,
                    forall|k: int| 0 <= k < i ==> (#[trigger] copy@[k])@ == list@[k]@,
                decreases list@.len() - i,
            {
                copy.push(list[i].clone());
                i += 1;
            }
            Some(copy)
        },
        None => None,
    };
    Ok(
        QuerySpec {
            pattern: req.pattern.clone(),
            mode,
            path_contains,
            drive,
            max_results,
            kind_filter,
            extensions,
            doc_class,
            min_size,
            max_size,
        },
    )
}

/// The mode that the request asks for.
pub open spec fn request_mode(req: &SearchRequest) -> MatchMode {
    match req.mode {
        Some(m) => mode_named(m@)->0,
        None => MatchMode::Smart,
    }
}

/// The regular expression that the request hands to the engine, if any.
pub open spec fn request_regex(req: &SearchRequest) -> Option<Seq<char>> {
    match resolved_mode(request_mode(req), req.pattern@) {
        MatchMode::Glob => Some(glob_regex(req.pattern@)),
        MatchMode::Regex => Some(anchored_regex(req.pattern@)),
        _ => None,
    }
}

/// What is wrong with a request, if anything: the first fault of its
/// fields, or else a pattern that the regular expression engine refuses.
pub open spec fn request_fault(req: &SearchRequest) -> Option<RequestError> {
    match field_fault(req) {
        Some(f) => Some(f),
        None => match request_regex(req) {
            Some(source) => if regex_compiles(source) {
                None
            } else {
                Some(RequestError::Query(QueryError::BadRegex))
            },
            None => None,
        },
    }
}

/// Validates the arguments of a search and builds the query: the fields
/// first, then the pattern as the regular expression engine sees it.
pub fn parse_request(req: &SearchRequest) -> (r: Result<QuerySpec, RequestError>)
    ensures
        match r {
            Ok(q) => request_fault(req) is None && query_of(&q, req) && fault(&q) is None,
            Err(e) => request_fault(req) == Some(e),
        },
{
    let q = match query_from_fields(req) {
        Ok(q) => q,
        Err(e) => {
            return Err(e);
        },
    };
    assert(crate::query::static_fault(&q) is None);
    assert(crate::query::regex_text(&q) == request_regex(req));
    match validate(&q) {
        Ok(_) => Ok(q),
        Err(e) => Err(RequestError::Query(e)),
    }
}

/// Validates the arguments of a search.
pub fn validate_search_args(req: &SearchRequest) -> (r: Result<(), RequestError>)
    ensures
        match r {
            Ok(_) => request_fault(req) is None,
            Err(e) => request_fault(req) == Some(e),
        },
{
    match parse_request(req) {
        Ok(_) => Ok(()),
        Err(e) => Err(e),
    }
}

} // verus!
