//! Cache versions on disk: how their files are named, which versions of a
//! directory listing are complete, which one is loaded and which are pruned.

use crate::cache_format::{decode_meta, parse_meta};
use crate::text::{chars_of, occurs_at_exec, string_of};
use vstd::prelude::*;

verus! {

/// The two files of a cache version.
#[derive(Debug, Clone, Copy, PartialEq, Eq, Structural)]
pub enum Suffix {
    /// The data file, `.bin`.
    Data,
    /// The header file, `.meta`.
    Meta,
}

/// The decimal digit for `d`, which is below 10.
pub open spec fn digit_char(d: nat) -> char {
    ((48 + d) as u8) as char
}

/// The decimal numeral of `n`, without leading zeros.
pub open spec fn decimal(n: nat) -> Seq<char>
    decreases n,
{
    if n < 10 {
        seq![digit_char(n)]
    } else {
        decimal(n / 10).push(digit_char(n % 10))
    }
}

/// `c` is a decimal digit.
pub open spec fn is_digit(c: char) -> bool {
    '0' <= c && c <= '9'
}

/// The number that a run of digits stands for.
pub open spec fn digits_value(s: Seq<char>) -> nat
    decreases s.len(),
{
    if s.len() == 0 {
        0
    } else {
        digits_value(s.drop_last()) * 10 + ((s.last() as u8) - 48) as nat
    }
}

/// `s` is a numeral as `decimal` writes it: digits only, at least one, and
/// no zero in front of another digit.
pub open spec fn is_numeral(s: Seq<char>) -> bool {
    &&& s.len() >= 1
    &&& forall|i: int| 0 <= i < s.len() ==> is_digit(#[trigger] s[i])
    &&& (s.len() > 1 ==> s[0] != '0')
}

/// What every file name of a cache version starts with.
pub open spec fn name_prefix() -> Seq<char> {
    "mft_cache_"@
}

/// The ending of a file name.
pub open spec fn suffix_text(suffix: Suffix) -> Seq<char> {
    match suffix {
        Suffix::Data => ".bin"@,
        Suffix::Meta => ".meta"@,
    }
}

/// The name of a file of the cache version written at `timestamp`.
pub open spec fn version_name(timestamp: u64, suffix: Suffix) -> Seq<char> {
    name_prefix() + decimal(timestamp as nat) + suffix_text(suffix)
}

/// A numeral written by `decimal` is a numeral, and stands for its number.
pub proof fn lemma_decimal_is_numeral(n: nat)
    ensures
        is_numeral(decimal(n)),
        digits_value(decimal(n)) == n,
        n > 0 ==> decimal(n)[0] != '0',
    decreases n,
{
    if n < 10 {
        let s = decimal(n);
        assert(s.drop_last() =~= Seq::<char>::empty());
        assert(digits_value(s.drop_last()) == 0);
        assert(s.last() == digit_char(n));
    } else {
        lemma_decimal_is_numeral(n / 10);
        let head = decimal(n / 10);
        let s = decimal(n);
        assert(s.drop_last() =~= head);
        assert(s.last() == digit_char(n % 10));
        assert(s[0] == head[0]);
        assert forall|i: int| 0 <= i < s.len() implies is_digit(#[trigger] s[i]) by {
            if i < head.len() {
                assert(s[i] == head[i]);
            }
        }
    }
}

/// A numeral is what `decimal` writes for the number it stands for.
pub proof fn lemma_numeral_is_decimal(s: Seq<char>)
    requires
        is_numeral(s),
    ensures
        decimal(digits_value(s)) == s,
    decreases s.len(),
{
    let d = ((s.last() as u8) - 48) as nat;
    assert(is_digit(s[s.len() - 1]));
    assert(digit_char(d) == s.last());
    if s.len() == 1 {
        assert(s.drop_last() =~= Seq::<char>::empty());
        assert(digits_value(s.drop_last()) == 0);
        assert(decimal(d) =~= s);
    } else {
        let head = s.drop_last();
        assert(is_numeral(head)) by {
            assert forall|i: int| 0 <= i < head.len() implies is_digit(#[trigger] head[i]) by {
                assert(head[i] == s[i]);
            }
            assert(head[0] == s[0]);
        }
        lemma_numeral_is_decimal(head);
        let v = digits_value(head);
        assert(v > 0) by {
            lemma_leading_digit(head);
        }
        assert((v * 10 + d) / 10 == v && (v * 10 + d) % 10 == d) by (nonlinear_arith)
            requires
                d < 10,
        ;
        assert(v * 10 + d >= 10);
        assert(decimal(v * 10 + d) =~= s);
    }
}

/// A run of digits that does not start with zero stands for a number above zero.
pub proof fn lemma_leading_digit(s: Seq<char>)
    requires
        s.len() >= 1,
        forall|i: int| 0 <= i < s.len() ==> is_digit(#[trigger] s[i]),
        s[0] != '0',
    ensures
        digits_value(s) > 0,
    decreases s.len(),
{
    if s.len() == 1 {
        assert(s.drop_last() =~= Seq::<char>::empty());
        assert(is_digit(s[0]));
    } else {
        let head = s.drop_last();
        assert forall|i: int| 0 <= i < head.len() implies is_digit(#[trigger] head[i]) by {
            assert(head[i] == s[i]);
        }
        assert(head[0] == s[0]);
        lemma_leading_digit(head);
        assert(is_digit(s[s.len() - 1]));
    }
}

/// The decimal numeral of `n`.
pub fn decimal_of(n: u64) -> (r: Vec<char>)
    ensures
        r@ == decimal(n as nat),
    decreases n,
{
    let d: u8 = (n % 10) as u8;
    let c: char = (48u8 + d) as char;
    if n < 10 {
        let mut r: Vec<char> = Vec::new();
        r.push(c);
        assert(r@ == seq![digit_char(n as nat)]);
        r
    } else {
        let mut r = decimal_of(n / 10);
        r.push(c);
        r
    }
}

/// Reads the numeral that the characters of `s` from `from` up to `to` form.
/// `None` where they are no numeral of a number that fits 64 bits.
pub fn parse_decimal(s: &Vec<char>, from: usize, to: usize) -> (r: Option<u64>)
    requires
        from <= to <= s@.len(),
    ensures
        match r {
            Some(v) => decimal(v as nat) == s@.subrange(from as int, to as int),
            None => forall|v: u64| decimal(v as nat) != s@.subrange(from as int, to as int),
        },
{
    let ghost text = s@.subrange(from as int, to as int);
    if from == to {
        proof {
            assert forall|v: u64| decimal(v as nat) != text by {
                lemma_decimal_is_numeral(v as nat);
            }
        }
        return None;
    }
    if to - from > 1 && s[from] == '0' {
        proof {
            assert(text[0] == '0');
            assert forall|v: u64| decimal(v as nat) != text by {
                lemma_decimal_is_numeral(v as nat);
            }
        }
        return None;
    }
    let mut value: u64 = 0;
    let mut i: usize = from;
    assert(text.take(0) =~= Seq::<char>::empty());
    while i < to
        invariant
            from <= i <= to <= s@.len(),
            text == s@.subrange(from as int, to as int),
            forall|k: int| 0 <= k < i - from ==> is_digit(#[trigger] text[k]),
            value == digits_value(text.take(i - from)),
        decreases to - i,
    {
        let c = s[i];
        proof {
            assert(text[i - from] == c);
            assert(text.take(i - from + 1).drop_last() == text.take(i - from));
            assert(text.take(i - from + 1).last() == c);
        }
        if !('0' <= c && c <= '9') {
            proof {
                assert forall|v: u64| decimal(v as nat) != text by {
                    lemma_decimal_is_numeral(v as nat);
                }
            }
            return None;
        }
        let d: u64 = ((c as u8) - 48) as u64;
        if value > (u64::MAX - d) / 10 {
            proof {
                assert(value * 10 + d > u64::MAX) by (nonlinear_arith)
                    requires
                        value > (u64::MAX - d) / 10,
                        d < 10,
                ;
                lemma_digits_value_grows(text, i - from + 1);
                assert forall|v: u64| decimal(v as nat) != text by {
                    lemma_decimal_is_numeral(v as nat);
                }
            }
            return None;
        }
        assert(value * 10 + d <= u64::MAX) by (nonlinear_arith)
            requires
                value <= (u64::MAX - d) / 10,
        ;
        value = value * 10 + d;
        i += 1;
    }
    proof {
        assert(text.take(to - from) == text);
        assert(is_numeral(text));
        lemma_numeral_is_decimal(text);
    }
    Some(value)
}

/// The number that a run of digits stands for is not below the number that
/// any of its beginnings stands for.
pub proof fn lemma_digits_value_grows(s: Seq<char>, k: int)
    requires
        0 <= k <= s.len(),
    ensures
        digits_value(s.take(k)) <= digits_value(s),
    decreases s.len() - k,
{
    if k == s.len() {
        assert(s.take(k) == s);
    } else {
        lemma_digits_value_grows(s, k + 1);
        assert(s.take(k + 1).drop_last() == s.take(k));
        assert(digits_value(s.take(k)) <= digits_value(s.take(k)) * 10) by (nonlinear_arith);
    }
}

/// The parts of a version's file name, by position.
pub proof fn lemma_version_name_parts(timestamp: u64, suffix: Suffix)
    ensures
        ({
            let name = version_name(timestamp, suffix);
            let digits = decimal(timestamp as nat);
            let ending = suffix_text(suffix);
            &&& name_prefix().len() == 10
            &&& ending.len() == match suffix {
                Suffix::Data => 4nat,
                Suffix::Meta => 5nat,
            }
            &&& digits.len() >= 1
            &&& name.len() == 10 + digits.len() + ending.len()
            &&& name.subrange(0, 10) == name_prefix()
            &&& name.subrange(10, 10 + digits.len() as int) == digits
            &&& name.subrange(name.len() - ending.len(), name.len() as int) == ending
            &&& name.last() == match suffix {
                Suffix::Data => 'n',
                Suffix::Meta => 'a',
            }
        }),
{
    reveal_strlit("mft_cache_");
    reveal_strlit(".bin");
    reveal_strlit(".meta");
    lemma_decimal_is_numeral(timestamp as nat);
    let name = version_name(timestamp, suffix);
    let digits = decimal(timestamp as nat);
    let ending = suffix_text(suffix);
    assert(name.subrange(0, 10) =~= name_prefix());
    assert(name.subrange(10, 10 + digits.len() as int) =~= digits);
    assert(name.subrange(name.len() - ending.len(), name.len() as int) =~= ending);
    assert(name.last() == ending.last());
}

fn suffix_chars(suffix: Suffix) -> (r: Vec<char>)
    ensures
        r@ == suffix_text(suffix),
{
    match suffix {
        Suffix::Data => chars_of(".bin"),
        Suffix::Meta => chars_of(".meta"),
    }
}

/// The name of a file of the cache version written at `timestamp`.
pub fn cache_file_name(timestamp: u64, suffix: Suffix) -> (r: String)
    ensures
        r@ == version_name(timestamp, suffix),
{
    let mut name = chars_of("mft_cache_");
    let mut digits = decimal_of(timestamp);
    name.append(&mut digits);
    let mut ending = suffix_chars(suffix);
    name.append(&mut ending);
    string_of(&name)
}

/// Reads the name of a file of a cache version: which version, and which
/// of its two files. `None` for every other name.
pub fn parse_version_name(name: &str) -> (r: Option<(u64, Suffix)>)
    ensures
        match r {
            Some((timestamp, suffix)) => name@ == version_name(timestamp, suffix),
            None => forall|timestamp: u64, suffix: Suffix|
                name@ != #[trigger] version_name(timestamp, suffix),
        },
{
    let chars = chars_of(name);
    let n = chars.len();
    let prefix = chars_of("mft_cache_");
    let bin = suffix_chars(Suffix::Data);
    let meta = suffix_chars(Suffix::Meta);
    proof {
        reveal_strlit("mft_cache_");
        reveal_strlit(".bin");
        reveal_strlit(".meta");
    }
    if !occurs_at_exec(&chars, &prefix, 0) {
        proof {
            assert forall|timestamp: u64, suffix: Suffix|
                name@ != #[trigger] version_name(timestamp, suffix) by {
                lemma_version_name_parts(timestamp, suffix);
            }
        }
        return None;
    }
    let suffix = if n >= 4 && occurs_at_exec(&chars, &bin, n - 4) {
        Suffix::Data
    } else if n >= 5 && occurs_at_exec(&chars, &meta, n - 5) {
        Suffix::Meta
    } else {
        proof {
            assert forall|timestamp: u64, suffix: Suffix|
                name@ != #[trigger] version_name(timestamp, suffix) by {
                lemma_version_name_parts(timestamp, suffix);
            }
        }
        return None;
    };
    let ending: usize = match suffix {
        Suffix::Data => 4,
        Suffix::Meta => 5,
    };
    if n - ending < 10 {
        proof {
            assert forall|timestamp: u64, other: Suffix|
                name@ != #[trigger] version_name(timestamp, other) by {
                lemma_version_name_parts(timestamp, other);
            }
        }
        return None;
    }
    proof {
        assert(chars@.last() == match suffix {
            Suffix::Data => 'n',
            Suffix::Meta => 'a',
        }) by {
            let tail = chars@.subrange(n - ending, n as int);
            assert(tail[ending - 1] == chars@[n - 1]);
        }
    }
    match parse_decimal(&chars, 10, n - ending) {
        Some(timestamp) => {
            proof {
                lemma_version_name_parts(timestamp, suffix);
                assert(chars@ =~= chars@.subrange(0, 10) + chars@.subrange(10, n - ending)
                    + chars@.subrange(n - ending, n as int));
            }
            Some((timestamp, suffix))
        },
        None => {
            proof {
                assert forall|timestamp: u64, other: Suffix|
                    name@ != #[trigger] version_name(timestamp, other) by {
                    lemma_version_name_parts(timestamp, other);
                    if name@ == version_name(timestamp, other) {
                        assert(other == suffix);
                        assert(decimal(timestamp as nat) == chars@.subrange(10, n - ending));
                    }
                }
            }
            None
        },
    }
}

/// The listing holds the given file of the version written at `timestamp`.
pub open spec fn has_file(names: Seq<String>, timestamp: u64, suffix: Suffix) -> bool {
    exists|i: int| 0 <= i < names.len() && (#[trigger] names[i])@ == version_name(timestamp, suffix)
}

/// The listing holds both files of the version: a header without its data
/// file is a torn version.
pub open spec fn is_complete(names: Seq<String>, timestamp: u64) -> bool {
    has_file(names, timestamp, Suffix::Data) && has_file(names, timestamp, Suffix::Meta)
}

/// The listing holds the given file of the version written at `timestamp`.
fn listing_has(names: &Vec<String>, timestamp: u64, suffix: Suffix) -> (r: bool)
    ensures
        r == has_file(names@, timestamp, suffix),
{
    let mut i: usize = 0;
    while i < names.len()
        invariant
            i <= names@.len(),
            forall|k: int|
                0 <= k < i ==> (#[trigger] names@[k])@ != version_name(timestamp, suffix),
        decreases names@.len() - i,
    {
        match parse_version_name(names[i].as_str()) {
            Some((t, s)) => {
                if t == timestamp && s == suffix {
                    return true;
                }
                proof {
                    lemma_version_names_differ(t, s, timestamp, suffix);
                }
            },
            None => {},
        }
        i += 1;
    }
    false
}

/// Different versions, and the two files of one version, have different names.
pub proof fn lemma_version_names_differ(t1: u64, s1: Suffix, t2: u64, s2: Suffix)
    requires
        t1 != t2 || s1 != s2,
    ensures
        version_name(t1, s1) != version_name(t2, s2),
{
    lemma_version_name_parts(t1, s1);
    lemma_version_name_parts(t2, s2);
    lemma_decimal_is_numeral(t1 as nat);
    lemma_decimal_is_numeral(t2 as nat);
    if version_name(t1, s1) == version_name(t2, s2) {
        assert(s1 == s2);
        assert(decimal(t1 as nat) == decimal(t2 as nat));
    }
}

/// The header file of the version is among the first `upto` names.
pub open spec fn header_listed(names: Seq<String>, timestamp: u64, upto: int) -> bool {
    exists|k: int|
        0 <= k < upto && k < names.len() && (#[trigger] names[k])@ == version_name(
            timestamp,
            Suffix::Meta,
        )
}

/// The numbers fall strictly along the sequence.
pub open spec fn strictly_descending(v: Seq<u64>) -> bool {
    forall|a: int, b: int| 0 <= a < b < v.len() ==> v[a] > v[b]
}

/// Puts `t` into a list that falls strictly, at the place that keeps it
/// falling; a number that the list holds is not put in again.
fn insert_descending(list: &mut Vec<u64>, t: u64)
    requires
        strictly_descending(old(list)@),
    ensures
        strictly_descending(final(list)@),
        forall|x: u64| final(list)@.contains(x) <==> (old(list)@.contains(x) || x == t),
{
    let ghost before = list@;
    let mut p: usize = 0;
    while p < list.len() && list[p] > t
        invariant
            p <= list@.len(),
            list@ == before,
            forall|k: int| 0 <= k < p ==> list@[k] > t,
        decreases list@.len() - p,
    {
        p += 1;
    }
    if p < list.len() && list[p] == t {
        assert(before.contains(t));
        return ;
    }
    list.insert(p, t);
    proof {
        let after = list@;
        assert(after == before.insert(p as int, t));
        assert forall|a: int, b: int| 0 <= a < b < after.len() implies after[a] > after[b] by {
            let a0 = if a < p { a } else { a - 1 };
            let b0 = if b < p { b } else { b - 1 };
            if a != p && b != p {
                assert(before[a0] > before[b0]);
            } else if a == p {
                if b0 > p {
                    assert(before[p as int] > before[b0]);
                }
            }
        }
        assert forall|x: u64| after.contains(x) <==> (before.contains(x) || x == t) by {
            if after.contains(x) {
                let k = choose|k: int| 0 <= k < after.len() && after[k] == x;
                if k < p {
                    assert(before[k] == x);
                } else if k > p {
                    assert(before[k - 1] == x);
                }
            }
            if before.contains(x) {
                let k = choose|k: int| 0 <= k < before.len() && before[k] == x;
                if k < p {
                    assert(after[k] == x);
                } else {
                    assert(after[k + 1] == x);
                }
            }
            if x == t {
                assert(after[p as int] == x);
            }
        }
    }
}

/// The complete versions of a directory listing, each once, the newest
/// first.
pub fn complete_versions(names: &Vec<String>) -> (r: Vec<u64>)
    ensures
        forall|t: u64| r@.contains(t) <==> is_complete(names@, t),
        strictly_descending(r@),
{
    let mut out: Vec<u64> = Vec::new();
    let mut i: usize = 0;
    while i < names.len()
        invariant
            i <= names@.len(),
            strictly_descending(out@),
            forall|t: u64| out@.contains(t) ==> is_complete(names@, t),
            forall|t: u64|
                #[trigger] header_listed(names@, t, i as int) && is_complete(names@, t)
                    ==> out@.contains(t),
        decreases names@.len() - i,
    {
        let ghost before = out@;
        match parse_version_name(names[i].as_str()) {
            Some((t, Suffix::Meta)) => {
                if listing_has(names, t, Suffix::Data) {
                    insert_descending(&mut out, t);
                }
                proof {
                    assert forall|x: u64|
                        #[trigger] header_listed(names@, x, i + 1) && is_complete(
                            names@,
                            x,
                        ) implies out@.contains(x) by {
                        if header_listed(names@, x, i as int) {
                            assert(before.contains(x));
                        } else {
                            let k = choose|k: int|
                                0 <= k < i + 1 && k < names@.len() && (#[trigger] names@[k])@
                                    == version_name(x, Suffix::Meta);
                            assert(k == i);
                            if x != t {
                                lemma_version_names_differ(t, Suffix::Meta, x, Suffix::Meta);
                            }
                            assert(x == t);
                        }
                    }
                }
            },
            Some((t, Suffix::Data)) => {
                proof {
                    assert forall|x: u64|
                        #[trigger] header_listed(names@, x, i + 1) && is_complete(
                            names@,
                            x,
                        ) implies out@.contains(x) by {
                        lemma_version_names_differ(t, Suffix::Data, x, Suffix::Meta);
                        let k = choose|k: int|
                            0 <= k < i + 1 && k < names@.len() && (#[trigger] names@[k])@
                                == version_name(x, Suffix::Meta);
                        assert(k < i);
                        assert(header_listed(names@, x, i as int));
                    }
                }
            },
            None => {
                proof {
                    assert forall|x: u64|
                        #[trigger] header_listed(names@, x, i + 1) && is_complete(
                            names@,
                            x,
                        ) implies out@.contains(x) by {
                        let k = choose|k: int|
                            0 <= k < i + 1 && k < names@.len() && (#[trigger] names@[k])@
                                == version_name(x, Suffix::Meta);
                        assert(k < i);
                        assert(header_listed(names@, x, i as int));
                    }
                }
            },
        }
        i += 1;
    }
    proof {
        assert forall|t: u64| is_complete(names@, t) implies out@.contains(t) by {
            let k = choose|k: int|
                0 <= k < names@.len() && (#[trigger] names@[k])@ == version_name(t, Suffix::Meta);
            assert(header_listed(names@, t, names@.len() as int));
        }
    }
    out
}

/// The number of versions of `versions` that are newer than `v`.
pub open spec fn count_newer(versions: Seq<u64>, v: u64) -> nat
    decreases versions.len(),
{
    if versions.len() == 0 {
        0
    } else {
        count_newer(versions.drop_last(), v) + if versions.last() > v {
            1nat
        } else {
            0nat
        }
    }
}

/// The versions among the first `upto` of `versions` that are pruned when
/// the `keep` newest of all are kept.
pub open spec fn pruned(versions: Seq<u64>, keep: nat, upto: int) -> Seq<u64>
    decreases upto,
{
    if upto <= 0 {
        Seq::empty()
    } else if count_newer(versions, versions[upto - 1]) >= keep {
        pruned(versions, keep, upto - 1).push(versions[upto - 1])
    } else {
        pruned(versions, keep, upto - 1)
    }
}

/// The versions to delete after a save: every version that has at least
/// `keep` newer ones, in the order of `versions`.
pub fn versions_to_prune(versions: &Vec<u64>, keep: usize) -> (r: Vec<u64>)
    ensures
        r@ == pruned(versions@, keep as nat, versions@.len() as int),
{
    let n = versions.len();
    let mut out: Vec<u64> = Vec::new();
    let mut i: usize = 0;
    while i < n
        invariant
            i <= n,
            n == versions@.len(),
            out@ == pruned(versions@, keep as nat, i as int),
        decreases n - i,
    {
        let v = versions[i];
        let mut newer: usize = 0;
        let mut j: usize = 0;
        while j < n
            invariant
                j <= n,
                n == versions@.len(),
                newer == count_newer(versions@.take(j as int), v),
                newer <= j,
            decreases n - j,
        {
            proof {
                assert(versions@.take(j + 1).drop_last() == versions@.take(j as int));
                assert(versions@.take(j + 1).last() == versions@[j as int]);
            }
            if versions[j] > v {
                newer += 1;
            }
            j += 1;
        }
        assert(versions@.take(n as int) == versions@);
        if newer >= keep {
            out.push(v);
        }
        i += 1;
    }
    out
}

/// The newest of the versions, if there is any.
pub fn newest_version(versions: &Vec<u64>) -> (r: Option<u64>)
    ensures
        match r {
            Some(v) => versions@.contains(v) && forall|i: int|
                0 <= i < versions@.len() ==> versions@[i] <= v,
            None => versions@.len() == 0,
        },
{
    if versions.len() == 0 {
        return None;
    }
    let mut best: u64 = versions[0];
    let mut i: usize = 1;
    while i < versions.len()
        invariant
            1 <= i <= versions@.len(),
            versions@.contains(best),
            forall|k: int| 0 <= k < i ==> versions@[k] <= best,
        decreases versions@.len() - i,
    {
        if versions[i] > best {
            best = versions[i];
        }
        i += 1;
    }
    Some(best)
}

/// A cache version that could be loaded: when it was written, and the bytes
/// of its header file.
pub struct Candidate {
    pub timestamp: u64,
    pub meta: Vec<u8>,
}

/// The header of the candidate can be read, and it is of the given drive
/// and of the journal that is live now.
pub open spec fn acceptable(c: Candidate, drive: u8, journal_id: u64) -> bool {
    parse_meta(c.meta@) matches Some(m) && m.drive == drive && m.journal_id == journal_id
}

/// Picks the version to load: the newest whose header can be read and names
/// the drive and the live journal. Returns its position among the candidates.
pub fn pick_version(candidates: &Vec<Candidate>, drive: u8, journal_id: u64) -> (r: Option<usize>)
    ensures
        match r {
            Some(i) => i < candidates@.len() && acceptable(candidates@[i as int], drive, journal_id)
                && forall|j: int|
                0 <= j < candidates@.len() && acceptable(#[trigger] candidates@[j], drive, journal_id)
                    ==> candidates@[j].timestamp <= candidates@[i as int].timestamp,
            None => forall|j: int|
                0 <= j < candidates@.len() ==> !acceptable(
                    #[trigger] candidates@[j],
                    drive,
                    journal_id,
                ),
        },
{
    let mut best: Option<usize> = None;
    let mut i: usize = 0;
    while i < candidates.len()
        invariant
            i <= candidates@.len(),
            match best {
                Some(b) => b < i && acceptable(candidates@[b as int], drive, journal_id)
                    && forall|j: int|
                    0 <= j < i && acceptable(#[trigger] candidates@[j], drive, journal_id)
                        ==> candidates@[j].timestamp <= candidates@[b as int].timestamp,
                None => forall|j: int|
                    0 <= j < i ==> !acceptable(#[trigger] candidates@[j], drive, journal_id),
            },
        decreases candidates@.len() - i,
    {
        let ok = match decode_meta(candidates[i].meta.as_slice()) {
            Ok(m) => m.drive == drive && m.journal_id == journal_id,
            Err(_) => false,
        };
        if ok {
            let better = match best {
                Some(b) => candidates[i].timestamp > candidates[b].timestamp,
                None => true,
            };
            if better {
                best = Some(i);
            }
        }
        i += 1;
    }
    best
}

} // verus!
