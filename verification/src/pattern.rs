//! Name patterns: the translation of shell wildcards into a regular
//! expression, and the two calls into the `regex` crate that compile a
//! pattern and match a name against it.

use crate::text::chars_of;
use vstd::prelude::*;
use vstd::string::StringExecFns;

verus! {

/// Whether `regex::Regex::new` accepts the pattern.
pub uninterp spec fn regex_compiles(pattern: Seq<char>) -> bool;

/// Whether the regular expression compiled from `pattern` matches somewhere
/// in `text`.
pub uninterp spec fn regex_is_match(pattern: Seq<char>, text: Seq<char>) -> bool;

/// Calls `regex::Regex::new` and reports whether it returned `Ok`. The
/// contract names that outcome `regex_compiles`: with the crate's default
/// limits it depends on the pattern text alone. Nothing is claimed about
/// which patterns compile.
#[verifier::external_body]
fn compiles(pattern: &str) -> (ok: bool)
    ensures
        ok == regex_compiles(pattern@),
{
    regex::Regex::new(pattern).is_ok()
}

/// Compiles `pattern` with `regex::Regex::new` and calls `Regex::is_match`
/// on `text`. The contract names the answer `regex_is_match`: it depends on
/// the pattern and the text alone. Nothing is claimed about which texts a
/// pattern matches.
#[verifier::external_body]
fn is_match(pattern: &str, text: &str) -> (hit: bool)
    requires
        regex_compiles(pattern@),
    ensures
        hit == regex_is_match(pattern@, text@),
{
    match regex::Regex::new(pattern) {
        Ok(re) => re.is_match(text),
        Err(_) => false,
    }
}

/// The characters that the translation of a glob escapes with a backslash.
pub open spec fn is_regex_meta(c: char) -> bool {
    c == '.' || c == '+' || c == '(' || c == ')' || c == '[' || c == ']' || c == '{' || c == '}'
        || c == '|' || c == '^' || c == '$' || c == '\\'
}

/// The translation of one character of a glob.
pub open spec fn glob_char(c: char) -> Seq<char> {
    if c == '*' {
        seq!['.', '*']
    } else if c == '?' {
        seq!['.']
    } else if is_regex_meta(c) {
        seq!['\\', c]
    } else {
        seq![c]
    }
}

/// The translation of a glob, character by character.
pub open spec fn glob_body(glob: Seq<char>) -> Seq<char>
    decreases glob.len(),
{
    if glob.len() == 0 {
        Seq::empty()
    } else {
        glob_body(glob.drop_last()) + glob_char(glob.last())
    }
}

/// What opens every translated pattern: the anchor and the flag that makes
/// the match ignore case.
pub open spec fn regex_prefix() -> Seq<char> {
    seq!['^', '(', '?', 'i', ')']
}

/// The regular expression for a glob: `*` stands for any run of characters,
/// `?` for any one character, every other character for itself; the whole
/// name must match, case ignored.
pub open spec fn glob_regex(glob: Seq<char>) -> Seq<char> {
    regex_prefix() + glob_body(glob) + seq!['$']
}

/// The regular expression for a pattern that the user wrote as one: the
/// whole name must match it, case ignored.
pub open spec fn anchored_regex(pattern: Seq<char>) -> Seq<char> {
    regex_prefix() + seq!['(', '?', ':'] + pattern + seq![')', '$']
}

/// The glob has a wildcard.
pub open spec fn has_wildcard(pattern: Seq<char>) -> bool {
    pattern.contains('*') || pattern.contains('?')
}

/// A glob without wildcards translates into its own characters, each
/// metacharacter behind a backslash, between the anchors.
pub proof fn lemma_glob_of_plain_name(name: Seq<char>)
    requires
        !has_wildcard(name),
    ensures
        forall|i: int|
            0 <= i < name.len() ==> glob_char(#[trigger] name[i]) == if is_regex_meta(name[i]) {
                seq!['\\', name[i]]
            } else {
                seq![name[i]]
            },
        glob_body(name).len() >= name.len(),
    decreases name.len(),
{
    assert forall|i: int| 0 <= i < name.len() implies glob_char(#[trigger] name[i]) == if is_regex_meta(
        name[i],
    ) {
        seq!['\\', name[i]]
    } else {
        seq![name[i]]
    } by {
        assert(name.contains(name[i]));
    }
    if name.len() > 0 {
        let rest = name.drop_last();
        assert forall|c: char| rest.contains(c) implies name.contains(c) by {
            let i = choose|i: int| 0 <= i < rest.len() && rest[i] == c;
            assert(name[i] == c);
        }
        lemma_glob_of_plain_name(rest);
    }
}

fn is_meta(c: char) -> (r: bool)
    ensures
        r == is_regex_meta(c),
{
    c == '.' || c == '+' || c == '(' || c == ')' || c == '[' || c == ']' || c == '{' || c == '}'
        || c == '|' || c == '^' || c == '$' || c == '\\'
}

/// Convert a glob pattern to the text of a regular expression.
pub fn glob_to_regex(pattern: &str) -> (r: String)
    ensures
        r@ == glob_regex(pattern@),
{
    let glob = chars_of(pattern);
    let mut out = String::new();
    out.push('^');
    out.push('(');
    out.push('?');
    out.push('i');
    out.push(')');
    assert(out@ == regex_prefix());
    let mut i: usize = 0;
    while i < glob.len()
        invariant
            i <= glob.len(),
            out@ == regex_prefix() + glob_body(glob@.take(i as int)),
        decreases glob.len() - i,
    {
        let c = glob[i];
        proof {
            assert(glob@.take(i + 1).drop_last() == glob@.take(i as int));
            assert(glob@.take(i + 1).last() == c);
        }
        let ghost before = out@;
        if c == '*' {
            out.push('.');
            out.push('*');
            assert(out@ == before + seq!['.', '*']);
        } else if c == '?' {
            out.push('.');
            assert(out@ == before + seq!['.']);
        } else if is_meta(c) {
            out.push('\\');
            out.push(c);
            assert(out@ == before + seq!['\\', c]);
        } else {
            out.push(c);
            assert(out@ == before + seq![c]);
        }
        assert(out@ == regex_prefix() + (glob_body(glob@.take(i as int)) + glob_char(c)));
        i += 1;
    }
    assert(glob@.take(glob.len() as int) == glob@);
    out.push('$');
    assert(out@ == regex_prefix() + glob_body(glob@) + seq!['$']);
    out
}

/// The text of the regular expression for a user-written pattern.
pub fn anchor_regex(pattern: &str) -> (r: String)
    ensures
        r@ == anchored_regex(pattern@),
{
    let mut out = String::new();
    out.push('^');
    out.push('(');
    out.push('?');
    out.push('i');
    out.push(')');
    assert(out@ == regex_prefix());
    out.push('(');
    out.push('?');
    out.push(':');
    assert(out@ == regex_prefix() + seq!['(', '?', ':']);
    out.append(pattern);
    out.push(')');
    out.push('$');
    assert(out@ == regex_prefix() + seq!['(', '?', ':'] + pattern@ + seq![')', '$']);
    out
}

/// The pattern has a wildcard, `*` or `?`.
pub fn pattern_has_wildcard(pattern: &Vec<char>) -> (r: bool)
    ensures
        r == has_wildcard(pattern@),
{
    let mut i: usize = 0;
    while i < pattern.len()
        invariant
            i <= pattern.len(),
            forall|k: int| 0 <= k < i ==> pattern@[k] != '*' && pattern@[k] != '?',
        decreases pattern.len() - i,
    {
        if pattern[i] == '*' || pattern[i] == '?' {
            assert(pattern@.contains(pattern@[i as int]));
            return true;
        }
        i += 1;
    }
    false
}

/// A regular expression in text form that the engine has accepted.
pub struct NamePattern {
    source: String,
}

impl NamePattern {
    /// The text of the regular expression.
    pub closed spec fn source(&self) -> Seq<char> {
        self.source@
    }

    /// The engine accepts the text.
    pub closed spec fn wf(&self) -> bool {
        regex_compiles(self.source@)
    }

    /// Hands the text to the engine. `None` where the engine refuses it.
    pub fn compile(source: String) -> (r: Option<NamePattern>)
        ensures
            r is Some <==> regex_compiles(source@),
            r matches Some(p) ==> p.wf() && p.source() == source@,
    {
        if compiles(source.as_str()) {
            Some(NamePattern { source })
        } else {
            None
        }
    }

    /// The pattern matches somewhere in `name`.
    pub fn matches(&self, name: &str) -> (r: bool)
        requires
            self.wf(),
        ensures
            r == regex_is_match(self.source(), name@),
    {
        is_match(self.source.as_str(), name)
    }
}

} // verus!
