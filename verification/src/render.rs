//! The text that a search is answered with.

use crate::retention::{decimal, decimal_of};
use crate::text::string_of;
use crate::types::SearchResult;
use vstd::prelude::*;
use vstd::string::StringExecFns;

verus! {

/// What is said of the size of a result: its bytes, or that it is a directory.
pub open spec fn size_info(r: SearchResult) -> Seq<char> {
    if r.is_directory {
        "DIR"@
    } else {
        decimal(r.size as nat) + " bytes"@
    }
}

/// The line of the result at position `i`, counted from 0: its number,
/// counted from 1, its path and its size.
pub open spec fn result_line(i: nat, r: SearchResult) -> Seq<char> {
    decimal(i + 1) + ". "@ + r.path@ + " ("@ + size_info(r) + ")\n"@
}

/// The lines of all results.
pub open spec fn result_lines(results: Seq<SearchResult>) -> Seq<char>
    decreases results.len(),
{
    if results.len() == 0 {
        Seq::empty()
    } else {
        result_lines(results.drop_last()) + result_line(
            (results.len() - 1) as nat,
            results.last(),
        )
    }
}

/// The note that the result list is full.
pub open spec fn limit_note(count: nat, max_results: usize) -> Seq<char> {
    if count >= max_results {
        "\nStopped at "@ + decimal(max_results as nat) + " results (use max_results to get more)"@
    } else {
        Seq::empty()
    }
}

/// The answer to a search in text form.
pub open spec fn results_text(
    results: Seq<SearchResult>,
    pattern: Seq<char>,
    drive: char,
    max_results: usize,
    elapsed_ms: u64,
) -> Seq<char> {
    if results.len() == 0 {
        "No files found matching pattern '"@ + pattern + "' in drive "@ + seq![drive]
            + " (searched in "@ + decimal(elapsed_ms as nat) + "ms)"@
    } else {
        "Found "@ + decimal(results.len()) + " files matching '"@ + pattern + "' in "@ + decimal(
            elapsed_ms as nat,
        ) + "ms\n\n"@ + result_lines(results) + limit_note(results.len(), max_results)
            + "\nSearch completed in "@ + decimal(elapsed_ms as nat) + "ms"@
    }
}

fn push_number(out: &mut String, n: u64)
    ensures
        final(out)@ == old(out)@ + decimal(n as nat),
{
    let digits = string_of(&decimal_of(n));
    out.append(digits.as_str());
}

/// Writes the answer to a search as text: one line for each result, a note
/// where the list is full, and the time that the search took.
pub fn render_results(
    results: &Vec<SearchResult>,
    pattern: &str,
    drive: char,
    max_results: usize,
    elapsed_ms: u64,
) -> (r: String)
    ensures
        r@ == results_text(results@, pattern@, drive, max_results, elapsed_ms),
{
    if results.len() == 0 {
        let mut out = String::from_str("No files found matching pattern '");
        out.append(pattern);
        out.append("' in drive ");
        out.push(drive);
        out.append(" (searched in ");
        push_number(&mut out, elapsed_ms);
        out.append("ms)");
        return out;
    }
    let mut out = String::from_str("Found ");
    push_number(&mut out, results.len() as u64);
    out.append(" files matching '");
    out.append(pattern);
    out.append("' in ");
    push_number(&mut out, elapsed_ms);
    out.append("ms\n\n");
    let ghost head = out@;
    let mut i: usize = 0;
    assert(results@.take(0) =~= Seq::<SearchResult>::empty());
    while i < results.len()
        invariant
            i <= results@.len(),
            out@ == head + result_lines(results@.take(i as int)),
        decreases results@.len() - i,
    {
        proof {
            assert(results@.take(i + 1).drop_last() == results@.take(i as int));
            assert(results@.take(i + 1).last() == results@[i as int]);
        }
        let ghost before = out@;
        let r = &results[i];
        push_number(&mut out, i as u64 + 1);
        out.append(". ");
        out.append(r.path.as_str());
        out.append(" (");
        if r.is_directory {
            out.append("DIR");
        } else {
            push_number(&mut out, r.size);
            out.append(" bytes");
        }
        out.append(")\n");
        assert(out@ =~= before + result_line(i as nat, *r));
        assert(out@ =~= head + (result_lines(results@.take(i as int)) + result_line(i as nat, *r)));
        i += 1;
    }
    assert(results@.take(results@.len() as int) == results@);
    if results.len() >= max_results {
        let ghost before = out@;
        out.append("\nStopped at ");
        push_number(&mut out, max_results as u64);
        out.append(" results (use max_results to get more)");
        assert(out@ =~= before + limit_note(results@.len(), max_results));
    } else {
        assert(out@ =~= out@ + limit_note(results@.len(), max_results));
    }
    out.append("\nSearch completed in ");
    push_number(&mut out, elapsed_ms);
    out.append("ms");
    out
}

} // verus!
