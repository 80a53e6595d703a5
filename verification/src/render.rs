//! Shaping output lines: truncation to the target width, highlighting
//! of matched rows, and the trailing match summary.

use crate::numfmt::dec_seq;
use crate::numfmt::u64_to_string;
use crate::query::spec_line_matches;
use crate::query::line_matches;
use crate::query::str_views;
use vstd::prelude::*;

verus! {

/// A line cut to at most `width` character positions.
pub open spec fn spec_truncate(line: Seq<char>, width: int) -> Seq<char> {
    if line.len() <= width {
        line
    } else {
        line.subrange(0, width)
    }
}

/// Cuts a line to at most `width` characters; characters, not bytes,
/// are counted, so a multi-byte character is never split.
pub fn truncate_line(line: &str, width: u32) -> (r: String)
    ensures
        r@ == spec_truncate(line@, width as int),
{
    let n = line.unicode_len();
    if n <= width as usize {
        line.to_owned()
    } else {
        line.substring_char(0, width as usize).to_owned()
    }
}

/// The escape sequence that opens bold-red highlighting.
pub open spec fn highlight_open() -> Seq<char> {
    "\x1b[01;31m"@
}

/// The escape sequence that restores normal rendering.
pub open spec fn highlight_close() -> Seq<char> {
    "\x1b[0m"@
}

/// A process-table line as it is printed: truncated to the target
/// width, and wrapped in bold-red highlighting when its process
/// identifier is one of the matched ones.
pub open spec fn spec_render_line(line: Seq<char>, width: int, pids: Seq<Seq<char>>) -> Seq<
    char,
> {
    let t = spec_truncate(line, width);
    if spec_line_matches(t, pids) {
        highlight_open() + t + highlight_close()
    } else {
        t
    }
}

/// Renders one process-table line: truncates it to the target width and
/// highlights it when its leading process identifier is matched.
pub fn render_line(line: &str, width: u32, pids: &Vec<String>) -> (r: String)
    ensures
        r@ == spec_render_line(line@, width as int, str_views(pids@)),
{
    let t = truncate_line(line, width);
    if line_matches(t.as_str(), pids) {
        let mut r = String::new();
        r.append("\x1b[01;31m");
        r.append(t.as_str());
        r.append("\x1b[0m");
        proof {
            assert(r@ =~= highlight_open() + t@ + highlight_close());
        }
        r
    } else {
        t
    }
}

/// The matched process identifiers joined by single spaces.
pub open spec fn spec_join_spaces(pids: Seq<Seq<char>>) -> Seq<char>
    decreases pids.len(),
{
    if pids.len() == 0 {
        Seq::empty()
    } else if pids.len() == 1 {
        pids[0]
    } else {
        spec_join_spaces(pids.drop_last()) + " "@ + pids.last()
    }
}

/// The summary printed after a query: a fixed sentence when nothing
/// matched, a singular sentence with the one identifier, or the match
/// count followed by the space-joined identifiers.
pub open spec fn spec_summary(pids: Seq<Seq<char>>) -> Seq<char> {
    if pids.len() == 0 {
        "No matching processes."@
    } else if pids.len() == 1 {
        "One matching process: "@ + pids[0]
    } else {
        dec_seq(pids.len() as int) + " matching processes: "@ + spec_join_spaces(pids)
    }
}

/// Builds the summary line that reports how many processes matched the
/// queries, and which.
pub fn summary_line(pids: &Vec<String>) -> (r: String)
    ensures
        r@ == spec_summary(str_views(pids@)),
{
    let ghost pv = str_views(pids@);
    if pids.len() == 0 {
        let r = String::from_str("No matching processes.");
        r
    } else if pids.len() == 1 {
        let mut r = String::from_str("One matching process: ");
        r.append(pids[0].as_str());
        proof {
            assert(pv[0] == pids@[0]@);
            assert(r@ =~= spec_summary(pv));
        }
        r
    } else {
        let mut r = u64_to_string(pids.len() as u64);
        r.append(" matching processes: ");
        let mut k: usize = 0;
        let mut joined = String::new();
        proof {
            assert(pv.subrange(0, 0) =~= Seq::<Seq<char>>::empty());
        }
        while k < pids.len()
            invariant
                k <= pids@.len(),
                pv == str_views(pids@),
                joined@ == spec_join_spaces(pv.subrange(0, k as int)),
            decreases pids@.len() - k,
        {
            let ghost j_old = joined@;
            if k > 0 {
                joined.append(" ");
            }
            joined.append(pids[k].as_str());
            proof {
                let pre = pv.subrange(0, k as int + 1);
                assert(pre.drop_last() =~= pv.subrange(0, k as int));
                assert(pre.last() == pv[k as int]);
                assert(pv[k as int] == pids@[k as int]@);
                if k == 0 {
                    assert(joined@ =~= spec_join_spaces(pre));
                } else {
                    assert(spec_join_spaces(pre) == spec_join_spaces(pv.subrange(0, k as int))
                        + " "@ + pv[k as int]);
                    assert(joined@ =~= spec_join_spaces(pre));
                }
            }
            k = k + 1;
        }
        proof {
            assert(pv.subrange(0, pids@.len() as int) =~= pv);
        }
        r.append(joined.as_str());
        proof {
            assert(r@ =~= spec_summary(pv));
        }
        r
    }
}

} // verus!
