//! Filtering of the tool's log text for display. Reading the log file
//! and pretty-printing stay with the caller.

use vstd::prelude::*;

use crate::ledger::join_lines;
use crate::ledger::join_lines_text;
use crate::ledger::ledger_lines;
use crate::ledger::parse_ledger;
use crate::strings::contains_seq;
use crate::strings::str_contains;

verus! {

/// The lines that mention `pat`, in order.
pub open spec fn lines_containing(lines: Seq<Seq<char>>, pat: Seq<char>) -> Seq<Seq<char>>
    decreases lines.len(),
{
    if lines.len() == 0 {
        Seq::empty()
    } else {
        let rest = lines_containing(lines.drop_last(), pat);
        if contains_seq(lines.last(), pat) {
            rest.push(lines.last())
        } else {
            rest
        }
    }
}

/// When asked for imported files only, keeps the log lines that
/// mention `Imported`, newline-joined; otherwise returns the log text
/// unchanged.
pub fn filter_logs(logs: &str, imported: bool) -> (r: String)
    ensures
        imported ==> r@ == join_lines(lines_containing(ledger_lines(logs@), "Imported"@)),
        !imported ==> r@ == logs@,
{
    if !imported {
        return logs.to_owned();
    }
    let lines = parse_ledger(logs);
    let ghost dv = lines.deep_view();
    let n = lines.len();
    let mut matching: Vec<String> = Vec::new();
    let mut i: usize = 0;
    proof {
        assert(dv.take(0) =~= Seq::<Seq<char>>::empty());
        assert(matching.deep_view() =~= lines_containing(dv.take(0), "Imported"@));
    }
    while i < n
        invariant
            n == lines.len(),
            dv == lines.deep_view(),
            i <= n,
            matching.deep_view() == lines_containing(dv.take(i as int), "Imported"@),
        decreases n - i,
    {
        proof {
            assert(dv.take(i + 1).drop_last() =~= dv.take(i as int));
            assert(dv.take(i + 1).last() == dv[i as int]);
        }
        if str_contains(lines[i].as_str(), "Imported") {
            let ghost prev = matching.deep_view();
            matching.push(lines[i].clone());
            proof {
                assert(matching.deep_view() =~= prev.push(dv[i as int]));
            }
        }
        i = i + 1;
    }
    proof {
        assert(dv.take(n as int) =~= dv);
    }
    join_lines_text(&matching)
}

} // verus!
