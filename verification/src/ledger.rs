//! The import ledger: a newline-delimited list of absolute source
//! paths that were copied in some earlier run. The library parses the
//! file's text, reconciles it against the candidates a run discovered
//! (dropping entries whose source is gone), renders the pruned text
//! to write back, and builds the one-line record appended after each
//! successful copy. Reading and writing the file stays with the
//! caller.

use vstd::prelude::*;

use crate::order::sort_lex;
use crate::order::sort_strings;
use crate::strings::str_eq;

verus! {

/// The lines of `s` not yet emitted, with `cur` the partial line read
/// so far; empty lines are dropped.
pub open spec fn split_lines_rec(s: Seq<char>, cur: Seq<char>) -> Seq<Seq<char>>
    decreases s.len(),
{
    if s.len() == 0 {
        if cur.len() == 0 {
            Seq::empty()
        } else {
            seq![cur]
        }
    } else if s[0] == '\n' {
        if cur.len() == 0 {
            split_lines_rec(s.skip(1), Seq::empty())
        } else {
            seq![cur] + split_lines_rec(s.skip(1), Seq::empty())
        }
    } else {
        split_lines_rec(s.skip(1), cur.push(s[0]))
    }
}

/// The non-empty lines of a ledger file's text.
pub open spec fn ledger_lines(s: Seq<char>) -> Seq<Seq<char>> {
    split_lines_rec(s, Seq::empty())
}

/// A ledger file's text for a list of entries: each on its own line,
/// with a trailing newline.
pub open spec fn render_ledger(entries: Seq<Seq<char>>) -> Seq<char>
    decreases entries.len(),
{
    if entries.len() == 0 {
        Seq::empty()
    } else {
        entries[0] + seq!['\n'] + render_ledger(entries.skip(1))
    }
}

/// Rendering a concatenation renders the parts in turn.
pub proof fn lemma_render_concat(a: Seq<Seq<char>>, b: Seq<Seq<char>>)
    ensures
        render_ledger(a + b) == render_ledger(a) + render_ledger(b),
    decreases a.len(),
{
    if a.len() == 0 {
        assert(a + b =~= b);
        assert(render_ledger(a) + render_ledger(b) =~= render_ledger(b));
    } else {
        assert((a + b)[0] == a[0]);
        assert((a + b).skip(1) =~= a.skip(1) + b);
        lemma_render_concat(a.skip(1), b);
        assert(render_ledger(a + b) =~= render_ledger(a) + render_ledger(b));
    }
}

/// A line free of newlines, read after the partial line `cur`, comes
/// out as one entry.
proof fn lemma_split_one_line(line: Seq<char>, rest: Seq<char>, cur: Seq<char>)
    requires
        forall|i: int| 0 <= i < line.len() ==> #[trigger] line[i] != '\n',
        cur.len() + line.len() > 0,
    ensures
        split_lines_rec(line + seq!['\n'] + rest, cur) == seq![cur + line] + split_lines_rec(
            rest,
            Seq::empty(),
        ),
    decreases line.len(),
{
    let s = line + seq!['\n'] + rest;
    if line.len() == 0 {
        assert(s[0] == '\n');
        assert(s.skip(1) =~= rest);
        assert(cur + line =~= cur);
    } else {
        assert(s[0] == line[0]);
        assert(line[0] != '\n');
        assert(s.skip(1) =~= line.skip(1) + seq!['\n'] + rest);
        lemma_split_one_line(line.skip(1), rest, cur.push(line[0]));
        assert(cur.push(line[0]) + line.skip(1) =~= cur + line);
    }
}

/// Parsing the rendered entries gives the entries back, when each is
/// non-empty and newline-free.
pub proof fn lemma_render_parse_roundtrip(entries: Seq<Seq<char>>)
    requires
        forall|i: int|
            0 <= i < entries.len() ==> (#[trigger] entries[i]).len() > 0,
        forall|i: int, k: int|
            0 <= i < entries.len() && 0 <= k < entries[i].len() ==> #[trigger] entries[i][k]
                != '\n',
    ensures
        ledger_lines(render_ledger(entries)) == entries,
    decreases entries.len(),
{
    if entries.len() == 0 {
        assert(ledger_lines(render_ledger(entries)) =~= entries);
    } else {
        lemma_split_one_line(entries[0], render_ledger(entries.skip(1)), Seq::empty());
        assert(Seq::<char>::empty() + entries[0] =~= entries[0]);
        assert(forall|i: int|
            0 <= i < entries.skip(1).len() ==> #[trigger] entries.skip(1)[i] == entries[i + 1]);
        lemma_render_parse_roundtrip(entries.skip(1));
        assert(ledger_lines(render_ledger(entries)) =~= entries);
    }
}

/// Every parsed line is non-empty and newline-free.
pub proof fn lemma_lines_wellformed(s: Seq<char>, cur: Seq<char>)
    requires
        forall|k: int| 0 <= k < cur.len() ==> #[trigger] cur[k] != '\n',
    ensures
        forall|i: int|
            0 <= i < split_lines_rec(s, cur).len() ==> (#[trigger] split_lines_rec(s, cur)[i]).len()
                > 0,
        forall|i: int, k: int|
            0 <= i < split_lines_rec(s, cur).len() && 0 <= k < split_lines_rec(s, cur)[i].len()
                ==> #[trigger] split_lines_rec(s, cur)[i][k] != '\n',
    decreases s.len(),
{
    let out = split_lines_rec(s, cur);
    if s.len() == 0 {
        if cur.len() > 0 {
            assert(out =~= seq![cur]);
            assert(out[0] == cur);
        }
    } else if s[0] == '\n' {
        lemma_lines_wellformed(s.skip(1), Seq::empty());
        let rest = split_lines_rec(s.skip(1), Seq::empty());
        if cur.len() > 0 {
            assert(out =~= seq![cur] + rest);
            assert(out[0] == cur);
            assert(forall|i: int| 1 <= i < out.len() ==> out[i] == rest[i - 1]);
        } else {
            assert(out =~= rest);
        }
    } else {
        assert(forall|k: int| 0 <= k < cur.push(s[0]).len() ==> #[trigger] cur.push(s[0])[k]
            != '\n');
        lemma_lines_wellformed(s.skip(1), cur.push(s[0]));
        assert(out =~= split_lines_rec(s.skip(1), cur.push(s[0])));
    }
}

/// Parses a ledger file's text into its non-empty lines.
pub fn parse_ledger(contents: &str) -> (r: Vec<String>)
    ensures
        r.deep_view() == ledger_lines(contents@),
{
    let n = contents.unicode_len();
    let mut res: Vec<String> = Vec::new();
    let mut start: usize = 0;
    let mut i: usize = 0;
    proof {
        assert(contents@.skip(0) =~= contents@);
        assert(contents@.subrange(0, 0) =~= Seq::<char>::empty());
        assert(res.deep_view() =~= Seq::<Seq<char>>::empty());
        assert(Seq::<Seq<char>>::empty() + ledger_lines(contents@) =~= ledger_lines(contents@));
    }
    while i < n
        invariant
            n == contents@.len(),
            start <= i <= n,
            ledger_lines(contents@) == res.deep_view() + split_lines_rec(
                contents@.skip(i as int),
                contents@.subrange(start as int, i as int),
            ),
        decreases n - i,
    {
        let ghost cur = contents@.subrange(start as int, i as int);
        let c = contents.get_char(i);
        proof {
            assert(contents@.skip(i as int)[0] == contents@[i as int]);
            assert(contents@.skip(i as int).skip(1) =~= contents@.skip(i + 1));
        }
        if c == '\n' {
            if i > start {
                let line = contents.substring_char(start, i);
                res.push(line.to_owned());
                proof {
                    assert(cur.len() > 0);
                    assert(res.deep_view() =~= res.deep_view().take(res.deep_view().len() - 1)
                        + seq![cur]);
                    assert(res.deep_view().take(res.deep_view().len() - 1) + (seq![cur]
                        + split_lines_rec(contents@.skip(i + 1), Seq::empty())) =~= (
                    res.deep_view().take(res.deep_view().len() - 1) + seq![cur])
                        + split_lines_rec(contents@.skip(i + 1), Seq::empty()));
                }
            } else {
                proof {
                    assert(cur.len() == 0);
                }
            }
            start = i + 1;
            proof {
                assert(contents@.subrange(start as int, i + 1) =~= Seq::<char>::empty());
            }
        } else {
            proof {
                assert(cur.push(contents@[i as int]) =~= contents@.subrange(start as int, i + 1));
            }
        }
        i = i + 1;
    }
    if start < n {
        let line = contents.substring_char(start, n);
        res.push(line.to_owned());
        proof {
            let ghost cur = contents@.subrange(start as int, n as int);
            assert(contents@.skip(n as int) =~= Seq::<char>::empty());
            assert(cur.len() > 0);
            assert(res.deep_view() =~= res.deep_view().take(res.deep_view().len() - 1)
                + seq![cur]);
        }
    } else {
        proof {
            assert(contents@.skip(n as int) =~= Seq::<char>::empty());
            assert(contents@.subrange(start as int, n as int).len() == 0);
            assert(res.deep_view() + Seq::<Seq<char>>::empty() =~= res.deep_view());
        }
    }
    res
}

/// Whether some entry of `v` reads `s`.
pub fn vec_contains_str(v: &Vec<String>, s: &str) -> (r: bool)
    ensures
        r == v.deep_view().contains(s@),
{
    let n = v.len();
    let mut i: usize = 0;
    while i < n
        invariant
            n == v.len(),
            i <= n,
            forall|j: int| 0 <= j < i ==> #[trigger] v.deep_view()[j] != s@,
        decreases n - i,
    {
        if str_eq(v[i].as_str(), s) {
            proof {
                assert(v.deep_view()[i as int] == s@);
            }
            return true;
        }
        i = i + 1;
    }
    proof {
        if v.deep_view().contains(s@) {
            let j = choose|j: int| 0 <= j < v.deep_view().len() && v.deep_view()[j] == s@;
            assert(v.deep_view()[j] != s@);
        }
    }
    false
}

/// The ledger entries that still name a current candidate, first
/// occurrences only, in the ledger's order.
pub open spec fn kept_entries(ledger: Seq<Seq<char>>, cands: Seq<Seq<char>>) -> Seq<Seq<char>>
    decreases ledger.len(),
{
    if ledger.len() == 0 {
        Seq::empty()
    } else {
        let rest = kept_entries(ledger.drop_last(), cands);
        if cands.contains(ledger.last()) && !rest.contains(ledger.last()) {
            rest.push(ledger.last())
        } else {
            rest
        }
    }
}

/// An entry is kept exactly when the ledger holds it and it is still
/// a candidate.
pub proof fn lemma_kept_entries_membership(ledger: Seq<Seq<char>>, cands: Seq<Seq<char>>)
    ensures
        forall|y: Seq<char>|
            #[trigger] kept_entries(ledger, cands).contains(y) <==> (ledger.contains(y)
                && cands.contains(y)),
    decreases ledger.len(),
{
    let out = kept_entries(ledger, cands);
    if ledger.len() == 0 {
        assert forall|y: Seq<char>| #[trigger] out.contains(y) implies (ledger.contains(y)
            && cands.contains(y)) by {
            let i = choose|i: int| 0 <= i < out.len() && out[i] == y;
        }
    } else {
        lemma_kept_entries_membership(ledger.drop_last(), cands);
        let rest = kept_entries(ledger.drop_last(), cands);
        assert forall|y: Seq<char>| #[trigger] out.contains(y) implies (ledger.contains(y)
            && cands.contains(y)) by {
            let i = choose|i: int| 0 <= i < out.len() && out[i] == y;
            if i < rest.len() {
                assert(rest.contains(y));
                let j = choose|j: int| 0 <= j < ledger.drop_last().len() && ledger.drop_last()[j]
                    == y;
                assert(ledger[j] == y);
            } else {
                assert(y == ledger.last());
                assert(ledger[ledger.len() - 1] == y);
            }
        }
        assert forall|y: Seq<char>| (ledger.contains(y) && cands.contains(y)) implies
            #[trigger] out.contains(y) by {
            let i = choose|i: int| 0 <= i < ledger.len() && ledger[i] == y;
            if i < ledger.len() - 1 {
                assert(ledger.drop_last()[i] == y);
                assert(rest.contains(y));
                if cands.contains(ledger.last()) && !rest.contains(ledger.last()) {
                    let j = choose|j: int| 0 <= j < rest.len() && rest[j] == y;
                    assert(out[j] == y);
                }
            } else {
                if rest.contains(y) {
                    let j = choose|j: int| 0 <= j < rest.len() && rest[j] == y;
                    assert(out[j] == y);
                } else {
                    assert(out[out.len() - 1] == y);
                }
            }
        }
    }
}

/// Intersects the ledger's entries with the current candidates:
/// entries whose source file is gone are dropped, duplicates
/// collapse, and the pruned text to write back is returned beside the
/// kept entries.
pub fn sync_imported_files(files: &Vec<String>, ledger_contents: &str) -> (r: (Vec<String>, String))
    ensures
        r.0.deep_view() == kept_entries(ledger_lines(ledger_contents@), files.deep_view()),
        r.1@ == render_ledger(kept_entries(ledger_lines(ledger_contents@), files.deep_view())),
{
    let entries = parse_ledger(ledger_contents);
    let ghost lg = entries.deep_view();
    let n = entries.len();
    let mut kept: Vec<String> = Vec::new();
    let mut i: usize = 0;
    proof {
        assert(lg.take(0) =~= Seq::<Seq<char>>::empty());
        assert(kept.deep_view() =~= kept_entries(lg.take(0), files.deep_view()));
    }
    while i < n
        invariant
            n == entries.len(),
            lg == entries.deep_view(),
            i <= n,
            kept.deep_view() == kept_entries(lg.take(i as int), files.deep_view()),
        decreases n - i,
    {
        proof {
            assert(lg.take(i + 1).drop_last() =~= lg.take(i as int));
            assert(lg.take(i + 1).last() == lg[i as int]);
        }
        let in_files = vec_contains_str(files, entries[i].as_str());
        let already = vec_contains_str(&kept, entries[i].as_str());
        if in_files && !already {
            let ghost prev = kept.deep_view();
            kept.push(entries[i].clone());
            proof {
                assert(kept.deep_view() =~= prev.push(lg[i as int]));
            }
        }
        i = i + 1;
    }
    proof {
        assert(lg.take(n as int) =~= lg);
    }
    let rendered = render_ledger_text(&kept);
    (kept, rendered)
}

/// Renders entries as ledger text: one per line, trailing newline.
pub fn render_ledger_text(entries: &Vec<String>) -> (r: String)
    ensures
        r@ == render_ledger(entries.deep_view()),
{
    let ghost dv = entries.deep_view();
    let n = entries.len();
    let mut out = String::new();
    let mut i: usize = 0;
    proof {
        assert(dv.take(0) =~= Seq::<Seq<char>>::empty());
        assert(out@ =~= render_ledger(dv.take(0)));
    }
    while i < n
        invariant
            n == entries.len(),
            dv == entries.deep_view(),
            i <= n,
            out@ == render_ledger(dv.take(i as int)),
        decreases n - i,
    {
        out.append(entries[i].as_str());
        out.append("\n");
        proof {
            reveal_strlit("\n");
            assert("\n"@ =~= seq!['\n']);
            assert(dv.take(i + 1) =~= dv.take(i as int) + seq![dv[i as int]]);
            lemma_render_concat(dv.take(i as int), seq![dv[i as int]]);
            assert(seq![dv[i as int]].skip(1) =~= Seq::<Seq<char>>::empty());
            assert(render_ledger(Seq::<Seq<char>>::empty()) =~= Seq::<char>::empty());
            assert(render_ledger(seq![dv[i as int]]) =~= dv[i as int] + seq!['\n']);
            assert(out@ =~= render_ledger(dv.take(i as int)) + (dv[i as int] + seq!['\n']));
        }
        i = i + 1;
    }
    proof {
        assert(dv.take(n as int) =~= dv);
    }
    out
}

/// The one-line record appended to the ledger after a successful
/// copy.
pub fn append_record(path: &str) -> (r: String)
    ensures
        r@ == path@ + seq!['\n'],
{
    let mut s = path.to_owned();
    s.append("\n");
    proof {
        reveal_strlit("\n");
        assert(s@ =~= path@ + seq!['\n']);
    }
    s
}

/// Newline-joined text, without a trailing newline.
pub open spec fn join_lines(entries: Seq<Seq<char>>) -> Seq<char>
    decreases entries.len(),
{
    if entries.len() == 0 {
        Seq::empty()
    } else if entries.len() == 1 {
        entries[0]
    } else {
        entries[0] + seq!['\n'] + join_lines(entries.skip(1))
    }
}

/// Joining one more entry appends a separator and the entry.
proof fn lemma_join_lines_snoc(entries: Seq<Seq<char>>, x: Seq<char>)
    ensures
        join_lines(entries.push(x)) == if entries.len() == 0 {
            x
        } else {
            join_lines(entries) + seq!['\n'] + x
        },
    decreases entries.len(),
{
    let s = entries.push(x);
    if entries.len() == 0 {
        assert(s[0] == x);
    } else {
        assert(s[0] == entries[0]);
        assert(s.skip(1) =~= entries.skip(1).push(x));
        lemma_join_lines_snoc(entries.skip(1), x);
        if entries.len() == 1 {
            assert(join_lines(s) =~= join_lines(entries) + seq!['\n'] + x);
        } else {
            assert(join_lines(s) =~= join_lines(entries) + seq!['\n'] + x);
        }
    }
}

/// Joins entries with newlines, without a trailing one.
pub fn join_lines_text(entries: &Vec<String>) -> (r: String)
    ensures
        r@ == join_lines(entries.deep_view()),
{
    let ghost dv = entries.deep_view();
    let n = entries.len();
    let mut out = String::new();
    let mut i: usize = 0;
    proof {
        assert(dv.take(0) =~= Seq::<Seq<char>>::empty());
        assert(out@ =~= join_lines(dv.take(0)));
    }
    while i < n
        invariant
            n == entries.len(),
            dv == entries.deep_view(),
            i <= n,
            out@ == join_lines(dv.take(i as int)),
        decreases n - i,
    {
        if i > 0 {
            out.append("\n");
        }
        out.append(entries[i].as_str());
        proof {
            reveal_strlit("\n");
            assert("\n"@ =~= seq!['\n']);
            assert(dv.take(i + 1) =~= dv.take(i as int).push(dv[i as int]));
            lemma_join_lines_snoc(dv.take(i as int), dv[i as int]);
            if i > 0 {
                assert(out@ =~= join_lines(dv.take(i as int)) + seq!['\n'] + dv[i as int]);
            } else {
                assert(out@ =~= dv[i as int]);
            }
        }
        i = i + 1;
    }
    proof {
        assert(dv.take(n as int) =~= dv);
    }
    out
}

/// The sorted display of the ledger's entries, one per line, as the
/// listing of already-imported files shows them.
pub fn imported_display(contents: &str) -> (r: String)
    ensures
        r@ == join_lines(sort_lex(ledger_lines(contents@))),
{
    let entries = parse_ledger(contents);
    let sorted = sort_strings(&entries);
    join_lines_text(&sorted)
}

} // verus!
