//! The guarantees that hold across whole runs, stated over the same
//! spec functions the planning functions promise in their contracts.

use vstd::prelude::*;

use crate::engine::filter_excluding;
use crate::engine::lemma_filter_excluding_membership;
use crate::ledger::kept_entries;
use crate::ledger::ledger_lines;
use crate::ledger::lemma_kept_entries_membership;
use crate::ledger::lemma_lines_wellformed;
use crate::ledger::lemma_render_concat;
use crate::ledger::lemma_render_parse_roundtrip;
use crate::ledger::render_ledger;
use crate::order::lemma_sort_lex_props;
use crate::order::sort_lex;
use crate::strings::contains_seq;
use crate::tags::first_tag_value;
use crate::tags::tag_or_unknown;
use crate::tags::TagEntry;
use crate::tags::TagKey;

verus! {

/// Running the import twice without `force`, with the same walked
/// files, leaves nothing for the second run: the first run's batch is
/// appended to the pruned ledger, so the second run's reconciled
/// ledger covers every candidate and its batch is empty.
pub proof fn lemma_import_idempotent(
    files: Seq<Seq<char>>,
    ignored: Seq<Seq<char>>,
    ledger_text: Seq<char>,
)
    requires
        forall|i: int| 0 <= i < files.len() ==> (#[trigger] files[i]).len() > 0,
        forall|i: int, k: int|
            0 <= i < files.len() && 0 <= k < files[i].len() ==> #[trigger] files[i][k] != '\n',
    ensures
        ({
            let cands = sort_lex(filter_excluding(files, ignored));
            let kept = kept_entries(ledger_lines(ledger_text), cands);
            let batch = filter_excluding(cands, kept);
            let after = render_ledger(kept) + render_ledger(batch);
            filter_excluding(cands, kept_entries(ledger_lines(after), cands)) == Seq::<
                Seq<char>,
            >::empty()
        }),
{
    let cands = sort_lex(filter_excluding(files, ignored));
    let old_entries = ledger_lines(ledger_text);
    let kept = kept_entries(old_entries, cands);
    let batch = filter_excluding(cands, kept);
    let written = kept + batch;
    let after = render_ledger(kept) + render_ledger(batch);

    lemma_sort_lex_props(filter_excluding(files, ignored));
    lemma_filter_excluding_membership(files, ignored);
    lemma_kept_entries_membership(old_entries, cands);
    lemma_filter_excluding_membership(cands, kept);
    lemma_lines_wellformed(ledger_text, Seq::empty());

    // Every candidate is a walked file, so it is non-empty and
    // newline-free; every kept entry is a parsed ledger line, so the
    // same holds of it.
    assert forall|i: int| 0 <= i < written.len() implies (#[trigger] written[i]).len() > 0
        && forall|k: int| 0 <= k < written[i].len() ==> #[trigger] written[i][k] != '\n' by {
        if i < kept.len() {
            assert(kept.contains(written[i]));
            let j = choose|j: int| 0 <= j < old_entries.len() && old_entries[j] == written[i];
        } else {
            assert(batch[i - kept.len()] == written[i]);
            assert(batch.contains(written[i]));
            assert(cands.contains(written[i]));
            assert(files.contains(written[i]));
            let j = choose|j: int| 0 <= j < files.len() && files[j] == written[i];
        }
    }

    lemma_render_concat(kept, batch);
    assert(after == render_ledger(written));
    lemma_render_parse_roundtrip(written);
    assert(ledger_lines(after) == written);

    let kept2 = kept_entries(written, cands);
    lemma_kept_entries_membership(written, cands);
    let out = filter_excluding(cands, kept2);
    lemma_filter_excluding_membership(cands, kept2);
    assert(out.len() == 0) by {
        if out.len() > 0 {
            let c = out[0];
            assert(out.contains(c));
            assert(cands.contains(c) && !kept2.contains(c));
            if kept.contains(c) {
                let j = choose|j: int| 0 <= j < kept.len() && kept[j] == c;
                assert(written[j] == c);
                assert(written.contains(c));
            } else {
                assert(batch.contains(c));
                let j = choose|j: int| 0 <= j < batch.len() && batch[j] == c;
                assert(written[kept.len() + j] == c);
                assert(written.contains(c));
            }
            assert(kept2.contains(c));
        }
    }
    assert(out =~= Seq::<Seq<char>>::empty());
}

/// Reconciliation drops every ledger entry whose source file is no
/// longer among the discovered candidates.
pub proof fn lemma_reconcile_drops_deleted(
    ledger_text: Seq<char>,
    cands: Seq<Seq<char>>,
    p: Seq<char>,
)
    requires
        !cands.contains(p),
    ensures
        !kept_entries(ledger_lines(ledger_text), cands).contains(p),
{
    lemma_kept_entries_membership(ledger_lines(ledger_text), cands);
}

/// A forced run's batch is every discovered candidate, whatever the
/// ledger holds: a path that is walked and not ignored is processed
/// again. When its destination slot is occupied, the resolver's
/// contract places it at a fresh version-suffixed path instead of the
/// occupied one.
pub proof fn lemma_forced_run_reprocesses(
    files: Seq<Seq<char>>,
    ignored: Seq<Seq<char>>,
    p: Seq<char>,
)
    requires
        files.contains(p),
        !ignored.contains(p),
    ensures
        sort_lex(filter_excluding(files, ignored)).contains(p),
{
    lemma_filter_excluding_membership(files, ignored);
    lemma_sort_lex_props(filter_excluding(files, ignored));
}

/// A file with no `Album` tag resolves to a destination that carries
/// the literal `Unknown` segment: the album slot defaults to
/// `Unknown`, and the resolver promises the album text occurs in
/// every destination it returns.
pub proof fn lemma_missing_album_lands_in_unknown(
    entries: Seq<TagEntry>,
    dest: Seq<char>,
    album: Seq<char>,
)
    requires
        first_tag_value(entries, TagKey::Album) is None,
        album == tag_or_unknown(entries, TagKey::Album),
        contains_seq(dest, album),
    ensures
        contains_seq(dest, "Unknown"@),
{
}

} // verus!
