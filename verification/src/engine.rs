//! Planning for one synchronization run. The caller walks the shared
//! directories and reads the ledger file; the engine decides, from
//! those plain values, which candidates to process and where each one
//! lands. The caller then performs the copies it is told to, creating
//! each destination exclusively, and appends one ledger record per
//! successful copy.

use vstd::prelude::*;

use crate::ledger::kept_entries;
use crate::ledger::ledger_lines;
use crate::ledger::render_ledger;
use crate::ledger::sync_imported_files;
use crate::ledger::vec_contains_str;
use crate::order::sort_lex;
use crate::order::sort_strings;
use crate::order::sorted_lex;
use crate::paths::file_name_of;
use crate::paths::get_file_name;
use crate::paths::invalid_path_msg;
use crate::paths::last_index_of;
use crate::paths::lemma_last_index_of;
use crate::resolve::resolve_destination;
use crate::resolve::resolved_destination;
use crate::tags::Tags;

verus! {

/// The entries of `files` that are not in `excluded`, in order.
pub open spec fn filter_excluding(files: Seq<Seq<char>>, excluded: Seq<Seq<char>>) -> Seq<
    Seq<char>,
>
    decreases files.len(),
{
    if files.len() == 0 {
        Seq::empty()
    } else {
        let rest = filter_excluding(files.drop_last(), excluded);
        if !excluded.contains(files.last()) {
            rest.push(files.last())
        } else {
            rest
        }
    }
}

/// An entry passes the filter exactly when the input holds it and the
/// exclusion list does not.
pub proof fn lemma_filter_excluding_membership(files: Seq<Seq<char>>, excluded: Seq<Seq<char>>)
    ensures
        forall|y: Seq<char>|
            #[trigger] filter_excluding(files, excluded).contains(y) <==> (files.contains(y)
                && !excluded.contains(y)),
    decreases files.len(),
{
    let out = filter_excluding(files, excluded);
    if files.len() == 0 {
        assert forall|y: Seq<char>| #[trigger] out.contains(y) implies (files.contains(y)
            && !excluded.contains(y)) by {
            let i = choose|i: int| 0 <= i < out.len() && out[i] == y;
        }
    } else {
        lemma_filter_excluding_membership(files.drop_last(), excluded);
        let rest = filter_excluding(files.drop_last(), excluded);
        assert forall|y: Seq<char>| #[trigger] out.contains(y) implies (files.contains(y)
            && !excluded.contains(y)) by {
            let i = choose|i: int| 0 <= i < out.len() && out[i] == y;
            if i < rest.len() {
                assert(rest.contains(y));
                let j = choose|j: int| 0 <= j < files.drop_last().len() && files.drop_last()[j]
                    == y;
                assert(files[j] == y);
            } else {
                assert(y == files.last());
                assert(files[files.len() - 1] == y);
            }
        }
        assert forall|y: Seq<char>| (files.contains(y) && !excluded.contains(y)) implies
            #[trigger] out.contains(y) by {
            let i = choose|i: int| 0 <= i < files.len() && files[i] == y;
            if i < files.len() - 1 {
                assert(files.drop_last()[i] == y);
                assert(rest.contains(y));
                let j = choose|j: int| 0 <= j < rest.len() && rest[j] == y;
                assert(out[j] == y);
            } else {
                if excluded.contains(files.last()) {
                } else {
                    assert(out[out.len() - 1] == files.last());
                }
            }
        }
    }
}

/// Keeps the entries of `files` that are not in `excluded`.
pub fn filter_vec(files: &Vec<String>, excluded: &Vec<String>) -> (r: Vec<String>)
    ensures
        r.deep_view() == filter_excluding(files.deep_view(), excluded.deep_view()),
{
    let ghost dv = files.deep_view();
    let n = files.len();
    let mut r: Vec<String> = Vec::new();
    let mut i: usize = 0;
    proof {
        assert(dv.take(0) =~= Seq::<Seq<char>>::empty());
        assert(r.deep_view() =~= filter_excluding(dv.take(0), excluded.deep_view()));
    }
    while i < n
        invariant
            n == files.len(),
            dv == files.deep_view(),
            i <= n,
            r.deep_view() == filter_excluding(dv.take(i as int), excluded.deep_view()),
        decreases n - i,
    {
        proof {
            assert(dv.take(i + 1).drop_last() =~= dv.take(i as int));
            assert(dv.take(i + 1).last() == dv[i as int]);
        }
        if !vec_contains_str(excluded, files[i].as_str()) {
            let ghost prev = r.deep_view();
            r.push(files[i].clone());
            proof {
                assert(r.deep_view() =~= prev.push(dv[i as int]));
            }
        }
        i = i + 1;
    }
    proof {
        assert(dv.take(n as int) =~= dv);
    }
    r
}

/// Discovery's pure half: of the regular files the caller walked,
/// keeps those whose path is not exactly an ignored path, sorted
/// lexicographically so repeated runs are deterministic.
pub fn discover(files: &Vec<String>, ignored_paths: &Vec<String>) -> (r: Vec<String>)
    ensures
        r.deep_view() == sort_lex(
            filter_excluding(files.deep_view(), ignored_paths.deep_view()),
        ),
        sorted_lex(r.deep_view()),
{
    let filtered = filter_vec(files, ignored_paths);
    sort_strings(&filtered)
}

/// A run aborts before doing anything when no shared directory is
/// configured.
pub fn validate_shared_directories(shared_directories: &Vec<String>) -> (r: Result<(), String>)
    ensures
        r is Ok <==> shared_directories.len() > 0,
        r is Err ==> r->Err_0@ == "shared-directories is not set"@,
{
    if shared_directories.len() == 0 {
        Err("shared-directories is not set".to_owned())
    } else {
        Ok(())
    }
}

/// What one run will do: the candidates to process, in order, and the
/// pruned ledger text to write back first (absent on a forced run,
/// which touches the ledger only to append).
pub struct ImportPlan {
    pub to_import: Vec<String>,
    pub reconciled_ledger: Option<String>,
}

/// Plans a run. Candidates are the walked files minus the ignored
/// paths, sorted. Unless the run is forced, ledger entries naming a
/// current candidate are kept (the rest are pruned) and the kept ones
/// are dropped from the batch; a forced run processes every candidate
/// and leaves the ledger text alone.
pub fn plan_import(
    files: &Vec<String>,
    ignored_paths: &Vec<String>,
    ledger_contents: &str,
    force: bool,
) -> (r: ImportPlan)
    ensures
        ({
            let cands = sort_lex(filter_excluding(files.deep_view(), ignored_paths.deep_view()));
            let kept = kept_entries(ledger_lines(ledger_contents@), cands);
            &&& force ==> r.to_import.deep_view() == cands && r.reconciled_ledger is None
            &&& !force ==> r.to_import.deep_view() == filter_excluding(cands, kept)
                && r.reconciled_ledger is Some && r.reconciled_ledger->0@ == render_ledger(kept)
        }),
{
    let candidates = discover(files, ignored_paths);
    if force {
        ImportPlan { to_import: candidates, reconciled_ledger: None }
    } else {
        let (kept, pruned) = sync_imported_files(&candidates, ledger_contents);
        let to_import = filter_vec(&candidates, &kept);
        ImportPlan { to_import, reconciled_ledger: Some(pruned) }
    }
}

/// The `artist - album - title` line a dry run prints for a track.
pub open spec fn identity_line(artist: Seq<char>, album: Seq<char>, title: Seq<char>) -> Seq<
    char,
> {
    artist + " - "@ + album + " - "@ + title
}

/// Renders the track identity a dry run prints.
pub fn track_identity(tags: &Tags) -> (r: String)
    ensures
        r@ == identity_line(tags.artist@, tags.album@, tags.title@),
{
    let mut s = tags.artist.clone();
    s.append(" - ");
    s.append(tags.album.as_str());
    s.append(" - ");
    s.append(tags.title.as_str());
    proof {
        assert(s@ =~= identity_line(tags.artist@, tags.album@, tags.title@));
    }
    s
}

/// What the caller should do with one probed candidate.
pub enum FileAction {
    /// Print this track identity; touch nothing.
    Preview(String),
    /// Create this file exclusively, copy into it, then append the
    /// source to the ledger.
    CopyTo(String),
    /// Report this per-file error and move on.
    Fail(String),
}

/// A path's file name never holds a separator.
pub proof fn lemma_file_name_no_slash(p: Seq<char>)
    ensures
        forall|i: int| 0 <= i < file_name_of(p).len() ==> #[trigger] file_name_of(p)[i] != '/',
{
    lemma_last_index_of(p, '/');
    assert(forall|i: int|
        0 <= i < file_name_of(p).len() ==> #[trigger] file_name_of(p)[i] == p[last_index_of(
            p,
            '/',
        ) + 1 + i]);
}

/// Plans one candidate once its tags are decoded: the dry-run preview
/// line, or the resolved destination to create exclusively and copy
/// into, or the per-file error to report.
pub fn plan_copy(
    file: &str,
    local_directory: &str,
    file_tags: &Tags,
    existing: &Vec<String>,
    dry_run: bool,
) -> (r: FileAction)
    ensures
        ({
            let ex = existing.deep_view();
            let name = file_name_of(file@);
            &&& dry_run ==> r is Preview && r->Preview_0@ == identity_line(
                file_tags.artist@,
                file_tags.album@,
                file_tags.title@,
            )
            &&& !dry_run && name.len() == 0 ==> r is Fail && r->Fail_0@ == invalid_path_msg(file@)
            &&& !dry_run && name.len() > 0 ==> {
                let spec_r = resolved_destination(
                    local_directory@,
                    file_tags.artist@,
                    file_tags.album@,
                    name,
                    ex,
                );
                &&& (r is CopyTo <==> spec_r is Ok)
                &&& (r is CopyTo ==> r->CopyTo_0@ == spec_r->Ok_0)
                &&& (r is Fail ==> r->Fail_0@ == spec_r->Err_0)
                &&& (r is CopyTo ==> forall|i: int|
                    0 <= i < ex.len() ==> r->CopyTo_0@ != #[trigger] ex[i])
            }
        }),
{
    if dry_run {
        return FileAction::Preview(track_identity(file_tags));
    }
    let name = match get_file_name(file) {
        Ok(name) => name,
        Err(e) => {
            return FileAction::Fail(e);
        },
    };
    proof {
        lemma_file_name_no_slash(file@);
    }
    match resolve_destination(
        local_directory,
        file_tags.artist.as_str(),
        file_tags.album.as_str(),
        name.as_str(),
        existing,
    ) {
        Ok(destination) => FileAction::CopyTo(destination),
        Err(e) => FileAction::Fail(e),
    }
}

} // verus!
