use tsundeoku::engine::{discover, plan_import, plan_copy, track_identity, validate_shared_directories, FileAction};
use tsundeoku::ledger::{append_record, imported_display, parse_ledger, render_ledger_text, sync_imported_files};
use tsundeoku::resolve::{resolve_destination, version_of_path};
use tsundeoku::tags::{extract_tags, get_tag_or_unknown, should_warn_probe_failure, TagEntry, TagKey, Tags};

fn strings(items: &[&str]) -> Vec<String> {
    items.iter().map(|s| s.to_string()).collect()
}

fn tag(key: Option<TagKey>, value: &str) -> TagEntry {
    TagEntry { std_key: key, value: value.to_string() }
}

#[test]
fn first_import_lands_at_base_path() {
    // An empty local directory takes the file at
    // local/artist/album/name, with no version suffix.
    let existing: Vec<String> = Vec::new();
    let destination = resolve_destination(
        "local",
        "Miles Davis",
        "Kind of Blue",
        "track.mp3",
        &existing,
    )
    .unwrap();
    assert_eq!(destination, "local/Miles Davis/Kind of Blue/track.mp3");
}

#[test]
fn occupied_slot_gets_version_one() {
    let existing = strings(&["local/Miles Davis/Kind of Blue/track.mp3"]);
    let destination = resolve_destination(
        "local",
        "Miles Davis",
        "Kind of Blue",
        "track.mp3",
        &existing,
    )
    .unwrap();
    assert_eq!(destination, "local/Miles Davis/Kind of Blue/track__1.mp3");
}

#[test]
fn versions_count_past_the_largest_suffix() {
    let existing = strings(&[
        "local/a/b/track.mp3",
        "local/a/b/track__1.mp3",
        "local/a/b/track__7.mp3",
        "local/a/b/track__3.mp3",
    ]);
    let destination = resolve_destination("local", "a", "b", "track.mp3", &existing).unwrap();
    assert_eq!(destination, "local/a/b/track__8.mp3");
}

#[test]
fn resolved_destination_never_equals_an_existing_entry() {
    // No silent overwrite: the result is distinct from everything the
    // resolver was shown, including suffixes that fail to parse.
    let existing = strings(&[
        "local/a/b/track.mp3",
        "local/a/b/track__2.mp3",
        "local/a/b/track__x.mp3",
        "local/a/b/track__.mp3",
    ]);
    let destination = resolve_destination("local", "a", "b", "track.mp3", &existing).unwrap();
    assert_eq!(destination, "local/a/b/track__3.mp3");
    for entry in &existing {
        assert_ne!(&destination, entry);
    }
}

#[test]
fn collision_without_extension_is_an_invalid_path() {
    let existing = strings(&["local/a/b/notes"]);
    let err = resolve_destination("local", "a", "b", "notes", &existing).unwrap_err();
    assert_eq!(err, "invalid path local/a/b/notes");
}

#[test]
fn exhausted_version_numbers_are_reported() {
    let existing = strings(&["local/a/b/track__18446744073709551615.mp3"]);
    let err = resolve_destination("local", "a", "b", "track.mp3", &existing).unwrap_err();
    assert_eq!(err, "no unused version suffix for local/a/b/track.mp3");
}

#[test]
fn version_of_path_parses_the_suffix() {
    assert_eq!(version_of_path("local/a/b/track__12.mp3"), Some(12));
    assert_eq!(version_of_path("local/a/b/track.mp3"), None);
    assert_eq!(version_of_path("local/a/b/track__x.mp3"), None);
    assert_eq!(version_of_path("local/a/b/track__18446744073709551616.mp3"), None);
}

#[test]
fn missing_album_tag_defaults_to_unknown() {
    // Tag defaulting: a file with no Album tag lands under a literal
    // Unknown segment.
    let entries = vec![
        tag(Some(TagKey::AlbumArtist), "Miles Davis"),
        tag(Some(TagKey::TrackTitle), "So What"),
    ];
    let tags = extract_tags(&entries);
    assert_eq!(tags.artist, "Miles Davis");
    assert_eq!(tags.album, "Unknown");
    assert_eq!(tags.title, "So What");
    let existing: Vec<String> = Vec::new();
    let destination =
        resolve_destination("local", &tags.artist, &tags.album, "track.mp3", &existing).unwrap();
    assert_eq!(destination, "local/Miles Davis/Unknown/track.mp3");
    assert!(destination.contains("Unknown"));
}

#[test]
fn artist_falls_back_to_track_artist_then_unknown() {
    let only_artist = vec![tag(Some(TagKey::Artist), "Bill Evans")];
    assert_eq!(extract_tags(&only_artist).artist, "Bill Evans");
    let none: Vec<TagEntry> = Vec::new();
    assert_eq!(extract_tags(&none).artist, "Unknown");
}

#[test]
fn first_matching_tag_wins() {
    let entries = vec![
        tag(None, "stray"),
        tag(Some(TagKey::Album), "First"),
        tag(Some(TagKey::Album), "Second"),
    ];
    assert_eq!(get_tag_or_unknown(&entries, TagKey::Album), "First");
    assert_eq!(get_tag_or_unknown(&entries, TagKey::TrackTitle), "Unknown");
}

#[test]
fn discovery_filters_ignored_paths_and_sorts() {
    let files = strings(&["shared/b.mp3", "shared/a.mp3", "shared/skip.mp3"]);
    let ignored = strings(&["shared/skip.mp3"]);
    let found = discover(&files, &ignored);
    assert_eq!(found, strings(&["shared/a.mp3", "shared/b.mp3"]));
}

#[test]
fn reconciliation_drops_deleted_sources() {
    // Ledger reconciliation: an entry whose source is gone from the
    // shared directories leaves the ledger.
    let candidates = strings(&["shared/kept.mp3"]);
    let ledger = "shared/kept.mp3\nshared/deleted.mp3\n";
    let (kept, rewritten) = sync_imported_files(&candidates, ledger);
    assert_eq!(kept, strings(&["shared/kept.mp3"]));
    assert_eq!(rewritten, "shared/kept.mp3\n");
}

#[test]
fn reconciliation_collapses_duplicate_entries() {
    let candidates = strings(&["shared/a.mp3", "shared/b.mp3"]);
    let ledger = "shared/a.mp3\nshared/a.mp3\nshared/b.mp3\n";
    let (kept, rewritten) = sync_imported_files(&candidates, ledger);
    assert_eq!(kept, strings(&["shared/a.mp3", "shared/b.mp3"]));
    assert_eq!(rewritten, "shared/a.mp3\nshared/b.mp3\n");
}

#[test]
fn missing_ledger_reads_as_empty() {
    // A missing or empty ledger file yields no entries on first run.
    assert_eq!(parse_ledger("").len(), 0);
    let candidates = strings(&["shared/a.mp3"]);
    let (kept, rewritten) = sync_imported_files(&candidates, "");
    assert_eq!(kept.len(), 0);
    assert_eq!(rewritten, "");
}

#[test]
fn plan_skips_already_imported_candidates() {
    let files = strings(&["shared/new.mp3", "shared/old.mp3"]);
    let ignored: Vec<String> = Vec::new();
    let plan = plan_import(&files, &ignored, "shared/old.mp3\n", false);
    assert_eq!(plan.to_import, strings(&["shared/new.mp3"]));
    assert_eq!(plan.reconciled_ledger.as_deref(), Some("shared/old.mp3\n"));
}

#[test]
fn forced_plan_processes_everything_and_keeps_the_ledger() {
    // Forced re-import: a ledgered file is back in the batch.
    let files = strings(&["shared/old.mp3"]);
    let ignored: Vec<String> = Vec::new();
    let plan = plan_import(&files, &ignored, "shared/old.mp3\n", true);
    assert_eq!(plan.to_import, strings(&["shared/old.mp3"]));
    assert!(plan.reconciled_ledger.is_none());
}

#[test]
fn second_run_has_nothing_to_import() {
    // Idempotence, played out concretely: run one plans both files;
    // after their records are appended to the pruned ledger, a second
    // run over the same shared files plans nothing.
    let files = strings(&["shared/b.mp3", "shared/a.mp3"]);
    let ignored: Vec<String> = Vec::new();
    let first = plan_import(&files, &ignored, "", false);
    assert_eq!(first.to_import, strings(&["shared/a.mp3", "shared/b.mp3"]));
    let mut ledger = first.reconciled_ledger.unwrap();
    for imported in &first.to_import {
        ledger.push_str(&append_record(imported));
    }
    assert_eq!(ledger, "shared/a.mp3\nshared/b.mp3\n");
    let second = plan_import(&files, &ignored, &ledger, false);
    assert_eq!(second.to_import.len(), 0);
}

#[test]
fn empty_shared_directories_abort_the_run() {
    let none: Vec<String> = Vec::new();
    let err = validate_shared_directories(&none).unwrap_err();
    assert_eq!(err, "shared-directories is not set");
    assert!(validate_shared_directories(&strings(&["shared"])).is_ok());
}

#[test]
fn dry_run_previews_the_track_identity() {
    let tags = Tags {
        artist: "Miles Davis".to_string(),
        album: "Kind of Blue".to_string(),
        title: "So What".to_string(),
    };
    assert_eq!(track_identity(&tags), "Miles Davis - Kind of Blue - So What");
    let existing: Vec<String> = Vec::new();
    match plan_copy("shared/track.mp3", "local", &tags, &existing, true) {
        FileAction::Preview(line) => {
            assert_eq!(line, "Miles Davis - Kind of Blue - So What")
        },
        _ => panic!("a dry run must preview"),
    }
}

#[test]
fn plan_copy_resolves_the_destination() {
    let tags = Tags {
        artist: "Miles Davis".to_string(),
        album: "Kind of Blue".to_string(),
        title: "So What".to_string(),
    };
    let existing: Vec<String> = Vec::new();
    match plan_copy("shared/track.mp3", "local", &tags, &existing, false) {
        FileAction::CopyTo(destination) => {
            assert_eq!(destination, "local/Miles Davis/Kind of Blue/track.mp3")
        },
        _ => panic!("a free slot must be copied into"),
    }
}

#[test]
fn plan_copy_reports_a_nameless_file() {
    let tags = Tags {
        artist: "a".to_string(),
        album: "b".to_string(),
        title: "c".to_string(),
    };
    let existing: Vec<String> = Vec::new();
    match plan_copy("shared/", "local", &tags, &existing, false) {
        FileAction::Fail(message) => assert_eq!(message, "invalid path shared/"),
        _ => panic!("a path without a file name must fail"),
    }
}

#[test]
fn probe_warnings_follow_the_extension() {
    // Audio-like extensions and missing extensions warn; others skip
    // silently.
    assert!(should_warn_probe_failure("shared/track.mp3"));
    assert!(should_warn_probe_failure("shared/track.flac"));
    assert!(should_warn_probe_failure("shared/README"));
    assert!(!should_warn_probe_failure("shared/cover.jpg"));
    assert!(!should_warn_probe_failure("shared/notes.txt"));
}

#[test]
fn append_record_writes_one_line() {
    assert_eq!(append_record("shared/track.mp3"), "shared/track.mp3\n");
}

#[test]
fn imported_listing_is_sorted() {
    let display = imported_display("shared/b.mp3\nshared/a.mp3\n");
    assert_eq!(display, "shared/a.mp3\nshared/b.mp3");
    assert_eq!(imported_display(""), "");
}

#[test]
fn rendered_ledger_parses_back() {
    let entries = strings(&["shared/a.mp3", "shared/b.mp3"]);
    let text = render_ledger_text(&entries);
    assert_eq!(text, "shared/a.mp3\nshared/b.mp3\n");
    assert_eq!(parse_ledger(&text), entries);
}
