//! The library's own model of decoded audio metadata. The probing of
//! a container happens outside the library; its caller hands in the
//! decoded tag entries as plain values, and everything from there on
//! is verified: keyed lookup, defaulting to `Unknown`, and the choice
//! of which probe failures deserve a warning.

use vstd::prelude::*;

use crate::paths::ext_of;
use crate::paths::file_name_of;
use crate::paths::get_file_name;
use crate::paths::last_index_of;
use crate::paths::lemma_last_index_of;
use crate::paths::rfind_char;
use crate::strings::str_eq;

verus! {

/// The standard tag keys the import engine reads.
#[derive(Debug, Clone, Copy, PartialEq, Eq, Structural)]
pub enum TagKey {
    AlbumArtist,
    Artist,
    Album,
    TrackTitle,
}

/// One decoded tag: its recognized standard key, if any, and its
/// textual value.
#[derive(Debug, Clone)]
pub struct TagEntry {
    pub std_key: Option<TagKey>,
    pub value: String,
}

/// Value of the first entry carrying `key`, if any.
pub open spec fn first_tag_value(tags: Seq<TagEntry>, key: TagKey) -> Option<Seq<char>>
    decreases tags.len(),
{
    if tags.len() == 0 {
        None
    } else if tags[0].std_key == Some(key) {
        Some(tags[0].value@)
    } else {
        first_tag_value(tags.skip(1), key)
    }
}

/// Value of the first entry carrying `key`, or the `Unknown` sentinel.
pub open spec fn tag_or_unknown(tags: Seq<TagEntry>, key: TagKey) -> Seq<char> {
    match first_tag_value(tags, key) {
        Some(v) => v,
        None => "Unknown"@,
    }
}

/// Finds the value of the first entry carrying `key`.
pub fn find_tag(tags: &Vec<TagEntry>, key: TagKey) -> (r: Option<String>)
    ensures
        r is Some <==> first_tag_value(tags@, key) is Some,
        r is Some ==> r->0@ == first_tag_value(tags@, key)->0,
{
    let n = tags.len();
    let mut i: usize = 0;
    proof {
        assert(tags@.skip(0) =~= tags@);
    }
    while i < n
        invariant
            n == tags@.len(),
            i <= n,
            first_tag_value(tags@, key) == first_tag_value(tags@.skip(i as int), key),
        decreases n - i,
    {
        let hit = match &tags[i].std_key {
            Some(k) => *k == key,
            None => false,
        };
        proof {
            assert(tags@.skip(i as int)[0] == tags@[i as int]);
            assert(tags@.skip(i as int).skip(1) =~= tags@.skip(i + 1));
        }
        if hit {
            return Some(tags[i].value.clone());
        }
        i = i + 1;
    }
    None
}

/// The value recorded for `key`, defaulting to `Unknown` when no
/// entry carries that key.
pub fn get_tag_or_unknown(tags: &Vec<TagEntry>, tag_name: TagKey) -> (r: String)
    ensures
        r@ == tag_or_unknown(tags@, tag_name),
{
    match find_tag(tags, tag_name) {
        Some(v) => v,
        None => "Unknown".to_owned(),
    }
}

/// Normalized track metadata: each field defaulted to `Unknown` when
/// the decoder offered no value for it.
#[derive(Debug, Clone)]
pub struct Tags {
    pub artist: String,
    pub album: String,
    pub title: String,
}

/// The artist slot prefers the album artist and falls back to the
/// track artist before defaulting.
pub open spec fn artist_or_unknown(tags: Seq<TagEntry>) -> Seq<char> {
    match first_tag_value(tags, TagKey::AlbumArtist) {
        Some(v) => v,
        None => tag_or_unknown(tags, TagKey::Artist),
    }
}

/// Normalizes a decoded tag list into the `{artist, album, title}`
/// triple the import engine works with.
pub fn extract_tags(entries: &Vec<TagEntry>) -> (r: Tags)
    ensures
        r.artist@ == artist_or_unknown(entries@),
        r.album@ == tag_or_unknown(entries@, TagKey::Album),
        r.title@ == tag_or_unknown(entries@, TagKey::TrackTitle),
{
    let artist = match find_tag(entries, TagKey::AlbumArtist) {
        Some(v) => v,
        None => get_tag_or_unknown(entries, TagKey::Artist),
    };
    Tags { artist, album: get_tag_or_unknown(entries, TagKey::Album), title: get_tag_or_unknown(
        entries,
        TagKey::TrackTitle,
    ) }
}

/// The extensions the tool recognizes as audio containers.
pub open spec fn is_audio_ext(e: Seq<char>) -> bool {
    ||| e == "aac"@
    ||| e == "adpcm"@
    ||| e == "aiff"@
    ||| e == "alac"@
    ||| e == "caf"@
    ||| e == "flac"@
    ||| e == "mkv"@
    ||| e == "mp1"@
    ||| e == "mp2"@
    ||| e == "mp3"@
    ||| e == "mp4"@
    ||| e == "ogg"@
    ||| e == "vorbis"@
    ||| e == "wav"@
    ||| e == "webm"@
}

/// Whether `ext` is on the audio-extension allow-list.
pub fn is_audio_extension(ext: &str) -> (r: bool)
    ensures
        r == is_audio_ext(ext@),
{
    str_eq(ext, "aac") || str_eq(ext, "adpcm") || str_eq(ext, "aiff") || str_eq(ext, "alac")
        || str_eq(ext, "caf") || str_eq(ext, "flac") || str_eq(ext, "mkv") || str_eq(ext, "mp1")
        || str_eq(ext, "mp2") || str_eq(ext, "mp3") || str_eq(ext, "mp4") || str_eq(ext, "ogg")
        || str_eq(ext, "vorbis") || str_eq(ext, "wav") || str_eq(ext, "webm")
}

/// A probe failure deserves a warning when the file looks like audio:
/// it has no extension at all, or an extension on the allow-list. A
/// file with some other extension is skipped silently.
pub open spec fn warn_on_probe_failure(p: Seq<char>) -> bool {
    match ext_of(file_name_of(p)) {
        None => true,
        Some(e) => is_audio_ext(e),
    }
}

/// Decides whether a failed probe of `path` deserves a warning.
pub fn should_warn_probe_failure(path: &str) -> (r: bool)
    ensures
        r == warn_on_probe_failure(path@),
{
    let name = match get_file_name(path) {
        Ok(name) => name,
        Err(_) => {
            return true;
        },
    };
    let n = name.as_str().unicode_len();
    let d = match rfind_char(name.as_str(), '.') {
        Some(i) => i,
        None => {
            return true;
        },
    };
    proof {
        lemma_last_index_of(name@, '.');
    }
    if d == 0 {
        return true;
    }
    let ext = name.as_str().substring_char(d + 1, n);
    is_audio_extension(ext)
}

} // verus!
