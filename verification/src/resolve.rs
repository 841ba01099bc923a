//! The destination resolver. A track lands at
//! `local_directory/artist/album/file_name`; when a file of the same
//! stem already sits in that folder, the resolver scans the folder's
//! entries for `__`-separated version suffixes and picks the next
//! unused number. The resolved path never equals any entry it was
//! shown, so an import never lands on top of an existing file.

use vstd::prelude::*;

use crate::paths::ext_of;
use crate::paths::file_name_of;
use crate::paths::get_invalid_path_error;
use crate::paths::get_file_stem;
use crate::paths::invalid_path_msg;
use crate::paths::joined;
use crate::paths::last_index_of;
use crate::paths::lemma_file_name_of_join;
use crate::paths::lemma_last_index_of;
use crate::paths::lemma_last_index_of_append;
use crate::paths::matches_file_name;
use crate::paths::name_matches;
use crate::paths::path_join;
use crate::paths::rfind_char;
use crate::paths::stem_of;
use crate::strings::contains_seq;
use crate::strings::dec_rep;
use crate::strings::dec_val;
use crate::strings::is_dec_seq;
use crate::strings::is_digit;
use crate::strings::lemma_contains_prefix;
use crate::strings::lemma_contains_self;
use crate::strings::lemma_dec_rep_val;
use crate::strings::parse_u64;
use crate::strings::u64_to_dec;

verus! {

/// Start of the last `__` in `s`, or `-1` when it has none.
pub open spec fn last_uu_index(s: Seq<char>) -> int
    decreases s.len(),
{
    if s.len() < 2 {
        -1
    } else if s[s.len() - 2] == '_' && s[s.len() - 1] == '_' {
        s.len() - 2
    } else {
        last_uu_index(s.drop_last())
    }
}

/// The defining properties of `last_uu_index`.
pub proof fn lemma_last_uu_index(s: Seq<char>)
    ensures
        -1 <= last_uu_index(s),
        last_uu_index(s) >= 0 ==> last_uu_index(s) <= s.len() - 2,
        last_uu_index(s) >= 0 ==> s[last_uu_index(s)] == '_' && s[last_uu_index(s) + 1] == '_',
        forall|j: int|
            last_uu_index(s) < j <= s.len() - 2 ==> !(#[trigger] s[j] == '_' && s[j + 1] == '_'),
    decreases s.len(),
{
    if s.len() >= 2 && !(s[s.len() - 2] == '_' && s[s.len() - 1] == '_') {
        lemma_last_uu_index(s.drop_last());
        assert forall|j: int|
            last_uu_index(s) < j <= s.len() - 2 implies !(#[trigger] s[j] == '_' && s[j + 1]
            == '_') by {
            if j <= s.len() - 3 {
                assert(s.drop_last()[j] == s[j]);
                assert(s.drop_last()[j + 1] == s[j + 1]);
            }
        }
    }
}

/// The version number a file name carries: the digits after the last
/// `__` of its stem, when they parse as a `u64`.
pub open spec fn version_of_name(name: Seq<char>) -> Option<int> {
    let stem = stem_of(name);
    let j = last_uu_index(stem);
    if j >= 0 {
        let suffix = stem.subrange(j + 2, stem.len() as int);
        if is_dec_seq(suffix) && dec_val(suffix) <= u64::MAX {
            Some(dec_val(suffix))
        } else {
            None
        }
    } else {
        None
    }
}

/// Some entry of `existing` counts as a version of the file at `base`.
pub open spec fn any_match(existing: Seq<Seq<char>>, base: Seq<char>) -> bool {
    exists|i: int| 0 <= i < existing.len() && name_matches(#[trigger] existing[i], base)
}

/// Largest version number among the entries of `existing` that count
/// as versions of the file at `base`; `0` when none carries a number.
pub open spec fn max_version(existing: Seq<Seq<char>>, base: Seq<char>) -> int
    decreases existing.len(),
{
    if existing.len() == 0 {
        0
    } else {
        let rest = max_version(existing.drop_last(), base);
        let v = if name_matches(existing.last(), base) {
            match version_of_name(file_name_of(existing.last())) {
                Some(v) => v,
                None => 0,
            }
        } else {
            0
        };
        if v > rest {
            v
        } else {
            rest
        }
    }
}

/// `max_version` is an upper bound on every matching entry's version.
pub proof fn lemma_max_version_bound(existing: Seq<Seq<char>>, base: Seq<char>, i: int)
    requires
        0 <= i < existing.len(),
        name_matches(existing[i], base),
    ensures
        max_version(existing, base) >= 0,
        match version_of_name(file_name_of(existing[i])) {
            Some(v) => v <= max_version(existing, base),
            None => true,
        },
    decreases existing.len(),
{
    lemma_max_version_nonneg(existing, base);
    if i < existing.len() - 1 {
        assert(existing.drop_last()[i] == existing[i]);
        lemma_max_version_bound(existing.drop_last(), base, i);
    }
}

/// The maximum is never negative.
pub proof fn lemma_max_version_nonneg(existing: Seq<Seq<char>>, base: Seq<char>)
    ensures
        max_version(existing, base) >= 0,
    decreases existing.len(),
{
    if existing.len() > 0 {
        lemma_max_version_nonneg(existing.drop_last(), base);
    }
}

/// The file name a version suffix turns `name` into:
/// `stem__N.extension`.
pub open spec fn versioned_name(name: Seq<char>, v: int) -> Seq<char> {
    stem_of(name) + seq!['_', '_'] + dec_rep(v) + seq!['.'] + ext_of(name)->0
}

/// A non-empty file name has a non-empty stem.
pub proof fn lemma_stem_nonempty(name: Seq<char>)
    requires
        name.len() > 0,
    ensures
        stem_of(name).len() > 0,
{
    lemma_last_index_of(name, '.');
}

/// In a name of the shape `stem__digits`, the digits follow the last
/// `__`.
proof fn lemma_last_uu_concat(stem: Seq<char>, dec: Seq<char>)
    requires
        dec.len() > 0,
        forall|i: int| 0 <= i < dec.len() ==> is_digit(#[trigger] dec[i]),
    ensures
        last_uu_index(stem + seq!['_', '_'] + dec) == stem.len(),
    decreases dec.len(),
{
    let s = stem + seq!['_', '_'] + dec;
    assert(s.len() == stem.len() + 2 + dec.len());
    if dec.len() == 1 {
        assert(s[s.len() - 1] == dec[0]);
        assert(is_digit(dec[0]));
        assert(dec[0] != '_');
        assert(s.drop_last() =~= stem + seq!['_', '_']);
        let t = stem + seq!['_', '_'];
        assert(t[t.len() - 2] == '_' && t[t.len() - 1] == '_');
        assert(last_uu_index(t) == stem.len());
    } else {
        assert(s[s.len() - 1] == dec.last());
        assert(s[s.len() - 2] == dec[dec.len() - 2]);
        assert(is_digit(dec.last()));
        assert(dec.last() != '_');
        assert(s.drop_last() =~= stem + seq!['_', '_'] + dec.drop_last());
        lemma_last_uu_concat(stem, dec.drop_last());
    }
}

/// Appending `__N.ext` to a stem produces a name whose version is
/// exactly `N` and whose stem still contains the original stem.
pub proof fn lemma_versioned_name(name: Seq<char>, v: int)
    requires
        name.len() > 0,
        ext_of(name) is Some,
        0 <= v <= u64::MAX,
    ensures
        stem_of(versioned_name(name, v)) == stem_of(name) + seq!['_', '_'] + dec_rep(v),
        version_of_name(versioned_name(name, v)) == Some(v),
        contains_seq(stem_of(versioned_name(name, v)), stem_of(name)),
        versioned_name(name, v).len() > 0,
{
    let stem = stem_of(name);
    let dec = dec_rep(v);
    let ext = ext_of(name)->0;
    let vn = versioned_name(name, v);
    lemma_dec_rep_val(v);
    lemma_stem_nonempty(name);
    let d = last_index_of(name, '.');
    lemma_last_index_of(name, '.');

    // The extension holds no dot, so the last dot of the versioned
    // name is the one written before the extension.
    let x = stem + seq!['_', '_'] + dec + seq!['.'];
    assert(vn =~= x + ext);
    assert(forall|i: int| 0 <= i < ext.len() ==> #[trigger] ext[i] != '.') by {
        assert(forall|i: int|
            0 <= i < ext.len() ==> #[trigger] ext[i] == name[d + 1 + i]);
    }
    lemma_last_index_of_append(x, ext, '.');
    assert(x.last() == '.');
    assert(last_index_of(x, '.') == x.len() - 1);
    assert(last_index_of(vn, '.') == stem.len() + 2 + dec.len());
    assert(stem_of(vn) =~= stem + seq!['_', '_'] + dec);

    // The digits sit after the last double underscore.
    lemma_last_uu_concat(stem, dec);
    let stem2 = stem_of(vn);
    assert(last_uu_index(stem2) == stem.len());
    assert(stem2.subrange(stem.len() as int + 2, stem2.len() as int) =~= dec);
    assert(version_of_name(vn) == Some(v));

    // The original stem is a prefix of the versioned stem.
    assert(stem2.subrange(0, stem.len() as int) =~= stem);
    lemma_contains_prefix(stem2, stem);
}

/// Any text joined after `a` and before `b` occurs in the whole.
pub proof fn lemma_contains_middle(a: Seq<char>, m: Seq<char>, b: Seq<char>)
    ensures
        contains_seq(a + m + b, m),
{
    let s = a + m + b;
    assert(s.subrange(a.len() as int, a.len() + m.len() as int) =~= m);
}

/// Extends `any_match` and `max_version` across one more entry.
proof fn lemma_scan_step(existing: Seq<Seq<char>>, base: Seq<char>, i: int)
    requires
        0 <= i < existing.len(),
    ensures
        any_match(existing.take(i + 1), base) == (any_match(existing.take(i), base)
            || name_matches(existing[i], base)),
        max_version(existing.take(i + 1), base) == {
            let rest = max_version(existing.take(i), base);
            let v = if name_matches(existing[i], base) {
                match version_of_name(file_name_of(existing[i])) {
                    Some(v) => v,
                    None => 0,
                }
            } else {
                0
            };
            if v > rest {
                v
            } else {
                rest
            }
        },
{
    assert(existing.take(i + 1).drop_last() =~= existing.take(i));
    assert(existing.take(i + 1).last() == existing[i]);
    if name_matches(existing[i], base) {
        assert(existing.take(i + 1)[i] == existing[i]);
        assert(any_match(existing.take(i + 1), base));
    }
    if any_match(existing.take(i), base) {
        let j = choose|j: int|
            0 <= j < existing.take(i).len() && name_matches(#[trigger] existing.take(i)[j], base);
        assert(existing.take(i + 1)[j] == existing.take(i)[j]);
        assert(any_match(existing.take(i + 1), base));
    }
    if any_match(existing.take(i + 1), base) && !name_matches(existing[i], base) {
        let j = choose|j: int|
            0 <= j < existing.take(i + 1).len() && name_matches(
                #[trigger] existing.take(i + 1)[j],
                base,
            );
        assert(j < i);
        assert(existing.take(i)[j] == existing.take(i + 1)[j]);
        assert(any_match(existing.take(i), base));
    }
}

/// Reads the version number off a path's file name.
pub fn version_of_path(path: &str) -> (r: Option<u64>)
    ensures
        r is Some <==> version_of_name(file_name_of(path@)) is Some,
        r is Some ==> Some(r->0 as int) == version_of_name(file_name_of(path@)),
{
    let stem = match get_file_stem(path) {
        Ok(s) => s,
        Err(_) => {
            proof {
                assert(file_name_of(path@).len() == 0);
                assert(stem_of(file_name_of(path@)) =~= file_name_of(path@));
            }
            return None;
        },
    };
    let n = stem.as_str().unicode_len();
    let j = match rfind_uu(stem.as_str()) {
        Some(j) => j,
        None => {
            return None;
        },
    };
    let suffix = stem.as_str().substring_char(j + 2, n);
    parse_u64(suffix)
}

/// Start of the last `__` in `s`, scanning right to left.
pub fn rfind_uu(s: &str) -> (r: Option<usize>)
    ensures
        r is Some ==> r->0 == last_uu_index(s@) && r->0 + 2 <= s@.len(),
        r is None ==> last_uu_index(s@) == -1,
{
    let n = s.unicode_len();
    if n < 2 {
        return None;
    }
    let mut i = n - 2;
    loop
        invariant
            n == s@.len(),
            2 <= n,
            i <= n - 2,
            forall|j: int| i < j <= n - 2 ==> !(#[trigger] s@[j] == '_' && s@[j + 1] == '_'),
        decreases i,
    {
        if s.get_char(i) == '_' && s.get_char(i + 1) == '_' {
            proof {
                lemma_last_uu_index(s@);
                let l = last_uu_index(s@);
                assert(l == i) by {
                    if l > i {
                        assert(!(s@[l] == '_' && s@[l + 1] == '_'));
                    }
                    if l < i {
                        assert(!(s@[i as int] == '_' && s@[i as int + 1] == '_'));
                    }
                }
            }
            return Some(i);
        }
        if i == 0 {
            proof {
                lemma_last_uu_index(s@);
                let l = last_uu_index(s@);
                if l >= 0 {
                    assert(!(s@[l] == '_' && s@[l + 1] == '_'));
                }
            }
            return None;
        }
        i = i - 1;
    }
}

/// The message reported when a colliding destination has no extension
/// to build a version suffix around.
pub open spec fn no_version_msg(p: Seq<char>) -> Seq<char> {
    "no unused version suffix for "@ + p
}

/// Where a file named `name`, filed under `artist` and `album`, lands
/// below `local`: the base path when it is free, otherwise the next
/// version-suffixed name; an error when no suffix can be built.
pub open spec fn resolved_destination(
    local: Seq<char>,
    artist: Seq<char>,
    album: Seq<char>,
    name: Seq<char>,
    existing: Seq<Seq<char>>,
) -> Result<Seq<char>, Seq<char>> {
    let prefix = joined(joined(local, artist), album);
    let base = joined(prefix, name);
    if !any_match(existing, base) {
        Ok(base)
    } else if ext_of(name) is None {
        Err(invalid_path_msg(base))
    } else if max_version(existing, base) == u64::MAX {
        Err(no_version_msg(base))
    } else {
        Ok(joined(prefix, versioned_name(name, max_version(existing, base) + 1)))
    }
}

/// Computes where a source file named `file_name`, tagged with
/// `artist` and `album`, lands under `local_directory`, given the
/// paths already present in the destination folder.
///
/// When no existing entry's stem contains the new stem, the base path
/// is free and is returned. Otherwise the next unused version number
/// is appended to the stem. Either way the result differs from every
/// entry of `existing`, and it always passes through an
/// `artist/album` folder pair, so a missing album tag shows up as a
/// literal `Unknown` segment.
pub fn resolve_destination(
    local_directory: &str,
    artist: &str,
    album: &str,
    file_name: &str,
    existing: &Vec<String>,
) -> (r: Result<String, String>)
    requires
        file_name@.len() > 0,
        forall|i: int| 0 <= i < file_name@.len() ==> #[trigger] file_name@[i] != '/',
    ensures
        ({
            let ex = existing.deep_view();
            let spec_r = resolved_destination(local_directory@, artist@, album@, file_name@, ex);
            &&& (r is Ok <==> spec_r is Ok)
            &&& (r is Ok ==> r->Ok_0@ == spec_r->Ok_0)
            &&& (r is Err ==> r->Err_0@ == spec_r->Err_0)
            &&& (r is Ok ==> forall|i: int| 0 <= i < ex.len() ==> r->Ok_0@ != #[trigger] ex[i])
            &&& (r is Ok ==> contains_seq(r->Ok_0@, album@))
        }),
{
    let prefix = path_join(path_join(local_directory, artist).as_str(), album);
    let base = path_join(prefix.as_str(), file_name);
    let ghost ex = existing.deep_view();
    proof {
        lemma_file_name_of_join(prefix@, file_name@);
        lemma_stem_nonempty(file_name@);
        assert(ex.take(0) =~= Seq::<Seq<char>>::empty());
    }

    let n = existing.len();
    let mut found = false;
    let mut maxv: u64 = 0;
    let mut i: usize = 0;
    while i < n
        invariant
            n == existing.len(),
            ex == existing.deep_view(),
            i <= n,
            file_name@.len() > 0,
            forall|k: int| 0 <= k < file_name@.len() ==> #[trigger] file_name@[k] != '/',
            base@ == joined(prefix@, file_name@),
            file_name_of(base@) == file_name@,
            stem_of(file_name@).len() > 0,
            found == any_match(ex.take(i as int), base@),
            maxv as int == max_version(ex.take(i as int), base@),
        decreases n - i,
    {
        let is_match = match matches_file_name(existing[i].as_str(), base.as_str()) {
            Ok(b) => b,
            Err(_) => {
                proof {
                    // The new path has a file name, so only the
                    // existing entry can lack one; an empty stem
                    // contains no non-empty stem.
                    assert(file_name_of(ex[i as int]).len() == 0);
                    assert(stem_of(file_name_of(ex[i as int])) =~= file_name_of(ex[i as int]));
                    assert(!name_matches(ex[i as int], base@));
                }
                false
            },
        };
        if is_match {
            found = true;
            let v = match version_of_path(existing[i].as_str()) {
                Some(v) => v,
                None => 0,
            };
            if v > maxv {
                maxv = v;
            }
            proof {
                lemma_max_version_nonneg(ex.take(i as int), base@);
            }
        }
        proof {
            lemma_scan_step(ex, base@, i as int);
        }
        i = i + 1;
    }
    proof {
        assert(ex.take(n as int) =~= ex);
    }

    if !found {
        proof {
            assert forall|k: int| 0 <= k < ex.len() implies base@ != #[trigger] ex[k] by {
                if base@ == ex[k] {
                    lemma_contains_self(stem_of(file_name_of(base@)));
                    assert(name_matches(ex[k], base@));
                }
            }
            lemma_contains_middle(
                local_directory@ + seq!['/'] + artist@ + seq!['/'],
                album@,
                seq!['/'] + file_name@,
            );
            assert(base@ =~= (local_directory@ + seq!['/'] + artist@ + seq!['/']) + album@ + (
            seq!['/'] + file_name@));
        }
        return Ok(base);
    }

    let name_len = file_name.unicode_len();
    let d = match rfind_char(file_name, '.') {
        Some(d) => d,
        None => 0,
    };
    proof {
        lemma_last_index_of(file_name@, '.');
    }
    if d == 0 {
        return Err(get_invalid_path_error(base.as_str()));
    }
    if maxv == u64::MAX {
        let mut msg = String::new();
        msg.append("no unused version suffix for ");
        msg.append(base.as_str());
        proof {
            assert(msg@ =~= no_version_msg(base@));
        }
        return Err(msg);
    }

    let stem = file_name.substring_char(0, d);
    let ext = file_name.substring_char(d + 1, name_len);
    let next = maxv + 1;
    let dec = u64_to_dec(next);
    let mut newname = stem.to_owned();
    newname.append("__");
    newname.append(dec.as_str());
    newname.append(".");
    newname.append(ext);
    proof {
        reveal_strlit("__");
        reveal_strlit(".");
        assert("__"@ =~= seq!['_', '_']);
        assert("."@ =~= seq!['.']);
        assert(newname@ =~= versioned_name(file_name@, next as int));
    }
    let dest = path_join(prefix.as_str(), newname.as_str());
    proof {
        lemma_versioned_name(file_name@, next as int);
        lemma_dec_rep_val(next as int);
        assert(forall|k: int|
            0 <= k < newname@.len() ==> #[trigger] newname@[k] != '/') by {
            assert(forall|k: int|
                0 <= k < stem_of(file_name@).len() ==> #[trigger] stem_of(file_name@)[k]
                    == file_name@[k]);
            assert(forall|k: int|
                0 <= k < dec_rep(next as int).len() ==> is_digit(
                    #[trigger] dec_rep(next as int)[k],
                ));
            assert(forall|k: int|
                0 <= k < ext_of(file_name@)->0.len() ==> #[trigger] ext_of(file_name@)->0[k]
                    == file_name@[last_index_of(file_name@, '.') + 1 + k]);
        }
        lemma_file_name_of_join(prefix@, newname@);
        assert forall|k: int| 0 <= k < ex.len() implies dest@ != #[trigger] ex[k] by {
            if dest@ == ex[k] {
                assert(file_name_of(ex[k]) == newname@);
                assert(name_matches(ex[k], base@)) by {
                    assert(contains_seq(stem_of(newname@), stem_of(file_name@)));
                }
                lemma_max_version_bound(ex, base@, k);
                assert(version_of_name(file_name_of(ex[k])) == Some(next as int));
            }
        }
        lemma_contains_middle(
            local_directory@ + seq!['/'] + artist@ + seq!['/'],
            album@,
            seq!['/'] + newname@,
        );
        assert(dest@ =~= (local_directory@ + seq!['/'] + artist@ + seq!['/']) + album@ + (
        seq!['/'] + newname@));
    }
    Ok(dest)
}

} // verus!
