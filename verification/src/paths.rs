//! A plain-string model of filesystem paths. A path is a sequence of
//! characters; its file name is the text after the last `/`, the stem
//! is the file name up to its last `.` (a leading dot marks a hidden
//! file, not an extension), and the extension is what follows that
//! dot. The surrounding application converts real paths to and from
//! these strings.

use vstd::prelude::*;

use crate::strings::contains_seq;
use crate::strings::str_contains;

verus! {

/// Index of the last occurrence of `c` in `s`, or `-1` when absent.
pub open spec fn last_index_of(s: Seq<char>, c: char) -> int
    decreases s.len(),
{
    if s.len() == 0 {
        -1
    } else if s.last() == c {
        s.len() - 1
    } else {
        last_index_of(s.drop_last(), c)
    }
}

/// The defining properties of `last_index_of`.
pub proof fn lemma_last_index_of(s: Seq<char>, c: char)
    ensures
        -1 <= last_index_of(s, c) < s.len(),
        last_index_of(s, c) >= 0 ==> s[last_index_of(s, c)] == c,
        forall|j: int| last_index_of(s, c) < j < s.len() ==> #[trigger] s[j] != c,
    decreases s.len(),
{
    if s.len() > 0 && s.last() != c {
        lemma_last_index_of(s.drop_last(), c);
        assert forall|j: int| last_index_of(s, c) < j < s.len() implies #[trigger] s[j] != c by {
            if j < s.len() - 1 {
                assert(s.drop_last()[j] != c);
            }
        }
    }
}

/// Appending text free of `c` does not move the last occurrence of `c`.
pub proof fn lemma_last_index_of_append(x: Seq<char>, y: Seq<char>, c: char)
    requires
        forall|i: int| 0 <= i < y.len() ==> #[trigger] y[i] != c,
    ensures
        last_index_of(x + y, c) == last_index_of(x, c),
    decreases y.len(),
{
    if y.len() == 0 {
        assert(x + y =~= x);
    } else {
        assert((x + y).last() == y.last());
        assert((x + y).drop_last() =~= x + y.drop_last());
        lemma_last_index_of_append(x, y.drop_last(), c);
    }
}

/// The text after the last `/`; the whole of `p` when it has none.
pub open spec fn file_name_of(p: Seq<char>) -> Seq<char> {
    p.subrange(last_index_of(p, '/') + 1, p.len() as int)
}

/// Whether `p` has a `/`, so that a parent can be split off.
pub open spec fn has_parent(p: Seq<char>) -> bool {
    last_index_of(p, '/') >= 0
}

/// The text before the last `/`.
pub open spec fn parent_of(p: Seq<char>) -> Seq<char> {
    p.subrange(0, last_index_of(p, '/'))
}

/// The file name of a path built by joining has no separator, so it
/// is the joined segment itself.
pub proof fn lemma_file_name_of_join(base: Seq<char>, name: Seq<char>)
    requires
        forall|i: int| 0 <= i < name.len() ==> #[trigger] name[i] != '/',
    ensures
        file_name_of(base + seq!['/'] + name) == name,
        has_parent(base + seq!['/'] + name),
        parent_of(base + seq!['/'] + name) == base,
{
    let p = base + seq!['/'] + name;
    lemma_last_index_of_append(base + seq!['/'], name, '/');
    assert((base + seq!['/']).last() == '/');
    assert(last_index_of(base + seq!['/'], '/') == base.len());
    assert(last_index_of(p, '/') == base.len());
    assert(file_name_of(p) =~= name);
    assert(parent_of(p) =~= base);
}

/// Stem of a file name: the text before its last `.`, except that a
/// dot in first position (a hidden file) starts no extension.
pub open spec fn stem_of(name: Seq<char>) -> Seq<char> {
    let d = last_index_of(name, '.');
    if d <= 0 {
        name
    } else {
        name.subrange(0, d)
    }
}

/// Extension of a file name: the text after its last `.`, when that
/// dot is past the first position.
pub open spec fn ext_of(name: Seq<char>) -> Option<Seq<char>> {
    let d = last_index_of(name, '.');
    if d <= 0 {
        None
    } else {
        Some(name.subrange(d + 1, name.len() as int))
    }
}

/// The message the library reports for a path it cannot split.
pub open spec fn invalid_path_msg(p: Seq<char>) -> Seq<char> {
    "invalid path "@ + p
}

/// Builds the report for a path the library cannot split.
pub fn get_invalid_path_error(path: &str) -> (r: String)
    ensures
        r@ == invalid_path_msg(path@),
{
    let mut s = String::new();
    s.append("invalid path ");
    s.append(path);
    proof {
        assert(s@ =~= invalid_path_msg(path@));
    }
    s
}

/// Index of the last occurrence of `c`, scanning right to left.
pub fn rfind_char(s: &str, c: char) -> (r: Option<usize>)
    ensures
        r is Some ==> r->0 == last_index_of(s@, c) && r->0 < s@.len(),
        r is None ==> last_index_of(s@, c) == -1,
{
    let n = s.unicode_len();
    let mut i = n;
    while i > 0
        invariant
            i <= n,
            n == s@.len(),
            forall|j: int| i <= j < n ==> #[trigger] s@[j] != c,
        decreases i,
    {
        i = i - 1;
        if s.get_char(i) == c {
            proof {
                lemma_last_index_of(s@, c);
                let l = last_index_of(s@, c);
                assert(l == i) by {
                    if l > i {
                        assert(s@[l] != c);
                    }
                    if l < i {
                        assert(s@[i as int] != c);
                    }
                }
            }
            return Some(i);
        }
    }
    proof {
        lemma_last_index_of(s@, c);
        let l = last_index_of(s@, c);
        if l >= 0 {
            assert(s@[l] != c);
        }
    }
    None
}

/// Splits off the file name: the text after the last `/`. A path that
/// ends in a separator, or an empty path, has none and is reported as
/// invalid.
pub fn get_file_name(path: &str) -> (r: Result<String, String>)
    ensures
        r is Ok <==> file_name_of(path@).len() > 0,
        r is Ok ==> r->Ok_0@ == file_name_of(path@),
        r is Err ==> r->Err_0@ == invalid_path_msg(path@),
{
    let n = path.unicode_len();
    let start = match rfind_char(path, '/') {
        Some(i) => i + 1,
        None => 0,
    };
    proof {
        lemma_last_index_of(path@, '/');
    }
    if start >= n {
        return Err(get_invalid_path_error(path));
    }
    let name = path.substring_char(start, n);
    Ok(name.to_owned())
}

/// Splits off the stem of the path's file name: that name up to its
/// last `.`, with a dot in first position starting no extension.
pub fn get_file_stem(path: &str) -> (r: Result<String, String>)
    ensures
        r is Ok <==> file_name_of(path@).len() > 0,
        r is Ok ==> r->Ok_0@ == stem_of(file_name_of(path@)),
        r is Err ==> r->Err_0@ == invalid_path_msg(path@),
{
    let name = match get_file_name(path) {
        Ok(name) => name,
        Err(e) => {
            return Err(e);
        },
    };
    let d = match rfind_char(name.as_str(), '.') {
        Some(i) => i,
        None => 0,
    };
    proof {
        lemma_last_index_of(name@, '.');
    }
    if d == 0 {
        return Ok(name);
    }
    let stem = name.as_str().substring_char(0, d);
    Ok(stem.to_owned())
}

/// The text before the last `/`. A path without a separator has no
/// parent here.
pub fn get_parent_directory(path: &str) -> (r: Result<String, String>)
    ensures
        r is Ok <==> has_parent(path@),
        r is Ok ==> r->Ok_0@ == parent_of(path@),
        r is Err ==> r->Err_0@ == "failed to get parent of "@ + path@,
{
    proof {
        lemma_last_index_of(path@, '/');
    }
    match rfind_char(path, '/') {
        Some(i) => {
            let parent = path.substring_char(0, i);
            Ok(parent.to_owned())
        },
        None => {
            let mut s = String::new();
            s.append("failed to get parent of ");
            s.append(path);
            proof {
                assert(s@ =~= "failed to get parent of "@ + path@);
            }
            Err(s)
        },
    }
}

/// An existing file counts as a version of a new one when the
/// existing stem contains the new stem as a substring.
pub open spec fn name_matches(existing: Seq<char>, new: Seq<char>) -> bool {
    contains_seq(stem_of(file_name_of(existing)), stem_of(file_name_of(new)))
}

/// Decides `name_matches`; either path without a file name is
/// reported as invalid.
pub fn matches_file_name(existing_file: &str, new_file: &str) -> (r: Result<bool, String>)
    ensures
        r is Ok <==> file_name_of(existing_file@).len() > 0 && file_name_of(new_file@).len() > 0,
        r is Ok ==> r->Ok_0 == name_matches(existing_file@, new_file@),
        r is Err ==> (r->Err_0@ == invalid_path_msg(existing_file@) || r->Err_0@
            == invalid_path_msg(new_file@)),
{
    let existing_stem = match get_file_stem(existing_file) {
        Ok(s) => s,
        Err(e) => {
            return Err(e);
        },
    };
    let new_stem = match get_file_stem(new_file) {
        Ok(s) => s,
        Err(e) => {
            return Err(e);
        },
    };
    Ok(str_contains(existing_stem.as_str(), new_stem.as_str()))
}

/// Joined path: `base`, a separator, then `segment`.
pub open spec fn joined(base: Seq<char>, segment: Seq<char>) -> Seq<char> {
    base + seq!['/'] + segment
}

/// Joins one segment onto a base path.
pub fn path_join(base: &str, segment: &str) -> (r: String)
    ensures
        r@ == joined(base@, segment@),
{
    let mut s = base.to_owned();
    s.append("/");
    s.append(segment);
    proof {
        reveal_strlit("/");
        assert("/"@ =~= seq!['/']);
        assert(s@ =~= joined(base@, segment@));
    }
    s
}

} // verus!
