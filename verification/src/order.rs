//! Deterministic ordering of candidate paths. Discovery sorts its
//! output lexicographically so repeated runs process files in the
//! same order and version suffixes are assigned reproducibly.

use vstd::prelude::*;

use crate::strings::lemma_lex_total;
use crate::strings::lemma_lex_transitive;
use crate::strings::lex_leq;
use crate::strings::str_leq;

verus! {

/// Every pair of entries is in lexicographic order.
pub open spec fn sorted_lex(s: Seq<Seq<char>>) -> bool {
    forall|i: int, j: int| 0 <= i < j < s.len() ==> lex_leq(#[trigger] s[i], #[trigger] s[j])
}

/// `x` placed before the first entry of `s` that does not precede it.
pub open spec fn insert_lex(s: Seq<Seq<char>>, x: Seq<char>) -> Seq<Seq<char>>
    decreases s.len(),
{
    if s.len() == 0 {
        seq![x]
    } else if lex_leq(s[0], x) {
        seq![s[0]] + insert_lex(s.skip(1), x)
    } else {
        seq![x] + s
    }
}

/// The entries of `s`, sorted lexicographically by insertion.
pub open spec fn sort_lex(s: Seq<Seq<char>>) -> Seq<Seq<char>>
    decreases s.len(),
{
    if s.len() == 0 {
        Seq::empty()
    } else {
        insert_lex(sort_lex(s.drop_last()), s.last())
    }
}

/// Inserting keeps order, grows the length by one, and adds exactly
/// the inserted entry to the members.
pub proof fn lemma_insert_lex_props(s: Seq<Seq<char>>, x: Seq<char>)
    requires
        sorted_lex(s),
    ensures
        sorted_lex(insert_lex(s, x)),
        insert_lex(s, x).len() == s.len() + 1,
        forall|y: Seq<char>|
            #[trigger] insert_lex(s, x).contains(y) <==> (y == x || s.contains(y)),
    decreases s.len(),
{
    let out = insert_lex(s, x);
    if s.len() == 0 {
        assert(out =~= seq![x]);
        assert(out[0] == x);
        assert forall|y: Seq<char>| #[trigger] out.contains(y) implies (y == x || s.contains(
            y,
        )) by {
            let i = choose|i: int| 0 <= i < out.len() && out[i] == y;
            assert(i == 0);
        }
    } else if lex_leq(s[0], x) {
        let tail = s.skip(1);
        assert(sorted_lex(tail)) by {
            assert(forall|i: int, j: int|
                0 <= i < j < tail.len() ==> lex_leq(#[trigger] tail[i], #[trigger] tail[j]))
                by {
                assert(forall|i: int| 0 <= i < tail.len() ==> tail[i] == s[i + 1]);
            }
        }
        lemma_insert_lex_props(tail, x);
        let rec = insert_lex(tail, x);
        assert(out =~= seq![s[0]] + rec);
        // The head precedes every entry of the recursive insertion.
        assert forall|j: int| 0 < j < out.len() implies lex_leq(out[0], #[trigger] out[j]) by {
            assert(out[j] == rec[j - 1]);
            assert(rec.contains(rec[j - 1]));
            if rec[j - 1] == x {
                assert(lex_leq(s[0], x));
            } else {
                let k = choose|k: int| 0 <= k < tail.len() && tail[k] == rec[j - 1];
                assert(tail[k] == s[k + 1]);
                assert(lex_leq(s[0], s[k + 1]));
            }
        }
        assert forall|i: int, j: int| 0 <= i < j < out.len() implies lex_leq(
            #[trigger] out[i],
            #[trigger] out[j],
        ) by {
            if i > 0 {
                assert(out[i] == rec[i - 1]);
                assert(out[j] == rec[j - 1]);
            }
        }
        assert forall|y: Seq<char>| #[trigger] out.contains(y) implies (y == x || s.contains(
            y,
        )) by {
            let i = choose|i: int| 0 <= i < out.len() && out[i] == y;
            if i == 0 {
                assert(s[0] == y);
            } else {
                assert(rec.contains(out[i]));
                if y != x {
                    let k = choose|k: int| 0 <= k < tail.len() && tail[k] == y;
                    assert(s[k + 1] == y);
                }
            }
        }
        assert forall|y: Seq<char>| (y == x || s.contains(y)) implies #[trigger] out.contains(
            y,
        ) by {
            if y == x {
                assert(rec.contains(x));
                let k = choose|k: int| 0 <= k < rec.len() && rec[k] == x;
                assert(out[k + 1] == x);
            } else {
                let i = choose|i: int| 0 <= i < s.len() && s[i] == y;
                if i == 0 {
                    assert(out[0] == y);
                } else {
                    assert(tail[i - 1] == y);
                    assert(rec.contains(y));
                    let k = choose|k: int| 0 <= k < rec.len() && rec[k] == y;
                    assert(out[k + 1] == y);
                }
            }
        }
    } else {
        lemma_lex_total(s[0], x);
        assert(out =~= seq![x] + s);
        assert forall|i: int, j: int| 0 <= i < j < out.len() implies lex_leq(
            #[trigger] out[i],
            #[trigger] out[j],
        ) by {
            if i == 0 {
                assert(out[j] == s[j - 1]);
                if j - 1 == 0 {
                    assert(lex_leq(x, s[0]));
                } else {
                    assert(lex_leq(s[0], s[j - 1]));
                    lemma_lex_transitive(x, s[0], s[j - 1]);
                }
            } else {
                assert(out[i] == s[i - 1]);
                assert(out[j] == s[j - 1]);
            }
        }
        assert forall|y: Seq<char>| #[trigger] out.contains(y) implies (y == x || s.contains(
            y,
        )) by {
            let i = choose|i: int| 0 <= i < out.len() && out[i] == y;
            if i > 0 {
                assert(s[i - 1] == y);
            }
        }
        assert forall|y: Seq<char>| (y == x || s.contains(y)) implies #[trigger] out.contains(
            y,
        ) by {
            if y == x {
                assert(out[0] == y);
            } else {
                let i = choose|i: int| 0 <= i < s.len() && s[i] == y;
                assert(out[i + 1] == y);
            }
        }
    }
}

/// Sorting keeps exactly the members of its input, in order.
pub proof fn lemma_sort_lex_props(s: Seq<Seq<char>>)
    ensures
        sorted_lex(sort_lex(s)),
        sort_lex(s).len() == s.len(),
        forall|y: Seq<char>| #[trigger] sort_lex(s).contains(y) <==> s.contains(y),
    decreases s.len(),
{
    if s.len() > 0 {
        lemma_sort_lex_props(s.drop_last());
        lemma_insert_lex_props(sort_lex(s.drop_last()), s.last());
        assert forall|y: Seq<char>| #[trigger] sort_lex(s).contains(y) implies s.contains(y) by {
            if y == s.last() {
                assert(s[s.len() - 1] == y);
            } else {
                assert(sort_lex(s.drop_last()).contains(y));
                let i = choose|i: int| 0 <= i < s.drop_last().len() && s.drop_last()[i] == y;
                assert(s[i] == y);
            }
        }
        assert forall|y: Seq<char>| s.contains(y) implies #[trigger] sort_lex(s).contains(y) by {
            let i = choose|i: int| 0 <= i < s.len() && s[i] == y;
            if i < s.len() - 1 {
                assert(s.drop_last()[i] == y);
                assert(sort_lex(s.drop_last()).contains(y));
            }
        }
    }
}

/// Where `x` belongs in the sorted `s`: before the first entry that
/// does not precede it.
proof fn lemma_insert_lex_at(s: Seq<Seq<char>>, x: Seq<char>, j: int)
    requires
        0 <= j <= s.len(),
        forall|k: int| 0 <= k < j ==> lex_leq(#[trigger] s[k], x),
        j < s.len() ==> !lex_leq(s[j], x),
    ensures
        insert_lex(s, x) == s.take(j) + seq![x] + s.skip(j),
    decreases j,
{
    if s.len() == 0 {
        assert(insert_lex(s, x) =~= s.take(j) + seq![x] + s.skip(j));
    } else if j == 0 {
        assert(s.take(0) =~= Seq::<Seq<char>>::empty());
        assert(s.skip(0) =~= s);
        assert(insert_lex(s, x) =~= s.take(0) + seq![x] + s.skip(0));
    } else {
        assert(lex_leq(s[0], x));
        let tail = s.skip(1);
        assert(forall|k: int| 0 <= k < j - 1 ==> lex_leq(#[trigger] tail[k], x)) by {
            assert(forall|k: int| 0 <= k < tail.len() ==> tail[k] == s[k + 1]);
        }
        if j - 1 < tail.len() {
            assert(tail[j - 1] == s[j]);
        }
        lemma_insert_lex_at(tail, x, j - 1);
        assert(insert_lex(s, x) =~= seq![s[0]] + (tail.take(j - 1) + seq![x] + tail.skip(j - 1)));
        assert(tail.skip(j - 1) =~= s.skip(j));
        assert(seq![s[0]] + tail.take(j - 1) =~= s.take(j));
        assert(seq![s[0]] + (tail.take(j - 1) + seq![x] + tail.skip(j - 1)) =~= s.take(j)
            + seq![x] + s.skip(j));
    }
}

/// Index of the first entry of the sorted `r` that does not precede
/// `x`: the position where `x` belongs.
fn find_insert_at(r: &Vec<String>, x: &str) -> (j: usize)
    ensures
        j <= r.len(),
        forall|k: int| 0 <= k < j ==> lex_leq(#[trigger] r.deep_view()[k], x@),
        j < r.len() ==> !lex_leq(r.deep_view()[j as int], x@),
{
    let n = r.len();
    let mut j: usize = 0;
    while j < n
        invariant
            n == r.len(),
            j <= n,
            forall|k: int| 0 <= k < j ==> lex_leq(#[trigger] r.deep_view()[k], x@),
        decreases n - j,
    {
        if !str_leq(r[j].as_str(), x) {
            return j;
        }
        j = j + 1;
    }
    j
}

/// Inserts `x` into the sorted `r`, keeping it sorted.
fn insert_sorted(r: &mut Vec<String>, x: String)
    requires
        sorted_lex(old(r).deep_view()),
    ensures
        sorted_lex(final(r).deep_view()),
        final(r).deep_view() == insert_lex(old(r).deep_view(), x@),
{
    let ghost dv = r.deep_view();
    let j = find_insert_at(r, x.as_str());
    proof {
        lemma_insert_lex_at(dv, x@, j as int);
        lemma_insert_lex_props(dv, x@);
    }
    r.insert(j, x);
    proof {
        assert(r.deep_view() =~= dv.take(j as int) + seq![x@] + dv.skip(j as int));
    }
}

/// Sorts path strings lexicographically by code point.
pub fn sort_strings(v: &Vec<String>) -> (r: Vec<String>)
    ensures
        r.deep_view() == sort_lex(v.deep_view()),
        sorted_lex(r.deep_view()),
{
    let ghost dv = v.deep_view();
    let mut r: Vec<String> = Vec::new();
    let n = v.len();
    let mut i: usize = 0;
    proof {
        assert(dv.take(0) =~= Seq::<Seq<char>>::empty());
        assert(r.deep_view() =~= sort_lex(dv.take(0)));
    }
    while i < n
        invariant
            n == v.len(),
            dv == v.deep_view(),
            i <= n,
            r.deep_view() == sort_lex(dv.take(i as int)),
            sorted_lex(r.deep_view()),
        decreases n - i,
    {
        proof {
            assert(dv.take(i + 1).drop_last() =~= dv.take(i as int));
            assert(dv.take(i + 1).last() == dv[i as int]);
        }
        insert_sorted(&mut r, v[i].clone());
        i = i + 1;
    }
    proof {
        assert(dv.take(n as int) =~= dv);
    }
    r
}

} // verus!
