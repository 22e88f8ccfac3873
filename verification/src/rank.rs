//! The ranker: applies the matcher across the whole collection, keeps
//! the bookmarks with a positive score, orders them best score first
//! with ties in source order, and caps the list for display.

use vstd::prelude::*;

use crate::bookmark::Bookmark;
use crate::matcher::is_match;
use crate::matcher::match_score;

verus! {

/// The display cap: at most this many ranked results are surfaced.
pub const RESULT_CAP: usize = 10;

/// The matching bookmarks among the first `n` elements of `bs`, each
/// paired with its position in the source collection, in source order.
pub open spec fn matched_prefix(bs: Seq<Bookmark>, q: Seq<char>, n: int) -> Seq<(Bookmark, int)>
    decreases n,
{
    if n <= 0 {
        Seq::empty()
    } else {
        let rest = matched_prefix(bs, q, n - 1);
        if is_match(bs[n - 1].name@, q) {
            rest.push((bs[n - 1], n - 1))
        } else {
            rest
        }
    }
}

/// All matching bookmarks of `bs`, paired with their source positions.
pub open spec fn matched_pairs(bs: Seq<Bookmark>, q: Seq<char>) -> Seq<(Bookmark, int)> {
    matched_prefix(bs, q, bs.len() as int)
}

/// `x` ranks strictly before `y`: a strictly better score, or an
/// equal score and an earlier source position.
pub open spec fn ranks_before(x: (Bookmark, int), y: (Bookmark, int), q: Seq<char>) -> bool {
    ||| match_score(x.0.name@, q) > match_score(y.0.name@, q)
    ||| (match_score(x.0.name@, q) == match_score(y.0.name@, q) && x.1 < y.1)
}

/// A sequence is ranked when every element ranks strictly before all
/// later ones.
pub open spec fn is_ranked(s: Seq<(Bookmark, int)>, q: Seq<char>) -> bool {
    forall|i: int, j: int| 0 <= i < j < s.len() ==> ranks_before(s[i], s[j], q)
}

/// Inserts `p` into the ranked `s`, just before the first entry that
/// `p` ranks before.
pub open spec fn insert_ranked(
    p: (Bookmark, int),
    s: Seq<(Bookmark, int)>,
    q: Seq<char>,
) -> Seq<(Bookmark, int)>
    decreases s.len(),
{
    if s.len() == 0 {
        seq![p]
    } else if ranks_before(p, s[0], q) {
        seq![p] + s
    } else {
        seq![s[0]] + insert_ranked(p, s.drop_first(), q)
    }
}

/// Sorts by repeated insertion, taking elements in source order, so
/// that of two entries with equal scores the earlier one stays first.
pub open spec fn sort_ranked(s: Seq<(Bookmark, int)>, q: Seq<char>) -> Seq<(Bookmark, int)>
    decreases s.len(),
{
    if s.len() == 0 {
        Seq::empty()
    } else {
        insert_ranked(s.last(), sort_ranked(s.drop_last(), q), q)
    }
}

/// The matching bookmarks with their source positions, best first,
/// before the display cap is applied.
pub open spec fn ranked_pairs(bs: Seq<Bookmark>, q: Seq<char>) -> Seq<(Bookmark, int)> {
    sort_ranked(matched_pairs(bs, q), q)
}

/// What the ranker returns: the ranked matches, capped for display.
pub open spec fn rank_spec(bs: Seq<Bookmark>, q: Seq<char>) -> Seq<Bookmark> {
    let rp = ranked_pairs(bs, q);
    let capped = if rp.len() > RESULT_CAP as int {
        rp.take(RESULT_CAP as int)
    } else {
        rp
    };
    capped.map_values(|p: (Bookmark, int)| p.0)
}

/// Each entry of a matched prefix carries the source element at its
/// recorded position, that position lies below `n`, the element
/// matches, and positions grow strictly from left to right.
pub proof fn lemma_matched_prefix_props(bs: Seq<Bookmark>, q: Seq<char>, n: int)
    requires
        0 <= n <= bs.len(),
    ensures
        matched_prefix(bs, q, n).len() <= n,
        forall|k: int|
            0 <= k < matched_prefix(bs, q, n).len() ==> {
                let p = #[trigger] matched_prefix(bs, q, n)[k];
                &&& 0 <= p.1 < n
                &&& p.0 == bs[p.1]
                &&& is_match(bs[p.1].name@, q)
            },
        forall|k1: int, k2: int|
            0 <= k1 < k2 < matched_prefix(bs, q, n).len()
                ==> #[trigger] matched_prefix(bs, q, n)[k1].1
                < #[trigger] matched_prefix(bs, q, n)[k2].1,
    decreases n,
{
    if n > 0 {
        lemma_matched_prefix_props(bs, q, n - 1);
    }
}

/// Inserting an entry with a fresh source position into a ranked
/// sequence keeps it ranked, adds one to the length, and adds exactly
/// that entry to the contents.
pub proof fn lemma_insert_ranked_props(p: (Bookmark, int), s: Seq<(Bookmark, int)>, q: Seq<char>)
    requires
        is_ranked(s, q),
        forall|k: int| 0 <= k < s.len() ==> #[trigger] s[k].1 != p.1,
    ensures
        insert_ranked(p, s, q).len() == s.len() + 1,
        forall|x: (Bookmark, int)|
            #[trigger] insert_ranked(p, s, q).contains(x) <==> (x == p || s.contains(x)),
        is_ranked(insert_ranked(p, s, q), q),
    decreases s.len(),
{
    let r = insert_ranked(p, s, q);
    if s.len() == 0 {
        assert forall|x: (Bookmark, int)| #[trigger] r.contains(x) implies (x == p || s.contains(
            x,
        )) by {
            let i = choose|i: int| 0 <= i < r.len() && r[i] == x;
            assert(r[i] == p);
        }
        assert(r.contains(p)) by {
            assert(r[0] == p);
        }
    } else if ranks_before(p, s[0], q) {
        assert(r == seq![p] + s);
        assert forall|i: int, j: int| 0 <= i < j < r.len() implies ranks_before(r[i], r[j], q) by {
            if i == 0 {
                assert(r[0] == p);
                if j > 1 {
                    assert(ranks_before(s[0], s[j - 1], q));
                }
            } else {
                assert(ranks_before(s[i - 1], s[j - 1], q));
            }
        }
        assert forall|x: (Bookmark, int)| #[trigger] r.contains(x) implies (x == p || s.contains(
            x,
        )) by {
            let i = choose|i: int| 0 <= i < r.len() && r[i] == x;
            if i > 0 {
                assert(s[i - 1] == x);
            }
        }
        assert forall|x: (Bookmark, int)| (x == p || s.contains(x)) implies #[trigger] r.contains(
            x,
        ) by {
            if x == p {
                assert(r[0] == x);
            } else {
                let i = choose|i: int| 0 <= i < s.len() && s[i] == x;
                assert(r[i + 1] == x);
            }
        }
    } else {
        let tail = s.drop_first();
        assert forall|i: int, j: int| 0 <= i < j < tail.len() implies ranks_before(
            tail[i],
            tail[j],
            q,
        ) by {
            assert(ranks_before(s[i + 1], s[j + 1], q));
        }
        assert forall|k: int| 0 <= k < tail.len() implies #[trigger] tail[k].1 != p.1 by {
            assert(s[k + 1].1 != p.1);
        }
        lemma_insert_ranked_props(p, tail, q);
        let ins = insert_ranked(p, tail, q);
        assert(r == seq![s[0]] + ins);
        // The head ranks before the inserted entry too: the order is
        // total on entries with distinct source positions.
        assert(ranks_before(s[0], p, q));
        assert forall|i: int, j: int| 0 <= i < j < r.len() implies ranks_before(r[i], r[j], q) by {
            if i == 0 {
                let x = ins[j - 1];
                assert(ins.contains(x)) by {
                    assert(ins[j - 1] == x);
                }
                if x != p {
                    let k = choose|k: int| 0 <= k < tail.len() && tail[k] == x;
                    assert(ranks_before(s[0], s[k + 1], q));
                }
            } else {
                assert(ranks_before(ins[i - 1], ins[j - 1], q));
            }
        }
        assert forall|x: (Bookmark, int)| #[trigger] r.contains(x) implies (x == p || s.contains(
            x,
        )) by {
            let i = choose|i: int| 0 <= i < r.len() && r[i] == x;
            if i == 0 {
                assert(s[0] == x);
            } else {
                assert(ins[i - 1] == x);
                assert(ins.contains(x));
                if x != p {
                    let k = choose|k: int| 0 <= k < tail.len() && tail[k] == x;
                    assert(s[k + 1] == x);
                }
            }
        }
        assert forall|x: (Bookmark, int)| (x == p || s.contains(x)) implies #[trigger] r.contains(
            x,
        ) by {
            if x == p {
                assert(ins.contains(x));
                let k = choose|k: int| 0 <= k < ins.len() && ins[k] == x;
                assert(r[k + 1] == x);
            } else {
                let i = choose|i: int| 0 <= i < s.len() && s[i] == x;
                if i == 0 {
                    assert(r[0] == x);
                } else {
                    assert(tail[i - 1] == x);
                    assert(tail.contains(x)) by {
                        assert(tail[i - 1] == x);
                    }
                    assert(ins.contains(x));
                    let k = choose|k: int| 0 <= k < ins.len() && ins[k] == x;
                    assert(r[k + 1] == x);
                }
            }
        }
    }
}

/// Sorting a sequence whose entries have pairwise distinct source
/// positions yields a ranked sequence with the same length and the
/// same contents.
pub proof fn lemma_sort_ranked_props(s: Seq<(Bookmark, int)>, q: Seq<char>)
    requires
        forall|k1: int, k2: int|
            0 <= k1 < k2 < s.len() ==> #[trigger] s[k1].1 != #[trigger] s[k2].1,
    ensures
        sort_ranked(s, q).len() == s.len(),
        forall|x: (Bookmark, int)| #[trigger] sort_ranked(s, q).contains(x) <==> s.contains(x),
        is_ranked(sort_ranked(s, q), q),
    decreases s.len(),
{
    let r = sort_ranked(s, q);
    if s.len() == 0 {
        assert forall|x: (Bookmark, int)| #[trigger] r.contains(x) implies s.contains(x) by {
            let i = choose|i: int| 0 <= i < r.len() && r[i] == x;
        }
        assert forall|x: (Bookmark, int)| s.contains(x) implies #[trigger] r.contains(x) by {
            let i = choose|i: int| 0 <= i < s.len() && s[i] == x;
        }
    } else {
        let init = s.drop_last();
        let p = s.last();
        assert forall|k1: int, k2: int| 0 <= k1 < k2 < init.len() implies #[trigger] init[k1].1
            != #[trigger] init[k2].1 by {
            assert(s[k1].1 != s[k2].1);
        }
        lemma_sort_ranked_props(init, q);
        let sorted = sort_ranked(init, q);
        assert forall|k: int| 0 <= k < sorted.len() implies #[trigger] sorted[k].1 != p.1 by {
            assert(sorted.contains(sorted[k]));
            let i = choose|i: int| 0 <= i < init.len() && init[i] == sorted[k];
            assert(s[i].1 != s[s.len() - 1].1);
        }
        lemma_insert_ranked_props(p, sorted, q);
        assert forall|x: (Bookmark, int)| #[trigger] r.contains(x) implies s.contains(x) by {
            if x == p {
                assert(s[s.len() - 1] == x);
            } else {
                assert(sorted.contains(x));
                let i = choose|i: int| 0 <= i < init.len() && init[i] == x;
                assert(s[i] == x);
            }
        }
        assert forall|x: (Bookmark, int)| s.contains(x) implies #[trigger] r.contains(x) by {
            let i = choose|i: int| 0 <= i < s.len() && s[i] == x;
            if i < s.len() - 1 {
                assert(init[i] == x);
                assert(init.contains(x)) by {
                    assert(init[i] == x);
                }
            }
        }
    }
}

/// Inserting at the first position whose entry `p` ranks before is
/// exactly what `insert_ranked` does.
pub proof fn lemma_insert_ranked_at(
    p: (Bookmark, int),
    s: Seq<(Bookmark, int)>,
    q: Seq<char>,
    pos: int,
)
    requires
        0 <= pos <= s.len(),
        forall|k: int| 0 <= k < pos ==> !ranks_before(p, #[trigger] s[k], q),
        pos < s.len() ==> ranks_before(p, s[pos], q),
    ensures
        insert_ranked(p, s, q) == s.insert(pos, p),
    decreases s.len(),
{
    if s.len() == 0 {
        assert(insert_ranked(p, s, q) =~= s.insert(0, p));
    } else if pos == 0 {
        assert(ranks_before(p, s[0], q));
        assert(seq![p] + s =~= s.insert(0, p));
    } else {
        assert(!ranks_before(p, s[0], q));
        let tail = s.drop_first();
        assert forall|k: int| 0 <= k < pos - 1 implies !ranks_before(p, #[trigger] tail[k], q) by {
            assert(!ranks_before(p, s[k + 1], q));
        }
        if pos - 1 < tail.len() {
            assert(tail[pos - 1] == s[pos]);
        }
        lemma_insert_ranked_at(p, tail, q, pos - 1);
        assert(seq![s[0]] + tail.insert(pos - 1, p) =~= s.insert(pos, p));
    }
}

/// A query that matches no bookmark leaves no matched pairs at all.
pub proof fn lemma_no_match_no_pairs(bs: Seq<Bookmark>, q: Seq<char>, n: int)
    requires
        0 <= n <= bs.len(),
        forall|k: int| 0 <= k < bs.len() ==> !is_match(#[trigger] bs[k].name@, q),
    ensures
        matched_prefix(bs, q, n) == Seq::<(Bookmark, int)>::empty(),
    decreases n,
{
    if n > 0 {
        lemma_no_match_no_pairs(bs, q, n - 1);
    }
}

/// Determinism: the ranked result is a function of the collection and
/// the query alone, so any two results of the same inputs are the
/// same, element for element.
pub proof fn lemma_rank_deterministic(
    bs: Seq<Bookmark>,
    q: Seq<char>,
    r1: Seq<Bookmark>,
    r2: Seq<Bookmark>,
)
    requires
        r1 == rank_spec(bs, q),
        r2 == rank_spec(bs, q),
    ensures
        r1 == r2,
{
}

/// The ranked pairs hold the same entries as the matched pairs, and
/// they are strictly ordered: scores never rise from left to right,
/// and of two entries with equal scores the one from the earlier
/// source position stands first.
pub proof fn lemma_ranked_pairs_ordered(bs: Seq<Bookmark>, q: Seq<char>)
    ensures
        ranked_pairs(bs, q).len() == matched_pairs(bs, q).len(),
        forall|x: (Bookmark, int)|
            #[trigger] ranked_pairs(bs, q).contains(x) <==> matched_pairs(bs, q).contains(x),
        is_ranked(ranked_pairs(bs, q), q),
        forall|i: int, j: int|
            #![trigger ranked_pairs(bs, q)[i], ranked_pairs(bs, q)[j]]
            0 <= i < j < ranked_pairs(bs, q).len() ==> {
                &&& match_score(ranked_pairs(bs, q)[i].0.name@, q) >= match_score(
                    ranked_pairs(bs, q)[j].0.name@,
                    q,
                )
                &&& (match_score(ranked_pairs(bs, q)[i].0.name@, q) == match_score(
                    ranked_pairs(bs, q)[j].0.name@,
                    q,
                ) ==> ranked_pairs(bs, q)[i].1 < ranked_pairs(bs, q)[j].1)
            },
{
    lemma_matched_prefix_props(bs, q, bs.len() as int);
    lemma_sort_ranked_props(matched_pairs(bs, q), q);
    let rp = ranked_pairs(bs, q);
    assert forall|i: int, j: int|
        #![trigger rp[i], rp[j]]
    0 <= i < j < rp.len() implies {
        &&& match_score(rp[i].0.name@, q) >= match_score(rp[j].0.name@, q)
        &&& (match_score(rp[i].0.name@, q) == match_score(rp[j].0.name@, q) ==> rp[i].1 < rp[j].1)
    } by {
        assert(ranks_before(rp[i], rp[j], q));
    }
}

/// Every returned bookmark is a matching element of the source
/// collection; no non-matching bookmark appears; and the length is
/// the number of matches, capped for display.
pub proof fn lemma_rank_members(bs: Seq<Bookmark>, q: Seq<char>)
    ensures
        rank_spec(bs, q).len() == if matched_pairs(bs, q).len() > RESULT_CAP as int {
            RESULT_CAP as int
        } else {
            matched_pairs(bs, q).len() as int
        },
        forall|k: int|
            0 <= k < rank_spec(bs, q).len() ==> exists|src: int|
                0 <= src < bs.len() && #[trigger] rank_spec(bs, q)[k] == bs[src] && is_match(
                    bs[src].name@,
                    q,
                ),
{
    lemma_matched_prefix_props(bs, q, bs.len() as int);
    lemma_sort_ranked_props(matched_pairs(bs, q), q);
    let rp = ranked_pairs(bs, q);
    let mp = matched_pairs(bs, q);
    assert forall|k: int| 0 <= k < rank_spec(bs, q).len() implies exists|src: int|
        0 <= src < bs.len() && #[trigger] rank_spec(bs, q)[k] == bs[src] && is_match(
            bs[src].name@,
            q,
        ) by {
        let x = rp[k];
        assert(rp.contains(x)) by {
            assert(rp[k] == x);
        }
        assert(mp.contains(x));
        let i = choose|i: int| 0 <= i < mp.len() && mp[i] == x;
        assert(rank_spec(bs, q)[k] == x.0);
        assert(0 <= x.1 < bs.len() && x.0 == bs[x.1] && is_match(bs[x.1].name@, q));
    }
}

/// Whether the entries of `s` all carry the score of their bookmark
/// against `q` in their first slot.
pub open spec fn scores_cached(s: Seq<(i64, usize, Bookmark)>, q: Seq<char>) -> bool {
    forall|k: int| 0 <= k < s.len() ==> (#[trigger] s[k]).0 as int == match_score(s[k].2.name@, q)
}

/// The (bookmark, source position) pairs behind a scored working row.
pub open spec fn pairs_of(s: Seq<(i64, usize, Bookmark)>) -> Seq<(Bookmark, int)> {
    s.map_values(|t: (i64, usize, Bookmark)| (t.2, t.1 as int))
}

/// Keeps the bookmarks that match the query, best score first, equal
/// scores in source order, and caps the list at the display bound.
pub fn sort_and_filter_matching_bookmarks(bookmarks: Vec<Bookmark>, query: String) -> (r: Vec<
    Bookmark,
>)
    ensures
        r@ == rank_spec(bookmarks@, query@),
{
    let total = bookmarks.len();
    let ghost bs = bookmarks@;
    let ghost q = query@;
    let mut rest = bookmarks;
    let mut out: Vec<(i64, usize, Bookmark)> = Vec::new();
    let mut i: usize = 0;
    while rest.len() > 0
        invariant
            total == bs.len(),
            i + rest@.len() == bs.len(),
            rest@ == bs.skip(i as int),
            q == query@,
            scores_cached(out@, q),
            pairs_of(out@) == sort_ranked(matched_prefix(bs, q, i as int), q),
            forall|k: int| 0 <= k < out@.len() ==> (#[trigger] out@[k]).1 < i,
        decreases rest@.len(),
    {
        let ghost out_prev = out@;
        let b = rest.remove(0);
        proof {
            assert(b == bs[i as int]);
            assert(rest@ =~= bs.skip(i as int + 1));
        }
        let s = b.relevance(query.as_str());
        if s > 0 {
            let ghost p = (b, i as int);
            let mut pos: usize = 0;
            while pos < out.len() && out[pos].0 >= s
                invariant
                    pos <= out@.len(),
                    out@ == out_prev,
                    forall|k: int| 0 <= k < pos ==> (#[trigger] out@[k]).0 >= s,
                decreases out@.len() - pos,
            {
                pos += 1;
            }
            proof {
                let op = pairs_of(out@);
                assert forall|k: int| 0 <= k < pos implies !ranks_before(p, #[trigger] op[k], q) by {
                    assert(out@[k].0 >= s);
                    assert(out@[k].0 as int == match_score(out@[k].2.name@, q));
                    assert(op[k] == (out@[k].2, out@[k].1 as int));
                    assert(op[k].1 < i as int);
                }
                if pos < out@.len() {
                    assert(out@[pos as int].0 < s);
                    assert(op[pos as int] == (out@[pos as int].2, out@[pos as int].1 as int));
                    assert(ranks_before(p, op[pos as int], q));
                }
                lemma_insert_ranked_at(p, op, q, pos as int);
            }
            out.insert(pos, (s, i, b));
            proof {
                assert(pairs_of(out@) =~= pairs_of(out_prev).insert(pos as int, p)) by {
                    assert(out@ == out_prev.insert(pos as int, (s, i, b)));
                    assert forall|k: int| 0 <= k < out@.len() implies #[trigger] pairs_of(out@)[k]
                        == pairs_of(out_prev).insert(pos as int, p)[k] by {
                        if k < pos as int {
                            assert(out@[k] == out_prev[k]);
                        } else if k == pos as int {
                            assert(out@[k] == (s, i, b));
                        } else {
                            assert(out@[k] == out_prev[k - 1]);
                        }
                    }
                }
                assert(is_match(b.name@, q));
                let mp_next = matched_prefix(bs, q, i as int + 1);
                assert(mp_next == matched_prefix(bs, q, i as int).push(p));
                assert(mp_next.drop_last() =~= matched_prefix(bs, q, i as int));
                assert(mp_next.last() == p);
                assert(sort_ranked(mp_next, q) == insert_ranked(
                    p,
                    sort_ranked(matched_prefix(bs, q, i as int), q),
                    q,
                ));
                assert forall|k: int| 0 <= k < out@.len() implies (#[trigger] out@[k]).0 as int
                    == match_score(out@[k].2.name@, q) && out@[k].1 < i + 1 by {
                    if k < pos as int {
                        assert(out@[k] == out_prev[k]);
                    } else if k == pos as int {
                        assert(out@[k] == (s, i, b));
                    } else {
                        assert(out@[k] == out_prev[k - 1]);
                    }
                }
            }
        } else {
            proof {
                assert(!is_match(b.name@, q));
                assert(matched_prefix(bs, q, i as int + 1) == matched_prefix(bs, q, i as int));
            }
        }
        i += 1;
    }
    proof {
        assert(matched_prefix(bs, q, i as int) == matched_pairs(bs, q));
        assert(pairs_of(out@) == ranked_pairs(bs, q));
    }
    let ghost rp = ranked_pairs(bs, q);
    let ghost capped = if rp.len() > RESULT_CAP as int {
        rp.take(RESULT_CAP as int)
    } else {
        rp
    };
    out.truncate(RESULT_CAP);
    proof {
        if rp.len() > RESULT_CAP as int {
            assert(pairs_of(out@) =~= capped);
        } else {
            assert(pairs_of(out@) == capped);
        }
    }
    let mut r: Vec<Bookmark> = Vec::new();
    while out.len() > 0
        invariant
            r@.len() + out@.len() == capped.len(),
            forall|k: int| 0 <= k < r@.len() ==> #[trigger] r@[k] == capped[k].0,
            pairs_of(out@) == capped.skip(r@.len() as int),
        decreases out@.len(),
    {
        let ghost out_prev = out@;
        let t = out.remove(0);
        r.push(t.2);
        proof {
            assert(pairs_of(out_prev)[0] == capped[r@.len() - 1]);
            assert(pairs_of(out@) =~= capped.skip(r@.len() as int)) by {
                assert(out@ =~= out_prev.drop_first());
                assert forall|k: int| 0 <= k < out@.len() implies #[trigger] pairs_of(out@)[k]
                    == capped.skip(r@.len() as int)[k] by {
                    assert(out@[k] == out_prev[k + 1]);
                    assert(pairs_of(out_prev)[k + 1] == capped.skip(r@.len() as int - 1)[k + 1]);
                }
            }
        }
    }
    proof {
        assert(r@ =~= capped.map_values(|p: (Bookmark, int)| p.0));
    }
    r
}

} // verus!
