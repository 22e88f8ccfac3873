//! The result formatter and the whole query pipeline: mapping the
//! ranked bookmarks (or a fallback placeholder) to display rows.

use vstd::prelude::*;

use crate::bookmark::Bookmark;
use crate::bookmark::Item;
use crate::matcher::is_match;
use crate::query::normalize_query;
use crate::query::normalized;
use crate::rank::RESULT_CAP;
use crate::rank::lemma_matched_prefix_props;
use crate::rank::lemma_no_match_no_pairs;
use crate::rank::lemma_rank_members;
use crate::rank::matched_pairs;
use crate::rank::rank_spec;
use crate::rank::sort_and_filter_matching_bookmarks;

verus! {

/// The placeholder row shown before any query has been typed.
pub open spec fn is_no_query_item(it: Item, url: Seq<char>) -> bool {
    &&& it.title@ == "Search for bookmarks"@
    &&& it.subtitle@ == "Open them →"@
    &&& it.arg@ == url
}

/// The fallback row shown when the query matches nothing; its title
/// carries the normalized query text, its payload the configured
/// search URL.
pub open spec fn is_fallback_item(it: Item, q: Seq<char>, url: Seq<char>) -> bool {
    &&& it.title@ == "nothing found for "@ + q + ", try search on website"@
    &&& it.subtitle@ == "Open them →"@
    &&& it.arg@ == url
}

/// A real result row for one bookmark: its name as title, the fixed
/// "open in browser" subtitle, and its link as the payload.
pub open spec fn is_bookmark_item(it: Item, b: Bookmark) -> bool {
    &&& it.title@ == b.name@
    &&& it.subtitle@ == "Open in browser →"@
    &&& it.arg@ == b.link@
}

/// The shape of a formatted result list for a present query: one row
/// per ranked bookmark in ranked order, or exactly one fallback row
/// when nothing matches.
pub open spec fn items_for(r: Seq<Item>, bs: Seq<Bookmark>, q: Seq<char>, url: Seq<char>) -> bool {
    if rank_spec(bs, q).len() == 0 {
        r.len() == 1 && is_fallback_item(r[0], q, url)
    } else {
        &&& r.len() == rank_spec(bs, q).len()
        &&& forall|k: int| 0 <= k < r.len() ==> is_bookmark_item(#[trigger] r[k], rank_spec(bs, q)[k])
    }
}

/// The display row for when no query has been typed yet.
pub fn empty(default_search_url: String) -> (r: Item)
    ensures
        is_no_query_item(r, default_search_url@),
{
    Item {
        title: String::from_str("Search for bookmarks"),
        subtitle: String::from_str("Open them →"),
        arg: default_search_url,
    }
}

/// The fallback row for a query that matches no bookmark.
pub fn default(query: String, default_search_url: String) -> (r: Item)
    ensures
        is_fallback_item(r, query@, default_search_url@),
{
    let mut title = String::from_str("nothing found for ");
    title.append(query.as_str());
    title.append(", try search on website");
    Item { title, subtitle: String::from_str("Open them →"), arg: default_search_url }
}

/// Formats the whole collection for an already-normalized query:
/// ranks and filters, maps each surviving bookmark to its row, and
/// substitutes the fallback row when nothing matched.
pub fn to_items(bookmarks: Vec<Bookmark>, query: String, default_search_url: String) -> (r: Vec<
    Item,
>)
    ensures
        items_for(r@, bookmarks@, query@, default_search_url@),
{
    let ghost bs = bookmarks@;
    let ghost q = query@;
    let mut matched = sort_and_filter_matching_bookmarks(bookmarks, query.clone());
    let mut items: Vec<Item> = Vec::new();
    while matched.len() > 0
        invariant
            items@.len() + matched@.len() == rank_spec(bs, q).len(),
            matched@ == rank_spec(bs, q).skip(items@.len() as int),
            forall|k: int|
                0 <= k < items@.len() ==> is_bookmark_item(#[trigger] items@[k], rank_spec(bs, q)[k]),
        decreases matched@.len(),
    {
        let ghost matched_prev = matched@;
        let b = matched.remove(0);
        proof {
            assert(b == rank_spec(bs, q)[items@.len() as int]);
            assert(matched@ =~= rank_spec(bs, q).skip(items@.len() as int + 1));
        }
        items.push(b.to_item());
    }
    if items.len() == 0 {
        let mut fallback: Vec<Item> = Vec::new();
        fallback.push(default(query, default_search_url));
        fallback
    } else {
        items
    }
}

/// Runs the whole pipeline for one invocation: normalizes the typed
/// argument, short-circuits to the "no query yet" placeholder when
/// nothing (or only whitespace) was typed, and otherwise ranks,
/// filters, and formats the collection.
pub fn search(bookmarks: Vec<Bookmark>, query: Option<String>, default_search_url: String) -> (r:
    Vec<Item>)
    ensures
        match query {
            None => r@.len() == 1 && is_no_query_item(r@[0], default_search_url@),
            Some(qs) => {
                if normalized(qs@).len() == 0 {
                    r@.len() == 1 && is_no_query_item(r@[0], default_search_url@)
                } else {
                    items_for(r@, bookmarks@, normalized(qs@), default_search_url@)
                }
            },
        },
        (query is Some && query->0@.len() == 0) ==> r@.len() == 1 && is_no_query_item(
            r@[0],
            default_search_url@,
        ),
{
    match query {
        None => {
            let mut rows: Vec<Item> = Vec::new();
            rows.push(empty(default_search_url));
            rows
        },
        Some(qs) => {
            let nq = normalize_query(qs.as_str());
            if nq.as_str().unicode_len() == 0 {
                let mut rows: Vec<Item> = Vec::new();
                rows.push(empty(default_search_url));
                rows
            } else {
                to_items(bookmarks, nq, default_search_url)
            }
        },
    }
}

/// Case-insensitivity at the ranker: a query and its lower-cased
/// form normalize to the same text, so they rank the collection
/// identically.
pub proof fn lemma_rank_case_insensitive(bs: Seq<Bookmark>, q: Seq<char>)
    ensures
        rank_spec(bs, normalized(crate::query::lower_of(q))) == rank_spec(bs, normalized(q)),
{
    crate::query::lemma_normalized_case_insensitive(q);
}

/// When the query matches no bookmark at all, the formatted output is
/// exactly one fallback row, and its payload is the configured search
/// URL.
pub proof fn lemma_no_match_fallback(r: Seq<Item>, bs: Seq<Bookmark>, q: Seq<char>, url: Seq<char>)
    requires
        items_for(r, bs, q, url),
        forall|k: int| 0 <= k < bs.len() ==> !is_match(#[trigger] bs[k].name@, q),
    ensures
        r.len() == 1,
        is_fallback_item(r[0], q, url),
        r[0].arg@ == url,
{
    lemma_no_match_no_pairs(bs, q, bs.len() as int);
    assert(matched_pairs(bs, q) == Seq::<(Bookmark, int)>::empty());
    lemma_rank_members(bs, q);
}

/// When the query matches at least one bookmark, the output has one
/// row per match up to the display cap, every row's payload is the
/// link of some matching bookmark, and no non-matching bookmark
/// appears.
pub proof fn lemma_match_output(r: Seq<Item>, bs: Seq<Bookmark>, q: Seq<char>, url: Seq<char>)
    requires
        items_for(r, bs, q, url),
        exists|k: int| 0 <= k < bs.len() && is_match(#[trigger] bs[k].name@, q),
    ensures
        r.len() == if matched_pairs(bs, q).len() > RESULT_CAP as int {
            RESULT_CAP as int
        } else {
            matched_pairs(bs, q).len() as int
        },
        forall|k: int|
            0 <= k < r.len() ==> exists|src: int|
                0 <= src < bs.len() && is_match(bs[src].name@, q) && (#[trigger] r[k]).arg@
                    == bs[src].link@,
{
    lemma_rank_members(bs, q);
    lemma_matched_prefix_props(bs, q, bs.len() as int);
    let w = choose|k: int| 0 <= k < bs.len() && is_match(#[trigger] bs[k].name@, q);
    // At least one pair is matched, so the ranked list is not empty.
    assert(matched_pairs(bs, q).len() > 0) by {
        lemma_matched_count_positive(bs, q, w);
    }
    assert forall|k: int| 0 <= k < r.len() implies exists|src: int|
        0 <= src < bs.len() && is_match(bs[src].name@, q) && (#[trigger] r[k]).arg@
            == bs[src].link@ by {
        assert(is_bookmark_item(r[k], rank_spec(bs, q)[k]));
        let src = choose|src: int|
            0 <= src < bs.len() && rank_spec(bs, q)[k] == bs[src] && is_match(bs[src].name@, q);
        assert(r[k].arg@ == bs[src].link@);
    }
}

/// A matching element at position `w` guarantees at least one matched
/// pair.
proof fn lemma_matched_count_positive(bs: Seq<Bookmark>, q: Seq<char>, w: int)
    requires
        0 <= w < bs.len(),
        is_match(bs[w].name@, q),
    ensures
        crate::rank::matched_prefix(bs, q, bs.len() as int).len() > 0,
{
    lemma_matched_prefix_grows(bs, q, w + 1, bs.len() as int);
}

/// The matched prefix only grows as more of the collection is taken,
/// and taking one more matching element makes it non-empty.
proof fn lemma_matched_prefix_grows(bs: Seq<Bookmark>, q: Seq<char>, n1: int, n2: int)
    requires
        0 < n1 <= n2 <= bs.len(),
        is_match(bs[n1 - 1].name@, q),
    ensures
        crate::rank::matched_prefix(bs, q, n2).len() > 0,
    decreases n2,
{
    if n2 > n1 {
        lemma_matched_prefix_grows(bs, q, n1, n2 - 1);
    }
}

} // verus!
