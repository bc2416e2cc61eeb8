//! The search index: derives a filtered, order-preserving view of the
//! catalog from a query string.
//!
//! Matching is case-insensitive substring search against each entry's
//! title; the empty query matches everything. The result lists catalog
//! positions in ascending order and is recomputed in full on every
//! query change.

use vstd::prelude::*;
use crate::catalog::{EntryView, VideoCatalog};
use crate::text::{chars_vec, contains_sub, has_sub};

verus! {

/// The lowercase equivalent of a character sequence. What the exact
/// mapping is belongs to Unicode; the library names the result rather
/// than restating those tables.
pub uninterp spec fn lower_of(s: Seq<char>) -> Seq<char>;

/// Relies on `str::to_lowercase`: the lowercase equivalent depends on
/// the characters alone, and it is empty exactly when the input is
/// empty.
#[verifier::external_body]
fn lowercase(s: &str) -> (r: String)
    ensures
        r@ == lower_of(s@),
        (r@.len() == 0) <==> (s@.len() == 0),
{
    s.to_lowercase()
}

/// Whether a title matches a query: every title matches the empty
/// query; otherwise the lowercased query must occur as a substring of
/// the lowercased title.
pub open spec fn title_matches(title: Seq<char>, query: Seq<char>) -> bool {
    query.len() == 0 || has_sub(lower_of(title), lower_of(query))
}

/// The positions at or after `i` whose entry's title matches the
/// query, in ascending order.
pub open spec fn filter_from(entries: Seq<EntryView>, query: Seq<char>, i: int) -> Seq<int>
    decreases entries.len() - i,
{
    if i < 0 || i >= entries.len() {
        Seq::empty()
    } else if title_matches(entries[i].title, query) {
        seq![i] + filter_from(entries, query, i + 1)
    } else {
        filter_from(entries, query, i + 1)
    }
}

/// Positions as mathematical integers.
pub open spec fn usize_views(v: Seq<usize>) -> Seq<int> {
    v.map_values(|u: usize| u as int)
}

/// The search index over the catalog. It keeps no state: filtering is
/// a pure function of catalog and query.
pub struct SearchIndex;

impl SearchIndex {
    /// The catalog positions whose title matches the query,
    /// case-insensitively, in ascending catalog order; the empty query
    /// matches every entry.
    pub fn filter(catalog: &VideoCatalog, query: &str) -> (r: Vec<usize>)
        ensures
            usize_views(r@) == filter_from(catalog@, query@, 0),
    {
        let ql = lowercase(query);
        let qv = chars_vec(ql.as_str());
        let query_empty = qv.len() == 0;
        let n = catalog.entries.len();
        let mut r: Vec<usize> = Vec::new();
        let mut i: usize = 0;
        proof {
            assert(usize_views(r@) =~= Seq::<int>::empty());
        }
        while i < n
            invariant
                i <= n == catalog.entries@.len(),
                qv@ == lower_of(query@),
                query_empty == (query@.len() == 0),
                filter_from(catalog@, query@, 0) == usize_views(r@) + filter_from(
                    catalog@,
                    query@,
                    i as int,
                ),
            decreases n - i,
        {
            let tl = lowercase(catalog.entries[i].title.as_str());
            let tv = chars_vec(tl.as_str());
            let hit = query_empty || contains_sub(&tv, &qv);
            proof {
                assert(catalog@[i as int] == catalog.entries@[i as int]@);
                assert(tv@ == lower_of(catalog@[i as int].title));
                assert(hit == title_matches(catalog@[i as int].title, query@));
            }
            if hit {
                let ghost pr = r@;
                r.push(i);
                proof {
                    assert(usize_views(r@) =~= usize_views(pr).push(i as int));
                    assert(filter_from(catalog@, query@, i as int) == seq![i as int]
                        + filter_from(catalog@, query@, i as int + 1));
                    assert(usize_views(pr) + (seq![i as int] + filter_from(
                        catalog@,
                        query@,
                        i as int + 1,
                    )) =~= usize_views(r@) + filter_from(catalog@, query@, i as int + 1));
                }
            }
            i += 1;
        }
        r
    }
}

/// With the empty query, the positions at or after `i` all match: the
/// filter yields exactly the ascending run of positions.
proof fn lemma_filter_all_from(entries: Seq<EntryView>, query: Seq<char>, i: int)
    requires
        query.len() == 0,
        0 <= i <= entries.len(),
    ensures
        filter_from(entries, query, i) == Seq::new((entries.len() - i) as nat, |k: int| i + k),
    decreases entries.len() - i,
{
    if i == entries.len() {
        assert(filter_from(entries, query, i) =~= Seq::new((entries.len() - i) as nat, |k: int| i + k));
    } else {
        lemma_filter_all_from(entries, query, i + 1);
        assert(filter_from(entries, query, i) =~= Seq::new((entries.len() - i) as nat, |k: int| i + k));
    }
}

/// Filtering with the empty query returns all catalog positions, in
/// ascending order.
pub proof fn lemma_filter_empty_query(entries: Seq<EntryView>, query: Seq<char>)
    requires
        query.len() == 0,
    ensures
        filter_from(entries, query, 0) == Seq::new(entries.len() as nat, |k: int| k),
{
    lemma_filter_all_from(entries, query, 0);
    assert(Seq::new((entries.len() - 0) as nat, |k: int| 0 + k) =~= Seq::new(
        entries.len() as nat,
        |k: int| k,
    ));
}

/// A non-empty query that matches no title filters to the empty list.
pub proof fn lemma_filter_no_match(entries: Seq<EntryView>, query: Seq<char>)
    requires
        query.len() > 0,
        forall|j: int|
            0 <= j < entries.len() ==> !has_sub(lower_of(entries[j].title), lower_of(query)),
    ensures
        filter_from(entries, query, 0) == Seq::<int>::empty(),
{
    lemma_filter_none_from(entries, query, 0);
}

/// Helper for `lemma_filter_no_match`, inducting from position `i`.
proof fn lemma_filter_none_from(entries: Seq<EntryView>, query: Seq<char>, i: int)
    requires
        query.len() > 0,
        0 <= i <= entries.len(),
        forall|j: int|
            0 <= j < entries.len() ==> !has_sub(lower_of(entries[j].title), lower_of(query)),
    ensures
        filter_from(entries, query, i) == Seq::<int>::empty(),
    decreases entries.len() - i,
{
    if i < entries.len() {
        lemma_filter_none_from(entries, query, i + 1);
    }
}

/// The filter preserves catalog order: its result holds positions of
/// the catalog in strictly ascending order.
pub proof fn lemma_filter_ascending(entries: Seq<EntryView>, query: Seq<char>)
    ensures
        forall|k: int|
            0 <= k < filter_from(entries, query, 0).len() ==> 0 <= #[trigger] filter_from(
                entries,
                query,
                0,
            )[k] < entries.len(),
        forall|a: int, b: int|
            0 <= a < b < filter_from(entries, query, 0).len() ==> filter_from(
                entries,
                query,
                0,
            )[a] < filter_from(entries, query, 0)[b],
{
    lemma_filter_props(entries, query, 0);
}

/// Bounds and ordering of `filter_from`, by induction from `i`.
proof fn lemma_filter_props(entries: Seq<EntryView>, query: Seq<char>, i: int)
    requires
        0 <= i,
    ensures
        forall|k: int|
            0 <= k < filter_from(entries, query, i).len() ==> i <= #[trigger] filter_from(
                entries,
                query,
                i,
            )[k] < entries.len(),
        forall|a: int, b: int|
            0 <= a < b < filter_from(entries, query, i).len() ==> filter_from(
                entries,
                query,
                i,
            )[a] < filter_from(entries, query, i)[b],
    decreases entries.len() - i,
{
    if i >= entries.len() {
    } else {
        lemma_filter_props(entries, query, i + 1);
        let rest = filter_from(entries, query, i + 1);
        if title_matches(entries[i].title, query) {
            let cur = filter_from(entries, query, i);
            assert(cur == seq![i] + rest);
            assert forall|k: int| 0 <= k < cur.len() implies i <= #[trigger] cur[k]
                < entries.len() by {
                if k > 0 {
                    assert(cur[k] == rest[k - 1]);
                }
            }
            assert forall|a: int, b: int| 0 <= a < b < cur.len() implies cur[a] < cur[b] by {
                assert(cur[b] == rest[b - 1]);
                if a > 0 {
                    assert(cur[a] == rest[a - 1]);
                }
            }
        }
    }
}

} // verus!
