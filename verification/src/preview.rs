//! Read-only preview of the cached paths: the top rows under a chosen
//! ordering, joined against the live graph's titles. Rows whose endpoints
//! have vanished from the live graph are silently dropped, as are rows
//! whose stored result does not decode to a found path: the preview only
//! surfaces paths that were found and can still be displayed.

use vstd::prelude::*;
use vstd::seq_lib::to_multiset_insert;

use crate::graph::Links;
use crate::store::{CacheStore, CachedPath};

verus! {

/// Default number of preview rows an operator view asks for.
pub const PREVIEW_SIZE: u32 = 16;

/// The orderings a preview can ask for, each taken descending.
#[derive(Clone, Copy, PartialEq, Eq, Structural, Debug)]
pub enum CacheSort {
    /// Most recent `last_access` first.
    Recent,
    /// Highest `hit_count` first.
    Popular,
    /// Largest stored `result` first (order-isomorphic to decoded length).
    Length,
}

/// The value a row is ranked by under the given ordering.
pub open spec fn sort_key(p: CachedPath, sort: CacheSort) -> int {
    match sort {
        CacheSort::Recent => p.last_access as int,
        CacheSort::Popular => p.hit_count as int,
        CacheSort::Length => p.result as int,
    }
}

/// Non-increasing in the row ranking.
pub open spec fn sorted_desc(s: Seq<CachedPath>, sort: CacheSort) -> bool {
    forall|i: int, j: int| 0 <= i < j < s.len() ==> sort_key(s[i], sort) >= sort_key(s[j], sort)
}

/// The displayed rows for a slice of cached paths: found paths whose
/// endpoints are still live, as (source title, decoded length,
/// destination title), in slice order.
pub open spec fn preview_rows(rows: Seq<CachedPath>, links: Links) -> Seq<(Seq<char>, i16, Seq<char>)>
    decreases rows.len(),
{
    if rows.len() == 0 {
        Seq::empty()
    } else {
        let rest = preview_rows(rows.drop_last(), links);
        let p = rows.last();
        if p.result > 0 && links.spec_has(p.src) && links.spec_has(p.dst) {
            rest.push((links.spec_title(p.src), (p.result - 1) as i16, links.spec_title(p.dst)))
        } else {
            rest
        }
    }
}

/// Every displayed row decodes to a found path: its length is the stored
/// result less one, hence never negative, and both its titles are live.
pub proof fn lemma_preview_rows_displayable(rows: Seq<CachedPath>, links: Links, i: int)
    requires
        0 <= i < preview_rows(rows, links).len(),
    ensures
        preview_rows(rows, links)[i].1 >= 0,
    decreases rows.len(),
{
    if rows.len() > 0 {
        let rest = preview_rows(rows.drop_last(), links);
        if i < rest.len() {
            lemma_preview_rows_displayable(rows.drop_last(), links, i);
        }
    }
}

/// How many rows the preview reads before joining: `num`, or all of them.
pub open spec fn top_len(total: int, num: u32) -> int {
    if num as int <= total {
        num as int
    } else {
        total
    }
}

fn key_ge(a: &CachedPath, b: &CachedPath, sort: &CacheSort) -> (r: bool)
    ensures
        r == (sort_key(*a, *sort) >= sort_key(*b, *sort)),
{
    match sort {
        CacheSort::Recent => a.last_access >= b.last_access,
        CacheSort::Popular => a.hit_count >= b.hit_count,
        CacheSort::Length => a.result >= b.result,
    }
}

/// A copy of the rows in descending rank order (insertion sort; ties keep
/// no particular order, as a store-defined ordering would).
fn sort_paths_desc(paths: &Vec<CachedPath>, sort: &CacheSort) -> (out: Vec<CachedPath>)
    ensures
        out@.to_multiset() == paths@.to_multiset(),
        out@.len() == paths@.len(),
        sorted_desc(out@, *sort),
{
    let mut out: Vec<CachedPath> = Vec::new();
    let mut i: usize = 0;
    proof {
        assert(paths@.take(0) =~= out@);
    }
    while i < paths.len()
        invariant
            i <= paths@.len(),
            out@.len() == i,
            out@.to_multiset() == paths@.take(i as int).to_multiset(),
            sorted_desc(out@, *sort),
        decreases paths@.len() - i,
    {
        let p = paths[i];
        let ghost before = out@;
        let mut pos: usize = 0;
        while pos < out.len() && key_ge(&out[pos], &p, sort)
            invariant
                pos <= out@.len(),
                out@ == before,
                forall|k: int| 0 <= k < pos ==> sort_key(out@[k], *sort) >= sort_key(p, *sort),
            decreases out@.len() - pos,
        {
            pos += 1;
        }
        out.insert(pos, p);
        proof {
            to_multiset_insert(before, pos as int, p);
            assert(paths@.take(i + 1).drop_last() =~= paths@.take(i as int));
            assert(paths@.take(i + 1) =~= paths@.take(i as int).push(p));
            paths@.take(i as int).to_multiset_ensures();
            assert(out@.to_multiset() == paths@.take(i + 1).to_multiset());
            before.insert_ensures(pos as int, p);
            assert forall|a: int, b: int|
                0 <= a < b < out@.len() implies sort_key(out@[a], *sort) >= sort_key(
                out@[b],
                *sort,
            ) by {
                if a < pos && b == pos {
                } else if a == pos && b > pos {
                    if pos < before.len() {
                        assert(!(sort_key(before[pos as int], *sort) >= sort_key(p, *sort)));
                        assert(out@[b] == before[b - 1]);
                        if pos as int <= b - 1 && b - 1 < before.len() && pos as int != b - 1 {
                            assert(sort_key(before[pos as int], *sort) >= sort_key(
                                before[b - 1],
                                *sort,
                            ));
                        }
                    }
                } else if a < pos && b > pos {
                    assert(out@[a] == before[a] && out@[b] == before[b - 1]);
                } else if a > pos && b > pos {
                    assert(out@[a] == before[a - 1] && out@[b] == before[b - 1]);
                }
            }
        }
        i += 1;
    }
    proof {
        assert(paths@.take(paths@.len() as int) =~= paths@);
    }
    out
}

/// The preview: read the top-`num` cached rows under the requested
/// ordering, then join each against the live graph, dropping rows whose
/// endpoints vanished or whose result is not a found path. The rows read
/// are a descending reordering of the whole table, so fewer than `num`
/// displayable rows can come back even when more exist further down.
/// An in-memory read cannot fail; the `Option` carries the failure mode a
/// remote store would add.
pub fn get_cache(store: &CacheStore, links: &Links, sort: &CacheSort, num: u32) -> (r: Option<
    Vec<(String, i16, String)>,
>)
    requires
        store.wf(),
        links.wf(),
    ensures
        match r {
            Some(v) => exists|sorted: Seq<CachedPath>|
                #![auto]
                sorted.to_multiset() == store.paths@.to_multiset() && sorted.len()
                    == store.paths@.len() && sorted_desc(sorted, *sort) && v@.map_values(
                    |row: (String, i16, String)| (row.0@, row.1, row.2@),
                ) == preview_rows(sorted.take(top_len(sorted.len() as int, num)), *links),
            None => false,
        },
{
    let sorted = sort_paths_desc(&store.paths, sort);
    let n = if (num as usize) <= sorted.len() {
        num as usize
    } else {
        sorted.len()
    };
    let mut out: Vec<(String, i16, String)> = Vec::new();
    let mut k: usize = 0;
    proof {
        assert(sorted@.take(0) =~= Seq::<CachedPath>::empty());
        assert(out@.map_values(|row: (String, i16, String)| (row.0@, row.1, row.2@)) =~= Seq::<
            (Seq<char>, i16, Seq<char>),
        >::empty());
    }
    while k < n
        invariant
            k <= n <= sorted@.len(),
            links.wf(),
            out@.map_values(|row: (String, i16, String)| (row.0@, row.1, row.2@)) == preview_rows(
                sorted@.take(k as int),
                *links,
            ),
        decreases n - k,
    {
        let ghost prev = out@;
        let p = sorted[k];
        if p.result > 0 {
            let src_title = links.get_title(p.src);
            let dst_title = links.get_title(p.dst);
            match (src_title, dst_title) {
                (Some(s), Some(d)) => {
                    out.push((s.clone(), p.result - 1, d.clone()));
                },
                _ => {},
            }
        }
        proof {
            assert(sorted@.take(k + 1).drop_last() =~= sorted@.take(k as int));
            assert(sorted@.take(k + 1).last() == sorted@[k as int]);
            assert(out@.map_values(|row: (String, i16, String)| (row.0@, row.1, row.2@))
                =~= preview_rows(sorted@.take(k + 1), *links));
        }
        k += 1;
    }
    proof {
        assert(sorted@.take(n as int) =~= sorted@.take(top_len(sorted@.len() as int, num)));
    }
    Some(out)
}

} // verus!
