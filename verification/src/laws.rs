//! Cross-operation guarantees of the cache, proved once for all inputs
//! over the store's transition functions (`lookup_after`, `insert_after`,
//! `populate_spec`): what a fresh insert looks like on the next lookup,
//! how sequential hits move the hit counter, what a purge leaves behind,
//! and that a fully successful bulk population leaves every node's title
//! resolvable to its id.

use vstd::prelude::*;

use crate::catalog::{batch_len, built_rows, fresh_rows, lemma_wf_append, populate_spec};
use crate::graph::{Links, Ranks};
use crate::outcome::spec_encode;
use crate::store::{
    addr_at, has_path, has_title, insert_after, key_matches, lemma_path_index_unique,
    lemma_title_index_unique, lookup_after, lookup_result, new_row, path_at, path_index, paths_wf,
    titles_wf, AddressEntry, CachedPath, Path,
};

verus! {

/// Inserting a fresh result keeps the path keys pairwise distinct.
pub proof fn lemma_insert_preserves_wf(s: Seq<CachedPath>, p: Path, now: i64)
    requires
        paths_wf(s),
    ensures
        paths_wf(insert_after(s, p, now)),
{
    if !has_path(s, p.src, p.dst) {
        let s1 = s.push(new_row(p, now));
        assert forall|a: int, b: int|
            0 <= a < b < s1.len() implies !(s1[a].src == s1[b].src && s1[a].dst == s1[b].dst) by {
            if b < s.len() {
                assert(s1[a] == s[a] && s1[b] == s[b]);
            } else {
                assert(s1[b] == new_row(p, now));
                assert(!key_matches(s[a], p.src, p.dst));
            }
        }
    }
}

/// A lookup rewrites one row in place: keys are untouched, so they stay
/// pairwise distinct and the hit row keeps its index.
pub proof fn lemma_lookup_preserves_wf(s: Seq<CachedPath>, src: u32, dst: u32, now: i64)
    requires
        paths_wf(s),
    ensures
        paths_wf(lookup_after(s, src, dst, now)),
        has_path(s, src, dst) ==> has_path(lookup_after(s, src, dst, now), src, dst)
            && path_index(lookup_after(s, src, dst, now), src, dst) == path_index(s, src, dst),
{
    if has_path(s, src, dst) {
        let i = path_index(s, src, dst);
        let s1 = lookup_after(s, src, dst, now);
        assert forall|a: int, b: int|
            0 <= a < b < s1.len() implies !(s1[a].src == s1[b].src && s1[a].dst == s1[b].dst) by {
            assert(s1[a].src == s[a].src && s1[a].dst == s[a].dst);
            assert(s1[b].src == s[b].src && s1[b].dst == s[b].dst);
        }
        assert(key_matches(s1[i], src, dst));
        lemma_path_index_unique(s1, src, dst, i);
    }
}

/// A fresh insert followed at once by a lookup of the same key returns a
/// row with that key, the same encoded result, the lookup's timestamp,
/// and a hit count of exactly one.
pub proof fn lemma_insert_then_lookup(s: Seq<CachedPath>, p: Path, t0: i64, t1: i64)
    requires
        paths_wf(s),
        !has_path(s, p.src, p.dst),
    ensures
        lookup_result(insert_after(s, p, t0), p.src, p.dst, t1) == Some(
            CachedPath {
                src: p.src,
                dst: p.dst,
                result: spec_encode(p.outcome),
                last_access: t1,
                hit_count: 1,
            },
        ),
{
    let s1 = insert_after(s, p, t0);
    lemma_insert_preserves_wf(s, p, t0);
    assert(s1 == s.push(new_row(p, t0)));
    assert(key_matches(s1[s.len() as int], p.src, p.dst));
    lemma_path_index_unique(s1, p.src, p.dst, s.len() as int);
    assert(path_at(s1, p.src, p.dst) == new_row(p, t0));
}

/// Sequential hits on one key move its hit counter by exactly one per
/// lookup (two lookups: two more), as long as the counter stays below its
/// ceiling, where it saturates instead.
pub proof fn lemma_repeated_lookup(s: Seq<CachedPath>, src: u32, dst: u32, t0: i64, t1: i64)
    requires
        paths_wf(s),
        has_path(s, src, dst),
        path_at(s, src, dst).hit_count + 2 <= u64::MAX,
    ensures
        lookup_result(s, src, dst, t0) matches Some(r0) && r0.hit_count == path_at(
            s,
            src,
            dst,
        ).hit_count + 1,
        lookup_result(lookup_after(s, src, dst, t0), src, dst, t1) matches Some(r1)
            && r1.hit_count == path_at(s, src, dst).hit_count + 2,
{
    let i = path_index(s, src, dst);
    let s1 = lookup_after(s, src, dst, t0);
    lemma_lookup_preserves_wf(s, src, dst, t0);
    assert(path_at(s1, src, dst) == s1[i]);
}

/// A purge deletes every row, so any later lookup of a previously cached
/// key misses until something is inserted again.
pub proof fn lemma_purge_then_lookup(src: u32, dst: u32, now: i64)
    ensures
        lookup_result(Seq::<CachedPath>::empty(), src, dst, now) == None::<CachedPath>,
{
}

/// A title present in the catalog stays present when rows are appended.
proof fn lemma_has_title_grows(titles: Seq<AddressEntry>, more: Seq<AddressEntry>, q: Seq<char>)
    requires
        has_title(titles, q),
    ensures
        has_title(titles + more, q),
{
    let i = crate::store::title_index(titles, q);
    assert((titles + more)[i] == titles[i]);
}

/// A bulk population in which every batch was accepted appends exactly the
/// built rows, keeps titles pairwise distinct, and accepted the whole row
/// set as fresh.
pub proof fn lemma_populate_ok_shape(titles: Seq<AddressEntry>, rows: Seq<AddressEntry>)
    requires
        titles_wf(titles),
        populate_spec(titles, rows).1,
    ensures
        populate_spec(titles, rows).0 == titles + rows,
        titles_wf(titles + rows),
        fresh_rows(titles, rows),
    decreases rows.len(),
{
    if rows.len() == 0 {
        assert(titles + rows =~= titles);
    } else {
        let bl = batch_len(rows.len() as int);
        let b = rows.take(bl);
        let rest = rows.skip(bl);
        assert(fresh_rows(titles, b));
        lemma_wf_append(titles, b);
        lemma_populate_ok_shape(titles + b, rest);
        assert(titles + b + rest =~= titles + rows);
        assert forall|k: int| 0 <= k < rows.len() implies !has_title(
            titles,
            #[trigger] rows[k].title@,
        ) by {
            if k < bl {
                assert(rows[k] == b[k]);
            } else {
                assert(rows[k] == rest[k - bl]);
                assert(!has_title(titles + b, rest[k - bl].title@));
                if has_title(titles, rows[k].title@) {
                    lemma_has_title_grows(titles, b, rows[k].title@);
                }
            }
        }
        assert forall|u: int, v: int| 0 <= u < v < rows.len() implies rows[u].title@
            != rows[v].title@ by {
            if v < bl {
                assert(rows[u] == b[u] && rows[v] == b[v]);
            } else if u >= bl {
                assert(rows[u] == rest[u - bl] && rows[v] == rest[v - bl]);
            } else {
                assert(rows[u] == b[u] && rows[v] == rest[v - bl]);
                assert(!has_title(titles + b, rest[v - bl].title@));
                if rows[u].title@ == rows[v].title@ {
                    assert((titles + b)[titles.len() + u] == b[u]);
                    assert(has_title(titles + b, rest[v - bl].title@));
                }
            }
        }
    }
}

/// After a fully successful bulk population, every graph node's title is
/// in the catalog and resolves to that node's id.
pub proof fn lemma_populate_then_resolvable(
    titles: Seq<AddressEntry>,
    links: Links,
    ranks: Ranks,
    i: int,
)
    requires
        titles_wf(titles),
        populate_spec(titles, built_rows(links, ranks)).1,
        0 <= i < links.items@.len(),
    ensures
        has_title(
            populate_spec(titles, built_rows(links, ranks)).0,
            links.items@[i].1.title@,
        ),
        addr_at(
            populate_spec(titles, built_rows(links, ranks)).0,
            links.items@[i].1.title@,
        ).page_id == links.items@[i].0,
{
    let rows = built_rows(links, ranks);
    lemma_populate_ok_shape(titles, rows);
    let full = titles + rows;
    assert(rows[i].title == links.items@[i].1.title && rows[i].page_id == links.items@[i].0);
    assert(full[titles.len() + i] == rows[i]);
    lemma_title_index_unique(full, rows[i].title@, titles.len() + i);
    assert(addr_at(full, links.items@[i].1.title@) == rows[i]);
}

} // verus!
