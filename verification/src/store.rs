//! The persisted store behind the path cache: the `paths` table (one row
//! per computed source/destination pair) and the `titles` table (the
//! address catalog), together with the row-level cache operations.
//!
//! Both tables live in memory here; a process that keeps them in a
//! relational backend drives the same operations from outside the
//! verified core. Every operation is atomic with respect to the store
//! value it is given, so a cache hit refreshes the access time and bumps
//! the hit counter in one step: the lost-update race of a separate
//! read-then-write bookkeeping scheme cannot arise.

use vstd::prelude::*;

use crate::outcome::{spec_encode, PathOutcome};
use crate::text::str_eq;

verus! {

/// One row of the `paths` table. `(src, dst)` is the unique key; `result`
/// carries the off-by-one encoded path outcome (see `crate::outcome`);
/// `last_access` and `hit_count` are usage bookkeeping.
#[derive(Clone, Copy, PartialEq, Eq, Structural, Debug)]
pub struct CachedPath {
    pub src: u32,
    pub dst: u32,
    pub result: i16,
    pub last_access: i64,
    pub hit_count: u64,
}

/// One row of the `titles` table. `title` is the unique key. `rank_bits`
/// carries an optional importance score by its raw bit pattern; its
/// numeric meaning lives outside this layer, which only stores it.
#[derive(Clone, Debug)]
pub struct AddressEntry {
    pub title: String,
    pub page_id: u32,
    pub rank_bits: Option<u64>,
}

/// A freshly computed path result, as the search engine hands it over.
#[derive(Clone, Copy, PartialEq, Eq, Structural, Debug)]
pub struct Path {
    pub src: u32,
    pub dst: u32,
    pub outcome: PathOutcome,
}

impl Path {
    pub open spec fn wf(self) -> bool {
        self.outcome.wf()
    }
}

/// Errors the store reports. A duplicate key on a write is the only
/// failure an in-memory store can produce.
#[derive(Clone, Copy, PartialEq, Eq, Structural, Debug)]
pub enum StorageError {
    ConstraintViolation,
}

/// `(src, dst)` keys are pairwise distinct.
pub open spec fn paths_wf(s: Seq<CachedPath>) -> bool {
    forall|i: int, j: int|
        0 <= i < j < s.len() ==> !(s[i].src == s[j].src && s[i].dst == s[j].dst)
}

/// Titles are pairwise distinct.
pub open spec fn titles_wf(s: Seq<AddressEntry>) -> bool {
    forall|i: int, j: int| 0 <= i < j < s.len() ==> s[i].title@ != s[j].title@
}

/// The two tables of the backing store.
pub struct CacheStore {
    pub paths: Vec<CachedPath>,
    pub titles: Vec<AddressEntry>,
}

impl CacheStore {
    pub open spec fn wf(self) -> bool {
        paths_wf(self.paths@) && titles_wf(self.titles@)
    }

    pub fn new() -> (s: CacheStore)
        ensures
            s.wf(),
            s.paths@ == Seq::<CachedPath>::empty(),
            s.titles@ == Seq::<AddressEntry>::empty(),
    {
        CacheStore { paths: Vec::new(), titles: Vec::new() }
    }
}

pub open spec fn key_matches(p: CachedPath, src: u32, dst: u32) -> bool {
    p.src == src && p.dst == dst
}

/// A row with key `(src, dst)` exists.
pub open spec fn has_path(s: Seq<CachedPath>, src: u32, dst: u32) -> bool {
    exists|i: int| 0 <= i < s.len() && key_matches(s[i], src, dst)
}

/// The index of the row with key `(src, dst)`; meaningful under `paths_wf`
/// when `has_path` holds.
pub open spec fn path_index(s: Seq<CachedPath>, src: u32, dst: u32) -> int {
    choose|i: int| 0 <= i < s.len() && key_matches(s[i], src, dst)
}

pub open spec fn path_at(s: Seq<CachedPath>, src: u32, dst: u32) -> CachedPath {
    s[path_index(s, src, dst)]
}

/// An entry with the given title exists.
pub open spec fn has_title(s: Seq<AddressEntry>, q: Seq<char>) -> bool {
    exists|i: int| 0 <= i < s.len() && s[i].title@ == q
}

/// The index of the entry with the given title; meaningful under
/// `titles_wf` when `has_title` holds.
pub open spec fn title_index(s: Seq<AddressEntry>, q: Seq<char>) -> int {
    choose|i: int| 0 <= i < s.len() && s[i].title@ == q
}

pub open spec fn addr_at(s: Seq<AddressEntry>, q: Seq<char>) -> AddressEntry {
    s[title_index(s, q)]
}

/// The hit counter after one more hit: one more, saturating at the top of
/// the counter's range.
pub open spec fn bumped(c: u64) -> u64 {
    if c == u64::MAX {
        c
    } else {
        (c + 1) as u64
    }
}

/// The row after a cache hit at time `now`: access time refreshed, hit
/// counter bumped, key and result untouched.
pub open spec fn touched(p: CachedPath, now: i64) -> CachedPath {
    CachedPath { last_access: now, hit_count: bumped(p.hit_count), ..p }
}

/// The `paths` table after `lookup_path(src, dst)` at time `now`.
pub open spec fn lookup_after(s: Seq<CachedPath>, src: u32, dst: u32, now: i64) -> Seq<
    CachedPath,
> {
    if has_path(s, src, dst) {
        s.update(path_index(s, src, dst), touched(path_at(s, src, dst), now))
    } else {
        s
    }
}

/// What `lookup_path(src, dst)` returns at time `now`.
pub open spec fn lookup_result(s: Seq<CachedPath>, src: u32, dst: u32, now: i64) -> Option<
    CachedPath,
> {
    if has_path(s, src, dst) {
        Some(touched(path_at(s, src, dst), now))
    } else {
        None
    }
}

/// The row a fresh path result creates at time `now`.
pub open spec fn new_row(p: Path, now: i64) -> CachedPath {
    CachedPath {
        src: p.src,
        dst: p.dst,
        result: spec_encode(p.outcome),
        last_access: now,
        hit_count: 0,
    }
}

/// The `paths` table after `insert_path(p)` at time `now`.
pub open spec fn insert_after(s: Seq<CachedPath>, p: Path, now: i64) -> Seq<CachedPath> {
    if has_path(s, p.src, p.dst) {
        s
    } else {
        s.push(new_row(p, now))
    }
}

/// What `insert_path(p)` returns at time `now`.
pub open spec fn insert_result(s: Seq<CachedPath>, p: Path, now: i64) -> Option<CachedPath> {
    if has_path(s, p.src, p.dst) {
        None
    } else {
        Some(new_row(p, now))
    }
}

/// Under `paths_wf`, a matching index is the only one, so it is the one
/// `path_index` picks.
pub proof fn lemma_path_index_unique(s: Seq<CachedPath>, src: u32, dst: u32, i: int)
    requires
        paths_wf(s),
        0 <= i < s.len(),
        key_matches(s[i], src, dst),
    ensures
        has_path(s, src, dst),
        path_index(s, src, dst) == i,
{
    assert(has_path(s, src, dst));
    let j = path_index(s, src, dst);
    if i < j {
        assert(!(s[i].src == s[j].src && s[i].dst == s[j].dst));
    } else if j < i {
        assert(!(s[j].src == s[i].src && s[j].dst == s[i].dst));
    }
}

/// Under `titles_wf`, a matching index is the only one, so it is the one
/// `title_index` picks.
pub proof fn lemma_title_index_unique(s: Seq<AddressEntry>, q: Seq<char>, i: int)
    requires
        titles_wf(s),
        0 <= i < s.len(),
        s[i].title@ == q,
    ensures
        has_title(s, q),
        title_index(s, q) == i,
{
    assert(has_title(s, q));
    let j = title_index(s, q);
    if i < j {
        assert(s[i].title@ != s[j].title@);
    } else if j < i {
        assert(s[j].title@ != s[i].title@);
    }
}

/// Find the row with key `(src, dst)`, if any.
fn find_path_index(paths: &Vec<CachedPath>, src: u32, dst: u32) -> (r: Option<usize>)
    requires
        paths_wf(paths@),
    ensures
        match r {
            Some(i) => has_path(paths@, src, dst) && i < paths@.len() && path_index(
                paths@,
                src,
                dst,
            ) == i,
            None => !has_path(paths@, src, dst),
        },
{
    let mut i: usize = 0;
    while i < paths.len()
        invariant
            i <= paths@.len(),
            paths_wf(paths@),
            forall|k: int| 0 <= k < i ==> !key_matches(paths@[k], src, dst),
        decreases paths@.len() - i,
    {
        if paths[i].src == src && paths[i].dst == dst {
            proof {
                lemma_path_index_unique(paths@, src, dst, i as int);
            }
            return Some(i);
        }
        i += 1;
    }
    None
}

/// Find the entry with the given title, if any.
pub(crate) fn find_title_index(titles: &Vec<AddressEntry>, q: &str) -> (r: Option<usize>)
    requires
        titles_wf(titles@),
    ensures
        match r {
            Some(i) => has_title(titles@, q@) && i < titles@.len() && title_index(titles@, q@)
                == i,
            None => !has_title(titles@, q@),
        },
{
    let mut i: usize = 0;
    while i < titles.len()
        invariant
            i <= titles@.len(),
            titles_wf(titles@),
            forall|k: int| 0 <= k < i ==> titles@[k].title@ != q@,
        decreases titles@.len() - i,
    {
        if str_eq(titles[i].title.as_str(), q) {
            proof {
                lemma_title_index_unique(titles@, q@, i as int);
            }
            return Some(i);
        }
        i += 1;
    }
    None
}

/// A cache hit refreshes `last_access` to `now`, bumps `hit_count`, and
/// returns the row as written; anything else is a miss and changes
/// nothing. Key and result of a hit row are untouched.
pub fn lookup_path(store: &mut CacheStore, src: u32, dst: u32, now: i64) -> (r: Option<
    CachedPath,
>)
    requires
        old(store).wf(),
    ensures
        final(store).wf(),
        final(store).titles@ == old(store).titles@,
        final(store).paths@ == lookup_after(old(store).paths@, src, dst, now),
        r == lookup_result(old(store).paths@, src, dst, now),
{
    let ghost s0 = store.paths@;
    match find_path_index(&store.paths, src, dst) {
        Some(i) => {
            let row = store.paths[i];
            let count = if row.hit_count == u64::MAX {
                row.hit_count
            } else {
                row.hit_count + 1
            };
            let updated = CachedPath {
                src: row.src,
                dst: row.dst,
                result: row.result,
                last_access: now,
                hit_count: count,
            };
            store.paths.set(i, updated);
            proof {
                assert(updated == touched(s0[i as int], now));
                assert(store.paths@ =~= lookup_after(s0, src, dst, now));
                assert forall|a: int, b: int|
                    0 <= a < b < store.paths@.len() implies !(store.paths@[a].src
                    == store.paths@[b].src && store.paths@[a].dst == store.paths@[b].dst) by {
                    assert(store.paths@[a].src == s0[a].src && store.paths@[a].dst == s0[a].dst);
                    assert(store.paths@[b].src == s0[b].src && store.paths@[b].dst == s0[b].dst);
                }
            }
            Some(updated)
        },
        None => None,
    }
}

/// Record a freshly computed result. A row for the key already present
/// means a racing computation won: the store is left unchanged and the
/// insert reports nothing, which callers treat as a harmless miss.
/// Otherwise the new row is written with a zero hit count and returned.
pub fn insert_path(store: &mut CacheStore, p: Path, now: i64) -> (r: Option<CachedPath>)
    requires
        old(store).wf(),
        p.wf(),
    ensures
        final(store).wf(),
        final(store).titles@ == old(store).titles@,
        final(store).paths@ == insert_after(old(store).paths@, p, now),
        r == insert_result(old(store).paths@, p, now),
{
    let ghost s0 = store.paths@;
    match find_path_index(&store.paths, p.src, p.dst) {
        Some(_) => None,
        None => {
            let row = CachedPath {
                src: p.src,
                dst: p.dst,
                result: crate::outcome::encode_outcome(p.outcome),
                last_access: now,
                hit_count: 0,
            };
            store.paths.push(row);
            proof {
                assert forall|a: int, b: int|
                    0 <= a < b < store.paths@.len() implies !(store.paths@[a].src
                    == store.paths@[b].src && store.paths@[a].dst == store.paths@[b].dst) by {
                    if b < s0.len() {
                        assert(store.paths@[a] == s0[a] && store.paths@[b] == s0[b]);
                    } else {
                        assert(store.paths@[b] == row);
                        assert(!key_matches(s0[a], p.src, p.dst));
                    }
                }
            }
            Some(row)
        },
    }
}

/// Add one catalog entry out of band. A duplicate title is a constraint
/// violation and leaves the catalog unchanged.
pub fn insert_title(store: &mut CacheStore, t: String, n: u32) -> (r: Result<
    AddressEntry,
    StorageError,
>)
    requires
        old(store).wf(),
    ensures
        final(store).wf(),
        final(store).paths@ == old(store).paths@,
        has_title(old(store).titles@, t@) ==> r == Err::<AddressEntry, StorageError>(
            StorageError::ConstraintViolation,
        ) && final(store).titles@ == old(store).titles@,
        !has_title(old(store).titles@, t@) ==> match r {
            Ok(e) => e.title@ == t@ && e.page_id == n && e.rank_bits == None::<u64>
                && final(store).titles@ == old(store).titles@.push(e),
            Err(_) => false,
        },
{
    let ghost t0 = store.titles@;
    match find_title_index(&store.titles, t.as_str()) {
        Some(_) => Err(StorageError::ConstraintViolation),
        None => {
            let entry = AddressEntry { title: t, page_id: n, rank_bits: None };
            let copy = AddressEntry {
                title: entry.title.clone(),
                page_id: entry.page_id,
                rank_bits: entry.rank_bits,
            };
            store.titles.push(entry);
            proof {
                assert forall|a: int, b: int|
                    0 <= a < b < store.titles@.len() implies store.titles@[a].title@
                    != store.titles@[b].title@ by {
                    if b < t0.len() {
                        assert(store.titles@[a] == t0[a] && store.titles@[b] == t0[b]);
                    } else {
                        assert(t0[a].title@ != store.titles@[b].title@);
                    }
                }
            }
            Ok(copy)
        },
    }
}

/// Delete every cached path row and report how many were dropped. The
/// catalog is untouched. An in-memory purge cannot fail; the `Result`
/// carries the failure mode a remote store would add.
pub fn purge_cache(store: &mut CacheStore) -> (r: Result<usize, StorageError>)
    requires
        old(store).wf(),
    ensures
        final(store).wf(),
        final(store).titles@ == old(store).titles@,
        final(store).paths@ == Seq::<CachedPath>::empty(),
        r == Ok::<usize, StorageError>(old(store).paths@.len() as usize),
{
    let n = store.paths.len();
    store.paths.clear();
    Ok(n)
}

/// Relies on chrono::Utc::now for the wall clock; the result depends on
/// the clock alone, so nothing is promised of it.
#[verifier::external_body]
fn now_timestamp() -> i64 {
    chrono::Utc::now().timestamp()
}

/// `lookup_path` against the wall clock: some instant stamps the hit.
pub fn lookup_path_now(store: &mut CacheStore, src: u32, dst: u32) -> (r: Option<CachedPath>)
    requires
        old(store).wf(),
    ensures
        final(store).wf(),
        final(store).titles@ == old(store).titles@,
        exists|t: i64|
            final(store).paths@ == lookup_after(old(store).paths@, src, dst, t) && r
                == lookup_result(old(store).paths@, src, dst, t),
{
    let t = now_timestamp();
    let r = lookup_path(store, src, dst, t);
    proof {
        assert(store.paths@ == lookup_after(old(store).paths@, src, dst, t) && r
            == lookup_result(old(store).paths@, src, dst, t));
    }
    r
}

/// `insert_path` against the wall clock: some instant stamps the row.
pub fn insert_path_now(store: &mut CacheStore, p: Path) -> (r: Option<CachedPath>)
    requires
        old(store).wf(),
        p.wf(),
    ensures
        final(store).wf(),
        final(store).titles@ == old(store).titles@,
        exists|t: i64|
            final(store).paths@ == insert_after(old(store).paths@, p, t) && r == insert_result(
                old(store).paths@,
                p,
                t,
            ),
{
    let t = now_timestamp();
    let r = insert_path(store, p, t);
    proof {
        assert(store.paths@ == insert_after(old(store).paths@, p, t) && r == insert_result(
            old(store).paths@,
            p,
            t,
        ));
    }
    r
}

} // verus!
