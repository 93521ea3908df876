//! Bulk population of the address catalog from the graph engine's node
//! table. One catalog row is built per node (title from the entry, rank
//! bits when the ranking has one for that id), and the rows are written in
//! sequential batches of at most [`BATCH_SIZE`], respecting the backing
//! store's single-statement row limit. The batches are not one
//! transaction: a batch that collides with the unique title key fails
//! whole, the batches before it stay written, and the operation reports
//! the failure. It is meant to run once per graph-data refresh.

use vstd::prelude::*;

use crate::graph::{Links, Ranks};
use crate::store::{
    find_title_index, has_title, paths_wf, titles_wf, AddressEntry, CacheStore, StorageError,
};
use crate::text::str_eq;

verus! {

/// Most rows one bulk write may carry.
pub const BATCH_SIZE: usize = 10000;

/// The catalog rows one graph snapshot generates, in node-table order.
pub open spec fn built_rows(links: Links, ranks: Ranks) -> Seq<AddressEntry> {
    links.items@.map_values(
        |le: (u32, crate::graph::Entry)|
            AddressEntry { title: le.1.title, page_id: le.0, rank_bits: ranks.spec_rank(le.0) },
    )
}

/// A batch the catalog accepts: no title already present, no title twice.
pub open spec fn fresh_rows(titles: Seq<AddressEntry>, batch: Seq<AddressEntry>) -> bool {
    (forall|i: int| 0 <= i < batch.len() ==> !has_title(titles, #[trigger] batch[i].title@))
        && (forall|i: int, j: int| 0 <= i < j < batch.len() ==> batch[i].title@ != batch[j].title@)
}

/// How many rows the next bulk write takes from `n` remaining.
pub open spec fn batch_len(n: int) -> int {
    if n < BATCH_SIZE {
        n
    } else {
        BATCH_SIZE as int
    }
}

/// The sizes of the bulk writes a row count `n` is split into, in order:
/// the same steps `populate_spec` takes through its row set.
pub open spec fn spec_batch_sizes(n: int) -> Seq<int>
    decreases n,
{
    if n <= 0 {
        Seq::empty()
    } else {
        seq![batch_len(n)] + spec_batch_sizes(n - batch_len(n))
    }
}

/// The total of a list of batch sizes.
pub open spec fn sum_of(s: Seq<int>) -> int
    decreases s.len(),
{
    if s.len() == 0 {
        0
    } else {
        sum_of(s.drop_first()) + s.first()
    }
}

/// Every bulk write is bounded by [`BATCH_SIZE`], none is empty, and
/// together they cover the row count exactly.
pub proof fn lemma_batch_sizes_cover(n: int)
    requires
        0 <= n,
    ensures
        forall|i: int|
            0 <= i < spec_batch_sizes(n).len() ==> 0 < #[trigger] spec_batch_sizes(n)[i]
                <= BATCH_SIZE,
        sum_of(spec_batch_sizes(n)) == n,
    decreases n,
{
    if n > 0 {
        let bl = batch_len(n);
        lemma_batch_sizes_cover(n - bl);
        assert(spec_batch_sizes(n).drop_first() =~= spec_batch_sizes(n - bl));
        assert(spec_batch_sizes(n).first() == bl);
    }
}

/// The bounded batches a bulk write of `n` rows issues, in order.
pub fn batch_sizes(n: usize) -> (r: Vec<usize>)
    ensures
        r@.map_values(|x: usize| x as int) == spec_batch_sizes(n as int),
{
    let mut r: Vec<usize> = Vec::new();
    let mut left: usize = n;
    proof {
        assert(r@.map_values(|x: usize| x as int) =~= Seq::<int>::empty());
    }
    while left > 0
        invariant
            r@.map_values(|x: usize| x as int) + spec_batch_sizes(left as int) == spec_batch_sizes(
                n as int,
            ),
        decreases left,
    {
        let ghost acc = r@.map_values(|x: usize| x as int);
        let b = if left > BATCH_SIZE {
            BATCH_SIZE
        } else {
            left
        };
        r.push(b);
        left -= b;
        proof {
            assert(r@.map_values(|x: usize| x as int) =~= acc + seq![b as int]);
            assert(acc + seq![b as int] + spec_batch_sizes(left as int) =~= acc + (
            seq![b as int] + spec_batch_sizes(left as int)));
        }
    }
    proof {
        assert(r@.map_values(|x: usize| x as int) + spec_batch_sizes(0) =~= r@.map_values(
            |x: usize| x as int,
        ));
    }
    r
}

/// The catalog after bulk-writing `rows` batch by batch, and whether every
/// batch went through: each accepted batch is appended whole; the first
/// rejected batch stops the run with everything before it kept.
pub open spec fn populate_spec(titles: Seq<AddressEntry>, rows: Seq<AddressEntry>) -> (
    Seq<AddressEntry>,
    bool,
)
    decreases rows.len(),
{
    if rows.len() == 0 {
        (titles, true)
    } else {
        let b = rows.take(batch_len(rows.len() as int));
        if fresh_rows(titles, b) {
            populate_spec(titles + b, rows.skip(batch_len(rows.len() as int)))
        } else {
            (titles, false)
        }
    }
}

/// Appending an accepted batch keeps titles pairwise distinct.
pub proof fn lemma_wf_append(titles: Seq<AddressEntry>, batch: Seq<AddressEntry>)
    requires
        titles_wf(titles),
        fresh_rows(titles, batch),
    ensures
        titles_wf(titles + batch),
{
    let n = titles.len() as int;
    assert forall|i: int, j: int|
        0 <= i < j < (titles + batch).len() implies (titles + batch)[i].title@ != (titles
        + batch)[j].title@ by {
        if j < n {
            assert((titles + batch)[i] == titles[i] && (titles + batch)[j] == titles[j]);
        } else if i < n {
            assert((titles + batch)[i] == titles[i] && (titles + batch)[j] == batch[j - n]);
            if titles[i].title@ == batch[j - n].title@ {
                assert(has_title(titles, batch[j - n].title@));
            }
        } else {
            assert((titles + batch)[i] == batch[i - n] && (titles + batch)[j] == batch[j - n]);
        }
    }
}

/// Whether the store accepts `rows[lo..hi]` as one batch.
fn batch_fresh(titles: &Vec<AddressEntry>, rows: &Vec<AddressEntry>, lo: usize, hi: usize) -> (r:
    bool)
    requires
        lo <= hi <= rows@.len(),
        titles_wf(titles@),
    ensures
        r == fresh_rows(titles@, rows@.subrange(lo as int, hi as int)),
{
    let ghost batch = rows@.subrange(lo as int, hi as int);
    let mut k: usize = lo;
    while k < hi
        invariant
            lo <= k <= hi <= rows@.len(),
            titles_wf(titles@),
            batch == rows@.subrange(lo as int, hi as int),
            forall|a: int| lo <= a < k ==> !has_title(titles@, #[trigger] rows@[a].title@),
            forall|a: int, b: int| lo <= a < b < k ==> rows@[a].title@ != rows@[b].title@,
        decreases hi - k,
    {
        if find_title_index(titles, rows[k].title.as_str()).is_some() {
            proof {
                assert(batch[k - lo] == rows@[k as int]);
            }
            return false;
        }
        let mut m: usize = lo;
        while m < k
            invariant
                lo <= m <= k < hi <= rows@.len(),
                batch == rows@.subrange(lo as int, hi as int),
                forall|a: int| lo <= a < m ==> rows@[a].title@ != rows@[k as int].title@,
            decreases k - m,
        {
            if str_eq(rows[m].title.as_str(), rows[k].title.as_str()) {
                proof {
                    assert(batch[m - lo] == rows@[m as int] && batch[k - lo] == rows@[k as int]);
                }
                return false;
            }
            m += 1;
        }
        k += 1;
    }
    proof {
        assert forall|i: int| 0 <= i < batch.len() implies !has_title(
            titles@,
            #[trigger] batch[i].title@,
        ) by {
            assert(batch[i] == rows@[lo + i]);
        }
        assert forall|i: int, j: int| 0 <= i < j < batch.len() implies batch[i].title@
            != batch[j].title@ by {
            assert(batch[i] == rows@[lo + i] && batch[j] == rows@[lo + j]);
        }
    }
    true
}

/// Build one catalog row per graph node and bulk-write them in batches of
/// at most [`BATCH_SIZE`]. Success appends every row; a batch that
/// collides with the unique title key (a title already in the catalog, or
/// twice in the snapshot) fails the run there, with all earlier batches
/// kept — re-running against the half-written catalog then fails too.
pub fn populate_addrs(store: &mut CacheStore, links: &Links, ranks: &Ranks) -> (r: Result<
    (),
    StorageError,
>)
    requires
        old(store).wf(),
        links.wf(),
        ranks.wf(),
    ensures
        final(store).wf(),
        final(store).paths@ == old(store).paths@,
        final(store).titles@ == populate_spec(old(store).titles@, built_rows(*links, *ranks)).0,
        populate_spec(old(store).titles@, built_rows(*links, *ranks)).1 ==> r == Ok::<
            (),
            StorageError,
        >(()) && final(store).titles@ == old(store).titles@ + built_rows(*links, *ranks),
        !populate_spec(old(store).titles@, built_rows(*links, *ranks)).1 ==> r == Err::<
            (),
            StorageError,
        >(StorageError::ConstraintViolation),
{
    let ghost all = built_rows(*links, *ranks);
    let mut rows: Vec<AddressEntry> = Vec::new();
    let mut i: usize = 0;
    while i < links.items.len()
        invariant
            i <= links.items@.len(),
            links.wf(),
            ranks.wf(),
            all == built_rows(*links, *ranks),
            rows@ == all.take(i as int),
        decreases links.items@.len() - i,
    {
        let id = links.items[i].0;
        let rank = ranks.get(id);
        rows.push(
            AddressEntry { title: links.items[i].1.title.clone(), page_id: id, rank_bits: rank },
        );
        proof {
            assert(rows@ =~= all.take(i + 1));
        }
        i += 1;
    }
    proof {
        assert(rows@ =~= all);
    }
    let ghost titles0 = store.titles@;
    proof {
        assert(titles0 + rows@.take(0) =~= titles0);
        assert(rows@.skip(0) =~= rows@);
    }
    let mut current: usize = 0;
    while current < rows.len()
        invariant
            current <= rows@.len(),
            rows@ == all,
            all == built_rows(*links, *ranks),
            store.wf(),
            store.paths@ == old(store).paths@,
            titles0 == old(store).titles@,
            store.titles@ == titles0 + rows@.take(current as int),
            populate_spec(store.titles@, rows@.skip(current as int)) == populate_spec(
                titles0,
                all,
            ),
        decreases rows@.len() - current,
    {
        let upper = if rows.len() - current > BATCH_SIZE {
            current + BATCH_SIZE
        } else {
            rows.len()
        };
        let ghost remaining = rows@.skip(current as int);
        let ghost batch = rows@.subrange(current as int, upper as int);
        let ghost tcur = store.titles@;
        proof {
            assert(batch_len(remaining.len() as int) == upper - current);
            assert(remaining.take(batch_len(remaining.len() as int)) =~= batch);
        }
        let fresh = batch_fresh(&store.titles, &rows, current, upper);
        if !fresh {
            proof {
                assert(!fresh_rows(tcur, remaining.take(batch_len(remaining.len() as int))));
                assert(populate_spec(tcur, remaining) == (tcur, false));
            }
            return Err(StorageError::ConstraintViolation);
        }
        let mut k: usize = current;
        while k < upper
            invariant
                current <= k <= upper <= rows@.len(),
                rows@ == all,
                batch == rows@.subrange(current as int, upper as int),
                tcur == titles0 + rows@.take(current as int),
                store.paths@ == old(store).paths@,
                store.titles@ == tcur + rows@.subrange(current as int, k as int),
                paths_wf(store.paths@),
            decreases upper - k,
        {
            let e = AddressEntry {
                title: rows[k].title.clone(),
                page_id: rows[k].page_id,
                rank_bits: rows[k].rank_bits,
            };
            store.titles.push(e);
            proof {
                assert(store.titles@ =~= tcur + rows@.subrange(current as int, k + 1));
            }
            k += 1;
        }
        proof {
            lemma_wf_append(tcur, batch);
            assert(store.titles@ == tcur + batch);
            assert(populate_spec(tcur, remaining) == populate_spec(
                tcur + batch,
                remaining.skip(batch_len(remaining.len() as int)),
            ));
            assert(remaining.skip(batch_len(remaining.len() as int)) =~= rows@.skip(upper as int));
            assert(store.titles@ =~= titles0 + rows@.take(upper as int));
        }
        current = upper;
    }
    proof {
        assert(rows@.skip(current as int) =~= Seq::<AddressEntry>::empty());
        assert(rows@.take(current as int) =~= all);
    }
    Ok(())
}

} // verus!
