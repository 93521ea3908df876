//! Address resolution: turn a free-text query into a node id, exactly or
//! fuzzily. The empty query short-circuits; an exact (case-sensitive)
//! title match wins; otherwise a substring search over the catalog yields
//! up to [`SUGGESTION_CAP`] candidate titles in catalog order, or nothing.
//!
//! Every resolution failure is an ordinary result value (`Unknown`,
//! `Sugg`): an in-memory catalog read cannot fail, so no query aborts the
//! calling operation.

use vstd::prelude::*;

use crate::store::{addr_at, has_title, title_index, AddressEntry, CacheStore};
use crate::text::{is_substring, str_contains};

verus! {

/// Hard cap on fuzzy-match candidates returned per query.
pub const SUGGESTION_CAP: usize = 10;

/// The outcome of resolving a query string.
#[derive(Debug)]
pub enum Node {
    /// The query was empty; no storage was consulted.
    Unused,
    /// An entry with exactly this title exists: its node id, and the query.
    Found(u32, String),
    /// No exact match; these catalog titles contain the query.
    Sugg(Vec<String>),
    /// No exact match and no candidate contains the query.
    Unknown(String),
}

/// The titles of all catalog entries that contain `q`, in catalog order.
pub open spec fn matching_titles(s: Seq<AddressEntry>, q: Seq<char>) -> Seq<Seq<char>>
    decreases s.len(),
{
    if s.len() == 0 {
        Seq::empty()
    } else {
        let rest = matching_titles(s.drop_last(), q);
        if is_substring(q, s.last().title@) {
            rest.push(s.last().title@)
        } else {
            rest
        }
    }
}

/// The first `SUGGESTION_CAP` of a candidate list.
pub open spec fn capped(s: Seq<Seq<char>>) -> Seq<Seq<char>> {
    if s.len() <= SUGGESTION_CAP {
        s
    } else {
        s.take(SUGGESTION_CAP as int)
    }
}

/// What the fuzzy search hands back for a query with no exact match.
pub open spec fn suggestions(titles: Seq<AddressEntry>, q: Seq<char>) -> Seq<Seq<char>> {
    capped(matching_titles(titles, q))
}

/// A prefix of the catalog only ever matches a prefix of the full
/// candidate list.
proof fn lemma_matching_prefix(s: Seq<AddressEntry>, q: Seq<char>, i: int)
    requires
        0 <= i <= s.len(),
    ensures
        matching_titles(s.take(i), q).len() <= matching_titles(s, q).len(),
        matching_titles(s, q).take(matching_titles(s.take(i), q).len() as int) == matching_titles(
            s.take(i),
            q,
        ),
    decreases s.len() - i,
{
    if i == s.len() {
        assert(s.take(i) =~= s);
        assert(matching_titles(s, q).take(matching_titles(s, q).len() as int) =~= matching_titles(
            s,
            q,
        ));
    } else {
        lemma_matching_prefix(s, q, i + 1);
        assert(s.take(i + 1).drop_last() =~= s.take(i));
        assert(s.take(i + 1).last() == s[i]);
        let mi = matching_titles(s.take(i), q);
        let mi1 = matching_titles(s.take(i + 1), q);
        let m = matching_titles(s, q);
        if is_substring(q, s[i].title@) {
            assert(mi1 == mi.push(s[i].title@));
            assert(m.take(mi.len() as int) =~= mi1.take(mi.len() as int));
            assert(mi1.take(mi.len() as int) =~= mi);
        } else {
            assert(mi1 == mi);
        }
    }
}

/// Resolve a query against the catalog: `Unused` for the empty string,
/// `Found` on an exact title match, otherwise `Sugg` with the first
/// [`SUGGESTION_CAP`] containing titles in catalog order, or `Unknown`
/// when nothing contains the query.
pub fn lookup_addr(store: &CacheStore, query: &str) -> (r: Node)
    requires
        store.wf(),
    ensures
        query@.len() == 0 ==> r == Node::Unused,
        query@.len() > 0 && has_title(store.titles@, query@) ==> match r {
            Node::Found(id, t) => id == addr_at(store.titles@, query@).page_id && t@ == query@,
            _ => false,
        },
        query@.len() > 0 && !has_title(store.titles@, query@) ==> {
            let m = matching_titles(store.titles@, query@);
            if m.len() == 0 {
                r matches Node::Unknown(u) && u@ == query@
            } else {
                r matches Node::Sugg(v) && v@.map_values(|t: String| t@) == suggestions(
                    store.titles@,
                    query@,
                ) && v@.len() <= SUGGESTION_CAP
            }
        },
{
    if query.unicode_len() == 0 {
        return Node::Unused;
    }
    match crate::store::find_title_index(&store.titles, query) {
        Some(i) => {
            let id = store.titles[i].page_id;
            Node::Found(id, query.to_owned())
        },
        None => {
            let ghost titles = store.titles@;
            let ghost q = query@;
            let mut sugg: Vec<String> = Vec::new();
            let mut i: usize = 0;
            while i < store.titles.len() && sugg.len() < SUGGESTION_CAP
                invariant
                    i <= store.titles@.len(),
                    titles == store.titles@,
                    q == query@,
                    sugg@.len() <= SUGGESTION_CAP,
                    sugg@.map_values(|t: String| t@) == matching_titles(titles.take(i as int), q),
                decreases store.titles@.len() - i,
            {
                let ghost before = sugg@;
                if str_contains(store.titles[i].title.as_str(), query) {
                    sugg.push(store.titles[i].title.clone());
                }
                proof {
                    assert(titles.take(i + 1).drop_last() =~= titles.take(i as int));
                    assert(titles.take(i + 1).last() == titles[i as int]);
                    if is_substring(q, titles[i as int].title@) {
                        assert(sugg@ == before.push(titles[i as int].title));
                        assert(sugg@.map_values(|t: String| t@) =~= before.map_values(
                            |t: String| t@,
                        ).push(titles[i as int].title@));
                    }
                }
                i += 1;
            }
            proof {
                let m = matching_titles(titles, q);
                let mi = matching_titles(titles.take(i as int), q);
                lemma_matching_prefix(titles, q, i as int);
                if i == titles.len() {
                    assert(titles.take(i as int) =~= titles);
                } else {
                    assert(sugg@.len() == SUGGESTION_CAP);
                    assert(m.take(SUGGESTION_CAP as int) =~= capped(m)) by {
                        assert(m.len() >= mi.len());
                    }
                    assert(capped(m) == mi);
                }
                assert(sugg@.map_values(|t: String| t@) == suggestions(titles, q));
            }
            if sugg.len() == 0 {
                proof {
                    assert(matching_titles(titles, q).len() == 0) by {
                        assert(sugg@.map_values(|t: String| t@).len() == 0);
                    }
                }
                Node::Unknown(query.to_owned())
            } else {
                Node::Sugg(sugg)
            }
        },
    }
}

} // verus!
