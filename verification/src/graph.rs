//! Read-only views of the graph engine's data that the cache consumes: the
//! node-id to entry table, and the optional per-node rank scores. The cache
//! never mutates the engine's data; these types are snapshots handed in by
//! the caller, keyed by pairwise-distinct node ids.

use vstd::prelude::*;

verus! {

/// What the graph engine keeps per node, as far as the cache reads it.
#[derive(Clone, Debug)]
pub struct Entry {
    pub title: String,
}

/// The engine's node table: node id to entry, ids pairwise distinct.
#[derive(Clone, Debug)]
pub struct Links {
    pub items: Vec<(u32, Entry)>,
}

/// Rank scores per node id, each carried as a raw bit pattern (the score's
/// numeric meaning lives outside this layer); ids pairwise distinct.
#[derive(Clone, Debug)]
pub struct Ranks {
    pub items: Vec<(u32, u64)>,
}

impl Links {
    pub open spec fn wf(self) -> bool {
        forall|i: int, j: int| 0 <= i < j < self.items@.len() ==> self.items@[i].0 != self.items@[j].0
    }

    /// A node with this id is in the table.
    pub open spec fn spec_has(self, id: u32) -> bool {
        exists|i: int| 0 <= i < self.items@.len() && self.items@[i].0 == id
    }

    pub open spec fn spec_index_of(self, id: u32) -> int {
        choose|i: int| 0 <= i < self.items@.len() && self.items@[i].0 == id
    }

    /// The title of the node with this id; meaningful when `spec_has` holds.
    pub open spec fn spec_title(self, id: u32) -> Seq<char> {
        self.items@[self.spec_index_of(id)].1.title@
    }

    pub fn new() -> (r: Links)
        ensures
            r.wf(),
            r.items@ == Seq::<(u32, Entry)>::empty(),
    {
        Links { items: Vec::new() }
    }

    /// Register one node. Ids already present are refused so the table
    /// stays a mapping.
    pub fn add(&mut self, id: u32, title: String) -> (r: bool)
        requires
            old(self).wf(),
        ensures
            final(self).wf(),
            r == !old(self).spec_has(id),
            r ==> final(self).items@ == old(self).items@.push((id, Entry { title })),
            !r ==> final(self).items@ == old(self).items@,
    {
        let ghost s0 = self.items@;
        let mut i: usize = 0;
        while i < self.items.len()
            invariant
                i <= self.items@.len(),
                self.items@ == s0,
                forall|a: int, b: int| 0 <= a < b < s0.len() ==> s0[a].0 != s0[b].0,
                forall|k: int| 0 <= k < i ==> self.items@[k].0 != id,
            decreases self.items@.len() - i,
        {
            if self.items[i].0 == id {
                return false;
            }
            i += 1;
        }
        self.items.push((id, Entry { title }));
        proof {
            assert forall|a: int, b: int|
                0 <= a < b < self.items@.len() implies self.items@[a].0 != self.items@[b].0 by {
                if b < s0.len() {
                    assert(self.items@[a] == s0[a] && self.items@[b] == s0[b]);
                } else {
                    assert(s0[a].0 != id);
                }
            }
        }
        true
    }

    /// The title of the node with this id, if the table has it.
    pub fn get_title(&self, id: u32) -> (r: Option<&String>)
        requires
            self.wf(),
        ensures
            match r {
                Some(t) => self.spec_has(id) && t@ == self.spec_title(id),
                None => !self.spec_has(id),
            },
    {
        let mut i: usize = 0;
        while i < self.items.len()
            invariant
                i <= self.items@.len(),
                self.wf(),
                forall|k: int| 0 <= k < i ==> self.items@[k].0 != id,
            decreases self.items@.len() - i,
        {
            if self.items[i].0 == id {
                proof {
                    let j = self.spec_index_of(id);
                    if i < j {
                        assert(self.items@[i as int].0 != self.items@[j].0);
                    } else if j < i {
                        assert(self.items@[j].0 != self.items@[i as int].0);
                    }
                }
                return Some(&self.items[i].1.title);
            }
            i += 1;
        }
        None
    }

    pub fn len(&self) -> (r: usize)
        ensures
            r == self.items@.len(),
    {
        self.items.len()
    }
}

impl Ranks {
    pub open spec fn wf(self) -> bool {
        forall|i: int, j: int| 0 <= i < j < self.items@.len() ==> self.items@[i].0 != self.items@[j].0
    }

    pub open spec fn spec_has(self, id: u32) -> bool {
        exists|i: int| 0 <= i < self.items@.len() && self.items@[i].0 == id
    }

    pub open spec fn spec_index_of(self, id: u32) -> int {
        choose|i: int| 0 <= i < self.items@.len() && self.items@[i].0 == id
    }

    /// The score bits recorded for this id, if any.
    pub open spec fn spec_rank(self, id: u32) -> Option<u64> {
        if self.spec_has(id) {
            Some(self.items@[self.spec_index_of(id)].1)
        } else {
            None
        }
    }

    pub fn new() -> (r: Ranks)
        ensures
            r.wf(),
            r.items@ == Seq::<(u32, u64)>::empty(),
    {
        Ranks { items: Vec::new() }
    }

    /// Record one score. Ids already present are refused so the table
    /// stays a mapping.
    pub fn add(&mut self, id: u32, bits: u64) -> (r: bool)
        requires
            old(self).wf(),
        ensures
            final(self).wf(),
            r == !old(self).spec_has(id),
            r ==> final(self).items@ == old(self).items@.push((id, bits)),
            !r ==> final(self).items@ == old(self).items@,
    {
        let ghost s0 = self.items@;
        let mut i: usize = 0;
        while i < self.items.len()
            invariant
                i <= self.items@.len(),
                self.items@ == s0,
                forall|a: int, b: int| 0 <= a < b < s0.len() ==> s0[a].0 != s0[b].0,
                forall|k: int| 0 <= k < i ==> self.items@[k].0 != id,
            decreases self.items@.len() - i,
        {
            if self.items[i].0 == id {
                return false;
            }
            i += 1;
        }
        self.items.push((id, bits));
        proof {
            assert forall|a: int, b: int|
                0 <= a < b < self.items@.len() implies self.items@[a].0 != self.items@[b].0 by {
                if b < s0.len() {
                    assert(self.items@[a] == s0[a] && self.items@[b] == s0[b]);
                } else {
                    assert(s0[a].0 != id);
                }
            }
        }
        true
    }

    /// The score bits for this id, if the table has them.
    pub fn get(&self, id: u32) -> (r: Option<u64>)
        requires
            self.wf(),
        ensures
            r == self.spec_rank(id),
    {
        let mut i: usize = 0;
        while i < self.items.len()
            invariant
                i <= self.items@.len(),
                self.wf(),
                forall|k: int| 0 <= k < i ==> self.items@[k].0 != id,
            decreases self.items@.len() - i,
        {
            if self.items[i].0 == id {
                proof {
                    let j = self.spec_index_of(id);
                    if i < j {
                        assert(self.items@[i as int].0 != self.items@[j].0);
                    } else if j < i {
                        assert(self.items@[j].0 != self.items@[i as int].0);
                    }
                }
                return Some(self.items[i].1);
            }
            i += 1;
        }
        None
    }
}

} // verus!
