//! The inode table: every inode record, keyed by identifier.

use crate::inode::{Inode, InodeView};
use std::collections::HashMap;
use vstd::prelude::*;
use vstd::std_specs::hash::spec_keys_iter;
use vstd::std_specs::iter::IteratorSpec;

verus! {

broadcast use vstd::std_specs::hash::group_hash_axioms;

/// Owns the inodes. Callers get copies and write changed copies back with
/// `insert`.
#[derive(Debug)]
pub struct InodeTable {
    inodes: HashMap<u64, Inode>,
}

impl View for InodeTable {
    type V = Map<u64, InodeView>;

    closed spec fn view(&self) -> Map<u64, InodeView> {
        Map::new(|id: u64| self.inodes@.contains_key(id), |id: u64| self.inodes@[id]@)
    }
}

/// Every record is held under its own identifier.
pub open spec fn keyed_by_id(inodes: Map<u64, InodeView>) -> bool {
    forall|id: u64| #[trigger] inodes.contains_key(id) ==> inodes[id].id == id
}

impl InodeTable {
    /// Every record is held under its own identifier.
    pub open spec fn well_formed(&self) -> bool {
        keyed_by_id(self@)
    }

    /// A table holds finitely many inodes.
    pub proof fn lemma_finite(&self)
        ensures
            self@.dom().finite(),
    {
        assert(self@.dom() =~= self.inodes@.dom());
    }

    /// An empty table.
    pub fn new() -> (table: Self)
        ensures
            table.well_formed(),
            table@ == Map::<u64, InodeView>::empty(),
    {
        let table = InodeTable { inodes: HashMap::new() };
        proof {
            assert(table@ =~= Map::<u64, InodeView>::empty());
        }
        table
    }

    /// Number of inodes held.
    pub fn len(&self) -> (n: usize)
        ensures
            n == self@.len(),
    {
        proof {
            assert(self@.dom() =~= self.inodes@.dom());
        }
        self.inodes.len()
    }

    /// Stores `inode` under its identifier, replacing any record already
    /// held under it.
    pub fn insert(&mut self, inode: Inode)
        ensures
            old(self).well_formed() ==> final(self).well_formed(),
            final(self)@ == old(self)@.insert(inode@.id, inode@),
    {
        let id = inode.id;
        self.inodes.insert(id, inode);
        proof {
            assert(self@ =~= old(self)@.insert(inode@.id, inode@));
        }
    }

    /// A copy of the inode held under `id`, or `None` where there is none.
    pub fn lookup(&self, id: u64) -> (found: Option<Inode>)
        ensures
            match found {
                Some(inode) => self@.contains_key(id) && inode@ == self@[id],
                None => !self@.contains_key(id),
            },
    {
        match self.inodes.get(&id) {
            Some(inode) => Some(inode.clone()),
            None => None,
        }
    }

    /// Deletes the record held under `id`; a table without one is unchanged.
    pub fn remove(&mut self, id: u64)
        ensures
            old(self).well_formed() ==> final(self).well_formed(),
            final(self)@ == old(self)@.remove(id),
    {
        self.inodes.remove(&id);
        proof {
            assert(self@ =~= old(self)@.remove(id));
        }
    }

    /// The identifiers in use, each once, in no particular order.
    pub fn ids(&self) -> (ids: Vec<u64>)
        ensures
            ids@.no_duplicates(),
            forall|id: u64| ids@.contains(id) <==> self@.contains_key(id),
    {
        let mut ids: Vec<u64> = Vec::new();
        proof {
            vstd::std_specs::hash::axiom_spec_keys_iter(&self.inodes);
        }
        for key in it: self.inodes.keys()
            invariant
                it.seq() == spec_keys_iter(&self.inodes).remaining(),
                ids@.len() == it.index(),
                forall|j: int| 0 <= j < ids@.len() ==> ids@[j] == *it.seq()[j],
        {
            ids.push(*key);
        }
        proof {
            let walked = spec_keys_iter(&self.inodes).remaining();
            assert(ids@ =~= walked.unref());
            assert forall|id: u64| ids@.contains(id) <==> self@.contains_key(id) by {
                assert(ids@.to_set().contains(id) <==> self.inodes@.dom().contains(id));
            }
        }
        ids
    }
}

} // verus!
