//! The block store: raw data blocks, written once and found by identifier.

use std::collections::HashMap;
use vstd::prelude::*;

verus! {

broadcast use vstd::std_specs::hash::group_hash_axioms;

/// Holds every block ever written. Blocks are never updated or removed.
#[derive(Debug)]
pub struct BlockStore {
    blocks: HashMap<u64, Vec<u8>>,
}

impl View for BlockStore {
    type V = Map<u64, Seq<u8>>;

    closed spec fn view(&self) -> Map<u64, Seq<u8>> {
        Map::new(|id: u64| self.blocks@.contains_key(id), |id: u64| self.blocks@[id]@)
    }
}

/// The identifiers of `blocks` are exactly `1 ..= count`.
pub open spec fn numbered(blocks: Map<u64, Seq<u8>>, count: nat) -> bool {
    forall|id: u64| #[trigger] blocks.contains_key(id) <==> 1 <= id <= count
}

impl BlockStore {
    /// Number of blocks stored.
    pub open spec fn count(&self) -> nat {
        self@.len()
    }

    /// The blocks are numbered from 1 without a gap.
    pub open spec fn well_formed(&self) -> bool {
        numbered(self@, self.count())
    }

    /// A store holds finitely many blocks.
    pub proof fn lemma_finite(&self)
        ensures
            self@.dom().finite(),
    {
        assert(self@.dom() =~= self.blocks@.dom());
    }

    /// An empty store.
    pub fn new() -> (store: Self)
        ensures
            store.well_formed(),
            store.count() == 0,
            store@ == Map::<u64, Seq<u8>>::empty(),
    {
        let store = BlockStore { blocks: HashMap::new() };
        proof {
            assert(store@ =~= Map::<u64, Seq<u8>>::empty());
        }
        store
    }

    /// Number of blocks stored.
    pub fn len(&self) -> (n: usize)
        ensures
            n == self.count(),
    {
        proof {
            assert(self@.dom() =~= self.blocks@.dom());
        }
        self.blocks.len()
    }

    /// Stores `data` as a new block, numbered one above the number of blocks
    /// already held, and returns that number. No other block changes.
    pub fn allocate_and_write(&mut self, data: &[u8]) -> (id: u64)
        requires
            old(self).well_formed(),
            old(self).count() < u64::MAX,
        ensures
            final(self).well_formed(),
            id == old(self).count() + 1,
            final(self).count() == old(self).count() + 1,
            final(self)@ == old(self)@.insert(id, data@),
            !old(self)@.contains_key(id),
    {
        proof {
            assert(self@.dom() =~= self.blocks@.dom());
        }
        let id: u64 = self.blocks.len() as u64 + 1;
        let bytes = vstd::slice::slice_to_vec(data);
        self.blocks.insert(id, bytes);
        proof {
            assert(!old(self)@.contains_key(id));
            assert(!old(self).blocks@.contains_key(id));
            assert(self@ =~= old(self)@.insert(id, data@));
            assert(self@.dom() =~= old(self)@.dom().insert(id));
        }
        id
    }

    /// The bytes of block `id`, or `None` where no such block was written.
    pub fn read(&self, id: u64) -> (found: Option<&Vec<u8>>)
        ensures
            match found {
                Some(bytes) => self@.contains_key(id) && bytes@ == self@[id],
                None => !self@.contains_key(id),
            },
    {
        self.blocks.get(&id)
    }
}

} // verus!
