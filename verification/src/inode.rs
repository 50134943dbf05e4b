//! Inodes: the metadata record of one file or directory.

use vstd::prelude::*;

verus! {

/// Number of direct block pointers that one inode carries.
pub const NUM_DIRECT_POINTERS: usize = 4;

/// What an inode describes.
#[derive(Clone, Copy, Debug, PartialEq, Eq, Structural)]
pub enum InodeType {
    File,
    Directory,
}

/// The test that keeps every identifier but `child_id`.
pub open spec fn differs_from(child_id: u64) -> spec_fn(u64) -> bool {
    |c: u64| c != child_id
}

/// The mathematical value of an [`Inode`].
pub struct InodeView {
    pub id: u64,
    pub file_name: Seq<char>,
    pub inode_type: InodeType,
    pub file_size: u64,
    pub direct_pointers: Seq<Option<u64>>,
    pub entries: Option<Seq<u64>>,
}

impl InodeView {
    /// The inode that creation yields: no data, and an empty child list
    /// exactly when it is a directory.
    pub open spec fn fresh(name: Seq<char>, inode_type: InodeType, id: u64) -> InodeView {
        InodeView {
            id,
            file_name: name,
            inode_type,
            file_size: 0,
            direct_pointers: Seq::new(NUM_DIRECT_POINTERS as nat, |i: int| None::<u64>),
            entries: match inode_type {
                InodeType::Directory => Some(Seq::<u64>::empty()),
                InodeType::File => None,
            },
        }
    }

    /// Appends a child identifier; an inode without a child list is unchanged.
    pub open spec fn add_entry(self, child_id: u64) -> InodeView {
        match self.entries {
            Some(children) => InodeView { entries: Some(children.push(child_id)), ..self },
            None => self,
        }
    }

    /// Index of the first empty pointer slot at or after `from`, or the
    /// number of slots when every such slot is occupied.
    pub open spec fn first_free_from(self, from: int) -> int
        decreases self.direct_pointers.len() - from,
    {
        if from < 0 || from >= self.direct_pointers.len() {
            self.direct_pointers.len() as int
        } else if self.direct_pointers[from].is_none() {
            from
        } else {
            self.first_free_from(from + 1)
        }
    }

    /// Index of the first empty pointer slot, or the number of slots when the
    /// inode is full.
    pub open spec fn first_free(self) -> int {
        self.first_free_from(0)
    }

    /// True when no pointer slot is empty.
    pub open spec fn is_full(self) -> bool {
        self.first_free() >= self.direct_pointers.len()
    }

    /// The inode after `len` bytes were written to block `block`: the block
    /// goes into the first empty slot and the size grows by `len`. A full
    /// inode is unchanged.
    pub open spec fn with_block(self, block: u64, len: nat) -> InodeView {
        if self.is_full() {
            self
        } else {
            InodeView {
                direct_pointers: self.direct_pointers.update(self.first_free(), Some(block)),
                file_size: (self.file_size + len) as u64,
                ..self
            }
        }
    }

    /// Removes every occurrence of `child_id` from the child list.
    pub open spec fn without_child(self, child_id: u64) -> InodeView {
        match self.entries {
            Some(children) => InodeView {
                entries: Some(children.filter(differs_from(child_id))),
                ..self
            },
            None => self,
        }
    }

    /// The first empty pointer slot is empty, lies in range, and every slot
    /// between `from` and it is occupied.
    pub proof fn lemma_first_free_from(self, from: int)
        requires
            0 <= from <= self.direct_pointers.len(),
        ensures
            from <= self.first_free_from(from) <= self.direct_pointers.len(),
            self.first_free_from(from) < self.direct_pointers.len()
                ==> self.direct_pointers[self.first_free_from(from)].is_none(),
            forall|j: int|
                from <= j < self.first_free_from(from) ==> (
                #[trigger] self.direct_pointers[j]).is_some(),
        decreases self.direct_pointers.len() - from,
    {
        if from < self.direct_pointers.len() && self.direct_pointers[from].is_some() {
            self.lemma_first_free_from(from + 1);
        }
    }
    /// The pointer slots are used left to right: no occupied slot follows an
    /// empty one.
    pub open spec fn packed(self) -> bool {
        forall|i: int, j: int|
            0 <= i < j < self.direct_pointers.len() && (
            #[trigger] self.direct_pointers[i]).is_none() ==> (
            #[trigger] self.direct_pointers[j]).is_none()
    }

    /// There are as many pointer slots as an inode has, and a child list
    /// exactly on a directory.
    pub open spec fn well_formed(self) -> bool {
        &&& self.direct_pointers.len() == NUM_DIRECT_POINTERS
        &&& (self.inode_type == InodeType::Directory <==> self.entries.is_some())
    }
}

/// Metadata of one file or directory.
#[derive(Debug)]
pub struct Inode {
    pub id: u64,
    pub file_name: String,
    pub inode_type: InodeType,
    pub file_size: u64,
    pub direct_pointers: [Option<u64>; NUM_DIRECT_POINTERS],
    pub entries: Option<Vec<u64>>,
}

impl View for Inode {
    type V = InodeView;

    open spec fn view(&self) -> InodeView {
        InodeView {
            id: self.id,
            file_name: self.file_name@,
            inode_type: self.inode_type,
            file_size: self.file_size,
            direct_pointers: self.direct_pointers@,
            entries: match self.entries {
                Some(children) => Some(children@),
                None => None,
            },
        }
    }
}

impl Clone for Inode {
    fn clone(&self) -> (copy: Self)
        ensures
            copy@ == self@,
    {
        let entries = match &self.entries {
            Some(children) => {
                let mut copied: Vec<u64> = Vec::new();
                let mut i: usize = 0;
                while i < children.len()
                    invariant
                        i <= children.len(),
                        copied@ == children@.take(i as int),
                    decreases children.len() - i,
                {
                    copied.push(children[i]);
                    proof {
                        assert(children@.take(i + 1) =~= children@.take(i as int).push(
                            children@[i as int],
                        ));
                    }
                    i += 1;
                }
                proof {
                    assert(children@.take(children@.len() as int) =~= children@);
                }
                Some(copied)
            },
            None => None,
        };
        Inode {
            id: self.id,
            file_name: self.file_name.clone(),
            inode_type: self.inode_type,
            file_size: self.file_size,
            direct_pointers: self.direct_pointers,
            entries,
        }
    }
}

impl Inode {
    /// Creates an inode without data: a directory starts with an empty child
    /// list, a file carries none.
    pub fn new_inode(name: &str, inode_type: InodeType, id: u64) -> (inode: Self)
        ensures
            inode@ == InodeView::fresh(name@, inode_type, id),
            inode@.well_formed(),
    {
        let entries: Option<Vec<u64>> = match inode_type {
            InodeType::Directory => Some(Vec::new()),
            InodeType::File => None,
        };
        let inode = Inode {
            id,
            file_name: name.to_owned(),
            inode_type,
            file_size: 0,
            direct_pointers: [None, None, None, None],
            entries,
        };
        proof {
            assert(inode@.direct_pointers =~= InodeView::fresh(
                name@,
                inode_type,
                id,
            ).direct_pointers);
        }
        inode
    }

    /// Appends `child_id` to the child list. An inode without a child list
    /// is left as it is.
    pub fn add_entry(&mut self, child_id: u64)
        ensures
            final(self)@ == old(self)@.add_entry(child_id),
            old(self)@.well_formed() ==> final(self)@.well_formed(),
    {
        match &mut self.entries {
            Some(children) => {
                children.push(child_id);
            },
            None => {},
        }
    }

    /// Removes every occurrence of `child_id` from the child list. An inode
    /// without a child list is left as it is.
    pub fn remove_entry(&mut self, child_id: u64)
        ensures
            final(self)@ == old(self)@.without_child(child_id),
            old(self)@.well_formed() ==> final(self)@.well_formed(),
    {
        let kept = match &self.entries {
            Some(children) => {
                let mut kept: Vec<u64> = Vec::new();
                let mut i: usize = 0;
                while i < children.len()
                    invariant
                        i <= children.len(),
                        kept@ == children@.take(i as int).filter(differs_from(child_id)),
                    decreases children.len() - i,
                {
                    proof {
                        reveal(Seq::filter);
                        assert(children@.take(i + 1).drop_last() =~= children@.take(i as int));
                    }
                    if children[i] != child_id {
                        kept.push(children[i]);
                    }
                    i += 1;
                }
                proof {
                    assert(children@.take(children@.len() as int) =~= children@);
                }
                Some(kept)
            },
            None => None,
        };
        self.entries = kept;
    }

    /// Index of the first empty pointer slot, or the number of slots when
    /// every slot is occupied.
    pub fn first_free_slot(&self) -> (slot: usize)
        ensures
            slot == self@.first_free(),
            slot <= NUM_DIRECT_POINTERS,
    {
        let mut i: usize = 0;
        while i < NUM_DIRECT_POINTERS && self.direct_pointers[i].is_some()
            invariant
                i <= NUM_DIRECT_POINTERS,
                forall|j: int| 0 <= j < i ==> (#[trigger] self.direct_pointers@[j]).is_some(),
            decreases NUM_DIRECT_POINTERS - i,
        {
            i += 1;
        }
        proof {
            self@.lemma_first_free_from(0);
        }
        i
    }

    /// Records a written block: `block` goes into the first empty pointer
    /// slot and the size grows by `len`. A full inode is left as it is.
    pub fn record_block(&mut self, block: u64, len: usize)
        requires
            !old(self)@.is_full() ==> old(self).file_size + len <= u64::MAX,
        ensures
            final(self)@ == old(self)@.with_block(block, len as nat),
            old(self)@.well_formed() ==> final(self)@.well_formed(),
            old(self)@.packed() ==> final(self)@.packed(),
    {
        let slot = self.first_free_slot();
        if slot < NUM_DIRECT_POINTERS {
            self.direct_pointers[slot] = Some(block);
            self.file_size = self.file_size + len as u64;
            proof {
                assert(self@.direct_pointers =~= old(self)@.direct_pointers.update(
                    slot as int,
                    Some(block),
                ));
                if old(self)@.packed() {
                    old(self)@.lemma_first_free_from(0);
                    assert forall|i: int, j: int|
                        0 <= i < j < self@.direct_pointers.len() && (
                        #[trigger] self@.direct_pointers[i]).is_none() implies (
                    #[trigger] self@.direct_pointers[j]).is_none() by {
                        assert(i != slot);
                        assert(old(self)@.direct_pointers[i].is_none());
                        assert(old(self)@.direct_pointers[j].is_none());
                    }
                }
            }
        }
    }
}

} // verus!
