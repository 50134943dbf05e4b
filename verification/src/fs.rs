//! The coordinator: every mutation of the inode table goes through it, and
//! each one leaves a committed journal record that suffices to reverse it.

use crate::blocks::BlockStore;
use crate::inode::{Inode, InodeType, InodeView, NUM_DIRECT_POINTERS};
use crate::journal::{all_committed, Details, Journal, JournalEntry, Operation};
use crate::model::{file_content, reversal_outcome, reversed, text_of, FsView, UndoOutcome};
use crate::table::InodeTable;
use vstd::prelude::*;

verus! {

/// An in-memory filesystem: inode table, block store, identifier counter
/// and journal.
#[derive(Debug)]
pub struct FileSystem {
    inodes: InodeTable,
    blocks: BlockStore,
    id_counter: u64,
    journal: Journal,
}

impl View for FileSystem {
    type V = FsView;

    closed spec fn view(&self) -> FsView {
        FsView {
            inodes: self.inodes@,
            blocks: self.blocks@,
            id_counter: self.id_counter,
            journal: self.journal@,
        }
    }
}

/// `String::from_utf8` of std: the text that `bytes` encode, or `None`
/// where they are not valid UTF-8.
#[verifier::external_body]
fn decode_text(bytes: Vec<u8>) -> (text: Option<String>)
    ensures
        match text {
            Some(decoded) => vstd::utf8::valid_utf8(bytes@) && decoded@
                == vstd::utf8::decode_utf8(bytes@),
            None => !vstd::utf8::valid_utf8(bytes@),
        },
{
    match String::from_utf8(bytes) {
        Ok(decoded) => Some(decoded),
        Err(_) => None,
    }
}

impl FileSystem {
    /// The blocks are numbered from 1 without a gap, every inode is held
    /// under its own identifier, and every journal record is committed.
    pub closed spec fn well_formed(&self) -> bool {
        self.blocks.well_formed() && self.inodes.well_formed() && all_committed(self.journal@)
    }

    /// What well-formedness says of the state.
    pub proof fn lemma_well_formed(&self)
        requires
            self.well_formed(),
        ensures
            self@.well_formed(),
    {
        self.blocks.lemma_finite();
        self.inodes.lemma_finite();
    }

    /// A filesystem without inodes, blocks or journal records, whose first
    /// identifier will be 1.
    pub fn new() -> (fs: Self)
        ensures
            fs.well_formed(),
            fs@ == FsView::empty(),
    {
        FileSystem {
            inodes: InodeTable::new(),
            blocks: BlockStore::new(),
            id_counter: 0,
            journal: Journal::new(),
        }
    }

    /// The inode table.
    pub fn inodes(&self) -> (table: &InodeTable)
        ensures
            table@ == self@.inodes,
            self.well_formed() ==> table.well_formed(),
    {
        &self.inodes
    }

    /// The block store.
    pub fn blocks(&self) -> (store: &BlockStore)
        ensures
            store@ == self@.blocks,
            self.well_formed() ==> store.well_formed(),
    {
        &self.blocks
    }

    /// The journal.
    pub fn journal(&self) -> (journal: &Journal)
        ensures
            journal@ == self@.journal,
    {
        &self.journal
    }

    /// The identifier handed out last; 0 before the first creation.
    pub fn id_counter(&self) -> (id: u64)
        ensures
            id == self@.id_counter,
    {
        self.id_counter
    }

    /// Writes a caller's copy of an inode back into the table, under the
    /// inode's identifier. Nothing is journaled.
    pub fn persist(&mut self, inode: Inode)
        ensures
            final(self)@ == old(self)@.persist(inode@),
            old(self).well_formed() ==> final(self).well_formed(),
    {
        self.inodes.insert(inode);
    }

    fn create(&mut self, name: &str, inode_type: InodeType) -> (created: Inode)
        requires
            old(self)@.id_counter < u64::MAX,
        ensures
            final(self)@ == old(self)@.create(inode_type, name@),
            created@ == old(self)@.created(inode_type, name@),
            old(self).well_formed() ==> final(self).well_formed(),
    {
        self.id_counter = self.id_counter + 1;
        let created = Inode::new_inode(name, inode_type, self.id_counter);
        self.inodes.insert(created.clone());
        let operation = match inode_type {
            InodeType::Directory => Operation::CreateDirectory,
            InodeType::File => Operation::CreateFile,
        };
        self.journal.add_entry(operation, Details::Created { id: created.id });
        self.journal.commit();
        created
    }

    /// Creates a directory with an empty child list under the next
    /// identifier, journals and commits the creation, and returns a copy of
    /// the new inode.
    pub fn create_directory(&mut self, name: &str) -> (created: Inode)
        requires
            old(self)@.id_counter < u64::MAX,
        ensures
            final(self)@ == old(self)@.create(InodeType::Directory, name@),
            created@ == old(self)@.created(InodeType::Directory, name@),
            created@.id == old(self)@.id_counter + 1,
            final(self)@.id_counter == created@.id,
            old(self).well_formed() ==> final(self).well_formed(),
    {
        self.create(name, InodeType::Directory)
    }

    /// Creates an empty file under the next identifier, journals and commits
    /// the creation, and returns a copy of the new inode.
    pub fn create_file(&mut self, name: &str) -> (created: Inode)
        requires
            old(self)@.id_counter < u64::MAX,
        ensures
            final(self)@ == old(self)@.create(InodeType::File, name@),
            created@ == old(self)@.created(InodeType::File, name@),
            created@.id == old(self)@.id_counter + 1,
            final(self)@.id_counter == created@.id,
            old(self).well_formed() ==> final(self).well_formed(),
    {
        self.create(name, InodeType::File)
    }

    /// Stores `data` as a new block and returns the copy of `inode` that
    /// refers to it: the block is in the first empty pointer slot and the
    /// size has grown by the length of `data`. Where every slot is occupied
    /// the block is stored all the same and the copy equals `inode`. Nothing
    /// is journaled and the table is untouched.
    pub fn write_to_file(&mut self, inode: Inode, data: &[u8]) -> (written: Inode)
        requires
            old(self).well_formed(),
            old(self)@.blocks.len() < u64::MAX,
            !inode@.is_full() ==> inode@.file_size + data@.len() <= u64::MAX,
        ensures
            final(self).well_formed(),
            final(self)@ == old(self)@.store(data@),
            written@ == inode@.with_block(old(self)@.next_block(), data@.len()),
    {
        let mut written = inode;
        let block = self.blocks.allocate_and_write(data);
        written.record_block(block, data.len());
        written
    }

    /// Adds `file` to the caller's copy of `directory` and journals and
    /// commits the link; returns `true`. Where `directory` is no directory,
    /// nothing changes and `false` is returned.
    pub fn add_file_to_directory(&mut self, directory: &mut Inode, file: &Inode) -> (added: bool)
        ensures
            added == (old(directory)@.inode_type == InodeType::Directory),
            added ==> final(directory)@ == old(directory)@.add_entry(file@.id) && final(self)@
                == old(self)@.record_link(file@.id, old(directory)@.id),
            !added ==> final(directory)@ == old(directory)@ && final(self)@ == old(self)@,
            old(self).well_formed() ==> final(self).well_formed(),
    {
        match directory.inode_type {
            InodeType::Directory => {
                directory.add_entry(file.id);
                self.journal.add_entry(
                    Operation::AddFileToDirectory,
                    Details::Linked { file_id: file.id, parent_id: directory.id },
                );
                self.journal.commit();
                true
            },
            InodeType::File => false,
        }
    }

    /// The bytes of `file`: the blocks that its pointer slots name, in slot
    /// order. An empty slot, or one that names no stored block, adds nothing.
    pub fn file_bytes(&self, file: &Inode) -> (bytes: Vec<u8>)
        ensures
            bytes@ == file_content(self@.blocks, file@.direct_pointers),
    {
        let mut bytes: Vec<u8> = Vec::new();
        let mut slot: usize = 0;
        while slot < NUM_DIRECT_POINTERS
            invariant
                slot <= NUM_DIRECT_POINTERS,
                bytes@ == file_content(self@.blocks, file@.direct_pointers.take(slot as int)),
            decreases NUM_DIRECT_POINTERS - slot,
        {
            proof {
                assert(file@.direct_pointers.take(slot + 1).drop_last()
                    =~= file@.direct_pointers.take(slot as int));
            }
            if let Some(id) = file.direct_pointers[slot] {
                if let Some(block) = self.blocks.read(id) {
                    let ghost before = bytes@;
                    let mut i: usize = 0;
                    while i < block.len()
                        invariant
                            i <= block.len(),
                            bytes@ == before + block@.take(i as int),
                        decreases block.len() - i,
                    {
                        bytes.push(block[i]);
                        proof {
                            assert(block@.take(i + 1) =~= block@.take(i as int).push(block@[i as int]));
                            assert(bytes@ =~= before + block@.take(i + 1));
                        }
                        i += 1;
                    }
                    proof {
                        assert(block@.take(block@.len() as int) =~= block@);
                    }
                }
            }
            proof {
                assert(bytes@ =~= file_content(
                    self@.blocks,
                    file@.direct_pointers.take(slot + 1),
                ));
            }
            slot += 1;
        }
        proof {
            assert(file@.direct_pointers.take(NUM_DIRECT_POINTERS as int) =~= file@.direct_pointers);
        }
        bytes
    }

    /// The text of `file`: its bytes decoded as UTF-8, or the fixed
    /// replacement text where they do not decode.
    pub fn read_file(&self, file: &Inode) -> (text: String)
        ensures
            text@ == text_of(file_content(self@.blocks, file@.direct_pointers)),
    {
        let bytes = self.file_bytes(file);
        match decode_text(bytes) {
            Some(decoded) => decoded,
            None => "invalid data".to_owned(),
        }
    }

    /// Pops the newest journal record and reverses the mutation of the table
    /// that it describes; reports what was done. An empty journal leaves the
    /// filesystem as it is.
    pub fn undo(&mut self) -> (outcome: UndoOutcome)
        requires
            old(self).well_formed(),
        ensures
            final(self)@ == old(self)@.undo(),
            outcome == old(self)@.undo_outcome(),
            old(self).well_formed() ==> final(self).well_formed(),
    {
        match self.journal.pop_last() {
            None => UndoOutcome::NothingToUndo,
            Some(entry) => reverse_entry(&mut self.inodes, entry),
        }
    }
}

/// Reverses on `inodes` the mutation that `entry` describes, and reports
/// what was done. A creation is reversed by removing the identifier; a link
/// by removing the file from the child list of the directory held under the
/// parent identifier. Where the table holds no directory there, or the
/// details do not fit the label, the table is left as it is.
pub fn reverse_entry(inodes: &mut InodeTable, entry: JournalEntry) -> (outcome: UndoOutcome)
    requires
        old(inodes).well_formed(),
    ensures
        final(inodes).well_formed(),
        final(inodes)@ == reversed(old(inodes)@, entry),
        outcome == reversal_outcome(old(inodes)@, entry),
{
    match (entry.operation, entry.details) {
        (Operation::CreateDirectory, Details::Created { id }) => {
            inodes.remove(id);
            UndoOutcome::RemovedDirectory { id }
        },
        (Operation::CreateFile, Details::Created { id }) => {
            inodes.remove(id);
            UndoOutcome::RemovedFile { id }
        },
        (Operation::AddFileToDirectory, Details::Linked { file_id, parent_id }) => {
            match inodes.lookup(parent_id) {
                Some(parent) => match parent.inode_type {
                    InodeType::Directory => {
                        let mut parent = parent;
                        parent.remove_entry(file_id);
                        inodes.insert(parent);
                        UndoOutcome::RemovedChild { file_id, parent_id }
                    },
                    InodeType::File => UndoOutcome::ParentUnavailable { file_id, parent_id },
                },
                None => UndoOutcome::ParentUnavailable { file_id, parent_id },
            }
        },
        _ => UndoOutcome::Malformed,
    }
}

} // verus!
