//! The mathematical model of the filesystem: its state as plain values and
//! each operation as a function from state to state.

use crate::inode::{InodeType, InodeView};
use crate::journal::{all_committed, commit_all, Details, JournalEntry, Operation};
use vstd::prelude::*;

verus! {

/// What one call of `undo` did.
#[derive(Clone, Copy, Debug, PartialEq, Eq, Structural)]
pub enum UndoOutcome {
    /// The journal was empty.
    NothingToUndo,
    /// A directory creation was reversed: the identifier left the table.
    RemovedDirectory { id: u64 },
    /// A file creation was reversed: the identifier left the table.
    RemovedFile { id: u64 },
    /// A link was reversed: the file left the directory's child list.
    RemovedChild { file_id: u64, parent_id: u64 },
    /// A link was popped, but the table holds no directory under the parent
    /// identifier; no inode changed.
    ParentUnavailable { file_id: u64, parent_id: u64 },
    /// A record whose details do not fit its label was popped; no inode
    /// changed.
    Malformed,
}

/// The state of a filesystem.
pub struct FsView {
    pub inodes: Map<u64, InodeView>,
    pub blocks: Map<u64, Seq<u8>>,
    pub id_counter: u64,
    pub journal: Seq<JournalEntry>,
}

/// The label under which the creation of an inode of this kind is journaled.
pub open spec fn creation_label(inode_type: InodeType) -> Operation {
    match inode_type {
        InodeType::Directory => Operation::CreateDirectory,
        InodeType::File => Operation::CreateFile,
    }
}

/// The journal after one more operation was recorded and committed.
pub open spec fn journaled(
    journal: Seq<JournalEntry>,
    operation: Operation,
    details: Details,
) -> Seq<JournalEntry> {
    commit_all(journal.push(JournalEntry { operation, committed: false, details }))
}

/// True when the table holds a directory under `id`.
pub open spec fn holds_directory(inodes: Map<u64, InodeView>, id: u64) -> bool {
    inodes.contains_key(id) && inodes[id].inode_type == InodeType::Directory
}

/// The table after the mutation that `entry` describes was reversed.
pub open spec fn reversed(inodes: Map<u64, InodeView>, entry: JournalEntry) -> Map<
    u64,
    InodeView,
> {
    match (entry.operation, entry.details) {
        (Operation::CreateDirectory, Details::Created { id }) => inodes.remove(id),
        (Operation::CreateFile, Details::Created { id }) => inodes.remove(id),
        (Operation::AddFileToDirectory, Details::Linked { file_id, parent_id }) => {
            if holds_directory(inodes, parent_id) {
                inodes.insert(parent_id, inodes[parent_id].without_child(file_id))
            } else {
                inodes
            }
        },
        _ => inodes,
    }
}

/// What reversing `entry` on the table reports.
pub open spec fn reversal_outcome(inodes: Map<u64, InodeView>, entry: JournalEntry) -> UndoOutcome {
    match (entry.operation, entry.details) {
        (Operation::CreateDirectory, Details::Created { id }) => UndoOutcome::RemovedDirectory {
            id,
        },
        (Operation::CreateFile, Details::Created { id }) => UndoOutcome::RemovedFile { id },
        (Operation::AddFileToDirectory, Details::Linked { file_id, parent_id }) => {
            if holds_directory(inodes, parent_id) {
                UndoOutcome::RemovedChild { file_id, parent_id }
            } else {
                UndoOutcome::ParentUnavailable { file_id, parent_id }
            }
        },
        _ => UndoOutcome::Malformed,
    }
}

/// The bytes that one pointer slot contributes to a file: the block it
/// names, or nothing where the slot is empty or names no stored block.
pub open spec fn slot_bytes(blocks: Map<u64, Seq<u8>>, slot: Option<u64>) -> Seq<u8> {
    match slot {
        Some(id) => if blocks.contains_key(id) {
            blocks[id]
        } else {
            Seq::<u8>::empty()
        },
        None => Seq::<u8>::empty(),
    }
}

/// The bytes of a file: the blocks of its pointer slots, in slot order.
pub open spec fn file_content(blocks: Map<u64, Seq<u8>>, pointers: Seq<Option<u64>>) -> Seq<u8>
    decreases pointers.len(),
{
    if pointers.len() == 0 {
        Seq::<u8>::empty()
    } else {
        file_content(blocks, pointers.drop_last()) + slot_bytes(blocks, pointers.last())
    }
}

/// Every occupied slot names a stored block.
pub open spec fn all_stored(blocks: Map<u64, Seq<u8>>, pointers: Seq<Option<u64>>) -> bool {
    forall|i: int|
        0 <= i < pointers.len() && (#[trigger] pointers[i]).is_some() ==> blocks.contains_key(
            pointers[i].unwrap(),
        )
}

/// The text that stands for bytes which are not valid UTF-8.
pub open spec fn invalid_text() -> Seq<char> {
    "invalid data"@
}

/// The text of a byte sequence: its UTF-8 decoding, or the fixed
/// replacement text where it has none.
pub open spec fn text_of(bytes: Seq<u8>) -> Seq<char> {
    if vstd::utf8::valid_utf8(bytes) {
        vstd::utf8::decode_utf8(bytes)
    } else {
        invalid_text()
    }
}

impl FsView {
    /// Inodes and blocks are finitely many, the blocks are numbered from 1
    /// without a gap, every inode is held under its own identifier, and
    /// every journal record is committed.
    pub open spec fn well_formed(self) -> bool {
        &&& self.inodes.dom().finite()
        &&& self.blocks.dom().finite()
        &&& crate::blocks::numbered(self.blocks, self.blocks.len())
        &&& crate::table::keyed_by_id(self.inodes)
        &&& all_committed(self.journal)
    }

    /// The state of a new filesystem.
    pub open spec fn empty() -> FsView {
        FsView {
            inodes: Map::<u64, InodeView>::empty(),
            blocks: Map::<u64, Seq<u8>>::empty(),
            id_counter: 0,
            journal: Seq::<JournalEntry>::empty(),
        }
    }

    /// The table holds inodes only under identifiers that the counter has
    /// handed out.
    pub open spec fn issued_only(self) -> bool {
        forall|id: u64| #[trigger] self.inodes.contains_key(id) ==> 1 <= id <= self.id_counter
    }

    /// The identifier that the next created inode gets.
    pub open spec fn next_id(self) -> u64 {
        (self.id_counter + 1) as u64
    }

    /// The identifier that the next written block gets.
    pub open spec fn next_block(self) -> u64 {
        (self.blocks.len() + 1) as u64
    }

    /// The inode that creation adds to the table.
    pub open spec fn created(self, inode_type: InodeType, name: Seq<char>) -> InodeView {
        InodeView::fresh(name, inode_type, self.next_id())
    }

    /// The state after an inode was created: it is in the table under the
    /// next identifier, and the creation is journaled and committed.
    pub open spec fn create(self, inode_type: InodeType, name: Seq<char>) -> FsView {
        FsView {
            inodes: self.inodes.insert(self.next_id(), self.created(inode_type, name)),
            id_counter: self.next_id(),
            journal: journaled(
                self.journal,
                creation_label(inode_type),
                Details::Created { id: self.next_id() },
            ),
            ..self
        }
    }

    /// The state after `data` was written: one more block, nothing else.
    pub open spec fn store(self, data: Seq<u8>) -> FsView {
        FsView { blocks: self.blocks.insert(self.next_block(), data), ..self }
    }

    /// The state after a link was journaled and committed. The table is
    /// untouched: the caller holds the changed directory.
    pub open spec fn record_link(self, file_id: u64, parent_id: u64) -> FsView {
        FsView {
            journal: journaled(
                self.journal,
                Operation::AddFileToDirectory,
                Details::Linked { file_id, parent_id },
            ),
            ..self
        }
    }

    /// The state after a caller wrote its copy of an inode back.
    pub open spec fn persist(self, inode: InodeView) -> FsView {
        FsView { inodes: self.inodes.insert(inode.id, inode), ..self }
    }

    /// The state after one undo: the newest record is gone and its mutation
    /// of the table is reversed. An empty journal leaves the state as it is.
    pub open spec fn undo(self) -> FsView {
        if self.journal.len() == 0 {
            self
        } else {
            FsView {
                inodes: reversed(self.inodes, self.journal.last()),
                journal: self.journal.drop_last(),
                ..self
            }
        }
    }

    /// What one undo reports.
    pub open spec fn undo_outcome(self) -> UndoOutcome {
        if self.journal.len() == 0 {
            UndoOutcome::NothingToUndo
        } else {
            reversal_outcome(self.inodes, self.journal.last())
        }
    }
}

} // verus!
