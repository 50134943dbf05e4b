//! The journal: an ordered log of reversible operation records.

use vstd::prelude::*;

verus! {

/// The label of a journaled operation.
#[derive(Clone, Copy, Debug, PartialEq, Eq, Structural)]
pub enum Operation {
    CreateDirectory,
    CreateFile,
    AddFileToDirectory,
}

/// The identifiers that suffice to reverse an operation.
#[derive(Clone, Copy, Debug, PartialEq, Eq, Structural)]
pub enum Details {
    /// The identifier of a created inode.
    Created { id: u64 },
    /// A file identifier and the directory it was added to.
    Linked { file_id: u64, parent_id: u64 },
}

/// One record of the journal.
#[derive(Clone, Copy, Debug, PartialEq, Eq, Structural)]
pub struct JournalEntry {
    pub operation: Operation,
    pub committed: bool,
    pub details: Details,
}

impl JournalEntry {
    /// The same record, marked committed.
    pub open spec fn commit(self) -> JournalEntry {
        JournalEntry { committed: true, ..self }
    }
}

/// Every record of `entries`, marked committed.
pub open spec fn commit_all(entries: Seq<JournalEntry>) -> Seq<JournalEntry> {
    Seq::new(entries.len(), |i: int| entries[i].commit())
}

/// True when every record of `entries` is committed.
pub open spec fn all_committed(entries: Seq<JournalEntry>) -> bool {
    forall|i: int| 0 <= i < entries.len() ==> (#[trigger] entries[i]).committed
}

/// An append-only log; only `pop_last` removes a record, always the newest.
#[derive(Debug)]
pub struct Journal {
    entries: Vec<JournalEntry>,
}

impl View for Journal {
    type V = Seq<JournalEntry>;

    closed spec fn view(&self) -> Seq<JournalEntry> {
        self.entries@
    }
}

impl Journal {
    /// An empty journal.
    pub fn new() -> (journal: Self)
        ensures
            journal@ == Seq::<JournalEntry>::empty(),
    {
        Journal { entries: Vec::new() }
    }

    /// Appends a new, uncommitted record.
    pub fn add_entry(&mut self, operation: Operation, details: Details)
        ensures
            final(self)@ == old(self)@.push(
                (JournalEntry { operation, committed: false, details }),
            ),
    {
        self.entries.push(JournalEntry { operation, committed: false, details });
    }

    /// Marks every record of the journal committed, not only the newest.
    pub fn commit(&mut self)
        ensures
            final(self)@ == commit_all(old(self)@),
    {
        let mut i: usize = 0;
        while i < self.entries.len()
            invariant
                i <= self.entries.len(),
                self.entries.len() == old(self).entries.len(),
                forall|j: int| 0 <= j < i ==> self.entries[j] == old(self).entries[j].commit(),
                forall|j: int|
                    i <= j < self.entries.len() ==> self.entries[j] == old(self).entries[j],
            decreases self.entries.len() - i,
        {
            let entry = self.entries[i];
            self.entries.set(
                i,
                JournalEntry { operation: entry.operation, committed: true, details: entry.details },
            );
            i += 1;
        }
        proof {
            assert(self@ =~= commit_all(old(self)@));
        }
    }

    /// Removes and returns the newest record; `None` on an empty journal.
    pub fn pop_last(&mut self) -> (popped: Option<JournalEntry>)
        ensures
            old(self)@.len() == 0 ==> popped.is_none() && final(self)@ == old(self)@,
            old(self)@.len() > 0 ==> popped == Some(old(self)@.last()) && final(self)@ == old(
                self,
            )@.drop_last(),
    {
        let popped = self.entries.pop();
        proof {
            if old(self)@.len() > 0 {
                assert(self@ =~= old(self)@.drop_last());
            }
        }
        popped
    }

    /// Number of records.
    pub fn len(&self) -> (n: usize)
        ensures
            n == self@.len(),
    {
        self.entries.len()
    }

    /// The record at position `index`, oldest first; `None` past the end.
    pub fn entry(&self, index: usize) -> (found: Option<JournalEntry>)
        ensures
            index < self@.len() ==> found == Some(self@[index as int]),
            index >= self@.len() ==> found.is_none(),
    {
        if index < self.entries.len() {
            Some(self.entries[index])
        } else {
            None
        }
    }
}

} // verus!
