//! Laws of the model: what holds of every state and every run of operations.

use crate::inode::{differs_from, InodeType, InodeView, NUM_DIRECT_POINTERS};
use crate::journal::{all_committed, commit_all, Details, JournalEntry, Operation};
use crate::blocks::numbered;
use crate::model::{
    all_stored, file_content, holds_directory, reversal_outcome, reversed, slot_bytes, text_of,
    FsView, UndoOutcome,
};
use vstd::prelude::*;

verus! {

/// One operation of the model.
pub enum Step {
    Create { inode_type: InodeType, name: Seq<char> },
    Store { data: Seq<u8> },
    RecordLink { file_id: u64, parent_id: u64 },
    Persist { inode: InodeView },
    Undo,
}

/// The state after one operation.
pub open spec fn apply(state: FsView, step: Step) -> FsView {
    match step {
        Step::Create { inode_type, name } => state.create(inode_type, name),
        Step::Store { data } => state.store(data),
        Step::RecordLink { file_id, parent_id } => state.record_link(file_id, parent_id),
        Step::Persist { inode } => state.persist(inode),
        Step::Undo => state.undo(),
    }
}

/// The state after a run of operations, first to last.
pub open spec fn run(state: FsView, steps: Seq<Step>) -> FsView
    decreases steps.len(),
{
    if steps.len() == 0 {
        state
    } else {
        apply(run(state, steps.drop_last()), steps.last())
    }
}

/// Number of creations in a run.
pub open spec fn creations(steps: Seq<Step>) -> nat
    decreases steps.len(),
{
    if steps.len() == 0 {
        0
    } else {
        creations(steps.drop_last()) + if steps.last() is Create {
            1nat
        } else {
            0nat
        }
    }
}

/// The state after `count` undos in a row.
pub open spec fn undo_times(state: FsView, count: nat) -> FsView
    decreases count,
{
    if count == 0 {
        state
    } else {
        undo_times(state, (count - 1) as nat).undo()
    }
}

/// True when the operation does not run a counter over its limit.
pub open spec fn in_range(state: FsView, step: Step) -> bool {
    match step {
        Step::Create { .. } => state.id_counter < u64::MAX,
        Step::Store { .. } => state.blocks.len() < u64::MAX,
        _ => true,
    }
}

/// Every operation keeps a well-formed state well-formed.
pub proof fn lemma_well_formed_is_kept(state: FsView, step: Step)
    requires
        state.well_formed(),
        in_range(state, step),
    ensures
        apply(state, step).well_formed(),
{
    let after = apply(state, step);
    match step {
        Step::Store { data } => {
            assert(!state.blocks.contains_key(state.next_block()));
            assert(after.blocks.dom() =~= state.blocks.dom().insert(state.next_block()));
        },
        _ => {},
    }
}

/// Each creation and each link leaves exactly one more record in the
/// journal, committed like all before it, whose details name the inodes
/// concerned; a write and a write-back leave none.
pub proof fn lemma_one_record_per_mutation(state: FsView, step: Step)
    ensures
        step is Create || step is RecordLink ==> apply(state, step).journal.len()
            == state.journal.len() + 1 && all_committed(apply(state, step).journal),
        step matches Step::Create { inode_type, name } ==> apply(state, step).journal.last() == (
        JournalEntry {
            operation: crate::model::creation_label(inode_type),
            committed: true,
            details: Details::Created { id: state.next_id() },
        }),
        step matches Step::RecordLink { file_id, parent_id } ==> apply(state, step).journal.last()
            == (JournalEntry {
            operation: Operation::AddFileToDirectory,
            committed: true,
            details: Details::Linked { file_id, parent_id },
        }),
        step is Store || step is Persist ==> apply(state, step).journal == state.journal,
{
}

/// The counter only ever moves with a creation, and then by one: after a
/// run it stands at its start plus the number of creations in the run.
pub proof fn lemma_counter_counts_creations(state: FsView, steps: Seq<Step>)
    requires
        state.id_counter + creations(steps) <= u64::MAX,
    ensures
        run(state, steps).id_counter == state.id_counter + creations(steps),
    decreases steps.len(),
{
    if steps.len() > 0 {
        lemma_counter_counts_creations(state, steps.drop_last());
    }
}

/// A longer prefix of a run holds at least as many creations, and one more
/// where the shorter prefix is followed by a creation.
pub proof fn lemma_creations_grow(steps: Seq<Step>, shorter: int, longer: int)
    requires
        0 <= shorter <= longer <= steps.len(),
    ensures
        creations(steps.take(shorter)) <= creations(steps.take(longer)),
        shorter < longer && steps[shorter] is Create ==> creations(steps.take(shorter))
            < creations(steps.take(longer)),
    decreases longer - shorter,
{
    if shorter < longer {
        assert(steps.take(longer).drop_last() =~= steps.take(longer - 1));
        lemma_creations_grow(steps, shorter, longer - 1);
    }
}

/// Identifiers are never reused: of two creations in one run, whatever
/// happens between them, the later gets the strictly larger identifier.
pub proof fn lemma_identifiers_increase(state: FsView, steps: Seq<Step>, first: int, second: int)
    requires
        0 <= first < second < steps.len(),
        steps[first] is Create,
        steps[second] is Create,
        state.id_counter + creations(steps) <= u64::MAX,
    ensures
        run(state, steps.take(first)).next_id() < run(state, steps.take(second)).next_id(),
        run(state, steps.take(first + 1)).id_counter == run(state, steps.take(first)).next_id(),
        run(state, steps.take(second + 1)).id_counter == run(state, steps.take(second)).next_id(),
{
    assert(steps.take(steps.len() as int) =~= steps);
    lemma_creations_grow(steps, first, second);
    lemma_creations_grow(steps, second, second + 1);
    lemma_creations_grow(steps, first, first + 1);
    lemma_creations_grow(steps, second + 1, steps.len() as int);
    lemma_creations_grow(steps, first + 1, steps.len() as int);
    lemma_counter_counts_creations(state, steps.take(first));
    lemma_counter_counts_creations(state, steps.take(second));
    assert(steps.take(first + 1).drop_last() =~= steps.take(first));
    assert(steps.take(second + 1).drop_last() =~= steps.take(second));
}

/// Undoing a creation takes the new identifier out of the table and leaves
/// every other inode, the blocks and the older journal records as they were;
/// the counter stays advanced.
pub proof fn lemma_undo_reverses_creation(state: FsView, inode_type: InodeType, name: Seq<char>)
    ensures
        !state.create(inode_type, name).undo().inodes.contains_key(state.next_id()),
        state.create(inode_type, name).undo().inodes == state.inodes.remove(state.next_id()),
        state.create(inode_type, name).undo().journal == commit_all(state.journal),
        state.create(inode_type, name).undo().blocks == state.blocks,
        state.create(inode_type, name).undo().id_counter == state.next_id(),
        all_committed(state.journal) ==> state.create(inode_type, name).undo().journal
            == state.journal,
        state.create(inode_type, name).undo_outcome() == match inode_type {
            InodeType::Directory => UndoOutcome::RemovedDirectory { id: state.next_id() },
            InodeType::File => UndoOutcome::RemovedFile { id: state.next_id() },
        },
{
    let after = state.create(inode_type, name);
    assert(after.journal.drop_last() =~= commit_all(state.journal));
    assert(after.undo().inodes =~= state.inodes.remove(state.next_id()));
    if all_committed(state.journal) {
        assert(commit_all(state.journal) =~= state.journal);
    }
}

/// Every operation keeps the table to identifiers that the counter has
/// handed out, as long as a write-back brings such an identifier.
pub proof fn lemma_issued_only_is_kept(state: FsView, step: Step)
    requires
        state.issued_only(),
        in_range(state, step),
        step matches Step::Persist { inode } ==> 1 <= inode.id <= state.id_counter,
    ensures
        apply(state, step).issued_only(),
{
}

/// Create, then undo: where the table holds inodes only under identifiers
/// that the counter has handed out, the table afterwards is the table
/// before, so it holds no inode that it did not hold, whatever its name. The
/// blocks are as before, and so is the journal where all of it was
/// committed.
pub proof fn lemma_undo_restores_table(state: FsView, inode_type: InodeType, name: Seq<char>)
    requires
        state.issued_only(),
        state.id_counter < u64::MAX,
    ensures
        state.create(inode_type, name).undo().inodes == state.inodes,
        state.create(inode_type, name).undo().blocks == state.blocks,
        all_committed(state.journal) ==> state.create(inode_type, name).undo().journal
            == state.journal,
        state.create(inode_type, name).undo().issued_only(),
{
    lemma_undo_reverses_creation(state, inode_type, name);
    assert(!state.inodes.contains_key(state.next_id()));
    assert(state.inodes.remove(state.next_id()) =~= state.inodes);
}

/// Undoing a link takes the file out of the child list of the directory in
/// the table and changes nothing else: the file itself, like every other
/// inode, stays.
pub proof fn lemma_undo_reverses_link(state: FsView, file_id: u64, parent_id: u64)
    requires
        holds_directory(state.inodes, parent_id),
        state.inodes[parent_id].entries.is_some(),
    ensures
        ({
            let after = state.record_link(file_id, parent_id).undo();
            &&& after.inodes.contains_key(parent_id)
            &&& after.inodes[parent_id] == state.inodes[parent_id].without_child(file_id)
            &&& !after.inodes[parent_id].entries.unwrap().contains(file_id)
            &&& forall|id: u64|
                id != parent_id ==> after.inodes.contains_key(id) == state.inodes.contains_key(id)
                    && after.inodes[id] == state.inodes[id]
            &&& after.journal == commit_all(state.journal)
            &&& state.record_link(file_id, parent_id).undo_outcome() == (UndoOutcome::RemovedChild {
                file_id,
                parent_id,
            })
        }),
{
    let linked = state.record_link(file_id, parent_id);
    assert(linked.journal.drop_last() =~= commit_all(state.journal));
    let children = state.inodes[parent_id].entries.unwrap();
    let kept = children.filter(differs_from(file_id));
    assert forall|i: int| 0 <= i < kept.len() implies kept[i] != file_id by {
        children.lemma_filter_pred(differs_from(file_id), i);
    }
}

/// The same where the caller wrote its copy of the directory back before the
/// undo: the file leaves the child list of that copy in the table, and every
/// other inode is as it was before the link.
pub proof fn lemma_undo_reverses_persisted_link(state: FsView, directory: InodeView, file_id: u64)
    requires
        directory.inode_type == InodeType::Directory,
        directory.entries.is_some(),
    ensures
        ({
            let after = state.record_link(file_id, directory.id).persist(
                directory.add_entry(file_id),
            ).undo();
            &&& after.inodes.contains_key(directory.id)
            &&& after.inodes[directory.id] == directory.add_entry(file_id).without_child(file_id)
            &&& !after.inodes[directory.id].entries.unwrap().contains(file_id)
            &&& forall|id: u64|
                id != directory.id ==> after.inodes.contains_key(id) == state.inodes.contains_key(
                    id,
                ) && after.inodes[id] == state.inodes[id]
            &&& after.journal == commit_all(state.journal)
        }),
{
    let linked = state.record_link(file_id, directory.id).persist(directory.add_entry(file_id));
    assert(linked.journal.drop_last() =~= commit_all(state.journal));
    let children = directory.add_entry(file_id).entries.unwrap();
    let kept = children.filter(differs_from(file_id));
    assert forall|i: int| 0 <= i < kept.len() implies kept[i] != file_id by {
        children.lemma_filter_pred(differs_from(file_id), i);
    }
}

/// Undo is last in, first out: `count` undos in a row remove the newest
/// `count` records, newest first, each one reversing the record that is then
/// the last.
pub proof fn lemma_undo_is_lifo(state: FsView, count: nat)
    requires
        count <= state.journal.len(),
    ensures
        undo_times(state, count).journal == state.journal.take(state.journal.len() - count),
        undo_times(state, count).blocks == state.blocks,
        undo_times(state, count).id_counter == state.id_counter,
        count > 0 ==> undo_times(state, count).inodes == reversed(
            undo_times(state, (count - 1) as nat).inodes,
            state.journal[state.journal.len() - count],
        ),
        count > 0 ==> undo_times(state, (count - 1) as nat).undo_outcome() == reversal_outcome(
            undo_times(state, (count - 1) as nat).inodes,
            state.journal[state.journal.len() - count],
        ),
    decreases count,
{
    if count == 0 {
        assert(state.journal.take(state.journal.len() as int) =~= state.journal);
    } else {
        lemma_undo_is_lifo(state, (count - 1) as nat);
        let before = undo_times(state, (count - 1) as nat);
        assert(before.journal.drop_last() =~= state.journal.take(state.journal.len() - count));
    }
}

/// Once every record is undone, a further undo reports that nothing is left
/// and changes nothing.
pub proof fn lemma_undo_runs_dry(state: FsView)
    ensures
        undo_times(state, state.journal.len()).journal.len() == 0,
        undo_times(state, state.journal.len()).undo_outcome() == UndoOutcome::NothingToUndo,
        undo_times(state, state.journal.len()).undo() == undo_times(state, state.journal.len()),
{
    lemma_undo_is_lifo(state, state.journal.len());
}

/// A block that no slot names adds nothing to a file.
pub proof fn lemma_content_ignores_other_block(
    blocks: Map<u64, Seq<u8>>,
    pointers: Seq<Option<u64>>,
    id: u64,
    data: Seq<u8>,
)
    requires
        forall|i: int| 0 <= i < pointers.len() ==> pointers[i] != Some(id),
    ensures
        file_content(blocks.insert(id, data), pointers) == file_content(blocks, pointers),
    decreases pointers.len(),
{
    if pointers.len() > 0 {
        lemma_content_ignores_other_block(blocks, pointers.drop_last(), id, data);
        assert(pointers.last() != Some(id));
    }
}

/// Empty slots hold no bytes.
pub proof fn lemma_content_of_empty_slots(blocks: Map<u64, Seq<u8>>, pointers: Seq<Option<u64>>)
    requires
        forall|i: int| 0 <= i < pointers.len() ==> pointers[i].is_none(),
    ensures
        file_content(blocks, pointers) == Seq::<u8>::empty(),
    decreases pointers.len(),
{
    if pointers.len() > 0 {
        lemma_content_of_empty_slots(blocks, pointers.drop_last());
        assert(pointers.last().is_none());
    }
}

/// One slot alone holds the bytes of its block.
pub proof fn lemma_content_of_one_slot(blocks: Map<u64, Seq<u8>>, slot: Option<u64>)
    ensures
        file_content(blocks, seq![slot]) == slot_bytes(blocks, slot),
{
    let one = seq![slot];
    assert(one.drop_last().len() == 0);
    assert(file_content(blocks, one.drop_last()) =~= Seq::<u8>::empty());
    assert(one.last() == slot);
    assert(file_content(blocks, one) =~= slot_bytes(blocks, slot));
}

/// The content of slots in a row is the content of the first part followed
/// by that of the second.
pub proof fn lemma_content_concat(
    blocks: Map<u64, Seq<u8>>,
    front: Seq<Option<u64>>,
    back: Seq<Option<u64>>,
)
    ensures
        file_content(blocks, front + back) == file_content(blocks, front) + file_content(
            blocks,
            back,
        ),
    decreases back.len(),
{
    if back.len() == 0 {
        assert(front + back =~= front);
        assert(file_content(blocks, front) + Seq::<u8>::empty() =~= file_content(blocks, front));
    } else {
        lemma_content_concat(blocks, front, back.drop_last());
        assert((front + back).drop_last() =~= front + back.drop_last());
        assert((front + back).last() == back.last());
        assert(file_content(blocks, front + back) =~= file_content(blocks, front) + file_content(
            blocks,
            back,
        ));
    }
}

/// A write appends: where the inode has an empty slot, uses its slots left
/// to right and names only stored blocks, the file's bytes after the write
/// are its bytes before, followed by the data written. The written inode
/// again uses its slots left to right and names only stored blocks, so the
/// law holds of the next write too.
pub proof fn lemma_write_appends(state: FsView, inode: InodeView, data: Seq<u8>)
    requires
        numbered(state.blocks, state.blocks.len()),
        state.blocks.len() < u64::MAX,
        !inode.is_full(),
        inode.packed(),
        all_stored(state.blocks, inode.direct_pointers),
    ensures
        ({
            let written = inode.with_block(state.next_block(), data.len());
            let after = state.store(data);
            &&& file_content(after.blocks, written.direct_pointers) == file_content(
                state.blocks,
                inode.direct_pointers,
            ) + data
            &&& text_of(file_content(after.blocks, written.direct_pointers)) == text_of(
                file_content(state.blocks, inode.direct_pointers) + data,
            )
            &&& written.packed()
            &&& all_stored(after.blocks, written.direct_pointers)
            &&& written.direct_pointers.len() == inode.direct_pointers.len()
            &&& inode.file_size + data.len() <= u64::MAX ==> written.file_size == inode.file_size
                + data.len()
        }),
{
    let block = state.next_block();
    let slot = inode.first_free();
    inode.lemma_first_free_from(0);
    assert(!state.blocks.contains_key(block));
    let old_slots = inode.direct_pointers;
    let new_slots = old_slots.update(slot, Some(block));
    let after = state.blocks.insert(block, data);
    let front = old_slots.take(slot);
    let back = old_slots.skip(slot + 1);
    assert(old_slots =~= (front + seq![None::<u64>]) + back);
    assert(new_slots =~= (front + seq![Some(block)]) + back);
    assert forall|i: int| 0 <= i < front.len() implies front[i] != Some(block) by {
        assert(old_slots[i].is_some());
    }
    assert forall|i: int| 0 <= i < back.len() implies back[i].is_none() by {
        assert(old_slots[slot + 1 + i].is_none());
    }
    lemma_content_ignores_other_block(state.blocks, front, block, data);
    lemma_content_of_empty_slots(state.blocks, back);
    lemma_content_of_empty_slots(after, back);
    lemma_content_concat(state.blocks, front + seq![None::<u64>], back);
    lemma_content_concat(state.blocks, front, seq![None::<u64>]);
    lemma_content_concat(after, front + seq![Some(block)], back);
    lemma_content_concat(after, front, seq![Some(block)]);
    lemma_content_of_one_slot(state.blocks, None::<u64>);
    lemma_content_of_one_slot(after, Some(block));
    assert(file_content(state.blocks, seq![None::<u64>]) =~= Seq::<u8>::empty());
    assert(file_content(after, seq![Some(block)]) =~= data);
    assert(file_content(after, new_slots) =~= file_content(state.blocks, old_slots) + data);
    assert forall|i: int, j: int|
        0 <= i < j < new_slots.len() && (#[trigger] new_slots[i]).is_none() implies (
    #[trigger] new_slots[j]).is_none() by {
        assert(old_slots[i].is_none());
        assert(old_slots[j].is_none());
    }
}

/// The state after the chunks were written one after the other.
pub open spec fn store_all(state: FsView, chunks: Seq<Seq<u8>>) -> FsView
    decreases chunks.len(),
{
    if chunks.len() == 0 {
        state
    } else {
        store_all(state, chunks.drop_last()).store(chunks.last())
    }
}

/// The inode after the chunks were written to it one after the other.
pub open spec fn write_all(state: FsView, inode: InodeView, chunks: Seq<Seq<u8>>) -> InodeView
    decreases chunks.len(),
{
    if chunks.len() == 0 {
        inode
    } else {
        write_all(state, inode, chunks.drop_last()).with_block(
            store_all(state, chunks.drop_last()).next_block(),
            chunks.last().len(),
        )
    }
}

/// The chunks one after the other.
pub open spec fn joined(chunks: Seq<Seq<u8>>) -> Seq<u8>
    decreases chunks.len(),
{
    if chunks.len() == 0 {
        Seq::<u8>::empty()
    } else {
        joined(chunks.drop_last()) + chunks.last()
    }
}

/// A write to an inode that uses its slots left to right moves the first
/// empty slot one to the right.
pub proof fn lemma_first_free_advances(inode: InodeView, block: u64, len: nat)
    requires
        !inode.is_full(),
        inode.packed(),
    ensures
        inode.with_block(block, len).first_free() == inode.first_free() + 1,
{
    let written = inode.with_block(block, len);
    inode.lemma_first_free_from(0);
    written.lemma_first_free_from(0);
    let slot = inode.first_free();
    let next = written.first_free();
    if next <= slot {
        assert(written.direct_pointers[next].is_some());
    }
    if slot + 1 < inode.direct_pointers.len() {
        assert(inode.direct_pointers[slot + 1].is_none());
        assert(written.direct_pointers[slot + 1].is_none());
    }
}

/// Writes append: as long as the inode has an empty slot for each chunk,
/// the file's bytes after the writes are its bytes before, followed by the
/// chunks in the order written.
pub proof fn lemma_writes_append(state: FsView, inode: InodeView, chunks: Seq<Seq<u8>>)
    requires
        state.blocks.dom().finite(),
        numbered(state.blocks, state.blocks.len()),
        state.blocks.len() + chunks.len() <= u64::MAX,
        inode.packed(),
        all_stored(state.blocks, inode.direct_pointers),
        inode.first_free() + chunks.len() <= inode.direct_pointers.len(),
    ensures
        file_content(
            store_all(state, chunks).blocks,
            write_all(state, inode, chunks).direct_pointers,
        ) == file_content(state.blocks, inode.direct_pointers) + joined(chunks),
        store_all(state, chunks).blocks.dom().finite(),
        numbered(store_all(state, chunks).blocks, store_all(state, chunks).blocks.len()),
        store_all(state, chunks).blocks.len() == state.blocks.len() + chunks.len(),
        write_all(state, inode, chunks).packed(),
        all_stored(store_all(state, chunks).blocks, write_all(state, inode, chunks).direct_pointers),
        write_all(state, inode, chunks).first_free() == inode.first_free() + chunks.len(),
        write_all(state, inode, chunks).direct_pointers.len() == inode.direct_pointers.len(),
        inode.file_size + joined(chunks).len() <= u64::MAX ==> write_all(
            state,
            inode,
            chunks,
        ).file_size == inode.file_size + joined(chunks).len(),
    decreases chunks.len(),
{
    let before = file_content(state.blocks, inode.direct_pointers);
    if chunks.len() == 0 {
        assert(before + Seq::<u8>::empty() =~= before);
    } else {
        assert(joined(chunks).len() == joined(chunks.drop_last()).len() + chunks.last().len());
        let rest = chunks.drop_last();
        lemma_writes_append(state, inode, rest);
        let stored = store_all(state, rest);
        let written = write_all(state, inode, rest);
        lemma_write_appends(stored, written, chunks.last());
        lemma_first_free_advances(written, stored.next_block(), chunks.last().len());
        assert(!stored.blocks.contains_key(stored.next_block()));
        assert(stored.store(chunks.last()).blocks.dom() =~= stored.blocks.dom().insert(
            stored.next_block(),
        ));
        assert((before + joined(rest)) + chunks.last() =~= before + joined(chunks));
    }
}

/// Round trip over several writes: the bytes of a newly created file after
/// at most as many writes as an inode has pointer slots are the chunks in
/// the order written, none lost, repeated or moved; its text is their text
/// and its size their length.
pub proof fn lemma_round_trip_of_writes(state: FsView, name: Seq<char>, chunks: Seq<Seq<u8>>)
    requires
        state.blocks.dom().finite(),
        numbered(state.blocks, state.blocks.len()),
        state.blocks.len() + chunks.len() <= u64::MAX,
        chunks.len() <= NUM_DIRECT_POINTERS,
    ensures
        ({
            let file = state.created(InodeType::File, name);
            let written = write_all(state, file, chunks);
            &&& file_content(store_all(state, chunks).blocks, written.direct_pointers) == joined(
                chunks,
            )
            &&& text_of(file_content(store_all(state, chunks).blocks, written.direct_pointers))
                == text_of(joined(chunks))
            &&& joined(chunks).len() <= u64::MAX ==> written.file_size == joined(chunks).len()
        }),
{
    let file = state.created(InodeType::File, name);
    file.lemma_first_free_from(0);
    lemma_content_of_empty_slots(state.blocks, file.direct_pointers);
    lemma_writes_append(state, file, chunks);
    assert(Seq::<u8>::empty() + joined(chunks) =~= joined(chunks));
}

/// Round trip: the bytes of a newly created file after one write are the
/// bytes written, and its text is their text.
pub proof fn lemma_round_trip(state: FsView, name: Seq<char>, data: Seq<u8>)
    requires
        numbered(state.blocks, state.blocks.len()),
        state.blocks.len() < u64::MAX,
    ensures
        ({
            let file = state.created(InodeType::File, name);
            let written = file.with_block(state.next_block(), data.len());
            &&& file_content(state.store(data).blocks, written.direct_pointers) == data
            &&& text_of(file_content(state.store(data).blocks, written.direct_pointers))
                == text_of(data)
            &&& data.len() <= u64::MAX ==> written.file_size == data.len()
        }),
{
    let file = state.created(InodeType::File, name);
    file.lemma_first_free_from(0);
    lemma_content_of_empty_slots(state.blocks, file.direct_pointers);
    lemma_write_appends(state, file, data);
    assert(Seq::<u8>::empty() + data =~= data);
}

/// Capacity: an inode whose slots are all occupied is full, and a write
/// leaves its pointers and its size as they were.
pub proof fn lemma_full_inode_keeps_pointers_and_size(inode: InodeView, block: u64, len: nat)
    requires
        forall|i: int| 0 <= i < inode.direct_pointers.len() ==> inode.direct_pointers[i].is_some(),
    ensures
        inode.is_full(),
        inode.with_block(block, len) == inode,
{
    inode.lemma_first_free_from(0);
}

} // verus!
