use journaled_fs::fs::{reverse_entry, FileSystem};
use journaled_fs::table::InodeTable;
use journaled_fs::inode::{Inode, InodeType, NUM_DIRECT_POINTERS};
use journaled_fs::journal::{Details, Journal, JournalEntry, Operation};
use journaled_fs::model::UndoOutcome;

#[test]
fn documents_scenario() {
    let mut fs = FileSystem::new();
    let mut dir = fs.create_directory("Documents");
    assert_eq!(dir.id, 1);
    assert_eq!(dir.inode_type, InodeType::Directory);
    assert_eq!(dir.entries, Some(vec![]));
    let file = fs.create_file("doc1.txt");
    assert_eq!(file.id, 2);
    assert_eq!(file.inode_type, InodeType::File);
    assert_eq!(file.entries, None);
    assert_eq!(file.file_size, 0);

    assert!(fs.add_file_to_directory(&mut dir, &file));
    assert_eq!(dir.entries, Some(vec![2]));
    fs.persist(dir.clone());

    let file = fs.write_to_file(file, b"Hi");
    assert_eq!(file.file_size, 2);
    assert_eq!(file.direct_pointers[0], Some(1));
    assert_eq!(file.direct_pointers[1], None);
    assert_eq!(fs.read_file(&file), "Hi");

    assert_eq!(fs.undo(), UndoOutcome::RemovedChild { file_id: 2, parent_id: 1 });
    let stored = fs.inodes().lookup(1).unwrap();
    assert_eq!(stored.entries, Some(vec![]));
    assert!(fs.inodes().lookup(2).is_some());

    assert_eq!(fs.undo(), UndoOutcome::RemovedFile { id: 2 });
    assert!(fs.inodes().lookup(2).is_none());
    assert!(fs.inodes().lookup(1).is_some());
}

#[test]
fn identifiers_increase_and_are_never_reused() {
    let mut fs = FileSystem::new();
    assert_eq!(fs.id_counter(), 0);
    let a = fs.create_directory("a");
    let b = fs.create_file("b");
    assert_eq!(fs.undo(), UndoOutcome::RemovedFile { id: 2 });
    let c = fs.create_file("c");
    let d = fs.create_directory("d");
    assert_eq!((a.id, b.id, c.id, d.id), (1, 2, 3, 4));
    assert_eq!(fs.id_counter(), 4);
    assert!(fs.inodes().lookup(2).is_none());
}

#[test]
fn new_inode_of_each_kind() {
    let file = Inode::new_inode("f", InodeType::File, 7);
    assert_eq!(file.id, 7);
    assert_eq!(file.file_name, "f");
    assert_eq!(file.file_size, 0);
    assert_eq!(file.direct_pointers, [None; NUM_DIRECT_POINTERS]);
    assert_eq!(file.entries, None);
    let dir = Inode::new_inode("d", InodeType::Directory, 8);
    assert_eq!(dir.entries, Some(vec![]));
    assert_eq!(dir.direct_pointers, [None; NUM_DIRECT_POINTERS]);
}

#[test]
fn add_entry_appends_only_to_a_child_list() {
    let mut dir = Inode::new_inode("d", InodeType::Directory, 1);
    dir.add_entry(5);
    dir.add_entry(3);
    dir.add_entry(5);
    assert_eq!(dir.entries, Some(vec![5, 3, 5]));
    let mut file = Inode::new_inode("f", InodeType::File, 2);
    file.add_entry(5);
    assert_eq!(file.entries, None);
}

#[test]
fn remove_entry_drops_every_occurrence() {
    let mut dir = Inode::new_inode("d", InodeType::Directory, 1);
    for id in [5, 3, 5, 4] {
        dir.add_entry(id);
    }
    dir.remove_entry(5);
    assert_eq!(dir.entries, Some(vec![3, 4]));
    dir.remove_entry(9);
    assert_eq!(dir.entries, Some(vec![3, 4]));
}

#[test]
fn round_trip_over_four_writes() {
    let mut fs = FileSystem::new();
    let mut file = fs.create_file("notes");
    file = fs.write_to_file(file, b"Hello, ");
    file = fs.write_to_file(file, b"World");
    file = fs.write_to_file(file, b"");
    file = fs.write_to_file(file, "! \u{e9}".as_bytes());
    assert_eq!(file.direct_pointers, [Some(1), Some(2), Some(3), Some(4)]);
    assert_eq!(file.file_size, 16);
    assert_eq!(fs.read_file(&file), "Hello, World! \u{e9}");
    assert_eq!(fs.file_bytes(&file), "Hello, World! \u{e9}".as_bytes().to_vec());
}

#[test]
fn fifth_write_is_dropped() {
    let mut fs = FileSystem::new();
    let mut file = fs.create_file("full");
    for chunk in [b"ab", b"cd", b"ef", b"gh"] {
        file = fs.write_to_file(file, chunk);
    }
    assert_eq!(file.first_free_slot(), NUM_DIRECT_POINTERS);
    let after = fs.write_to_file(file.clone(), b"ij");
    assert_eq!(after.direct_pointers, [Some(1), Some(2), Some(3), Some(4)]);
    assert_eq!(after.file_size, 8);
    assert_eq!(fs.read_file(&after), "abcdefgh");
    assert_eq!(fs.blocks().len(), 5);
    assert_eq!(fs.blocks().read(5), Some(&b"ij".to_vec()));
}

#[test]
fn invalid_bytes_read_as_replacement_text() {
    let mut fs = FileSystem::new();
    let file = fs.create_file("raw");
    let file = fs.write_to_file(file, &[0xff, 0xfe]);
    assert_eq!(file.file_size, 2);
    assert_eq!(fs.read_file(&file), "invalid data");
    assert_eq!(fs.file_bytes(&file), vec![0xff, 0xfe]);
}

#[test]
fn unwritten_file_reads_empty() {
    let mut fs = FileSystem::new();
    let file = fs.create_file("empty");
    assert_eq!(fs.read_file(&file), "");
}

#[test]
fn pointer_to_missing_block_adds_nothing() {
    let mut fs = FileSystem::new();
    let mut file = fs.create_file("dangling");
    file.direct_pointers[0] = Some(40);
    let file = fs.write_to_file(file, b"x");
    assert_eq!(file.direct_pointers, [Some(40), Some(1), None, None]);
    assert_eq!(fs.read_file(&file), "x");
}

#[test]
fn adding_to_a_file_is_refused() {
    let mut fs = FileSystem::new();
    let mut target = fs.create_file("not-a-dir");
    let file = fs.create_file("f");
    let before = fs.journal().len();
    assert!(!fs.add_file_to_directory(&mut target, &file));
    assert_eq!(target.entries, None);
    assert_eq!(fs.journal().len(), before);
}

#[test]
fn undo_is_last_in_first_out() {
    let mut fs = FileSystem::new();
    let mut dir = fs.create_directory("d");
    let file = fs.create_file("f");
    fs.add_file_to_directory(&mut dir, &file);
    fs.persist(dir);
    assert_eq!(fs.journal().len(), 3);
    assert_eq!(fs.undo(), UndoOutcome::RemovedChild { file_id: 2, parent_id: 1 });
    assert_eq!(fs.undo(), UndoOutcome::RemovedFile { id: 2 });
    assert_eq!(fs.undo(), UndoOutcome::RemovedDirectory { id: 1 });
    assert_eq!(fs.undo(), UndoOutcome::NothingToUndo);
    assert_eq!(fs.journal().len(), 0);
    assert!(fs.inodes().ids().is_empty());
}

#[test]
fn undo_of_creation_removes_the_inode() {
    let mut fs = FileSystem::new();
    fs.create_directory("X");
    assert_eq!(fs.undo(), UndoOutcome::RemovedDirectory { id: 1 });
    assert!(fs.inodes().lookup(1).is_none());
    assert_eq!(fs.inodes().len(), 0);
}

#[test]
fn undo_of_link_whose_parent_is_no_directory() {
    let mut fs = FileSystem::new();
    let mut dir = fs.create_directory("d");
    let file = fs.create_file("f");
    fs.add_file_to_directory(&mut dir, &file);
    fs.persist(Inode::new_inode("shadow", InodeType::File, 1));
    assert_eq!(fs.undo(), UndoOutcome::ParentUnavailable { file_id: 2, parent_id: 1 });
    assert_eq!(fs.inodes().lookup(1).unwrap().file_name, "shadow");
    assert_eq!(fs.journal().len(), 2);
}

#[test]
fn undo_of_link_acts_on_the_table_copy() {
    let mut fs = FileSystem::new();
    let mut dir = fs.create_directory("d");
    let file = fs.create_file("f");
    fs.add_file_to_directory(&mut dir, &file);
    assert_eq!(fs.undo(), UndoOutcome::RemovedChild { file_id: 2, parent_id: 1 });
    assert_eq!(fs.inodes().lookup(1).unwrap().entries, Some(vec![]));
    assert_eq!(dir.entries, Some(vec![2]));
}

#[test]
fn journal_commit_marks_every_entry() {
    let mut journal = Journal::new();
    journal.add_entry(Operation::CreateFile, Details::Created { id: 1 });
    journal.add_entry(Operation::CreateDirectory, Details::Created { id: 2 });
    assert_eq!(journal.len(), 2);
    assert_eq!(
        journal.entry(0),
        Some(JournalEntry {
            operation: Operation::CreateFile,
            committed: false,
            details: Details::Created { id: 1 },
        })
    );
    assert_eq!(journal.entry(1).unwrap().committed, false);
    journal.commit();
    assert!(journal.entry(0).unwrap().committed);
    assert!(journal.entry(1).unwrap().committed);
    assert_eq!(journal.entry(2), None);
    let popped = journal.pop_last().unwrap();
    assert_eq!(popped.details, Details::Created { id: 2 });
    assert_eq!(popped.operation, Operation::CreateDirectory);
    assert_eq!(journal.len(), 1);
    journal.pop_last();
    assert_eq!(journal.pop_last(), None);
}

#[test]
fn coordinator_journal_entries_are_committed() {
    let mut fs = FileSystem::new();
    let mut dir = fs.create_directory("d");
    let file = fs.create_file("f");
    fs.add_file_to_directory(&mut dir, &file);
    let expected = [
        (Operation::CreateDirectory, Details::Created { id: 1 }),
        (Operation::CreateFile, Details::Created { id: 2 }),
        (Operation::AddFileToDirectory, Details::Linked { file_id: 2, parent_id: 1 }),
    ];
    for (i, (operation, details)) in expected.into_iter().enumerate() {
        assert_eq!(
            fs.journal().entry(i),
            Some(JournalEntry { operation, committed: true, details })
        );
    }
}

#[test]
fn entry_whose_details_do_not_fit_changes_nothing() {
    let mut table = InodeTable::new();
    table.insert(Inode::new_inode("d", InodeType::Directory, 1));
    let entry = JournalEntry {
        operation: Operation::CreateFile,
        committed: true,
        details: Details::Linked { file_id: 1, parent_id: 1 },
    };
    assert_eq!(reverse_entry(&mut table, entry), UndoOutcome::Malformed);
    let entry = JournalEntry {
        operation: Operation::AddFileToDirectory,
        committed: true,
        details: Details::Created { id: 1 },
    };
    assert_eq!(reverse_entry(&mut table, entry), UndoOutcome::Malformed);
    assert_eq!(table.len(), 1);
    assert!(table.lookup(1).is_some());
}

#[test]
fn reversing_a_link_removes_every_occurrence_of_the_file() {
    let mut table = InodeTable::new();
    let mut dir = Inode::new_inode("d", InodeType::Directory, 4);
    dir.add_entry(9);
    dir.add_entry(8);
    dir.add_entry(9);
    table.insert(dir);
    let entry = JournalEntry {
        operation: Operation::AddFileToDirectory,
        committed: true,
        details: Details::Linked { file_id: 9, parent_id: 4 },
    };
    assert_eq!(
        reverse_entry(&mut table, entry),
        UndoOutcome::RemovedChild { file_id: 9, parent_id: 4 }
    );
    assert_eq!(table.lookup(4).unwrap().entries, Some(vec![8]));
    let missing = JournalEntry {
        operation: Operation::AddFileToDirectory,
        committed: true,
        details: Details::Linked { file_id: 9, parent_id: 5 },
    };
    assert_eq!(
        reverse_entry(&mut table, missing),
        UndoOutcome::ParentUnavailable { file_id: 9, parent_id: 5 }
    );
}
