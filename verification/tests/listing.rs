use journaled_fs::blocks::BlockStore;
use journaled_fs::fs::FileSystem;
use journaled_fs::inode::{Inode, InodeType};
use journaled_fs::listing::ListingEntry;
use journaled_fs::table::InodeTable;

fn summary(lines: &[ListingEntry]) -> Vec<(char, u64, String, u64)> {
    let mut out = Vec::new();
    for line in lines {
        match line {
            ListingEntry::Directory { id, name } => out.push(('d', *id, name.clone(), 0)),
            ListingEntry::File { id, name, size } => out.push(('f', *id, name.clone(), *size)),
        }
    }
    out
}

fn sample() -> FileSystem {
    let mut fs = FileSystem::new();
    let mut docs = fs.create_directory("Documents");
    let mut pics = fs.create_directory("Pictures");
    let doc1 = fs.create_file("doc1.txt");
    let doc2 = fs.create_file("doc2.txt");
    let pic1 = fs.create_file("pic1.jpg");
    fs.add_file_to_directory(&mut docs, &doc1);
    fs.add_file_to_directory(&mut docs, &doc2);
    fs.add_file_to_directory(&mut pics, &pic1);
    fs.add_file_to_directory(&mut docs, &pics);
    fs.persist(docs);
    fs.persist(pics);
    let doc1 = fs.write_to_file(doc1, b"Hello, World!");
    fs.persist(doc1);
    fs
}

#[test]
fn listing_follows_child_order_and_nests() {
    let fs = sample();
    assert_eq!(
        summary(&fs.list_directory(1)),
        vec![
            ('d', 1, "Documents".to_string(), 0),
            ('f', 3, "doc1.txt".to_string(), 13),
            ('f', 4, "doc2.txt".to_string(), 0),
            ('d', 2, "Pictures".to_string(), 0),
            ('f', 5, "pic1.jpg".to_string(), 0),
        ]
    );
    assert_eq!(
        summary(&fs.list_directory(2)),
        vec![('d', 2, "Pictures".to_string(), 0), ('f', 5, "pic1.jpg".to_string(), 0)]
    );
    assert!(fs.list_directory(77).is_empty());
}

#[test]
fn every_directory_is_listed_once() {
    let fs = sample();
    let listings = fs.list_directories_and_files();
    let mut ids: Vec<u64> = listings.iter().map(|l| l.id).collect();
    ids.sort();
    assert_eq!(ids, vec![1, 2]);
    for listing in &listings {
        assert_eq!(summary(&listing.lines), summary(&fs.list_directory(listing.id)));
    }
}

#[test]
fn listing_skips_children_that_left_the_table() {
    let mut fs = FileSystem::new();
    let mut dir = fs.create_directory("d");
    let file = fs.create_file("f");
    fs.add_file_to_directory(&mut dir, &file);
    fs.persist(dir);
    fs.undo();
    fs.undo();
    assert!(fs.inodes().lookup(2).is_none());
    assert_eq!(summary(&fs.list_directory(1)), vec![('d', 1, "d".to_string(), 0)]);
}

#[test]
fn listing_of_a_directory_below_itself_ends() {
    let mut fs = FileSystem::new();
    let mut dir = fs.create_directory("loop");
    let copy = dir.clone();
    fs.add_file_to_directory(&mut dir, &copy);
    fs.persist(dir);
    let lines = fs.list_directory(1);
    assert_eq!(
        summary(&lines),
        vec![('d', 1, "loop".to_string(), 0), ('d', 1, "loop".to_string(), 0)]
    );
}

#[test]
fn table_insert_lookup_remove() {
    let mut table = InodeTable::new();
    assert!(table.lookup(3).is_none());
    table.insert(Inode::new_inode("a", InodeType::File, 3));
    table.insert(Inode::new_inode("b", InodeType::Directory, 3));
    assert_eq!(table.len(), 1);
    let found = table.lookup(3).unwrap();
    assert_eq!(found.file_name, "b");
    assert_eq!(found.inode_type, InodeType::Directory);
    table.remove(9);
    assert_eq!(table.len(), 1);
    table.remove(3);
    assert!(table.lookup(3).is_none());
    assert_eq!(table.ids(), Vec::<u64>::new());
}

#[test]
fn block_store_numbers_blocks_from_one() {
    let mut store = BlockStore::new();
    assert_eq!(store.len(), 0);
    assert_eq!(store.read(1), None);
    assert_eq!(store.allocate_and_write(b"one"), 1);
    assert_eq!(store.allocate_and_write(b""), 2);
    assert_eq!(store.allocate_and_write(b"three"), 3);
    assert_eq!(store.read(1), Some(&b"one".to_vec()));
    assert_eq!(store.read(2), Some(&Vec::new()));
    assert_eq!(store.read(3), Some(&b"three".to_vec()));
    assert_eq!(store.read(0), None);
    assert_eq!(store.read(4), None);
    assert_eq!(store.len(), 3);
}
