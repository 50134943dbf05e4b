//! Directory listings: what a walk of the child lists finds, in order.

use crate::fs::FileSystem;
use crate::inode::{Inode, InodeType, InodeView};
use crate::model::holds_directory;
use crate::table::InodeTable;
use vstd::prelude::*;

verus! {

/// The mathematical value of a [`ListingEntry`].
pub enum ListingLine {
    Directory { id: u64, name: Seq<char> },
    File { id: u64, name: Seq<char>, size: u64 },
}

/// One line of a listing.
#[derive(Debug)]
pub enum ListingEntry {
    /// A directory; the lines of its children follow it.
    Directory { id: u64, name: String },
    /// A file with its size in bytes.
    File { id: u64, name: String, size: u64 },
}

impl View for ListingEntry {
    type V = ListingLine;

    open spec fn view(&self) -> ListingLine {
        match *self {
            ListingEntry::Directory { id, name } => ListingLine::Directory { id, name: name@ },
            ListingEntry::File { id, name, size } => ListingLine::File { id, name: name@, size },
        }
    }
}

/// The values of a sequence of entries.
pub open spec fn lines_of(entries: Seq<ListingEntry>) -> Seq<ListingLine> {
    Seq::new(entries.len(), |i: int| entries[i]@)
}

/// The line that stands for an inode.
pub open spec fn line_of(inode: InodeView) -> ListingLine {
    match inode.inode_type {
        InodeType::Directory => ListingLine::Directory { id: inode.id, name: inode.file_name },
        InodeType::File => ListingLine::File {
            id: inode.id,
            name: inode.file_name,
            size: inode.file_size,
        },
    }
}

/// The children of a directory that a walk `depth` levels deep still
/// descends into: none at depth 0, and none of an inode without a child list.
pub open spec fn descent(inode: InodeView, depth: nat) -> Seq<u64> {
    if depth > 0 && inode.inode_type == InodeType::Directory && inode.entries.is_some() {
        inode.entries.unwrap()
    } else {
        Seq::<u64>::empty()
    }
}

/// The lines for a list of identifiers, in order. An identifier that the
/// table lacks gives no line; a file gives its line; a directory gives its
/// line and then the lines of its children, as long as `depth` levels are
/// left to descend.
pub open spec fn listing(inodes: Map<u64, InodeView>, ids: Seq<u64>, depth: nat) -> Seq<
    ListingLine,
>
    decreases depth, ids.len(),
{
    if ids.len() == 0 {
        Seq::<ListingLine>::empty()
    } else {
        listing(inodes, ids.drop_last(), depth) + subtree(inodes, ids.last(), depth)
    }
}

/// The lines for one identifier: see [`listing`].
pub open spec fn subtree(inodes: Map<u64, InodeView>, id: u64, depth: nat) -> Seq<ListingLine>
    decreases depth, 0nat,
{
    if !inodes.contains_key(id) {
        Seq::<ListingLine>::empty()
    } else if depth == 0 {
        seq![line_of(inodes[id])]
    } else {
        seq![line_of(inodes[id])] + listing(
            inodes,
            descent(inodes[id], depth),
            (depth - 1) as nat,
        )
    }
}

/// The listing of the directory `id`: its own line and everything below it.
/// The walk descends as many levels as the table has inodes, which is every
/// level unless a directory lies below itself.
pub open spec fn directory_listing(inodes: Map<u64, InodeView>, id: u64) -> Seq<ListingLine> {
    subtree(inodes, id, inodes.len())
}

/// The identifier that a line shows.
pub open spec fn line_id(line: ListingLine) -> u64 {
    match line {
        ListingLine::Directory { id, .. } => id,
        ListingLine::File { id, .. } => id,
    }
}

/// The line shows an inode of the table as the table holds it: its kind,
/// its name and, for a file, its size.
pub open spec fn shows_inode(inodes: Map<u64, InodeView>, line: ListingLine) -> bool {
    inodes.contains_key(line_id(line)) && line == line_of(inodes[line_id(line)])
}

/// `target` is the inode `id` or lies below it, at most `depth` child lists
/// away, every inode on the way being in the table.
pub open spec fn reaches(inodes: Map<u64, InodeView>, id: u64, depth: nat, target: u64) -> bool
    decreases depth, 0nat,
{
    inodes.contains_key(id) && (id == target || (depth > 0 && reaches_from_any(
        inodes,
        descent(inodes[id], depth),
        (depth - 1) as nat,
        target,
    )))
}

/// `target` can be reached from one of `ids`: see [`reaches`].
pub open spec fn reaches_from_any(
    inodes: Map<u64, InodeView>,
    ids: Seq<u64>,
    depth: nat,
    target: u64,
) -> bool
    decreases depth, ids.len(),
{
    ids.len() > 0 && (reaches_from_any(inodes, ids.drop_last(), depth, target) || reaches(
        inodes,
        ids.last(),
        depth,
        target,
    ))
}

/// The listing of one directory of the table.
#[derive(Debug)]
pub struct DirectoryListing {
    /// The directory that the walk started from.
    pub id: u64,
    /// Its line and the lines of everything below it.
    pub lines: Vec<ListingEntry>,
}

fn entry_of(inode: Inode) -> (entry: ListingEntry)
    ensures
        entry@ == line_of(inode@),
{
    let Inode { id, file_name, inode_type, file_size, direct_pointers: _, entries: _ } = inode;
    match inode_type {
        InodeType::Directory => ListingEntry::Directory { id, name: file_name },
        InodeType::File => ListingEntry::File { id, name: file_name, size: file_size },
    }
}

fn list_subtree(table: &InodeTable, id: u64, depth: usize) -> (lines: Vec<ListingEntry>)
    ensures
        lines_of(lines@) == subtree(table@, id, depth as nat),
    decreases depth,
{
    let mut lines: Vec<ListingEntry> = Vec::new();
    match table.lookup(id) {
        None => {
            proof {
                assert(lines_of(lines@) =~= subtree(table@, id, depth as nat));
            }
        },
        Some(inode) => {
            let ghost found = inode@;
            let descend = depth > 0 && inode.inode_type == InodeType::Directory;
            let children: Vec<u64> = match &inode.entries {
                Some(children) => if descend {
                    children.clone()
                } else {
                    Vec::new()
                },
                None => Vec::new(),
            };
            proof {
                assert(children@ =~= descent(found, depth as nat));
            }
            lines.push(entry_of(inode));
            proof {
                assert(lines_of(lines@) =~= seq![line_of(found)]);
            }
            if depth > 0 {
                let mut i: usize = 0;
                while i < children.len()
                    invariant
                        i <= children.len(),
                        depth > 0,
                        lines_of(lines@) == seq![line_of(found)] + listing(
                            table@,
                            children@.take(i as int),
                            (depth - 1) as nat,
                        ),
                    decreases children.len() - i,
                {
                    let mut below = list_subtree(table, children[i], depth - 1);
                    let ghost before = lines@;
                    let ghost added = below@;
                    lines.append(&mut below);
                    proof {
                        assert(children@.take(i + 1).drop_last() =~= children@.take(i as int));
                        assert(lines_of(before + added) =~= lines_of(before) + lines_of(added));
                        assert(lines_of(lines@) =~= seq![line_of(found)] + listing(
                            table@,
                            children@.take(i + 1),
                            (depth - 1) as nat,
                        ));
                    }
                    i += 1;
                }
                proof {
                    assert(children@.take(children@.len() as int) =~= children@);
                }
            }
        },
    }
    lines
}

impl FileSystem {
    /// The listing of the directory held under `id`: its line, then for each
    /// child in child-list order the child's line, a directory child being
    /// followed by its own children. Empty where the table holds nothing
    /// under `id`.
    pub fn list_directory(&self, id: u64) -> (lines: Vec<ListingEntry>)
        ensures
            lines_of(lines@) == directory_listing(self@.inodes, id),
    {
        let depth = self.inodes().len();
        list_subtree(self.inodes(), id, depth)
    }

    /// The listing of every directory of the table, one per directory, in no
    /// particular order.
    pub fn list_directories_and_files(&self) -> (listings: Vec<DirectoryListing>)
        ensures
            forall|i: int|
                0 <= i < listings@.len() ==> holds_directory(
                    self@.inodes,
                    (#[trigger] listings@[i]).id,
                ) && lines_of(listings@[i].lines@) == directory_listing(
                    self@.inodes,
                    listings@[i].id,
                ),
            forall|i: int, j: int|
                0 <= i < j < listings@.len() ==> listings@[i].id != listings@[j].id,
            forall|id: u64|
                holds_directory(self@.inodes, id) ==> exists|i: int|
                    0 <= i < listings@.len() && (#[trigger] listings@[i]).id == id,
    {
        let ids = self.inodes().ids();
        let mut listings: Vec<DirectoryListing> = Vec::new();
        let ghost mut origin: Seq<int> = Seq::empty();
        let mut k: usize = 0;
        while k < ids.len()
            invariant
                k <= ids.len(),
                ids@.no_duplicates(),
                forall|id: u64| ids@.contains(id) <==> self@.inodes.contains_key(id),
                origin.len() == listings@.len(),
                forall|i: int|
                    0 <= i < listings@.len() ==> 0 <= #[trigger] origin[i] < k && ids@[origin[i]]
                        == listings@[i].id,
                forall|i: int, j: int|
                    0 <= i < j < listings@.len() ==> origin[i] < origin[j],
                forall|i: int|
                    0 <= i < listings@.len() ==> holds_directory(
                        self@.inodes,
                        (#[trigger] listings@[i]).id,
                    ) && lines_of(listings@[i].lines@) == directory_listing(
                        self@.inodes,
                        listings@[i].id,
                    ),
                forall|n: int|
                    0 <= n < k && holds_directory(self@.inodes, #[trigger] ids@[n]) ==> exists|
                        i: int,
                    |
                        0 <= i < listings@.len() && (#[trigger] listings@[i]).id == ids@[n],
            decreases ids.len() - k,
        {
            let id = ids[k];
            let ghost before = listings@;
            let is_directory = match self.inodes().lookup(id) {
                Some(inode) => inode.inode_type == InodeType::Directory,
                None => false,
            };
            if is_directory {
                let lines = self.list_directory(id);
                listings.push(DirectoryListing { id, lines });
                proof {
                    origin = origin.push(k as int);
                    assert(listings@[before.len() as int].id == id);
                    assert forall|n: int|
                        0 <= n < k + 1 && holds_directory(
                            self@.inodes,
                            #[trigger] ids@[n],
                        ) implies exists|i: int|
                        0 <= i < listings@.len() && (#[trigger] listings@[i]).id == ids@[n] by {
                        if n < k {
                            let i = choose|i: int|
                                0 <= i < before.len() && (#[trigger] before[i]).id == ids@[n];
                            assert(listings@[i].id == ids@[n]);
                        } else {
                            assert(listings@[before.len() as int].id == ids@[n]);
                        }
                    }
                }
            }
            k += 1;
        }
        proof {
            assert forall|i: int, j: int| 0 <= i < j < listings@.len() implies listings@[i].id
                != listings@[j].id by {
                assert(0 <= origin[i] < k && ids@[origin[i]] == listings@[i].id);
                assert(0 <= origin[j] < k && ids@[origin[j]] == listings@[j].id);
                assert(origin[i] < origin[j]);
            }
            assert forall|id: u64| holds_directory(self@.inodes, id) implies exists|i: int|
                0 <= i < listings@.len() && (#[trigger] listings@[i]).id == id by {
                assert(ids@.contains(id));
                let n = choose|n: int| 0 <= n < ids@.len() && ids@[n] == id;
                assert(holds_directory(self@.inodes, ids@[n]));
            }
        }
        listings
    }
}

} // verus!
