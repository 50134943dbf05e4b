//! Laws of listings: which identifiers a listing shows, and how often.

use crate::inode::InodeView;
use crate::listing::{
    descent, directory_listing, line_id, line_of, listing, reaches, reaches_from_any, shows_inode,
    subtree, ListingLine,
};
use crate::model::holds_directory;
use crate::table::keyed_by_id;
use vstd::prelude::*;

verus! {

/// Every line of a listing shows an inode of the table as the table holds
/// it; a file's line shows the size that the table holds for it.
pub proof fn lemma_listing_shows_table(inodes: Map<u64, InodeView>, ids: Seq<u64>, depth: nat)
    requires
        keyed_by_id(inodes),
    ensures
        forall|i: int|
            0 <= i < listing(inodes, ids, depth).len() ==> shows_inode(
                inodes,
                #[trigger] listing(inodes, ids, depth)[i],
            ),
    decreases depth, ids.len(),
{
    if ids.len() > 0 {
        lemma_listing_shows_table(inodes, ids.drop_last(), depth);
        lemma_subtree_shows_table(inodes, ids.last(), depth);
        let front = listing(inodes, ids.drop_last(), depth);
        let back = subtree(inodes, ids.last(), depth);
        assert forall|i: int| 0 <= i < (front + back).len() implies shows_inode(
            inodes,
            #[trigger] (front + back)[i],
        ) by {
            if i < front.len() {
                assert(shows_inode(inodes, front[i]));
            } else {
                assert(shows_inode(inodes, back[i - front.len()]));
            }
        }
    }
}

/// Every line of the listing of one inode shows an inode of the table as
/// the table holds it.
pub proof fn lemma_subtree_shows_table(inodes: Map<u64, InodeView>, id: u64, depth: nat)
    requires
        keyed_by_id(inodes),
    ensures
        forall|i: int|
            0 <= i < subtree(inodes, id, depth).len() ==> shows_inode(
                inodes,
                #[trigger] subtree(inodes, id, depth)[i],
            ),
    decreases depth, 0nat,
{
    if inodes.contains_key(id) {
        assert(shows_inode(inodes, line_of(inodes[id])));
        if depth > 0 {
            lemma_listing_shows_table(inodes, descent(inodes[id], depth), (depth - 1) as nat);
            let below = listing(inodes, descent(inodes[id], depth), (depth - 1) as nat);
            let lines = seq![line_of(inodes[id])] + below;
            assert forall|i: int| 0 <= i < lines.len() implies shows_inode(
                inodes,
                #[trigger] lines[i],
            ) by {
                if i > 0 {
                    assert(shows_inode(inodes, below[i - 1]));
                }
            }
        }
    }
}

/// Completeness: the listing of an inode has a line for every identifier
/// that can be reached from it through child lists within the depth of the
/// walk.
pub proof fn lemma_reachable_is_listed(
    inodes: Map<u64, InodeView>,
    id: u64,
    depth: nat,
    target: u64,
)
    requires
        keyed_by_id(inodes),
        reaches(inodes, id, depth, target),
    ensures
        exists|i: int|
            0 <= i < subtree(inodes, id, depth).len() && line_id(
                #[trigger] subtree(inodes, id, depth)[i],
            ) == target,
    decreases depth, 0nat,
{
    let lines = subtree(inodes, id, depth);
    if id == target {
        assert(line_id(lines[0]) == target);
    } else {
        let children = descent(inodes[id], depth);
        lemma_reachable_from_any_is_listed(inodes, children, (depth - 1) as nat, target);
        let below = listing(inodes, children, (depth - 1) as nat);
        let m = choose|m: int| 0 <= m < below.len() && line_id(#[trigger] below[m]) == target;
        assert(lines[m + 1] == below[m]);
        assert(line_id(lines[m + 1]) == target);
    }
}

/// The listing of a list of identifiers has a line for every identifier
/// that can be reached from one of them within the depth of the walk.
pub proof fn lemma_reachable_from_any_is_listed(
    inodes: Map<u64, InodeView>,
    ids: Seq<u64>,
    depth: nat,
    target: u64,
)
    requires
        keyed_by_id(inodes),
        reaches_from_any(inodes, ids, depth, target),
    ensures
        exists|i: int|
            0 <= i < listing(inodes, ids, depth).len() && line_id(
                #[trigger] listing(inodes, ids, depth)[i],
            ) == target,
    decreases depth, ids.len(),
{
    let front = listing(inodes, ids.drop_last(), depth);
    let back = subtree(inodes, ids.last(), depth);
    let all = listing(inodes, ids, depth);
    assert(ids.len() > 0);
    assert(all == front + back);
    if reaches_from_any(inodes, ids.drop_last(), depth, target) {
        lemma_reachable_from_any_is_listed(inodes, ids.drop_last(), depth, target);
        let i = choose|i: int| 0 <= i < front.len() && line_id(#[trigger] front[i]) == target;
        assert(all[i] == front[i]);
        assert(line_id(all[i]) == target);
    } else {
        lemma_reachable_is_listed(inodes, ids.last(), depth, target);
        let i = choose|i: int| 0 <= i < back.len() && line_id(#[trigger] back[i]) == target;
        assert(all[front.len() + i] == back[i]);
        assert(line_id(all[front.len() + i]) == target);
    }
}

/// Soundness: every line of the listing of an inode shows an identifier
/// that can be reached from it through child lists within the depth of the
/// walk.
pub proof fn lemma_listed_is_reachable(inodes: Map<u64, InodeView>, id: u64, depth: nat)
    requires
        keyed_by_id(inodes),
    ensures
        forall|i: int|
            0 <= i < subtree(inodes, id, depth).len() ==> reaches(
                inodes,
                id,
                depth,
                line_id(#[trigger] subtree(inodes, id, depth)[i]),
            ),
    decreases depth, 0nat,
{
    if inodes.contains_key(id) && depth > 0 {
        let children = descent(inodes[id], depth);
        lemma_listed_from_any_is_reachable(inodes, children, (depth - 1) as nat);
        let below = listing(inodes, children, (depth - 1) as nat);
        let lines = seq![line_of(inodes[id])] + below;
        assert forall|i: int| 0 <= i < lines.len() implies reaches(
            inodes,
            id,
            depth,
            line_id(#[trigger] lines[i]),
        ) by {
            if i > 0 {
                assert(lines[i] == below[i - 1]);
            }
        }
    }
}

/// Every line of the listing of a list of identifiers shows an identifier
/// that can be reached from one of them within the depth of the walk.
pub proof fn lemma_listed_from_any_is_reachable(
    inodes: Map<u64, InodeView>,
    ids: Seq<u64>,
    depth: nat,
)
    requires
        keyed_by_id(inodes),
    ensures
        forall|i: int|
            0 <= i < listing(inodes, ids, depth).len() ==> reaches_from_any(
                inodes,
                ids,
                depth,
                line_id(#[trigger] listing(inodes, ids, depth)[i]),
            ),
    decreases depth, ids.len(),
{
    if ids.len() > 0 {
        lemma_listed_from_any_is_reachable(inodes, ids.drop_last(), depth);
        lemma_listed_is_reachable(inodes, ids.last(), depth);
        let front = listing(inodes, ids.drop_last(), depth);
        let back = subtree(inodes, ids.last(), depth);
        assert forall|i: int| 0 <= i < (front + back).len() implies reaches_from_any(
            inodes,
            ids,
            depth,
            line_id(#[trigger] (front + back)[i]),
        ) by {
            if i < front.len() {
                assert((front + back)[i] == front[i]);
            } else {
                assert((front + back)[i] == back[i - front.len()]);
            }
        }
    }
}

/// None of `ids` is held as a directory.
pub open spec fn no_directories(inodes: Map<u64, InodeView>, ids: Seq<u64>) -> bool {
    forall|j: int| 0 <= j < ids.len() ==> !holds_directory(inodes, #[trigger] ids[j])
}

/// No two lines show the same identifier.
pub open spec fn listed_once(lines: Seq<ListingLine>) -> bool {
    forall|a: int, b: int|
        0 <= a < b < lines.len() ==> line_id(#[trigger] lines[a]) != line_id(#[trigger] lines[b])
}

/// The listing of a list of identifiers without a directory and without a
/// repetition shows only identifiers of the list, and none of them twice.
pub proof fn lemma_files_listed_once(inodes: Map<u64, InodeView>, ids: Seq<u64>, depth: nat)
    requires
        keyed_by_id(inodes),
        no_directories(inodes, ids),
        ids.no_duplicates(),
    ensures
        listed_once(listing(inodes, ids, depth)),
        forall|i: int|
            0 <= i < listing(inodes, ids, depth).len() ==> ids.contains(
                line_id(#[trigger] listing(inodes, ids, depth)[i]),
            ),
    decreases ids.len(),
{
    if ids.len() > 0 {
        let rest = ids.drop_last();
        let last = ids.last();
        assert forall|j: int| 0 <= j < rest.len() implies !holds_directory(
            inodes,
            #[trigger] rest[j],
        ) by {
            assert(rest[j] == ids[j]);
        }
        lemma_files_listed_once(inodes, rest, depth);
        let front = listing(inodes, rest, depth);
        let back = subtree(inodes, last, depth);
        let all = front + back;
        assert(!holds_directory(inodes, ids[ids.len() - 1]));
        if inodes.contains_key(last) {
            assert(descent(inodes[last], depth) =~= Seq::<u64>::empty());
            assert(back =~= seq![line_of(inodes[last])]);
            assert(line_id(back[0]) == last);
        } else {
            assert(back.len() == 0);
        }
        assert forall|i: int| 0 <= i < all.len() implies ids.contains(
            line_id(#[trigger] all[i]),
        ) by {
            if i < front.len() {
                assert(all[i] == front[i]);
                let j = choose|j: int| 0 <= j < rest.len() && rest[j] == line_id(front[i]);
                assert(ids[j] == line_id(all[i]));
            } else {
                assert(ids[ids.len() - 1] == line_id(all[i]));
            }
        }
        assert forall|a: int, b: int| 0 <= a < b < all.len() implies line_id(#[trigger] all[a])
            != line_id(#[trigger] all[b]) by {
            if b < front.len() {
                assert(all[a] == front[a] && all[b] == front[b]);
            } else {
                assert(all[a] == front[a]);
                let j = choose|j: int| 0 <= j < rest.len() && rest[j] == line_id(front[a]);
                assert(ids[j] != ids[ids.len() - 1]);
            }
        }
    }
}

/// Exactly once: in the listing of a directory whose children are no
/// directories and whose child list repeats no identifier, no identifier is
/// shown twice.
pub proof fn lemma_flat_directory_listed_once(inodes: Map<u64, InodeView>, id: u64, depth: nat)
    requires
        keyed_by_id(inodes),
        holds_directory(inodes, id),
        no_directories(inodes, descent(inodes[id], depth)),
        descent(inodes[id], depth).no_duplicates(),
    ensures
        listed_once(subtree(inodes, id, depth)),
{
    if depth > 0 {
        let children = descent(inodes[id], depth);
        lemma_files_listed_once(inodes, children, (depth - 1) as nat);
        let below = listing(inodes, children, (depth - 1) as nat);
        let lines = seq![line_of(inodes[id])] + below;
        assert forall|a: int, b: int| 0 <= a < b < lines.len() implies line_id(
            #[trigger] lines[a],
        ) != line_id(#[trigger] lines[b]) by {
            assert(lines[b] == below[b - 1]);
            let j = choose|j: int| 0 <= j < children.len() && children[j] == line_id(below[b - 1]);
            assert(!holds_directory(inodes, children[j]));
            if a > 0 {
                assert(lines[a] == below[a - 1]);
            }
        }
    }
}

/// Nothing can be reached from two of `ids`.
pub open spec fn separated(inodes: Map<u64, InodeView>, ids: Seq<u64>, depth: nat) -> bool
    decreases ids.len(),
{
    ids.len() == 0 || (separated(inodes, ids.drop_last(), depth) && forall|target: u64|
        !(reaches_from_any(inodes, ids.drop_last(), depth, target) && #[trigger] reaches(
            inodes,
            ids.last(),
            depth,
            target,
        )))
}

/// What lies below `id` is a tree: `id` does not lie below itself, nothing
/// lies below two of its children, and what lies below each child is a tree
/// again.
pub open spec fn tree_shaped(inodes: Map<u64, InodeView>, id: u64, depth: nat) -> bool
    decreases depth, 0nat,
{
    inodes.contains_key(id) && depth > 0 ==> {
        let children = descent(inodes[id], depth);
        &&& !reaches_from_any(inodes, children, (depth - 1) as nat, id)
        &&& separated(inodes, children, (depth - 1) as nat)
        &&& all_tree_shaped(inodes, children, (depth - 1) as nat)
    }
}

/// What lies below each of `ids` is a tree.
pub open spec fn all_tree_shaped(inodes: Map<u64, InodeView>, ids: Seq<u64>, depth: nat) -> bool
    decreases depth, ids.len(),
{
    ids.len() == 0 || (all_tree_shaped(inodes, ids.drop_last(), depth) && tree_shaped(
        inodes,
        ids.last(),
        depth,
    ))
}

/// Exactly once: where what lies below an inode is a tree, its listing
/// shows no identifier twice.
pub proof fn lemma_tree_listed_once(inodes: Map<u64, InodeView>, id: u64, depth: nat)
    requires
        keyed_by_id(inodes),
        tree_shaped(inodes, id, depth),
    ensures
        listed_once(subtree(inodes, id, depth)),
    decreases depth, 0nat,
{
    if inodes.contains_key(id) && depth > 0 {
        let children = descent(inodes[id], depth);
        lemma_trees_listed_once(inodes, children, (depth - 1) as nat);
        lemma_listed_from_any_is_reachable(inodes, children, (depth - 1) as nat);
        let below = listing(inodes, children, (depth - 1) as nat);
        let lines = seq![line_of(inodes[id])] + below;
        assert forall|a: int, b: int| 0 <= a < b < lines.len() implies line_id(
            #[trigger] lines[a],
        ) != line_id(#[trigger] lines[b]) by {
            assert(lines[b] == below[b - 1]);
            assert(reaches_from_any(inodes, children, (depth - 1) as nat, line_id(below[b - 1])));
            if a > 0 {
                assert(lines[a] == below[a - 1]);
            }
        }
    }
}

/// Where what lies below each of `ids` is a tree and nothing lies below two
/// of them, their listing shows no identifier twice.
pub proof fn lemma_trees_listed_once(inodes: Map<u64, InodeView>, ids: Seq<u64>, depth: nat)
    requires
        keyed_by_id(inodes),
        all_tree_shaped(inodes, ids, depth),
        separated(inodes, ids, depth),
    ensures
        listed_once(listing(inodes, ids, depth)),
    decreases depth, ids.len(),
{
    if ids.len() > 0 {
        lemma_trees_listed_once(inodes, ids.drop_last(), depth);
        lemma_tree_listed_once(inodes, ids.last(), depth);
        lemma_listed_from_any_is_reachable(inodes, ids.drop_last(), depth);
        lemma_listed_is_reachable(inodes, ids.last(), depth);
        let front = listing(inodes, ids.drop_last(), depth);
        let back = subtree(inodes, ids.last(), depth);
        let all = front + back;
        assert forall|a: int, b: int| 0 <= a < b < all.len() implies line_id(#[trigger] all[a])
            != line_id(#[trigger] all[b]) by {
            if b < front.len() {
                assert(all[a] == front[a] && all[b] == front[b]);
            } else if a >= front.len() {
                assert(all[a] == back[a - front.len()] && all[b] == back[b - front.len()]);
            } else {
                assert(all[a] == front[a] && all[b] == back[b - front.len()]);
                assert(reaches_from_any(inodes, ids.drop_last(), depth, line_id(front[a])));
                assert(reaches(inodes, ids.last(), depth, line_id(back[b - front.len()])));
            }
        }
    }
}

/// The identifiers lead from each to the next through a child list, and
/// the table holds all of them.
pub open spec fn chain(inodes: Map<u64, InodeView>, path: Seq<u64>) -> bool {
    &&& forall|i: int| 0 <= i < path.len() ==> inodes.contains_key(#[trigger] path[i])
    &&& forall|i: int|
        0 <= i < path.len() - 1 ==> descent(inodes[path[i]], 1).contains(#[trigger] path[i + 1])
}

/// No directory lies below itself: no chain comes back to an identifier.
pub open spec fn acyclic(inodes: Map<u64, InodeView>) -> bool {
    forall|path: Seq<u64>| #[trigger] chain(inodes, path) ==> path.no_duplicates()
}

/// In a table without a cycle a chain is at most as long as the table is
/// large.
pub proof fn lemma_chain_is_short(inodes: Map<u64, InodeView>, path: Seq<u64>)
    requires
        inodes.dom().finite(),
        acyclic(inodes),
        chain(inodes, path),
    ensures
        path.len() <= inodes.len(),
{
    path.unique_seq_to_set();
    assert forall|id: u64| path.to_set().contains(id) implies inodes.dom().contains(id) by {
        let i = choose|i: int| 0 <= i < path.len() && path[i] == id;
        assert(inodes.contains_key(path[i]));
    }
    vstd::set_lib::lemma_len_subset(path.to_set(), inodes.dom());
}

/// Where a chain that ends in `id` is so long that the levels left cannot
/// all be used, one level more changes nothing in the listing of `id`.
pub proof fn lemma_level_to_spare(inodes: Map<u64, InodeView>, path: Seq<u64>, depth: nat)
    requires
        inodes.dom().finite(),
        acyclic(inodes),
        path.len() > 0,
        chain(inodes, path),
        path.len() + depth > inodes.len(),
    ensures
        subtree(inodes, path.last(), depth) == subtree(inodes, path.last(), depth + 1),
    decreases depth, 0nat,
{
    let id = path.last();
    lemma_chain_is_short(inodes, path);
    assert(depth > 0);
    assert(inodes.contains_key(path[path.len() - 1]));
    let children = descent(inodes[id], depth);
    assert(children == descent(inodes[id], depth + 1));
    assert(children == descent(inodes[id], 1));
    lemma_levels_to_spare(inodes, path, children, children.len() as int, depth);
    assert(children.take(children.len() as int) =~= children);
}

/// The same for the first `count` children of the inode that the chain
/// ends in.
pub proof fn lemma_levels_to_spare(
    inodes: Map<u64, InodeView>,
    path: Seq<u64>,
    children: Seq<u64>,
    count: int,
    depth: nat,
)
    requires
        inodes.dom().finite(),
        acyclic(inodes),
        path.len() > 0,
        chain(inodes, path),
        path.len() + depth > inodes.len(),
        depth > 0,
        children == descent(inodes[path.last()], 1),
        0 <= count <= children.len(),
    ensures
        listing(inodes, children.take(count), (depth - 1) as nat) == listing(
            inodes,
            children.take(count),
            depth,
        ),
    decreases depth, 0nat, count,
{
    if count > 0 {
        let ids = children.take(count);
        let child = children[count - 1];
        assert(ids.drop_last() =~= children.take(count - 1));
        assert(ids.last() == child);
        lemma_levels_to_spare(inodes, path, children, count - 1, depth);
        if inodes.contains_key(child) {
            let longer = path.push(child);
            assert forall|i: int| 0 <= i < longer.len() implies inodes.contains_key(
                #[trigger] longer[i],
            ) by {
                if i < path.len() {
                    assert(longer[i] == path[i]);
                }
            }
            assert forall|i: int| 0 <= i < longer.len() - 1 implies descent(
                inodes[longer[i]],
                1,
            ).contains(#[trigger] longer[i + 1]) by {
                if i < path.len() - 1 {
                    assert(longer[i] == path[i] && longer[i + 1] == path[i + 1]);
                } else {
                    assert(longer[i] == path.last());
                    assert(children[count - 1] == longer[i + 1]);
                }
            }
            assert(longer.last() == child);
            lemma_level_to_spare(inodes, longer, (depth - 1) as nat);
            assert((depth - 1) as nat + 1 == depth);
        }
        assert(subtree(inodes, child, (depth - 1) as nat) == subtree(inodes, child, depth));
        assert(listing(inodes, ids.drop_last(), (depth - 1) as nat) == listing(
            inodes,
            ids.drop_last(),
            depth,
        ));
    } else {
        assert(children.take(count).len() == 0);
    }
}

/// The depth of the walk suffices: in a table without a cycle, the listing
/// of a directory is the same however many levels more the walk may descend.
pub proof fn lemma_depth_suffices(inodes: Map<u64, InodeView>, id: u64, more: nat)
    requires
        inodes.dom().finite(),
        acyclic(inodes),
    ensures
        subtree(inodes, id, inodes.len() + more) == directory_listing(inodes, id),
    decreases more,
{
    if more > 0 {
        lemma_depth_suffices(inodes, id, (more - 1) as nat);
        if inodes.contains_key(id) {
            let path = seq![id];
            assert(path.last() == id);
            lemma_level_to_spare(inodes, path, (inodes.len() + more - 1) as nat);
        }
    }
}

} // verus!
