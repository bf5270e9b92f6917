//! The slot pool of an account: free list and search trees of the `hypertree`
//! crate, laid out in one buffer.
//!
//! The buffer is a vector of 64-bit words, so that every slot starts at an
//! address that the nodes' layout accepts. `hypertree` links nodes by their
//! byte offset in the buffer; the offsets are the slot indices that the rest
//! of the library uses. A tree node holds, beside its links, the key by which
//! the tree orders it: a number for offers and loans, an address for seats.
//! The records themselves are kept by the accounts, slot by slot.
//!
//! What the buffer holds is named by three functions without a body, one per
//! structure. The operations at the end of this file are the calls into
//! `hypertree`; their contracts say what each does to the named contents and
//! are not proved here. The lemmas on places in a tree's entries are proved.

use crate::constants::{DataIndex, Pubkey, NIL};
use hypertree::{
    FreeList, FreeListNode, HyperTreeReadOperations, HyperTreeWriteOperations, RedBlackTree,
    RedBlackTreeReadOnly,
};
use vstd::prelude::*;

verus! {

/// Bytes from the start of a slot that a node of any kind may occupy.
pub const NODE_SPAN: u32 = 72u32;

/// The offers, or loans, of the tree whose root node is at `root`: slot index
/// and key of each node, in the tree's order, smallest first. It is empty
/// where `root` is not the root of a well-formed tree whose nodes lie inside
/// the buffer.
pub uninterp spec fn tree_entries(data: Seq<u64>, root: u32) -> Seq<(u32, u64)>;

/// The seats of the tree whose root node is at `root`: the trader's address
/// by slot index. It is empty where `root` is not the root of a well-formed
/// tree whose nodes lie inside the buffer.
pub uninterp spec fn seat_entries(data: Seq<u64>, root: u32) -> Map<u32, Seq<u8>>;

/// The slots of the free list whose first node is at `head`, first to last.
/// It is empty where `head` is not the head of a list that ends and whose
/// nodes lie inside the buffer.
pub uninterp spec fn free_entries(data: Seq<u64>, head: u32) -> Seq<u32>;

/// The tree at `root`, where `NIL` is the empty tree.
pub open spec fn tree_of(data: Seq<u64>, root: u32) -> Seq<(u32, u64)> {
    if root == NIL {
        Seq::empty()
    } else {
        tree_entries(data, root)
    }
}

/// The seats at `root`, where `NIL` is the empty tree.
pub open spec fn seats_of(data: Seq<u64>, root: u32) -> Map<u32, Seq<u8>> {
    if root == NIL {
        Map::empty()
    } else {
        seat_entries(data, root)
    }
}

/// The free list at `head`, where `NIL` is the empty list.
pub open spec fn free_of(data: Seq<u64>, head: u32) -> Seq<u32> {
    if head == NIL {
        Seq::empty()
    } else {
        free_entries(data, head)
    }
}

/// Whether a node can stand at `index` in a buffer of `len` words.
pub open spec fn node_fits(len: nat, index: u32) -> bool {
    index % 8 == 0 && index + NODE_SPAN <= 8 * len
}

/// Whether nodes at `i` and `j` share no byte.
pub open spec fn apart(i: u32, j: u32) -> bool {
    i + NODE_SPAN <= j || j + NODE_SPAN <= i
}

/// The slot indices of a tree's entries.
pub open spec fn indices(entries: Seq<(u32, u64)>) -> Seq<u32> {
    Seq::new(entries.len(), |i: int| entries[i].0)
}

/// Whether every slot of `slots` is apart from every slot of `touched`.
pub open spec fn seq_clear_of(slots: Seq<u32>, touched: Set<u32>) -> bool {
    forall|k: int, t: u32|
        #![trigger slots[k], touched.contains(t)]
        0 <= k < slots.len() && touched.contains(t) ==> apart(slots[k], t)
}

/// Whether every slot of `slots` is apart from every slot of `touched`.
pub open spec fn set_clear_of(slots: Set<u32>, touched: Set<u32>) -> bool {
    forall|s: u32, t: u32|
        #![trigger slots.contains(s), touched.contains(t)]
        slots.contains(s) && touched.contains(t) ==> apart(s, t)
}

/// What an operation that writes only to the nodes at `touched` leaves as it
/// was: every tree and list that has a node and has none of its nodes sharing
/// a byte with a touched one.
pub open spec fn kept(before: Seq<u64>, after: Seq<u64>, touched: Set<u32>) -> bool {
    &&& forall|r: u32| #![trigger tree_entries(after, r)]
        tree_entries(before, r).len() > 0 && seq_clear_of(indices(tree_entries(before, r)), touched)
            ==> tree_entries(after, r) == tree_entries(before, r)
    &&& forall|r: u32| #![trigger seat_entries(after, r)]
        seat_entries(before, r).dom().len() > 0 && seat_entries(before, r).dom().finite()
            && set_clear_of(seat_entries(before, r).dom(), touched) ==> seat_entries(after, r)
            == seat_entries(before, r)
    &&& forall|h: u32| #![trigger free_entries(after, h)]
        free_entries(before, h).len() > 0 && seq_clear_of(free_entries(before, h), touched)
            ==> free_entries(after, h) == free_entries(before, h)
}

/// Whether `root` is `NIL` exactly when its tree has no entry.
pub open spec fn tree_rooted(data: Seq<u64>, root: u32) -> bool {
    (root == NIL) == (tree_of(data, root).len() == 0)
}

/// Whether `max` is either not kept (`NIL` beside a tree with entries) or the
/// slot of the tree's last entry.
pub open spec fn max_kept(entries: Seq<(u32, u64)>, max: u32) -> bool {
    entries.len() > 0 ==> max == NIL || max == entries.last().0
}

/// The slot of the last entry, or `NIL` where there is none.
pub open spec fn last_slot(entries: Seq<(u32, u64)>) -> u32 {
    if entries.len() == 0 {
        NIL
    } else {
        entries.last().0
    }
}

/// The number of entries at the front of `entries` whose key is below `key`:
/// the place at which a tree inserts `key`, before the entries of the same
/// key.
pub open spec fn rank(entries: Seq<(u32, u64)>, key: u64) -> int
    decreases entries.len(),
{
    if entries.len() == 0 || entries[0].1 >= key {
        0
    } else {
        1 + rank(entries.drop_first(), key)
    }
}

/// The place of the first entry at slot `index`, or the length where there is
/// none.
pub open spec fn place(entries: Seq<(u32, u64)>, index: u32) -> int
    decreases entries.len(),
{
    if entries.len() == 0 || entries[0].0 == index {
        0
    } else {
        1 + place(entries.drop_first(), index)
    }
}

/// The place at which a tree inserts a key lies within the entries or just
/// behind them.
pub proof fn lemma_rank_bounds(entries: Seq<(u32, u64)>, key: u64)
    ensures
        0 <= rank(entries, key) <= entries.len(),
    decreases entries.len(),
{
    if entries.len() > 0 && entries[0].1 < key {
        lemma_rank_bounds(entries.drop_first(), key);
    }
}

/// Whether the keys of the entries never fall from one entry to the next.
pub open spec fn sorted(entries: Seq<(u32, u64)>) -> bool {
    forall|k: int, l: int| 0 <= k <= l < entries.len() ==> entries[k].1 <= entries[l].1
}

/// In sorted entries the place at which a key is inserted parts the entries
/// of smaller key from the others.
pub proof fn lemma_rank_parts(entries: Seq<(u32, u64)>, key: u64)
    requires
        sorted(entries),
    ensures
        forall|k: int| 0 <= k < rank(entries, key) ==> (#[trigger] entries[k]).1 < key,
        forall|k: int| rank(entries, key) <= k < entries.len() ==> (#[trigger] entries[k]).1 >= key,
    decreases entries.len(),
{
    lemma_rank_bounds(entries, key);
    if entries.len() > 0 {
        if entries[0].1 >= key {
            assert forall|k: int| 0 <= k < entries.len() implies (#[trigger] entries[k]).1
                >= key by {
                assert(entries[0].1 <= entries[k].1);
            }
        } else {
            let rest = entries.drop_first();
            assert forall|k: int, l: int| 0 <= k <= l < rest.len() implies rest[k].1
                <= rest[l].1 by {
                assert(rest[k] == entries[k + 1] && rest[l] == entries[l + 1]);
            }
            lemma_rank_parts(rest, key);
            lemma_rank_bounds(rest, key);
            assert forall|k: int| 0 <= k < rank(entries, key) implies (#[trigger] entries[k]).1
                < key by {
                if k > 0 {
                    assert(entries[k] == rest[k - 1]);
                }
            }
            assert forall|k: int| rank(entries, key) <= k < entries.len() implies (
            #[trigger] entries[k]).1 >= key by {
                assert(entries[k] == rest[k - 1]);
            }
        }
    }
}

/// Sorted entries stay sorted when a key is inserted at its place.
pub proof fn lemma_insert_keeps_sorted(entries: Seq<(u32, u64)>, index: u32, key: u64)
    requires
        sorted(entries),
    ensures
        sorted(entries.insert(rank(entries, key), (index, key))),
{
    let p = rank(entries, key);
    let after = entries.insert(p, (index, key));
    lemma_rank_bounds(entries, key);
    lemma_rank_parts(entries, key);
    assert forall|k: int, l: int| 0 <= k <= l < after.len() implies after[k].1 <= after[l].1 by {
        let ek = if k < p {
            k
        } else {
            k - 1
        };
        let el = if l < p {
            l
        } else {
            l - 1
        };
        if k != p {
            assert(after[k] == entries[ek]);
        }
        if l != p {
            assert(after[l] == entries[el]);
        }
    }
}

/// Sorted entries stay sorted when one is removed.
pub proof fn lemma_remove_keeps_sorted(entries: Seq<(u32, u64)>, p: int)
    requires
        sorted(entries),
        0 <= p < entries.len(),
    ensures
        sorted(entries.remove(p)),
{
    let after = entries.remove(p);
    assert forall|k: int, l: int| 0 <= k <= l < after.len() implies after[k].1 <= after[l].1 by {
        let ek = if k < p {
            k
        } else {
            k + 1
        };
        let el = if l < p {
            l
        } else {
            l + 1
        };
        assert(after[k] == entries[ek]);
        assert(after[l] == entries[el]);
    }
}

/// The place of a slot is that of its first entry: no entry before it is at
/// the slot, and an entry at the slot exists exactly when the place lies
/// within the entries.
pub proof fn lemma_place(entries: Seq<(u32, u64)>, index: u32)
    ensures
        0 <= place(entries, index) <= entries.len(),
        place(entries, index) < entries.len() ==> entries[place(entries, index)].0 == index,
        forall|k: int| 0 <= k < place(entries, index) ==> (#[trigger] entries[k]).0 != index,
        indices(entries).contains(index) == (place(entries, index) < entries.len()),
    decreases entries.len(),
{
    if entries.len() > 0 && entries[0].0 != index {
        let rest = entries.drop_first();
        lemma_place(rest, index);
        assert forall|k: int| 0 <= k < place(entries, index) implies (#[trigger] entries[k]).0
            != index by {
            if k > 0 {
                assert(entries[k] == rest[k - 1]);
            }
        }
        if indices(entries).contains(index) {
            let k = choose|k: int| 0 <= k < indices(entries).len() && indices(entries)[k] == index;
            assert(entries[k].0 == index);
            assert(k > 0);
            assert(rest[k - 1] == entries[k]);
            assert(indices(rest)[k - 1] == index);
            assert(indices(rest).contains(index));
        }
        if place(entries, index) < entries.len() {
            let p = place(rest, index);
            assert(rest[p] == entries[p + 1]);
            assert(indices(entries)[p + 1] == index);
        }
    } else if entries.len() > 0 {
        assert(indices(entries)[0] == index);
    } else {
        assert(indices(entries).len() == 0);
    }
}

/// `FreeList::add` of `hypertree`: the node at `index` is cleared and becomes
/// the head of the list that started at `head`. Nothing but that node is
/// written.
#[verifier::external_body]
pub(crate) fn free_add(data: &mut Vec<u64>, head: DataIndex, index: DataIndex) -> (new_head:
    DataIndex)
    requires
        node_fits(old(data)@.len(), index),
        (head == NIL) == (free_of(old(data)@, head).len() == 0),
        seq_clear_of(free_of(old(data)@, head), set![index]),
    ensures
        new_head == index,
        free_entries(final(data)@, new_head) == seq![index] + free_of(old(data)@, head),
        kept(old(data)@, final(data)@, set![index]),
        final(data)@.len() == old(data)@.len(),
{
    let bytes: &mut [u8] = bytemuck::cast_slice_mut(data.as_mut_slice());
    let mut list: FreeList<[u8; 64]> = FreeList::new(bytes, head);
    list.add(index);
    list.get_head()
}

/// Grows the buffer to `new_len` words, the new ones zero, and then
/// `FreeList::add`s the slot at `index`, where the buffer ended before: it
/// becomes the head of the list that started at `head`. What the buffer held
/// is not written.
#[verifier::external_body]
pub(crate) fn free_add_grown(
    data: &mut Vec<u64>,
    head: DataIndex,
    index: DataIndex,
    new_len: usize,
) -> (new_head: DataIndex)
    requires
        index == 8 * old(data)@.len(),
        node_fits(new_len as nat, index),
        (head == NIL) == (free_of(old(data)@, head).len() == 0),
        seq_clear_of(free_of(old(data)@, head), set![index]),
    ensures
        new_head == index,
        free_entries(final(data)@, new_head) == seq![index] + free_of(old(data)@, head),
        kept(old(data)@, final(data)@, set![index]),
        final(data)@.len() == new_len,
{
    data.resize(new_len, 0);
    let bytes: &mut [u8] = bytemuck::cast_slice_mut(data.as_mut_slice());
    let mut list: FreeList<[u8; 64]> = FreeList::new(bytes, head);
    list.add(index);
    list.get_head()
}

/// `FreeList::remove` of `hypertree`: the head of the list leaves it and is
/// returned with the new head, which is the slot that followed it; of an
/// empty list both are `NIL`. Nothing but the node that left is written.
#[verifier::external_body]
pub(crate) fn free_remove(data: &mut Vec<u64>, head: DataIndex) -> (r: (DataIndex, DataIndex))
    requires
        (head == NIL) == (free_of(old(data)@, head).len() == 0),
    ensures
        r.0 == head,
        head == NIL ==> r.1 == NIL && final(data)@ == old(data)@,
        head != NIL ==> free_of(old(data)@, head)[0] == head && free_of(final(data)@, r.1)
            == free_of(old(data)@, head).drop_first() && (r.1 == NIL) == (free_of(
            old(data)@,
            head,
        ).len() == 1) && kept(old(data)@, final(data)@, set![head]),
        free_of(old(data)@, head).len() > 1 ==> r.1 == free_of(old(data)@, head)[1],
        final(data)@.len() == old(data)@.len(),
{
    let bytes: &mut [u8] = bytemuck::cast_slice_mut(data.as_mut_slice());
    let mut list: FreeList<[u8; 64]> = FreeList::new(bytes, head);
    let index = list.remove();
    (index, list.get_head())
}

/// `FreeListNode::has_next` of `hypertree`, on the head of a list: whether a
/// second slot follows.
#[verifier::external_body]
pub(crate) fn free_has_next(data: &Vec<u64>, head: DataIndex) -> (r: bool)
    requires
        head != NIL,
        free_of(data@, head).len() > 0,
    ensures
        r == (free_entries(data@, head).len() >= 2),
{
    let bytes: &[u8] = bytemuck::cast_slice(data.as_slice());
    hypertree::get_helper::<FreeListNode<[u8; 64]>>(bytes, head).has_next()
}

/// `RedBlackTree::insert` of `hypertree` with a number as key: a node with
/// `key` is written at `index` and linked into the tree at `root`, after the
/// entries of smaller key and before all others. Returns the tree's root and
/// its kept maximum after the insertion. Only nodes of the tree and the new
/// node are written.
#[verifier::external_body]
pub(crate) fn tree_insert(
    data: &mut Vec<u64>,
    root: DataIndex,
    max: DataIndex,
    index: DataIndex,
    key: u64,
) -> (r: (DataIndex, DataIndex))
    requires
        node_fits(old(data)@.len(), index),
        tree_rooted(old(data)@, root),
        max_kept(tree_of(old(data)@, root), max),
        seq_clear_of(indices(tree_of(old(data)@, root)), set![index]),
    ensures
        r.0 != NIL,
        tree_entries(final(data)@, r.0) == tree_of(old(data)@, root).insert(
            rank(tree_of(old(data)@, root), key),
            (index, key),
        ),
        r.1 == if root != NIL && max == NIL {
            NIL
        } else {
            last_slot(tree_of(final(data)@, r.0))
        },
        kept(
            old(data)@,
            final(data)@,
            indices(tree_of(old(data)@, root)).to_set().insert(index),
        ),
        final(data)@.len() == old(data)@.len(),
{
    let bytes: &mut [u8] = bytemuck::cast_slice_mut(data.as_mut_slice());
    let mut tree: RedBlackTree<u64> = RedBlackTree::new(bytes, root, max);
    tree.insert(index, key);
    (tree.get_root_index(), tree.get_max_index())
}

/// `RedBlackTree::remove_by_index` of `hypertree` with a number as key: the
/// node at `index` leaves the tree at `root`; the other entries keep their
/// slots and their order. Returns the tree's root and its kept maximum after
/// the removal. Only nodes of the tree are written.
#[verifier::external_body]
pub(crate) fn tree_remove(data: &mut Vec<u64>, root: DataIndex, max: DataIndex, index: DataIndex)
    -> (r: (DataIndex, DataIndex))
    requires
        root != NIL,
        index != NIL,
        max_kept(tree_of(old(data)@, root), max),
        0 <= place(tree_of(old(data)@, root), index) < tree_of(old(data)@, root).len(),
    ensures
        tree_of(final(data)@, r.0) == tree_of(old(data)@, root).remove(
            place(tree_of(old(data)@, root), index),
        ),
        tree_rooted(final(data)@, r.0),
        r.1 == if max == NIL {
            NIL
        } else {
            last_slot(tree_of(final(data)@, r.0))
        },
        kept(old(data)@, final(data)@, indices(tree_of(old(data)@, root)).to_set()),
        final(data)@.len() == old(data)@.len(),
{
    let bytes: &mut [u8] = bytemuck::cast_slice_mut(data.as_mut_slice());
    let mut tree: RedBlackTree<u64> = RedBlackTree::new(bytes, root, max);
    tree.remove_by_index(index);
    (tree.get_root_index(), tree.get_max_index())
}

/// `get_next_lower_index` of `hypertree` with a number as key: the slot of
/// the entry just before the one at `index` in the tree's order, or `NIL` for
/// the first.
#[verifier::external_body]
pub(crate) fn tree_next_lower(data: &Vec<u64>, root: DataIndex, index: DataIndex) -> (r:
    DataIndex)
    requires
        root != NIL,
        index != NIL,
        0 <= place(tree_of(data@, root), index) < tree_of(data@, root).len(),
    ensures
        r == if place(tree_of(data@, root), index) == 0 {
            NIL
        } else {
            tree_of(data@, root)[place(tree_of(data@, root), index) - 1].0
        },
{
    let bytes: &[u8] = bytemuck::cast_slice(data.as_slice());
    let tree: RedBlackTreeReadOnly<u64> = RedBlackTreeReadOnly::new(bytes, root, NIL);
    tree.get_next_lower_index::<u64>(index)
}

/// `lookup_index` of `hypertree` with a number as key: the slot of an entry
/// with `key`, or `NIL` where the tree has none.
#[verifier::external_body]
pub(crate) fn tree_lookup(data: &Vec<u64>, root: DataIndex, key: u64) -> (r: DataIndex)
    requires
        tree_rooted(data@, root),
    ensures
        r == NIL ==> forall|i: int|
            0 <= i < tree_of(data@, root).len() ==> (#[trigger] tree_of(data@, root)[i]).1 != key,
        r != NIL ==> exists|i: int|
            0 <= i < tree_of(data@, root).len() && #[trigger] tree_of(data@, root)[i] == (r, key),
{
    let bytes: &[u8] = bytemuck::cast_slice(data.as_slice());
    let tree: RedBlackTreeReadOnly<u64> = RedBlackTreeReadOnly::new(bytes, root, NIL);
    tree.lookup_index::<u64>(&key)
}

/// `RedBlackTree::insert` of `hypertree` with an address as key: a node with
/// `key` is written at `index` and linked into the tree of seats at `root`.
/// Returns the tree's root after the insertion. Only nodes of the tree and
/// the new node are written.
#[verifier::external_body]
pub(crate) fn seat_insert(data: &mut Vec<u64>, root: DataIndex, index: DataIndex, key: &Pubkey)
    -> (new_root: DataIndex)
    requires
        node_fits(old(data)@.len(), index),
        (root == NIL) == (seats_of(old(data)@, root).dom().len() == 0),
        seats_of(old(data)@, root).dom().finite(),
        set_clear_of(seats_of(old(data)@, root).dom(), set![index]),
    ensures
        new_root != NIL,
        seat_entries(final(data)@, new_root) == seats_of(old(data)@, root).insert(index, key@),
        kept(old(data)@, final(data)@, seats_of(old(data)@, root).dom().insert(index)),
        final(data)@.len() == old(data)@.len(),
{
    let bytes: &mut [u8] = bytemuck::cast_slice_mut(data.as_mut_slice());
    let mut tree: RedBlackTree<solana_program::pubkey::Pubkey> = RedBlackTree::new(
        bytes,
        root,
        NIL,
    );
    tree.insert(index, solana_program::pubkey::Pubkey::new_from_array(*key));
    tree.get_root_index()
}

/// `lookup_index` of `hypertree` with an address as key: the slot of a seat
/// with `key`, or `NIL` where the tree has none.
#[verifier::external_body]
pub(crate) fn seat_lookup(data: &Vec<u64>, root: DataIndex, key: &Pubkey) -> (r: DataIndex)
    requires
        (root == NIL) == (seats_of(data@, root).dom().len() == 0),
        seats_of(data@, root).dom().finite(),
    ensures
        r == NIL ==> forall|i: u32|
            seats_of(data@, root).dom().contains(i) ==> (#[trigger] seats_of(data@, root)[i])
                != key@,
        r != NIL ==> seats_of(data@, root).dom().contains(r) && seats_of(data@, root)[r] == key@,
{
    let bytes: &[u8] = bytemuck::cast_slice(data.as_slice());
    let tree: RedBlackTreeReadOnly<solana_program::pubkey::Pubkey> = RedBlackTreeReadOnly::new(
        bytes,
        root,
        NIL,
    );
    tree.lookup_index::<solana_program::pubkey::Pubkey>(
        &solana_program::pubkey::Pubkey::new_from_array(*key),
    )
}

} // verus!
