//! A market: the header, the seats of its traders, and four books of resting
//! orders, two for each tree pair.

use crate::claimed_seat::ClaimedSeat;
use crate::constants::{DataIndex, Pubkey, NIL};
use crate::dynamic_account::DynamicAccount;
use crate::quantities::WrappedI80F48;
use crate::resting_order::RestingOrder;
use crate::error::{EngineError, NixError};
use crate::market_helpers::{
    get_free_address_on_market_fixed, lemma_book_kept, lemma_book_still, lemma_free_kept,
    lemma_free_still, lemma_seats_kept, lemma_seats_still, lemma_slot_fits, lemma_slot_update,
    release_address_on_market_fixed,
};
use crate::quantities::fits;
use crate::slot_pool::{
    apart, free_add_grown, free_has_next, free_of, indices, last_slot, lemma_insert_keeps_sorted,
    lemma_place, lemma_rank_bounds, lemma_remove_keeps_sorted, place, rank, seat_insert,
    seat_lookup, seats_of, sorted, tree_insert, tree_of, tree_remove,
};
use vstd::prelude::*;
use vstd::string::StringSliceAdditionalSpecFns;

verus! {

/// What a slot of a market's pool holds.
#[derive(Debug, Copy, Clone, PartialEq, Eq, Structural)]
pub enum MarketDataTreeNodeType {
    /// Nothing: the slot is free.
    Empty,
    /// A trader's seat.
    ClaimedSeat,
    /// An order resting on a book.
    RestingOrder,
}

impl Default for MarketDataTreeNodeType {
    fn default() -> (t: Self)
        ensures
            t == MarketDataTreeNodeType::ClaimedSeat,
    {
        MarketDataTreeNodeType::ClaimedSeat
    }
}

impl MarketDataTreeNodeType {
    /// The tag byte of this kind of slot.
    pub fn to_u8(self) -> (b: u8)
        ensures
            b == match self {
                MarketDataTreeNodeType::Empty => 0u8,
                MarketDataTreeNodeType::ClaimedSeat => 1u8,
                MarketDataTreeNodeType::RestingOrder => 2u8,
            },
    {
        match self {
            MarketDataTreeNodeType::Empty => 0u8,
            MarketDataTreeNodeType::ClaimedSeat => 1u8,
            MarketDataTreeNodeType::RestingOrder => 2u8,
        }
    }

    /// The kind of slot that a tag byte stands for; `None` for a byte that
    /// is no tag.
    pub fn try_from_u8(b: u8) -> (t: Option<MarketDataTreeNodeType>)
        ensures
            t == match b {
                0u8 => Some(MarketDataTreeNodeType::Empty),
                1u8 => Some(MarketDataTreeNodeType::ClaimedSeat),
                2u8 => Some(MarketDataTreeNodeType::RestingOrder),
                _ => None::<MarketDataTreeNodeType>,
            },
    {
        match b {
            0u8 => Some(MarketDataTreeNodeType::Empty),
            1u8 => Some(MarketDataTreeNodeType::ClaimedSeat),
            2u8 => Some(MarketDataTreeNodeType::RestingOrder),
            _ => None,
        }
    }
}

/// The unused bytes of a free slot, behind the link to the next free slot.
#[derive(Debug, Copy, Clone)]
pub struct MarketUnusedFreeListPadding {
    pub _padding: [u64; 12],
    pub _padding2: [u8; 12],
}

/// The record in one slot of a market's pool.
#[derive(Debug, Copy, Clone)]
pub enum MarketSlot {
    Empty,
    Seat(ClaimedSeat),
    Order(RestingOrder),
}

impl MarketSlot {
    /// The kind of record in the slot.
    pub open spec fn spec_payload_type(self) -> MarketDataTreeNodeType {
        match self {
            MarketSlot::Empty => MarketDataTreeNodeType::Empty,
            MarketSlot::Seat(_) => MarketDataTreeNodeType::ClaimedSeat,
            MarketSlot::Order(_) => MarketDataTreeNodeType::RestingOrder,
        }
    }

    /// The kind of record in the slot.
    pub fn get_payload_type(&self) -> (t: MarketDataTreeNodeType)
        ensures
            t == self.spec_payload_type(),
    {
        match self {
            MarketSlot::Empty => MarketDataTreeNodeType::Empty,
            MarketSlot::Seat(_) => MarketDataTreeNodeType::ClaimedSeat,
            MarketSlot::Order(_) => MarketDataTreeNodeType::RestingOrder,
        }
    }
}

/// Fees of a market and who receives them.
#[derive(Debug, Copy, Clone)]
pub struct FeeState {
    pub protocol_fee_rate_bps: u64,
    pub ltv_buffer_bps: u64,
    pub base_a_fee_receiver: Pubkey,
    pub base_b_fee_receiver: Pubkey,
    pub admin: Pubkey,
}

/// The header of a market.
#[derive(Debug, Copy, Clone)]
pub struct MarketFixed {
    /// Identifies the kind of account.
    pub discriminant: u64,
    pub version: u8,
    pub base_a_mint_decimals: u8,
    pub base_b_mint_decimals: u8,
    pub market_state: u8,
    pub base_a_mint: Pubkey,
    pub base_b_mint: Pubkey,
    pub base_a_vault: Pubkey,
    pub base_b_vault: Pubkey,
    /// The sequence number given to the last order of tree pair A.
    pub base_a_order_sequence_number: u64,
    /// The sequence number given to the last order of tree pair B.
    pub base_b_order_sequence_number: u64,
    /// Bytes of the slot pool: the slot size times the slots ever added.
    pub num_bytes_allocated: u32,
    pub base_a_bids_root_index: DataIndex,
    pub base_a_bids_best_index: DataIndex,
    pub base_b_bids_root_index: DataIndex,
    pub base_b_bids_best_index: DataIndex,
    pub base_a_asks_root_index: DataIndex,
    pub base_a_asks_best_index: DataIndex,
    pub base_b_asks_root_index: DataIndex,
    pub base_b_asks_best_index: DataIndex,
    pub claimed_seats_root_index: DataIndex,
    /// Head of the list of free slots.
    pub free_list_head_index: DataIndex,
    pub base_a_marginfi_group: Pubkey,
    pub base_a_marginfi_bank: Pubkey,
    pub base_a_marginfi_account: Pubkey,
    pub base_b_marginfi_group: Pubkey,
    pub base_b_marginfi_bank: Pubkey,
    pub base_b_marginfi_account: Pubkey,
    pub fee_state: FeeState,
    /// Base atoms matched over the market's life on tree pair A; wraps around.
    pub base_a_match_volume: WrappedI80F48,
    /// Base atoms matched over the market's life on tree pair B; wraps around.
    pub base_b_match_volume: WrappedI80F48,
    pub base_a_marginfi_account_asset_shares: WrappedI80F48,
    pub base_a_marginfi_account_liability_shares: WrappedI80F48,
    pub base_b_marginfi_account_shares: WrappedI80F48,
    pub base_b_marginfi_account_liability_shares: WrappedI80F48,
}

/// The slot pool of a market: the links of its trees and free list, and the
/// record of each slot.
pub struct MarketDynamic {
    /// The buffer in which the trees and the free list are linked.
    pub links: Vec<u64>,
    /// The record of each slot, by slot number.
    pub slots: Vec<MarketSlot>,
}

/// A market that owns its data.
pub type MarketValue = DynamicAccount<MarketFixed, MarketDynamic>;

/// Bytes of one slot of a market's pool.
pub const BLOCK: u32 = 112u32;

/// 64-bit words of one slot of a market's pool.
pub const BLOCK_WORDS: usize = 14usize;

/// Whether `index` is the index of one of `n` slots.
pub open spec fn slot_ok(index: u32, n: nat) -> bool {
    index % BLOCK == 0 && index / BLOCK < n
}

/// The record of the slot at `index`.
pub open spec fn slot_at(slots: Seq<MarketSlot>, index: u32) -> MarketSlot {
    slots[index as int / BLOCK as int]
}

/// Whether a slot holds an order of the given tree pair and side.
pub open spec fn is_order_of(slot: MarketSlot, use_a_tree: bool, is_bid: bool) -> bool {
    match slot {
        MarketSlot::Order(o) => o.is_a_tree == use_a_tree && o.is_bid == is_bid,
        _ => false,
    }
}

/// The order in a slot; a default order where the slot holds none.
pub open spec fn order_in(slot: MarketSlot) -> RestingOrder {
    match slot {
        MarketSlot::Order(o) => o,
        _ => arbitrary(),
    }
}

/// The seat in a slot; an arbitrary seat where the slot holds none.
pub open spec fn seat_in(slot: MarketSlot) -> ClaimedSeat {
    match slot {
        MarketSlot::Seat(s) => s,
        _ => arbitrary(),
    }
}

/// The root of the book of the given tree pair and side.
pub open spec fn root_of(fixed: MarketFixed, use_a_tree: bool, is_bid: bool) -> DataIndex {
    if use_a_tree {
        if is_bid {
            fixed.base_a_bids_root_index
        } else {
            fixed.base_a_asks_root_index
        }
    } else {
        if is_bid {
            fixed.base_b_bids_root_index
        } else {
            fixed.base_b_asks_root_index
        }
    }
}

/// The cached best index of the book of the given tree pair and side.
pub open spec fn best_of(fixed: MarketFixed, use_a_tree: bool, is_bid: bool) -> DataIndex {
    if use_a_tree {
        if is_bid {
            fixed.base_a_bids_best_index
        } else {
            fixed.base_a_asks_best_index
        }
    } else {
        if is_bid {
            fixed.base_b_bids_best_index
        } else {
            fixed.base_b_asks_best_index
        }
    }
}

/// The book of the given tree pair and side: slot index and priority of each
/// order, the best order last.
pub open spec fn book(fixed: MarketFixed, dynamic: MarketDynamic, use_a_tree: bool, is_bid: bool)
    -> Seq<(u32, u64)> {
    tree_of(dynamic.links@, root_of(fixed, use_a_tree, is_bid))
}

/// Whether an index is `NIL` or that of a slot of a pool of `n` slots.
pub open spec fn spec_index_in_pool(index: u32, n: nat) -> bool {
    index == NIL || slot_ok(index, n)
}

/// Whether an index is `NIL` or that of a slot of a pool of `n` slots.
pub fn index_in_pool(index: DataIndex, n: usize) -> (r: bool)
    ensures
        r == spec_index_in_pool(index, n as nat),
{
    index == NIL || (index % BLOCK == 0 && ((index / BLOCK) as usize) < n)
}

/// What can be tested of a market without walking its trees: the pool has
/// links and a record for each slot allocated, and the head of the free list
/// and the best index of each book are `NIL` or a slot of the pool.
pub open spec fn spec_shape_ok(fixed: MarketFixed, dynamic: MarketDynamic) -> bool {
    let n = dynamic.slots@.len();
    &&& pool_shape(fixed, dynamic)
    &&& spec_index_in_pool(fixed.free_list_head_index, n)
    &&& spec_index_in_pool(fixed.base_a_bids_best_index, n)
    &&& spec_index_in_pool(fixed.base_a_asks_best_index, n)
    &&& spec_index_in_pool(fixed.base_b_bids_best_index, n)
    &&& spec_index_in_pool(fixed.base_b_asks_best_index, n)
}

/// The free slots of the pool, the next to be handed out first.
pub open spec fn free_list(fixed: MarketFixed, dynamic: MarketDynamic) -> Seq<u32> {
    free_of(dynamic.links@, fixed.free_list_head_index)
}

/// The seats of the market: the trader's address by slot index.
pub open spec fn seats(fixed: MarketFixed, dynamic: MarketDynamic) -> Map<u32, Seq<u8>> {
    seats_of(dynamic.links@, fixed.claimed_seats_root_index)
}

/// The pool has one record and one slot of links for each slot ever added.
pub open spec fn pool_shape(fixed: MarketFixed, dynamic: MarketDynamic) -> bool {
    &&& dynamic.links@.len() == BLOCK_WORDS * dynamic.slots@.len()
    &&& fixed.num_bytes_allocated == BLOCK * dynamic.slots@.len()
}

/// The free list holds, once each, the slots that are empty and not in
/// `detached`; its head is its first slot, and `NIL` exactly when it is
/// empty.
pub open spec fn free_inv(fixed: MarketFixed, dynamic: MarketDynamic, detached: Set<u32>) -> bool {
    let f = free_list(fixed, dynamic);
    let slots = dynamic.slots@;
    &&& (fixed.free_list_head_index == NIL) == (f.len() == 0)
    &&& f.len() > 0 ==> f[0] == fixed.free_list_head_index
    &&& forall|k: int|
        0 <= k < f.len() ==> slot_ok(#[trigger] f[k], slots.len()) && !detached.contains(f[k])
            && slot_at(slots, f[k]) is Empty
    &&& forall|k: int, l: int| 0 <= k < l < f.len() ==> f[k] != f[l]
    &&& forall|i: u32|
        slot_ok(i, slots.len()) && !detached.contains(i) && (#[trigger] slot_at(slots, i)) is Empty
            ==> f.contains(i)
}

/// A book holds, once each, the slots with an order of its tree pair and side
/// that are not in `detached`, each under the order's priority and by rising
/// priority; its root is `NIL` exactly when it is empty, and its best index
/// is the slot of its last entry.
pub open spec fn book_inv(
    fixed: MarketFixed,
    dynamic: MarketDynamic,
    detached: Set<u32>,
    use_a_tree: bool,
    is_bid: bool,
) -> bool {
    let e = book(fixed, dynamic, use_a_tree, is_bid);
    let slots = dynamic.slots@;
    &&& (root_of(fixed, use_a_tree, is_bid) == NIL) == (e.len() == 0)
    &&& best_of(fixed, use_a_tree, is_bid) == last_slot(e)
    &&& forall|k: int|
        0 <= k < e.len() ==> slot_ok((#[trigger] e[k]).0, slots.len()) && !detached.contains(e[k].0)
            && is_order_of(slot_at(slots, e[k].0), use_a_tree, is_bid) && e[k].1 == order_in(
            slot_at(slots, e[k].0),
        ).spec_priority()
    &&& forall|k: int, l: int| 0 <= k < l < e.len() ==> e[k].0 != e[l].0
    &&& forall|i: u32|
        slot_ok(i, slots.len()) && !detached.contains(i) && is_order_of(
            #[trigger] slot_at(slots, i),
            use_a_tree,
            is_bid,
        ) ==> indices(e).contains(i)
    &&& sorted(e)
}

/// The tree of seats holds the slots with a seat that are not in `detached`,
/// each under its trader's address, and no two seats have the same trader.
pub open spec fn seats_inv(fixed: MarketFixed, dynamic: MarketDynamic, detached: Set<u32>)
    -> bool {
    let s = seats(fixed, dynamic);
    let slots = dynamic.slots@;
    &&& s.dom().finite()
    &&& (fixed.claimed_seats_root_index == NIL) == (s.dom().len() == 0)
    &&& forall|i: u32|
        s.dom().contains(i) ==> slot_ok(i, slots.len()) && !detached.contains(i) && (
        #[trigger] slot_at(slots, i)) is Seat && seat_in(slot_at(slots, i)).trader@ == s[i]
    &&& forall|i: u32|
        slot_ok(i, slots.len()) && !detached.contains(i) && (#[trigger] slot_at(slots, i)) is Seat
            ==> s.dom().contains(i)
    &&& forall|i: u32, j: u32|
        s.dom().contains(i) && s.dom().contains(j) && i != j ==> #[trigger] s[i] != #[trigger] s[j]
}

/// What holds of a market between the steps of an operation: every slot is
/// in the free list, in the tree of seats or in one book, according to its
/// record, but for the slots in `detached`, which are in none.
#[verifier::opaque]
pub open spec fn market_inv(fixed: MarketFixed, dynamic: MarketDynamic, detached: Set<u32>)
    -> bool {
    &&& pool_shape(fixed, dynamic)
    &&& free_inv(fixed, dynamic, detached)
    &&& seats_inv(fixed, dynamic, detached)
    &&& book_inv(fixed, dynamic, detached, true, true)
    &&& book_inv(fixed, dynamic, detached, true, false)
    &&& book_inv(fixed, dynamic, detached, false, true)
    &&& book_inv(fixed, dynamic, detached, false, false)
}

/// What the pool of a market holds.
pub struct PoolView {
    /// The free slots, the next to be handed out first.
    pub free: Seq<u32>,
    /// The seats: the trader's address by slot index.
    pub seats: Map<u32, Seq<u8>>,
    /// Bids of tree pair A: slot index and priority, the best last.
    pub a_bids: Seq<(u32, u64)>,
    /// Asks of tree pair A.
    pub a_asks: Seq<(u32, u64)>,
    /// Bids of tree pair B.
    pub b_bids: Seq<(u32, u64)>,
    /// Asks of tree pair B.
    pub b_asks: Seq<(u32, u64)>,
    /// The record of each slot.
    pub slots: Seq<MarketSlot>,
}

impl PoolView {
    /// The book of the given tree pair and side.
    pub open spec fn book(self, use_a_tree: bool, is_bid: bool) -> Seq<(u32, u64)> {
        if use_a_tree {
            if is_bid {
                self.a_bids
            } else {
                self.a_asks
            }
        } else {
            if is_bid {
                self.b_bids
            } else {
                self.b_asks
            }
        }
    }

    /// This pool with another book of the given tree pair and side.
    pub open spec fn with_book(self, use_a_tree: bool, is_bid: bool, e: Seq<(u32, u64)>)
        -> PoolView {
        if use_a_tree {
            if is_bid {
                PoolView { a_bids: e, ..self }
            } else {
                PoolView { a_asks: e, ..self }
            }
        } else {
            if is_bid {
                PoolView { b_bids: e, ..self }
            } else {
                PoolView { b_asks: e, ..self }
            }
        }
    }
}

/// What the pool of the market holds.
pub open spec fn pool_view(fixed: MarketFixed, dynamic: MarketDynamic) -> PoolView {
    PoolView {
        free: free_list(fixed, dynamic),
        seats: seats(fixed, dynamic),
        a_bids: book(fixed, dynamic, true, true),
        a_asks: book(fixed, dynamic, true, false),
        b_bids: book(fixed, dynamic, false, true),
        b_asks: book(fixed, dynamic, false, false),
        slots: dynamic.slots@,
    }
}

/// Whether two headers differ at most in where the pool's structures start
/// and in the pool's size.
pub open spec fn same_settings(f0: MarketFixed, f1: MarketFixed) -> bool {
    f1 == (MarketFixed {
        num_bytes_allocated: f1.num_bytes_allocated,
        base_a_bids_root_index: f1.base_a_bids_root_index,
        base_a_bids_best_index: f1.base_a_bids_best_index,
        base_b_bids_root_index: f1.base_b_bids_root_index,
        base_b_bids_best_index: f1.base_b_bids_best_index,
        base_a_asks_root_index: f1.base_a_asks_root_index,
        base_a_asks_best_index: f1.base_a_asks_best_index,
        base_b_asks_root_index: f1.base_b_asks_root_index,
        base_b_asks_best_index: f1.base_b_asks_best_index,
        claimed_seats_root_index: f1.claimed_seats_root_index,
        free_list_head_index: f1.free_list_head_index,
        ..f0
    })
}

/// Whether the root and the best index of the book of a tree pair and side
/// are the same in two headers.
pub open spec fn book_kept(f0: MarketFixed, f1: MarketFixed, use_a_tree: bool, is_bid: bool)
    -> bool {
    root_of(f1, use_a_tree, is_bid) == root_of(f0, use_a_tree, is_bid) && best_of(
        f1,
        use_a_tree,
        is_bid,
    ) == best_of(f0, use_a_tree, is_bid)
}

/// Whether the root and the best index of every book are the same in two
/// headers, but for the books in `touched`, each named by its tree pair and
/// side.
pub open spec fn books_kept_but(f0: MarketFixed, f1: MarketFixed, touched: Set<(bool, bool)>)
    -> bool {
    &&& touched.contains((true, true)) || book_kept(f0, f1, true, true)
    &&& touched.contains((true, false)) || book_kept(f0, f1, true, false)
    &&& touched.contains((false, true)) || book_kept(f0, f1, false, true)
    &&& touched.contains((false, false)) || book_kept(f0, f1, false, false)
}

/// Whether the root of the tree of seats is the same in two headers, and the
/// root and the best index of every book but those in `touched`.
pub open spec fn indexes_kept(f0: MarketFixed, f1: MarketFixed, touched: Set<(bool, bool)>)
    -> bool {
    f1.claimed_seats_root_index == f0.claimed_seats_root_index && books_kept_but(f0, f1, touched)
}

/// What it is for the indexes to be kept but for one book: every other book
/// has the root and the best index it had, and the tree of seats its root.
pub proof fn lemma_other_books_keep_their_indexes(
    f0: MarketFixed,
    f1: MarketFixed,
    use_a_tree: bool,
    is_bid: bool,
)
    requires
        indexes_kept(f0, f1, set![(use_a_tree, is_bid)]),
    ensures
        f1.claimed_seats_root_index == f0.claimed_seats_root_index,
        forall|a: bool, b: bool|
            #![trigger root_of(f1, a, b)]
            #![trigger best_of(f1, a, b)]
            a != use_a_tree || b != is_bid ==> root_of(f1, a, b) == root_of(f0, a, b) && best_of(
                f1,
                a,
                b,
            ) == best_of(f0, a, b),
{
    assert forall|a: bool, b: bool|
        #![trigger root_of(f1, a, b)]
        #![trigger best_of(f1, a, b)]
        a != use_a_tree || b != is_bid implies root_of(f1, a, b) == root_of(f0, a, b) && best_of(
        f1,
        a,
        b,
    ) == best_of(f0, a, b) by {
        assert(set![(use_a_tree, is_bid)].contains((a, b)) == (a == use_a_tree && b == is_bid));
        assert(book_kept(f0, f1, a, b));
    }
}

/// The root and the cached best index of the book of a tree pair and side.
pub fn get_book_indexes(fixed: &MarketFixed, use_a_tree: bool, is_bid: bool) -> (r: (
    DataIndex,
    DataIndex,
))
    ensures
        r.0 == root_of(*fixed, use_a_tree, is_bid),
        r.1 == best_of(*fixed, use_a_tree, is_bid),
{
    if use_a_tree {
        if is_bid {
            (fixed.base_a_bids_root_index, fixed.base_a_bids_best_index)
        } else {
            (fixed.base_a_asks_root_index, fixed.base_a_asks_best_index)
        }
    } else {
        if is_bid {
            (fixed.base_b_bids_root_index, fixed.base_b_bids_best_index)
        } else {
            (fixed.base_b_asks_root_index, fixed.base_b_asks_best_index)
        }
    }
}

/// Records the root and the best index of the book of a tree pair and side.
pub fn set_book_indexes(
    fixed: &mut MarketFixed,
    use_a_tree: bool,
    is_bid: bool,
    root: DataIndex,
    best: DataIndex,
)
    ensures
        root_of(*final(fixed), use_a_tree, is_bid) == root,
        best_of(*final(fixed), use_a_tree, is_bid) == best,
        forall|a: bool, b: bool|
            #![trigger root_of(*final(fixed), a, b)]
            #![trigger best_of(*final(fixed), a, b)]
            a != use_a_tree || b != is_bid ==> root_of(*final(fixed), a, b) == root_of(
                *old(fixed),
                a,
                b,
            ) && best_of(*final(fixed), a, b) == best_of(*old(fixed), a, b),
        same_settings(*old(fixed), *final(fixed)),
        final(fixed).num_bytes_allocated == old(fixed).num_bytes_allocated,
        final(fixed).claimed_seats_root_index == old(fixed).claimed_seats_root_index,
        final(fixed).free_list_head_index == old(fixed).free_list_head_index,
{
    if use_a_tree {
        if is_bid {
            fixed.base_a_bids_root_index = root;
            fixed.base_a_bids_best_index = best;
        } else {
            fixed.base_a_asks_root_index = root;
            fixed.base_a_asks_best_index = best;
        }
    } else {
        if is_bid {
            fixed.base_b_bids_root_index = root;
            fixed.base_b_bids_best_index = best;
        } else {
            fixed.base_b_asks_root_index = root;
            fixed.base_b_asks_best_index = best;
        }
    }
}

/// Two different slots share no byte.
pub proof fn lemma_slots_apart(i: u32, j: u32, n: nat)
    requires
        slot_ok(i, n),
        slot_ok(j, n),
        i != j,
    ensures
        apart(i, j),
{
    assert(i % 112 == 0 && j % 112 == 0);
    if i < j {
        assert(j - i >= 112) by (nonlinear_arith)
            requires
                i % 112 == 0,
                j % 112 == 0,
                i < j,
        ;
    } else {
        assert(i - j >= 112) by (nonlinear_arith)
            requires
                i % 112 == 0,
                j % 112 == 0,
                j < i,
        ;
    }
}

/// Every slot of a book is a slot of the pool, apart from a slot that is
/// set aside.
proof fn lemma_book_clear_of(
    fixed: MarketFixed,
    dynamic: MarketDynamic,
    detached: Set<u32>,
    use_a_tree: bool,
    is_bid: bool,
    index: u32,
)
    requires
        book_inv(fixed, dynamic, detached, use_a_tree, is_bid),
        slot_ok(index, dynamic.slots@.len()),
        detached.contains(index),
    ensures
        crate::slot_pool::seq_clear_of(
            indices(book(fixed, dynamic, use_a_tree, is_bid)),
            set![index],
        ),
{
    let e = book(fixed, dynamic, use_a_tree, is_bid);
    let touched = set![index];
    assert forall|k: int, t: u32|
        #![trigger indices(e)[k], touched.contains(t)]
        0 <= k < indices(e).len() && touched.contains(t) implies apart(indices(e)[k], t) by {
        assert(indices(e)[k] == e[k].0);
        lemma_slots_apart(e[k].0, t, dynamic.slots@.len());
    }
}

/// A book into which the order of a slot that was set aside has been
/// inserted meets its invariant with no slot set aside.
proof fn lemma_book_after_insert(
    f0: MarketFixed,
    d0: MarketDynamic,
    f1: MarketFixed,
    d1: MarketDynamic,
    use_a_tree: bool,
    is_bid: bool,
    index: u32,
    key: u64,
)
    requires
        book_inv(f0, d0, set![index], use_a_tree, is_bid),
        slot_ok(index, d0.slots@.len()),
        is_order_of(slot_at(d0.slots@, index), use_a_tree, is_bid),
        order_in(slot_at(d0.slots@, index)).spec_priority() == key,
        d1.slots@ == d0.slots@,
        book(f1, d1, use_a_tree, is_bid) == book(f0, d0, use_a_tree, is_bid).insert(
            rank(book(f0, d0, use_a_tree, is_bid), key),
            (index, key),
        ),
        root_of(f1, use_a_tree, is_bid) != NIL,
        best_of(f1, use_a_tree, is_bid) == last_slot(book(f1, d1, use_a_tree, is_bid)),
    ensures
        book_inv(f1, d1, Set::empty(), use_a_tree, is_bid),
{
    let none = Set::<u32>::empty();
    let e = book(f0, d0, use_a_tree, is_bid);
    let e1 = book(f1, d1, use_a_tree, is_bid);
    let p = rank(e, key);
    lemma_rank_bounds(e, key);
    lemma_insert_keeps_sorted(e, index, key);
    assert forall|k: int| 0 <= k < e1.len() implies slot_ok(
        (#[trigger] e1[k]).0,
        d1.slots@.len(),
    ) && !none.contains(e1[k].0) && is_order_of(
        slot_at(d1.slots@, e1[k].0),
        use_a_tree,
        is_bid,
    ) && e1[k].1 == order_in(slot_at(d1.slots@, e1[k].0)).spec_priority() by {
        if k < p {
            assert(e1[k] == e[k]);
        } else if k > p {
            assert(e1[k] == e[k - 1]);
        }
    }
    assert forall|k: int, l: int| 0 <= k < l < e1.len() implies e1[k].0 != e1[l].0 by {
        let ek = if k < p {
            k
        } else {
            k - 1
        };
        let el = if l < p {
            l
        } else {
            l - 1
        };
        if k != p {
            assert(e1[k] == e[ek]);
        }
        if l != p {
            assert(e1[l] == e[el]);
        }
    }
    assert forall|i: u32|
        slot_ok(i, d1.slots@.len()) && !none.contains(i) && is_order_of(
            #[trigger] slot_at(d1.slots@, i),
            use_a_tree,
            is_bid,
        ) implies indices(e1).contains(i) by {
        if i == index {
            assert(indices(e1)[p] == i);
        } else {
            assert(indices(e).contains(i));
            let k = choose|k: int| 0 <= k < indices(e).len() && indices(e)[k] == i;
            if k < p {
                assert(e1[k] == e[k]);
                assert(indices(e1)[k] == i);
            } else {
                assert(e1[k + 1] == e[k]);
                assert(indices(e1)[k + 1] == i);
            }
        }
    }
}

/// A book from which the order of a slot has been removed meets its
/// invariant with that slot set aside.
proof fn lemma_book_after_remove(
    f0: MarketFixed,
    d0: MarketDynamic,
    f1: MarketFixed,
    d1: MarketDynamic,
    use_a_tree: bool,
    is_bid: bool,
    index: u32,
)
    requires
        book_inv(f0, d0, Set::empty(), use_a_tree, is_bid),
        indices(book(f0, d0, use_a_tree, is_bid)).contains(index),
        d1.slots@ == d0.slots@,
        book(f1, d1, use_a_tree, is_bid) == book(f0, d0, use_a_tree, is_bid).remove(
            place(book(f0, d0, use_a_tree, is_bid), index),
        ),
        (root_of(f1, use_a_tree, is_bid) == NIL) == (book(f1, d1, use_a_tree, is_bid).len() == 0),
        best_of(f1, use_a_tree, is_bid) == last_slot(book(f1, d1, use_a_tree, is_bid)),
    ensures
        book_inv(f1, d1, set![index], use_a_tree, is_bid),
{
    let det1 = set![index];
    let e = book(f0, d0, use_a_tree, is_bid);
    let e1 = book(f1, d1, use_a_tree, is_bid);
    let p = place(e, index);
    lemma_place(e, index);
    lemma_remove_keeps_sorted(e, p);
    assert forall|k: int| 0 <= k < e1.len() implies slot_ok(
        (#[trigger] e1[k]).0,
        d1.slots@.len(),
    ) && !det1.contains(e1[k].0) && is_order_of(
        slot_at(d1.slots@, e1[k].0),
        use_a_tree,
        is_bid,
    ) && e1[k].1 == order_in(slot_at(d1.slots@, e1[k].0)).spec_priority() by {
        if k < p {
            assert(e1[k] == e[k]);
        } else {
            assert(e1[k] == e[k + 1]);
        }
    }
    assert forall|k: int, l: int| 0 <= k < l < e1.len() implies e1[k].0 != e1[l].0 by {
        let ek = if k < p {
            k
        } else {
            k + 1
        };
        let el = if l < p {
            l
        } else {
            l + 1
        };
        assert(e1[k] == e[ek]);
        assert(e1[l] == e[el]);
    }
    assert forall|i: u32|
        slot_ok(i, d1.slots@.len()) && !det1.contains(i) && is_order_of(
            #[trigger] slot_at(d1.slots@, i),
            use_a_tree,
            is_bid,
        ) implies indices(e1).contains(i) by {
        assert(indices(e).contains(i));
        let k = choose|k: int| 0 <= k < indices(e).len() && indices(e)[k] == i;
        assert(e[k].0 == i);
        assert(k != p);
        if k < p {
            assert(e1[k] == e[k]);
            assert(indices(e1)[k] == i);
        } else {
            assert(e1[k - 1] == e[k]);
            assert(indices(e1)[k - 1] == i);
        }
    }
}

/// Writes `resting_order` into the slot at `free_address`, which the caller
/// holds, and links the slot into the book of the order's tree pair and
/// side: behind the orders of lower priority and before those of the same or
/// a higher one, so that among orders of one rate the oldest stays best.
/// The header's root and best index of that book follow.
pub fn insert_order_into_tree(
    use_a_tree: bool,
    is_bid: bool,
    fixed: &mut MarketFixed,
    dynamic: &mut MarketDynamic,
    free_address: DataIndex,
    resting_order: &RestingOrder,
)
    requires
        market_inv(*old(fixed), *old(dynamic), set![free_address]),
        slot_ok(free_address, old(dynamic).slots@.len()),
        resting_order.is_a_tree == use_a_tree,
        resting_order.is_bid == is_bid,
    ensures
        market_inv(*final(fixed), *final(dynamic), Set::empty()),
        same_settings(*old(fixed), *final(fixed)),
        indexes_kept(*old(fixed), *final(fixed), set![(use_a_tree, is_bid)]),
        final(fixed).free_list_head_index == old(fixed).free_list_head_index,
        final(fixed).num_bytes_allocated == old(fixed).num_bytes_allocated,
        pool_view(*final(fixed), *final(dynamic)) == (PoolView {
            slots: old(dynamic).slots@.update(
                free_address as int / BLOCK as int,
                MarketSlot::Order(*resting_order),
            ),
            ..pool_view(*old(fixed), *old(dynamic))
        }).with_book(
            use_a_tree,
            is_bid,
            book(*old(fixed), *old(dynamic), use_a_tree, is_bid).insert(
                rank(
                    book(*old(fixed), *old(dynamic), use_a_tree, is_bid),
                    resting_order.spec_priority(),
                ),
                (free_address, resting_order.spec_priority()),
            ),
        ),
{
    proof {
        reveal(market_inv);
    }
    let ghost f0 = *fixed;
    let ghost d0 = *dynamic;
    let ghost det0 = set![free_address];
    let ghost none = Set::<u32>::empty();
    let ghost e = book(f0, d0, use_a_tree, is_bid);
    let key = resting_order.priority();
    dynamic.slots.set((free_address / BLOCK) as usize, MarketSlot::Order(*resting_order));
    let ghost dm = *dynamic;
    proof {
        lemma_slot_fits(free_address, d0.slots@.len());
        assert forall|i: u32| slot_ok(i, d0.slots@.len()) implies #[trigger] slot_at(
            dm.slots@,
            i,
        ) == if i == free_address {
            MarketSlot::Order(*resting_order)
        } else {
            slot_at(d0.slots@, i)
        } by {
            lemma_slot_update(d0.slots@, free_address, MarketSlot::Order(*resting_order), i);
        }
        lemma_free_still(f0, d0, f0, dm, det0, det0);
        lemma_seats_still(f0, d0, f0, dm, det0, det0);
        lemma_book_still(f0, d0, f0, dm, det0, det0, true, true);
        lemma_book_still(f0, d0, f0, dm, det0, det0, true, false);
        lemma_book_still(f0, d0, f0, dm, det0, det0, false, true);
        lemma_book_still(f0, d0, f0, dm, det0, det0, false, false);
        lemma_book_clear_of(f0, dm, det0, use_a_tree, is_bid, free_address);
        if e.len() > 0 {
            assert(slot_ok(e[e.len() - 1].0, dm.slots@.len()));
            lemma_slot_fits(e[e.len() - 1].0, dm.slots@.len());
        }
    }
    let (root, best) = get_book_indexes(fixed, use_a_tree, is_bid);
    let (new_root, new_best) = tree_insert(&mut dynamic.links, root, best, free_address, key);
    set_book_indexes(fixed, use_a_tree, is_bid, new_root, new_best);
    proof {
        let f1 = *fixed;
        let d1 = *dynamic;
        let touched = indices(e).to_set().insert(free_address);
        let p = rank(e, key);
        lemma_rank_bounds(e, key);
        let e1 = book(f1, d1, use_a_tree, is_bid);
        assert(e1 == e.insert(p, (free_address, key)));
        assert forall|t: u32| #[trigger] touched.contains(t) implies slot_ok(t, dm.slots@.len())
            && (det0.contains(t) || is_order_of(slot_at(dm.slots@, t), use_a_tree, is_bid)) by {
            if t != free_address {
                assert(indices(e).contains(t));
                let k = choose|k: int| 0 <= k < indices(e).len() && indices(e)[k] == t;
                assert(e[k].0 == t);
            }
        }
        lemma_free_kept(f0, dm, d1.links@, det0, touched);
        lemma_seats_kept(f0, dm, d1.links@, det0, touched);
        lemma_free_still(f0, dm, f1, d1, det0, none);
        lemma_seats_still(f0, dm, f1, d1, det0, none);
        assert forall|a: bool, b: bool| a != use_a_tree || b != is_bid implies book_inv(
            f1,
            d1,
            none,
            a,
            b,
        ) && book(f1, d1, a, b) == book(f0, d0, a, b) by {
            lemma_book_kept(f0, dm, d1.links@, det0, touched, a, b);
            lemma_book_still(f0, dm, f1, d1, det0, none, a, b);
        }
        lemma_book_after_insert(f0, dm, f1, d1, use_a_tree, is_bid, free_address, key);
        assert(book_inv(f1, d1, none, use_a_tree, is_bid));
        assert(book_inv(f1, d1, none, true, true));
        assert(book_inv(f1, d1, none, true, false));
        assert(book_inv(f1, d1, none, false, true));
        assert(book_inv(f1, d1, none, false, false));
        assert(book(f1, d1, !use_a_tree, is_bid) == book(f0, d0, !use_a_tree, is_bid));
        assert(book(f1, d1, !use_a_tree, !is_bid) == book(f0, d0, !use_a_tree, !is_bid));
        assert(book(f1, d1, use_a_tree, !is_bid) == book(f0, d0, use_a_tree, !is_bid));
    }
}

/// Takes the order at `order_index` out of the book of the given tree pair
/// and side. The other orders keep their slots and their order; the header's
/// root and best index of that book follow. The slot keeps its record and
/// belongs to the caller.
pub fn remove_order_from_tree(
    fixed: &mut MarketFixed,
    dynamic: &mut MarketDynamic,
    use_a_tree: bool,
    order_index: DataIndex,
    is_bid: bool,
) -> (r: Result<(), EngineError>)
    requires
        market_inv(*old(fixed), *old(dynamic), Set::empty()),
        indices(book(*old(fixed), *old(dynamic), use_a_tree, is_bid)).contains(order_index),
    ensures
        r.is_ok(),
        market_inv(*final(fixed), *final(dynamic), set![order_index]),
        slot_ok(order_index, old(dynamic).slots@.len()),
        same_settings(*old(fixed), *final(fixed)),
        indexes_kept(*old(fixed), *final(fixed), set![(use_a_tree, is_bid)]),
        final(fixed).free_list_head_index == old(fixed).free_list_head_index,
        final(fixed).num_bytes_allocated == old(fixed).num_bytes_allocated,
        pool_view(*final(fixed), *final(dynamic)) == pool_view(
            *old(fixed),
            *old(dynamic),
        ).with_book(
            use_a_tree,
            is_bid,
            book(*old(fixed), *old(dynamic), use_a_tree, is_bid).remove(
                place(book(*old(fixed), *old(dynamic), use_a_tree, is_bid), order_index),
            ),
        ),
{
    proof {
        reveal(market_inv);
    }
    let ghost f0 = *fixed;
    let ghost d0 = *dynamic;
    let ghost det1 = set![order_index];
    let ghost none = Set::<u32>::empty();
    let ghost e = book(f0, d0, use_a_tree, is_bid);
    let ghost p = place(e, order_index);
    proof {
        lemma_place(e, order_index);
        assert(slot_ok(e[p].0, d0.slots@.len()));
        lemma_slot_fits(order_index, d0.slots@.len());
    }
    let (root, best) = get_book_indexes(fixed, use_a_tree, is_bid);
    let (new_root, new_best) = tree_remove(&mut dynamic.links, root, best, order_index);
    set_book_indexes(fixed, use_a_tree, is_bid, new_root, new_best);
    proof {
        let f1 = *fixed;
        let d1 = *dynamic;
        let touched = indices(e).to_set();
        let e1 = book(f1, d1, use_a_tree, is_bid);
        assert(e1 == e.remove(p));
        assert(slot_ok(e[e.len() - 1].0, d0.slots@.len()));
        lemma_slot_fits(e[e.len() - 1].0, d0.slots@.len());
        assert forall|t: u32| #[trigger] touched.contains(t) implies slot_ok(t, d0.slots@.len())
            && is_order_of(slot_at(d0.slots@, t), use_a_tree, is_bid) by {
            assert(indices(e).contains(t));
            let k = choose|k: int| 0 <= k < indices(e).len() && indices(e)[k] == t;
            assert(e[k].0 == t);
        }
        lemma_free_kept(f0, d0, d1.links@, none, touched);
        lemma_seats_kept(f0, d0, d1.links@, none, touched);
        assert(is_order_of(slot_at(d0.slots@, e[p].0), use_a_tree, is_bid));
        lemma_free_still(f0, d0, f1, d1, none, det1);
        lemma_seats_still(f0, d0, f1, d1, none, det1);
        assert forall|a: bool, b: bool| a != use_a_tree || b != is_bid implies book_inv(
            f1,
            d1,
            det1,
            a,
            b,
        ) && book(f1, d1, a, b) == book(f0, d0, a, b) by {
            lemma_book_kept(f0, d0, d1.links@, none, touched, a, b);
            lemma_book_still(f0, d0, f1, d1, none, det1, a, b);
        }
        lemma_book_after_remove(f0, d0, f1, d1, use_a_tree, is_bid, order_index);
        assert(book_inv(f1, d1, det1, use_a_tree, is_bid));
        assert(book_inv(f1, d1, det1, true, true));
        assert(book_inv(f1, d1, det1, true, false));
        assert(book_inv(f1, d1, det1, false, true));
        assert(book_inv(f1, d1, det1, false, false));
        assert(book(f1, d1, !use_a_tree, is_bid) == book(f0, d0, !use_a_tree, is_bid));
        assert(book(f1, d1, !use_a_tree, !is_bid) == book(f0, d0, !use_a_tree, !is_bid));
        assert(book(f1, d1, use_a_tree, !is_bid) == book(f0, d0, use_a_tree, !is_bid));
    }
    Ok(())
}

/// Takes the order at `order_index` out of its book and puts its slot back
/// on the free list.
pub fn remove_order_from_tree_and_free(
    fixed: &mut MarketFixed,
    dynamic: &mut MarketDynamic,
    use_a_tree: bool,
    order_index: DataIndex,
    is_bid: bool,
) -> (r: Result<(), EngineError>)
    requires
        market_inv(*old(fixed), *old(dynamic), Set::empty()),
        indices(book(*old(fixed), *old(dynamic), use_a_tree, is_bid)).contains(order_index),
    ensures
        r.is_ok(),
        market_inv(*final(fixed), *final(dynamic), Set::empty()),
        same_settings(*old(fixed), *final(fixed)),
        indexes_kept(*old(fixed), *final(fixed), set![(use_a_tree, is_bid)]),
        final(fixed).free_list_head_index == order_index,
        final(fixed).num_bytes_allocated == old(fixed).num_bytes_allocated,
        pool_view(*final(fixed), *final(dynamic)) == pool_view(
            *old(fixed),
            *old(dynamic),
        ).free_order(use_a_tree, is_bid, order_index),
{
    remove_order_from_tree(fixed, dynamic, use_a_tree, order_index, is_bid)?;
    release_address_on_market_fixed(fixed, dynamic, order_index);
    Ok(())
}

/// The seat after `shares` were added to, or taken from, its withdrawable
/// balance of one asset. Taking more than the balance fails for want of
/// funds; a balance that leaves the range of quantities fails as an overflow.
pub open spec fn spec_update_balance(
    seat: ClaimedSeat,
    update_base_a: bool,
    is_increase: bool,
    shares: int,
) -> Result<ClaimedSeat, EngineError> {
    let current = if update_base_a {
        seat.base_a_withdrawable_asset_share@
    } else {
        seat.base_b_withdrawable_asset_share@
    };
    let next = if is_increase {
        current + shares
    } else {
        current - shares
    };
    if !is_increase && current < shares {
        Err(EngineError::InsufficientFunds)
    } else if !fits(next) {
        Err(EngineError::Nix(NixError::NumericalOverflow))
    } else if update_base_a {
        Ok(
            ClaimedSeat {
                base_a_withdrawable_asset_share: WrappedI80F48 { value: next as i128 },
                ..seat
            },
        )
    } else {
        Ok(
            ClaimedSeat {
                base_b_withdrawable_asset_share: WrappedI80F48 { value: next as i128 },
                ..seat
            },
        )
    }
}

/// The seat after `amount` was added to its volume of one tree pair, wrapping
/// around.
pub open spec fn spec_record_volume(seat: ClaimedSeat, amount: int, use_a_tree: bool)
    -> ClaimedSeat {
    if use_a_tree {
        ClaimedSeat {
            base_a_volume: WrappedI80F48 {
                value: crate::quantities::wrapping_sum(seat.base_a_volume@, amount) as i128,
            },
            ..seat
        }
    } else {
        ClaimedSeat {
            base_b_volume: WrappedI80F48 {
                value: crate::quantities::wrapping_sum(seat.base_b_volume@, amount) as i128,
            },
            ..seat
        }
    }
}

/// Whether the slot at `index` holds a seat.
pub open spec fn is_seat(dynamic: MarketDynamic, index: u32) -> bool {
    slot_ok(index, dynamic.slots@.len()) && slot_at(dynamic.slots@, index) is Seat
}

/// A market in which the seat at `index` was replaced by another seat of the
/// same trader meets its invariant as before, and links what it linked.
pub proof fn lemma_seat_replaced(
    fixed: MarketFixed,
    d0: MarketDynamic,
    d1: MarketDynamic,
    index: u32,
    seat: ClaimedSeat,
)
    requires
        market_inv(fixed, d0, Set::empty()),
        is_seat(d0, index),
        seat.trader == seat_in(slot_at(d0.slots@, index)).trader,
        d1.links@ == d0.links@,
        d1.slots@ == d0.slots@.update(index as int / BLOCK as int, MarketSlot::Seat(seat)),
    ensures
        market_inv(fixed, d1, Set::empty()),
        pool_view(fixed, d1) == (PoolView { slots: d1.slots@, ..pool_view(fixed, d0) }),
{
    reveal(market_inv);
    let none = Set::<u32>::empty();
    assert forall|i: u32| slot_ok(i, d0.slots@.len()) implies #[trigger] slot_at(d1.slots@, i)
        == if i == index {
        MarketSlot::Seat(seat)
    } else {
        slot_at(d0.slots@, i)
    } by {
        lemma_slot_update(d0.slots@, index, MarketSlot::Seat(seat), i);
    }
    lemma_free_still(fixed, d0, fixed, d1, none, none);
    lemma_seats_still(fixed, d0, fixed, d1, none, none);
    lemma_book_still(fixed, d0, fixed, d1, none, none, true, true);
    lemma_book_still(fixed, d0, fixed, d1, none, none, true, false);
    lemma_book_still(fixed, d0, fixed, d1, none, none, false, true);
    lemma_book_still(fixed, d0, fixed, d1, none, none, false, false);
}

/// Adds `asset_shares` to the withdrawable balance of the seat at
/// `trader_index`, or takes them from it. Fails where the slot holds no seat,
/// where more is taken than the balance holds, and where the balance would
/// leave the range of quantities. On failure nothing changes.
pub fn update_balance(
    fixed: &mut MarketFixed,
    dynamic: &mut MarketDynamic,
    trader_index: DataIndex,
    update_base_a: bool,
    is_increase: bool,
    asset_shares: WrappedI80F48,
) -> (r: Result<(), EngineError>)
    requires
        market_inv(*old(fixed), *old(dynamic), Set::empty()),
    ensures
        *final(fixed) == *old(fixed),
        final(dynamic).links@ == old(dynamic).links@,
        market_inv(*final(fixed), *final(dynamic), Set::empty()),
        match pool_view(*old(fixed), *old(dynamic)).balance(
            trader_index,
            update_base_a,
            is_increase,
            asset_shares@,
        ) {
            Ok(v) => r.is_ok() && pool_view(*final(fixed), *final(dynamic)) == v,
            Err(e) => r == Err::<(), _>(e) && pool_view(*final(fixed), *final(dynamic))
                == pool_view(*old(fixed), *old(dynamic)),
        },
{
    if trader_index % BLOCK != 0 || (trader_index / BLOCK) as usize >= dynamic.slots.len() {
        return Err(EngineError::InvalidArgument);
    }
    let at = (trader_index / BLOCK) as usize;
    let mut seat = match dynamic.slots[at] {
        MarketSlot::Seat(s) => s,
        _ => { return Err(EngineError::InvalidArgument); },
    };
    let current = if update_base_a {
        seat.base_a_withdrawable_asset_share
    } else {
        seat.base_b_withdrawable_asset_share
    };
    let next = if is_increase {
        current.checked_add(asset_shares)
    } else {
        if !current.ge(asset_shares) {
            return Err(EngineError::InsufficientFunds);
        }
        current.checked_sub(asset_shares)
    };
    let next = match next {
        Some(n) => n,
        None => { return Err(EngineError::Nix(NixError::NumericalOverflow)); },
    };
    if update_base_a {
        seat.base_a_withdrawable_asset_share = next;
    } else {
        seat.base_b_withdrawable_asset_share = next;
    }
    let ghost d0 = *dynamic;
    dynamic.slots.set(at, MarketSlot::Seat(seat));
    proof {
        lemma_seat_replaced(*fixed, d0, *dynamic, trader_index, seat);
    }
    Ok(())
}

/// Adds `amount_atoms` to the volume that the seat at `trader_index` has
/// traded on one tree pair. The volume wraps around. Where the slot holds no
/// seat nothing changes.
pub fn record_volume_by_trader_index(
    fixed: &MarketFixed,
    dynamic: &mut MarketDynamic,
    trader_index: DataIndex,
    amount_atoms: WrappedI80F48,
    use_a_tree: bool,
)
    requires
        market_inv(*fixed, *old(dynamic), Set::empty()),
    ensures
        final(dynamic).links@ == old(dynamic).links@,
        market_inv(*fixed, *final(dynamic), Set::empty()),
        pool_view(*fixed, *final(dynamic)) == pool_view(*fixed, *old(dynamic)).volume(
            trader_index,
            amount_atoms@,
            use_a_tree,
        ),
{
    if trader_index % BLOCK != 0 || (trader_index / BLOCK) as usize >= dynamic.slots.len() {
        return ;
    }
    let at = (trader_index / BLOCK) as usize;
    let mut seat = match dynamic.slots[at] {
        MarketSlot::Seat(s) => s,
        _ => { return ; },
    };
    if use_a_tree {
        seat.base_a_volume = seat.base_a_volume.wrapping_add(amount_atoms);
    } else {
        seat.base_b_volume = seat.base_b_volume.wrapping_add(amount_atoms);
    }
    let ghost d0 = *dynamic;
    dynamic.slots.set(at, MarketSlot::Seat(seat));
    proof {
        lemma_seat_replaced(*fixed, d0, *dynamic, trader_index, seat);
    }
}

/// A market in which the order at `index` was replaced by another order of
/// the same tree pair, side and rate meets its invariant as before, and links
/// what it linked.
pub proof fn lemma_order_replaced(
    fixed: MarketFixed,
    d0: MarketDynamic,
    d1: MarketDynamic,
    index: u32,
    order: RestingOrder,
)
    requires
        market_inv(fixed, d0, Set::empty()),
        slot_ok(index, d0.slots@.len()),
        slot_at(d0.slots@, index) is Order,
        order.is_a_tree == order_in(slot_at(d0.slots@, index)).is_a_tree,
        order.is_bid == order_in(slot_at(d0.slots@, index)).is_bid,
        order.rate_bps == order_in(slot_at(d0.slots@, index)).rate_bps,
        d1.links@ == d0.links@,
        d1.slots@ == d0.slots@.update(index as int / BLOCK as int, MarketSlot::Order(order)),
    ensures
        market_inv(fixed, d1, Set::empty()),
        pool_view(fixed, d1) == pool_view(fixed, d0).set_slot(index, MarketSlot::Order(order)),
{
    reveal(market_inv);
    let none = Set::<u32>::empty();
    assert forall|i: u32| slot_ok(i, d0.slots@.len()) implies #[trigger] slot_at(d1.slots@, i)
        == if i == index {
        MarketSlot::Order(order)
    } else {
        slot_at(d0.slots@, i)
    } by {
        lemma_slot_update(d0.slots@, index, MarketSlot::Order(order), i);
    }
    lemma_free_still(fixed, d0, fixed, d1, none, none);
    lemma_seats_still(fixed, d0, fixed, d1, none, none);
    assert forall|a: bool, b: bool| book_inv(fixed, d1, none, a, b) by {
        if a == order.is_a_tree && b == order.is_bid {
            let e = book(fixed, d0, a, b);
            assert(book_inv(fixed, d0, none, a, b));
            assert forall|k: int| 0 <= k < e.len() implies slot_ok(
                (#[trigger] e[k]).0,
                d1.slots@.len(),
            ) && !none.contains(e[k].0) && is_order_of(slot_at(d1.slots@, e[k].0), a, b) && e[k].1
                == order_in(slot_at(d1.slots@, e[k].0)).spec_priority() by {
                assert(is_order_of(slot_at(d0.slots@, e[k].0), a, b));
            }
            assert forall|i: u32|
                slot_ok(i, d1.slots@.len()) && !none.contains(i) && is_order_of(
                    #[trigger] slot_at(d1.slots@, i),
                    a,
                    b,
                ) implies indices(e).contains(i) by {
                assert(is_order_of(slot_at(d0.slots@, i), a, b));
            }
        } else {
            assert(book_inv(fixed, d0, none, a, b));
            lemma_book_still(fixed, d0, fixed, d1, none, none, a, b);
        }
    }
    assert(book_inv(fixed, d1, none, true, true));
    assert(book_inv(fixed, d1, none, true, false));
    assert(book_inv(fixed, d1, none, false, true));
    assert(book_inv(fixed, d1, none, false, false));
}

/// Writes `order` over the order at `index`, which is of the same tree pair,
/// side and rate, so that it keeps its place in the book.
pub fn replace_order(
    fixed: &MarketFixed,
    dynamic: &mut MarketDynamic,
    index: DataIndex,
    order: RestingOrder,
)
    requires
        market_inv(*fixed, *old(dynamic), Set::empty()),
        slot_ok(index, old(dynamic).slots@.len()),
        slot_at(old(dynamic).slots@, index) is Order,
        order.is_a_tree == order_in(slot_at(old(dynamic).slots@, index)).is_a_tree,
        order.is_bid == order_in(slot_at(old(dynamic).slots@, index)).is_bid,
        order.rate_bps == order_in(slot_at(old(dynamic).slots@, index)).rate_bps,
    ensures
        market_inv(*fixed, *final(dynamic), Set::empty()),
        final(dynamic).links@ == old(dynamic).links@,
        pool_view(*fixed, *final(dynamic)) == pool_view(*fixed, *old(dynamic)).set_slot(
            index,
            MarketSlot::Order(order),
        ),
{
    let ghost d0 = *dynamic;
    dynamic.slots.set((index / BLOCK) as usize, MarketSlot::Order(order));
    proof {
        lemma_order_replaced(*fixed, d0, *dynamic, index, order);
    }
}

/// Which asset's balance a side of a tree pair draws on: on tree pair A a bid
/// draws on asset B and an ask on asset A; on tree pair B the reverse.
pub open spec fn spec_should_update_base_a(use_a_tree: bool, is_bid: bool) -> bool {
    use_a_tree != is_bid
}

/// Whether a side of a tree pair draws on the balance of asset A.
pub fn should_update_base_a(use_a_tree: bool, is_bid: bool) -> (r: bool)
    ensures
        r == spec_should_update_base_a(use_a_tree, is_bid),
{
    let use_base_a = match (use_a_tree, is_bid) {
        (true, true) => false,
        (true, false) => true,
        (false, true) => true,
        (false, false) => false,
    };
    use_base_a
}

/// The cached best indices and the roots of the books of a tree pair: best
/// bid, best ask, root of the bids, root of the asks.
pub fn get_tree_indexes(fixed: &MarketFixed, use_a_tree: bool) -> (r: (
    DataIndex,
    DataIndex,
    DataIndex,
    DataIndex,
))
    ensures
        r.0 == best_of(*fixed, use_a_tree, true),
        r.1 == best_of(*fixed, use_a_tree, false),
        r.2 == root_of(*fixed, use_a_tree, true),
        r.3 == root_of(*fixed, use_a_tree, false),
{
    if use_a_tree {
        (
            fixed.base_a_bids_best_index,
            fixed.base_a_asks_best_index,
            fixed.base_a_bids_root_index,
            fixed.base_a_asks_root_index,
        )
    } else {
        (
            fixed.base_b_bids_best_index,
            fixed.base_b_asks_best_index,
            fixed.base_b_bids_root_index,
            fixed.base_b_asks_root_index,
        )
    }
}

/// The addresses and numbers from which the header of a new market is made.
#[derive(Debug, Copy, Clone)]
pub struct CreateMarketArgs {
    pub base_a_mint: Pubkey,
    pub base_b_mint: Pubkey,
    pub base_a_mint_decimals: u8,
    pub base_b_mint_decimals: u8,
    pub base_a_vault: Pubkey,
    pub base_b_vault: Pubkey,
    pub base_a_fee_receiver: Pubkey,
    pub base_b_fee_receiver: Pubkey,
    pub base_a_marginfi_group: Pubkey,
    pub base_a_marginfi_bank: Pubkey,
    pub base_a_marginfi_account: Pubkey,
    pub base_b_marginfi_group: Pubkey,
    pub base_b_marginfi_bank: Pubkey,
    pub base_b_marginfi_account: Pubkey,
    pub admin: Pubkey,
    pub protocol_fee_rate_bps: u64,
    pub ltv_buffer_bps: u64,
}

impl MarketFixed {
    /// The header of a new market: no slots, empty books, no seats, the
    /// sequence numbers and volumes at zero.
    pub open spec fn spec_new_empty(args: CreateMarketArgs, discriminant: u64) -> MarketFixed {
        MarketFixed {
            discriminant,
            version: 1,
            base_a_mint_decimals: args.base_a_mint_decimals,
            base_b_mint_decimals: args.base_b_mint_decimals,
            market_state: 0,
            base_a_mint: args.base_a_mint,
            base_b_mint: args.base_b_mint,
            base_a_vault: args.base_a_vault,
            base_b_vault: args.base_b_vault,
            base_a_order_sequence_number: 0,
            base_b_order_sequence_number: 0,
            num_bytes_allocated: 0,
            base_a_bids_root_index: NIL,
            base_a_bids_best_index: NIL,
            base_b_bids_root_index: NIL,
            base_b_bids_best_index: NIL,
            base_a_asks_root_index: NIL,
            base_a_asks_best_index: NIL,
            base_b_asks_root_index: NIL,
            base_b_asks_best_index: NIL,
            claimed_seats_root_index: NIL,
            free_list_head_index: NIL,
            base_a_marginfi_group: args.base_a_marginfi_group,
            base_a_marginfi_bank: args.base_a_marginfi_bank,
            base_a_marginfi_account: args.base_a_marginfi_account,
            base_b_marginfi_group: args.base_b_marginfi_group,
            base_b_marginfi_bank: args.base_b_marginfi_bank,
            base_b_marginfi_account: args.base_b_marginfi_account,
            fee_state: FeeState {
                protocol_fee_rate_bps: args.protocol_fee_rate_bps,
                ltv_buffer_bps: args.ltv_buffer_bps,
                base_a_fee_receiver: args.base_a_fee_receiver,
                base_b_fee_receiver: args.base_b_fee_receiver,
                admin: args.admin,
            },
            base_a_match_volume: WrappedI80F48 { value: 0 },
            base_b_match_volume: WrappedI80F48 { value: 0 },
            base_a_marginfi_account_asset_shares: WrappedI80F48 { value: 0 },
            base_a_marginfi_account_liability_shares: WrappedI80F48 { value: 0 },
            base_b_marginfi_account_shares: WrappedI80F48 { value: 0 },
            base_b_marginfi_account_liability_shares: WrappedI80F48 { value: 0 },
        }
    }

    /// The header of a new market.
    pub fn new_empty(args: &CreateMarketArgs) -> (f: Self)
        ensures
            f == Self::spec_new_empty(
                *args,
                crate::utils::spec_discriminant(
                    crate::utils::MARKET_FIXED_TYPE_NAME.spec_bytes(),
                ),
            ),
    {
        let discriminant = match crate::utils::get_discriminant(
            crate::utils::MARKET_FIXED_TYPE_NAME,
        ) {
            Ok(d) => d,
            Err(_) => 0,
        };
        MarketFixed {
            discriminant,
            version: 1,
            base_a_mint_decimals: args.base_a_mint_decimals,
            base_b_mint_decimals: args.base_b_mint_decimals,
            market_state: 0,
            base_a_mint: args.base_a_mint,
            base_b_mint: args.base_b_mint,
            base_a_vault: args.base_a_vault,
            base_b_vault: args.base_b_vault,
            base_a_order_sequence_number: 0,
            base_b_order_sequence_number: 0,
            num_bytes_allocated: 0,
            base_a_bids_root_index: NIL,
            base_a_bids_best_index: NIL,
            base_b_bids_root_index: NIL,
            base_b_bids_best_index: NIL,
            base_a_asks_root_index: NIL,
            base_a_asks_best_index: NIL,
            base_b_asks_root_index: NIL,
            base_b_asks_best_index: NIL,
            claimed_seats_root_index: NIL,
            free_list_head_index: NIL,
            base_a_marginfi_group: args.base_a_marginfi_group,
            base_a_marginfi_bank: args.base_a_marginfi_bank,
            base_a_marginfi_account: args.base_a_marginfi_account,
            base_b_marginfi_group: args.base_b_marginfi_group,
            base_b_marginfi_bank: args.base_b_marginfi_bank,
            base_b_marginfi_account: args.base_b_marginfi_account,
            fee_state: FeeState {
                protocol_fee_rate_bps: args.protocol_fee_rate_bps,
                ltv_buffer_bps: args.ltv_buffer_bps,
                base_a_fee_receiver: args.base_a_fee_receiver,
                base_b_fee_receiver: args.base_b_fee_receiver,
                admin: args.admin,
            },
            base_a_match_volume: WrappedI80F48::zero(),
            base_b_match_volume: WrappedI80F48::zero(),
            base_a_marginfi_account_asset_shares: WrappedI80F48::zero(),
            base_a_marginfi_account_liability_shares: WrappedI80F48::zero(),
            base_b_marginfi_account_shares: WrappedI80F48::zero(),
            base_b_marginfi_account_liability_shares: WrappedI80F48::zero(),
        }
    }

    pub fn get_base_a_mint(&self) -> (r: &Pubkey)
        ensures
            *r == self.base_a_mint,
    {
        &self.base_a_mint
    }

    pub fn get_base_b_mint(&self) -> (r: &Pubkey)
        ensures
            *r == self.base_b_mint,
    {
        &self.base_b_mint
    }

    pub fn get_base_a_decimals(&self) -> (r: u8)
        ensures
            r == self.base_a_mint_decimals,
    {
        self.base_a_mint_decimals
    }

    pub fn get_base_b_decimals(&self) -> (r: u8)
        ensures
            r == self.base_b_mint_decimals,
    {
        self.base_b_mint_decimals
    }

    pub fn get_base_a_vault(&self) -> (r: &Pubkey)
        ensures
            *r == self.base_a_vault,
    {
        &self.base_a_vault
    }

    pub fn get_base_b_vault(&self) -> (r: &Pubkey)
        ensures
            *r == self.base_b_vault,
    {
        &self.base_b_vault
    }

    pub fn get_base_a_fee_receiver(&self) -> (r: &Pubkey)
        ensures
            *r == self.fee_state.base_a_fee_receiver,
    {
        &self.fee_state.base_a_fee_receiver
    }

    pub fn get_base_b_fee_receiver(&self) -> (r: &Pubkey)
        ensures
            *r == self.fee_state.base_b_fee_receiver,
    {
        &self.fee_state.base_b_fee_receiver
    }

    pub fn get_base_a_marginfi_account(&self) -> (r: &Pubkey)
        ensures
            *r == self.base_a_marginfi_account,
    {
        &self.base_a_marginfi_account
    }

    pub fn get_base_b_marginfi_account(&self) -> (r: &Pubkey)
        ensures
            *r == self.base_b_marginfi_account,
    {
        &self.base_b_marginfi_account
    }

    pub fn get_base_a_marginfi_group(&self) -> (r: &Pubkey)
        ensures
            *r == self.base_a_marginfi_group,
    {
        &self.base_a_marginfi_group
    }

    pub fn get_base_b_marginfi_group(&self) -> (r: &Pubkey)
        ensures
            *r == self.base_b_marginfi_group,
    {
        &self.base_b_marginfi_group
    }

    pub fn get_base_a_marginfi_bank(&self) -> (r: &Pubkey)
        ensures
            *r == self.base_a_marginfi_bank,
    {
        &self.base_a_marginfi_bank
    }

    pub fn get_base_b_marginfi_bank(&self) -> (r: &Pubkey)
        ensures
            *r == self.base_b_marginfi_bank,
    {
        &self.base_b_marginfi_bank
    }

    pub fn get_base_a_order_sequence_number(&self) -> (r: u64)
        ensures
            r == self.base_a_order_sequence_number,
    {
        self.base_a_order_sequence_number
    }

    pub fn get_base_b_order_sequence_number(&self) -> (r: u64)
        ensures
            r == self.base_b_order_sequence_number,
    {
        self.base_b_order_sequence_number
    }

    /// Whether the free list has a slot.
    pub fn has_free_block(&self) -> (r: bool)
        ensures
            r == (self.free_list_head_index != NIL),
    {
        proof {
            reveal(market_inv);
        }
        self.free_list_head_index != NIL
    }

    pub fn get_admin(&self) -> (r: &Pubkey)
        ensures
            *r == self.fee_state.admin,
    {
        &self.fee_state.admin
    }
}

impl PoolView {
    /// The record of the slot at `index`.
    pub open spec fn slot(self, index: u32) -> MarketSlot {
        slot_at(self.slots, index)
    }

    /// Whether the slot at `index` holds a seat.
    pub open spec fn is_seat(self, index: u32) -> bool {
        slot_ok(index, self.slots.len()) && slot_at(self.slots, index) is Seat
    }

    /// Whether the slot at `index` holds an order.
    pub open spec fn is_order(self, index: u32) -> bool {
        slot_ok(index, self.slots.len()) && slot_at(self.slots, index) is Order
    }

    /// This pool with another record in the slot at `index`.
    pub open spec fn set_slot(self, index: u32, slot: MarketSlot) -> PoolView {
        PoolView { slots: self.slots.update(index as int / BLOCK as int, slot), ..self }
    }

    /// This pool after the order at `index` left the book of the given tree
    /// pair and side and its slot became the head of the free list.
    pub open spec fn free_order(self, use_a_tree: bool, is_bid: bool, index: u32) -> PoolView {
        (PoolView {
            free: seq![index] + self.free,
            slots: self.slots.update(index as int / BLOCK as int, MarketSlot::Empty),
            ..self
        }).with_book(
            use_a_tree,
            is_bid,
            self.book(use_a_tree, is_bid).remove(place(self.book(use_a_tree, is_bid), index)),
        )
    }

    /// This pool after `order` was written into the first free slot and
    /// linked into the book of its tree pair and side, behind the orders of
    /// lower priority and before all others.
    pub open spec fn rest_order(self, order: RestingOrder) -> PoolView {
        (PoolView {
            free: self.free.drop_first(),
            slots: self.slots.update(
                self.free[0] as int / BLOCK as int,
                MarketSlot::Order(order),
            ),
            ..self
        }).with_book(
            order.is_a_tree,
            order.is_bid,
            self.book(order.is_a_tree, order.is_bid).insert(
                rank(self.book(order.is_a_tree, order.is_bid), order.spec_priority()),
                (self.free[0], order.spec_priority()),
            ),
        )
    }

    /// This pool after `shares` were added to, or taken from, a balance of
    /// the seat at `index`. It fails where the slot holds no seat, where more
    /// is taken than the balance, and where the balance leaves the range of
    /// quantities.
    pub open spec fn balance(self, index: u32, update_base_a: bool, is_increase: bool, shares: int)
        -> Result<PoolView, EngineError> {
        if !self.is_seat(index) {
            Err(EngineError::InvalidArgument)
        } else {
            match spec_update_balance(
                seat_in(self.slot(index)),
                update_base_a,
                is_increase,
                shares,
            ) {
                Ok(seat) => Ok(self.set_slot(index, MarketSlot::Seat(seat))),
                Err(e) => Err(e),
            }
        }
    }

    /// This pool after `amount` was added to the volume of the seat at
    /// `index`; unchanged where the slot holds no seat.
    pub open spec fn volume(self, index: u32, amount: int, use_a_tree: bool) -> PoolView {
        if !self.is_seat(index) {
            self
        } else {
            self.set_slot(
                index,
                MarketSlot::Seat(spec_record_volume(seat_in(self.slot(index)), amount, use_a_tree)),
            )
        }
    }

    /// Whether `trader` has a seat.
    pub open spec fn has_seat(self, trader: Seq<u8>) -> bool {
        exists|i: u32| self.seats.dom().contains(i) && #[trigger] self.seats[i] == trader
    }

    /// The slot index of the seat of `trader`; `NIL` where the trader has
    /// none.
    pub open spec fn trader_index_of(self, trader: Seq<u8>) -> u32 {
        if self.has_seat(trader) {
            choose|i: u32| self.seats.dom().contains(i) && #[trigger] self.seats[i] == trader
        } else {
            NIL
        }
    }

    /// What claiming a seat for `trader` does: it fails where the trader has
    /// one, and where no slot is free; otherwise the first free slot becomes
    /// the trader's seat, with nothing on it.
    pub open spec fn claim_seat(self, trader: Pubkey) -> Result<PoolView, EngineError> {
        if self.has_seat(trader@) {
            Err(EngineError::Nix(NixError::AlreadyClaimedSeat))
        } else if self.free.len() == 0 {
            Err(EngineError::Nix(NixError::InvalidFreeList))
        } else {
            Ok(
                PoolView {
                    free: self.free.drop_first(),
                    seats: self.seats.insert(self.free[0], trader@),
                    slots: self.slots.update(
                        self.free[0] as int / BLOCK as int,
                        MarketSlot::Seat(ClaimedSeat::spec_new_empty(trader)),
                    ),
                    ..self
                },
            )
        }
    }

    /// What a deposit to the seat at `index` does: it fails where the slot
    /// holds no seat; otherwise the shares are added to the balance.
    pub open spec fn deposit(self, index: u32, shares: int, update_base_a: bool) -> Result<
        PoolView,
        EngineError,
    > {
        if !self.is_seat(index) {
            Err(EngineError::Nix(NixError::InvalidDepositAccounts))
        } else {
            self.balance(index, update_base_a, true, shares)
        }
    }

    /// What growing the pool by one slot does: the new slot is empty and
    /// heads the free list.
    pub open spec fn expand(self) -> PoolView {
        PoolView {
            free: seq![(BLOCK * self.slots.len()) as u32] + self.free,
            slots: self.slots.push(MarketSlot::Empty),
            ..self
        }
    }
}

/// A trader has at most one seat on a market: after a seat was claimed for a
/// trader, claiming one for the same trader fails.
pub proof fn lemma_second_claim_fails(v: PoolView, trader: Pubkey)
    requires
        v.claim_seat(trader).is_ok(),
    ensures
        v.claim_seat(trader).unwrap().claim_seat(trader) == Err::<PoolView, _>(
            EngineError::Nix(NixError::AlreadyClaimedSeat),
        ),
{
    let v1 = v.claim_seat(trader).unwrap();
    assert(v1.seats.dom().contains(v.free[0]) && v1.seats[v.free[0]] == trader@);
}

/// A free list to whose head a slot that was set aside has been added meets
/// its invariant with no slot set aside.
proof fn lemma_free_after_push(
    f0: MarketFixed,
    d0: MarketDynamic,
    f1: MarketFixed,
    d1: MarketDynamic,
    index: u32,
)
    requires
        free_inv(f0, d0, set![index]),
        slot_ok(index, d0.slots@.len()),
        slot_at(d0.slots@, index) is Empty,
        d1.slots@ == d0.slots@,
        free_list(f1, d1) == seq![index] + free_list(f0, d0),
        f1.free_list_head_index == index,
    ensures
        free_inv(f1, d1, Set::empty()),
{
    let none = Set::<u32>::empty();
    let f = free_list(f0, d0);
    let g = free_list(f1, d1);
    lemma_slot_fits(index, d0.slots@.len());
    assert(g[0] == index);
    assert forall|k: int| 1 <= k < g.len() implies #[trigger] g[k] == f[k - 1] by {}
    assert forall|k: int| 0 <= k < g.len() implies slot_ok(#[trigger] g[k], d1.slots@.len())
        && !none.contains(g[k]) && slot_at(d1.slots@, g[k]) is Empty by {
        if k > 0 {
            assert(g[k] == f[k - 1]);
        }
    }
    assert forall|k: int, l: int| 0 <= k < l < g.len() implies g[k] != g[l] by {
        assert(g[l] == f[l - 1]);
        if k > 0 {
            assert(g[k] == f[k - 1]);
        }
    }
    assert forall|i: u32|
        slot_ok(i, d1.slots@.len()) && !none.contains(i) && (#[trigger] slot_at(
            d1.slots@,
            i,
        )) is Empty implies g.contains(i) by {
        if i == index {
            assert(g[0] == i);
        } else {
            assert(f.contains(i));
            let k = choose|k: int| 0 <= k < f.len() && f[k] == i;
            assert(g[k + 1] == i);
        }
    }
}

/// A tree of seats into which the seat of a slot that was set aside has
/// been inserted, for a trader who had none, meets its invariant with no slot
/// set aside.
proof fn lemma_seats_after_insert(
    f0: MarketFixed,
    d0: MarketDynamic,
    f1: MarketFixed,
    d1: MarketDynamic,
    index: u32,
    trader: Pubkey,
)
    requires
        seats_inv(f0, d0, set![index]),
        slot_ok(index, d0.slots@.len()),
        slot_at(d0.slots@, index) is Seat,
        seat_in(slot_at(d0.slots@, index)).trader == trader,
        d1.slots@ == d0.slots@,
        seats(f1, d1) == seats(f0, d0).insert(index, trader@),
        f1.claimed_seats_root_index != NIL,
        forall|i: u32|
            seats(f0, d0).dom().contains(i) ==> (#[trigger] seats(f0, d0)[i]) != trader@,
    ensures
        seats_inv(f1, d1, Set::empty()),
{
    let none = Set::<u32>::empty();
    let s = seats(f0, d0);
    let s1 = seats(f1, d1);
    assert(s1.dom() == s.dom().insert(index));
    assert(s1.dom().contains(index));
    assert(s1.dom().len() > 0) by {
        if s1.dom().len() == 0 {
            vstd::set_lib::lemma_set_empty_equivalency_len(s1.dom());
        }
    }
    assert forall|i: u32| s1.dom().contains(i) implies slot_ok(i, d1.slots@.len())
        && !none.contains(i) && (#[trigger] slot_at(d1.slots@, i)) is Seat && seat_in(
        slot_at(d1.slots@, i),
    ).trader@ == s1[i] by {
        if i != index {
            assert(s.dom().contains(i));
        }
    }
    assert forall|i: u32|
        slot_ok(i, d1.slots@.len()) && !none.contains(i) && (#[trigger] slot_at(
            d1.slots@,
            i,
        )) is Seat implies s1.dom().contains(i) by {
        if i != index {
            assert(s.dom().contains(i));
        }
    }
    assert forall|i: u32, j: u32|
        s1.dom().contains(i) && s1.dom().contains(j) && i != j implies #[trigger] s1[i]
        != #[trigger] s1[j] by {
        if i != index && j != index {
            assert(s[i] != s[j]);
        } else if i == index {
            assert(s[j] != trader@);
        } else {
            assert(s[i] != trader@);
        }
    }
}

impl DynamicAccount<MarketFixed, MarketDynamic> {
    /// Every slot of the pool is in the free list, in the tree of seats or in
    /// one book, according to its record; each book's best index is the slot
    /// of its last, best, entry; no two seats have one trader.
    pub open spec fn wf(&self) -> bool {
        market_inv(self.fixed, self.dynamic, Set::empty())
    }

    /// What the pool holds.
    pub open spec fn pool(&self) -> PoolView {
        pool_view(self.fixed, self.dynamic)
    }

    /// A copy of the market.
    pub fn snapshot(&self) -> (m: Self)
        ensures
            m.fixed == self.fixed,
            m.dynamic.links@ == self.dynamic.links@,
            m.dynamic.slots@ == self.dynamic.slots@,
            m.pool() == self.pool(),
            m.wf() == self.wf(),
    {
        let mut links: Vec<u64> = Vec::new();
        let mut i: usize = 0;
        while i < self.dynamic.links.len()
            invariant
                i <= self.dynamic.links@.len(),
                links@ == self.dynamic.links@.take(i as int),
            decreases self.dynamic.links@.len() - i,
        {
            links.push(self.dynamic.links[i]);
            proof {
                assert(links@ =~= self.dynamic.links@.take(i + 1));
            }
            i = i + 1;
        }
        let mut slots: Vec<MarketSlot> = Vec::new();
        let mut j: usize = 0;
        while j < self.dynamic.slots.len()
            invariant
                j <= self.dynamic.slots@.len(),
                slots@ == self.dynamic.slots@.take(j as int),
            decreases self.dynamic.slots@.len() - j,
        {
            slots.push(self.dynamic.slots[j]);
            proof {
                assert(slots@ =~= self.dynamic.slots@.take(j + 1));
            }
            j = j + 1;
        }
        proof {
            assert(links@ =~= self.dynamic.links@);
            assert(slots@ =~= self.dynamic.slots@);
        }
        let m = DynamicAccount { fixed: self.fixed, dynamic: MarketDynamic { links, slots } };
        proof {
            reveal(market_inv);
        }
        m
    }

    /// A market with the settings of the given header and an empty pool.
    pub fn new(fixed: MarketFixed) -> (m: Self)
        ensures
            m.wf(),
            same_settings(fixed, m.fixed),
            m.fixed.num_bytes_allocated == 0,
            m.dynamic.slots@.len() == 0,
            m.pool().free.len() == 0,
            m.pool().seats == Map::<u32, Seq<u8>>::empty(),
            forall|a: bool, b: bool| (#[trigger] m.pool().book(a, b)).len() == 0,
    {
        let mut fixed = fixed;
        fixed.num_bytes_allocated = 0;
        fixed.base_a_bids_root_index = NIL;
        fixed.base_a_bids_best_index = NIL;
        fixed.base_b_bids_root_index = NIL;
        fixed.base_b_bids_best_index = NIL;
        fixed.base_a_asks_root_index = NIL;
        fixed.base_a_asks_best_index = NIL;
        fixed.base_b_asks_root_index = NIL;
        fixed.base_b_asks_best_index = NIL;
        fixed.claimed_seats_root_index = NIL;
        fixed.free_list_head_index = NIL;
        let m = DynamicAccount {
            fixed,
            dynamic: MarketDynamic { links: Vec::new(), slots: Vec::new() },
        };
        proof {
            reveal(market_inv);
            assert(m.pool().seats.dom() =~= Set::<u32>::empty());
            assert(indices(Seq::<(u32, u64)>::empty()) =~= Seq::<u32>::empty());
        }
        m
    }

    pub fn get_base_a_mint(&self) -> (r: &Pubkey)
        ensures
            *r == self.fixed.base_a_mint,
    {
        self.fixed.get_base_a_mint()
    }

    pub fn get_base_b_mint(&self) -> (r: &Pubkey)
        ensures
            *r == self.fixed.base_b_mint,
    {
        self.fixed.get_base_b_mint()
    }

    /// Whether the free list has a slot.
    pub fn has_free_block(&self) -> (r: bool)
        requires
            self.wf(),
        ensures
            r == (self.pool().free.len() >= 1),
    {
        proof {
            reveal(market_inv);
        }
        self.fixed.free_list_head_index != NIL
    }

    /// Whether the free list has two slots.
    pub fn has_two_free_blocks(&self) -> (r: bool)
        requires
            self.wf(),
        ensures
            r == (self.pool().free.len() >= 2),
    {
        proof {
            reveal(market_inv);
        }
        let free_list_head_index: DataIndex = self.fixed.free_list_head_index;
        if free_list_head_index == NIL {
            return false;
        }
        free_has_next(&self.dynamic.links, free_list_head_index)
    }

    /// Tests what can be tested of a market that comes from outside: that
    /// the pool has links and a record for each slot allocated, and that the
    /// head of the free list and the best index of each book are `NIL` or
    /// a slot of the pool. A well-formed market passes.
    ///
    /// A market that passes need not be well formed: whether its links are
    /// those of the free list and the trees that its header and records
    /// name is not tested, and every operation on a market requires it. A
    /// caller who goes on with a market of unknown origin does so on trust.
    pub fn check_shape(&self) -> (r: Result<(), EngineError>)
        ensures
            r == if spec_shape_ok(self.fixed, self.dynamic) {
                Ok::<(), EngineError>(())
            } else {
                Err(EngineError::InvalidAccountData)
            },
    {
        let n = self.dynamic.slots.len();
        if n > 0x0249_2492 || self.dynamic.links.len() != BLOCK_WORDS * n {
            return Err(EngineError::InvalidAccountData);
        }
        if self.fixed.num_bytes_allocated as usize != (BLOCK as usize) * n {
            return Err(EngineError::InvalidAccountData);
        }
        let f = &self.fixed;
        if index_in_pool(f.free_list_head_index, n) && index_in_pool(f.base_a_bids_best_index, n)
            && index_in_pool(f.base_a_asks_best_index, n) && index_in_pool(
            f.base_b_bids_best_index,
            n,
        ) && index_in_pool(f.base_b_asks_best_index, n) {
            Ok(())
        } else {
            Err(EngineError::InvalidAccountData)
        }
    }

    /// The record of the slot at `index`, if it is a slot of the pool.
    pub fn get_slot(&self, index: DataIndex) -> (r: Option<MarketSlot>)
        ensures
            r.is_some() == slot_ok(index, self.dynamic.slots@.len()),
            r.is_some() ==> r.unwrap() == slot_at(self.dynamic.slots@, index),
    {
        proof {
            reveal(market_inv);
        }
        if index % BLOCK != 0 {
            return None;
        }
        let at = (index / BLOCK) as usize;
        if at >= self.dynamic.slots.len() {
            return None;
        }
        Some(self.dynamic.slots[at])
    }

    /// The slot index of the seat of `trader`, or `NIL` where the trader has
    /// none.
    pub fn get_trader_index(&self, trader: &Pubkey) -> (r: DataIndex)
        requires
            self.wf(),
        ensures
            r == self.pool().trader_index_of(trader@),
            (r == NIL) == !self.pool().has_seat(trader@),
            r != NIL ==> self.pool().seats.dom().contains(r) && self.pool().seats[r] == trader@
                && is_seat(self.dynamic, r) && seat_in(slot_at(self.dynamic.slots@, r)).trader@
                == trader@,
    {
        proof {
            reveal(market_inv);
        }
        let r = seat_lookup(&self.dynamic.links, self.fixed.claimed_seats_root_index, trader);
        proof {
            let s = self.pool().seats;
            if r != NIL {
                assert(s.dom().contains(r) && s[r] == trader@);
                let i = self.pool().trader_index_of(trader@);
                assert(s.dom().contains(i) && s[i] == trader@);
                if i != r {
                    assert(s[i] != s[r]);
                }
            } else {
                assert forall|i: u32| s.dom().contains(i) implies (#[trigger] s[i])
                    != trader@ by {}
            }
        }
        r
    }

    /// The trader of the seat at `index`.
    pub fn get_trader_key_by_index(&self, index: DataIndex) -> (r: &Pubkey)
        requires
            is_seat(self.dynamic, index),
        ensures
            *r == seat_in(slot_at(self.dynamic.slots@, index)).trader,
    {
        proof {
            reveal(market_inv);
        }
        match &self.dynamic.slots[(index / BLOCK) as usize] {
            MarketSlot::Seat(s) => &s.trader,
            _ => &self.fixed.base_a_mint,
        }
    }

    /// The order at `index`.
    pub fn get_order_by_index(&self, index: DataIndex) -> (r: &RestingOrder)
        requires
            slot_ok(index, self.dynamic.slots@.len()),
            slot_at(self.dynamic.slots@, index) is Order,
        ensures
            *r == order_in(slot_at(self.dynamic.slots@, index)),
    {
        proof {
            reveal(market_inv);
        }
        match &self.dynamic.slots[(index / BLOCK) as usize] {
            MarketSlot::Order(o) => o,
            _ => { vstd::pervasive::unreached() },
        }
    }

    /// Grows the pool by one slot and puts it at the head of the free list.
    /// Fails, and changes nothing, where the pool's size would leave 32 bits.
    pub fn market_expand(&mut self) -> (r: Result<(), EngineError>)
        requires
            old(self).wf(),
        ensures
            final(self).wf(),
            same_settings(old(self).fixed, final(self).fixed),
            indexes_kept(old(self).fixed, final(self).fixed, Set::empty()),
            r.is_ok() == (old(self).fixed.num_bytes_allocated + BLOCK <= u32::MAX),
            r.is_ok() ==> final(self).pool() == old(self).pool().expand()
                && final(self).fixed.num_bytes_allocated == old(self).fixed.num_bytes_allocated
                + BLOCK,
            r.is_err() ==> r == Err::<(), _>(EngineError::Nix(NixError::NumericalOverflow))
                && final(self).pool() == old(self).pool() && final(self).fixed == old(self).fixed,
    {
        proof {
            reveal(market_inv);
        }
        let index: DataIndex = self.fixed.num_bytes_allocated;
        if index > u32::MAX - BLOCK {
            return Err(EngineError::Nix(NixError::NumericalOverflow));
        }
        let ghost f0 = self.fixed;
        let ghost d0 = self.dynamic;
        let ghost none = Set::<u32>::empty();
        let ghost det = set![index];
        let ghost n = d0.slots@.len();
        self.dynamic.slots.push(MarketSlot::Empty);
        let ghost dm = self.dynamic;
        proof {
            assert(index == 112 * n);
            assert(slot_ok(index, n + 1)) by (nonlinear_arith)
                requires
                    index == 112 * n,
            ;
            assert forall|i: u32| slot_ok(i, n + 1) && i != index implies slot_ok(i, n)
                && #[trigger] slot_at(dm.slots@, i) == slot_at(d0.slots@, i) by {
                assert(i / 112 < n) by (nonlinear_arith)
                    requires
                        i % 112 == 0,
                        i / 112 < n + 1,
                        i != 112 * n,
                ;
            }
            assert forall|i: u32| slot_ok(i, n) implies slot_ok(i, n + 1) && i != index
                && #[trigger] slot_at(d0.slots@, i) == slot_at(dm.slots@, i) by {
                assert(i != 112 * n) by (nonlinear_arith)
                    requires
                        i % 112 == 0,
                        i / 112 < n,
                ;
            }
            assert(slot_at(dm.slots@, index) is Empty) by {
                assert(index as int / 112 == n) by (nonlinear_arith)
                    requires
                        index == 112 * n,
                ;
            }
            lemma_free_still(f0, d0, f0, dm, none, det);
            lemma_seats_still(f0, d0, f0, dm, none, det);
            lemma_book_still(f0, d0, f0, dm, none, det, true, true);
            lemma_book_still(f0, d0, f0, dm, none, det, true, false);
            lemma_book_still(f0, d0, f0, dm, none, det, false, true);
            lemma_book_still(f0, d0, f0, dm, none, det, false, false);
            let f = free_list(f0, dm);
            assert forall|k: int, t: u32|
                #![trigger f[k], det.contains(t)]
                0 <= k < f.len() && det.contains(t) implies apart(f[k], t) by {
                lemma_slots_apart(f[k], t, dm.slots@.len());
            }
        }
        let head = self.fixed.free_list_head_index;
        let new_len = self.dynamic.links.len() + BLOCK_WORDS;
        let new_head = free_add_grown(&mut self.dynamic.links, head, index, new_len);
        self.fixed.num_bytes_allocated = index + BLOCK;
        self.fixed.free_list_head_index = new_head;
        proof {
            let f1 = self.fixed;
            let d1 = self.dynamic;
            assert forall|t: u32| #[trigger] det.contains(t) implies slot_ok(t, dm.slots@.len())
                && det.contains(t) by {}
            lemma_seats_kept(f0, dm, d1.links@, det, det);
            lemma_book_kept(f0, dm, d1.links@, det, det, true, true);
            lemma_book_kept(f0, dm, d1.links@, det, det, true, false);
            lemma_book_kept(f0, dm, d1.links@, det, det, false, true);
            lemma_book_kept(f0, dm, d1.links@, det, det, false, false);
            lemma_seats_still(f0, dm, f1, d1, det, none);
            lemma_book_still(f0, dm, f1, d1, det, none, true, true);
            lemma_book_still(f0, dm, f1, d1, det, none, true, false);
            lemma_book_still(f0, dm, f1, d1, det, none, false, true);
            lemma_book_still(f0, dm, f1, d1, det, none, false, false);
            lemma_free_after_push(f0, dm, f1, d1, index);
        }
        Ok(())
    }

    /// Claims a seat for `trader` in the first free slot. Fails, and changes
    /// nothing, where the trader has a seat, and where no slot is free.
    pub fn claim_seat(&mut self, trader: &Pubkey) -> (r: Result<(), EngineError>)
        requires
            old(self).wf(),
        ensures
            final(self).wf(),
            same_settings(old(self).fixed, final(self).fixed),
            books_kept_but(old(self).fixed, final(self).fixed, Set::empty()),
            final(self).fixed.num_bytes_allocated == old(self).fixed.num_bytes_allocated,
            match old(self).pool().claim_seat(*trader) {
                Ok(v) => r.is_ok() && final(self).pool() == v,
                Err(e) => r == Err::<(), _>(e) && final(self).pool() == old(self).pool()
                    && final(self).fixed == old(self).fixed,
            },
    {
        proof {
            reveal(market_inv);
        }
        let ghost f0 = self.fixed;
        let ghost d0 = self.dynamic;
        let existing = self.get_trader_index(trader);
        if existing != NIL {
            return Err(EngineError::Nix(NixError::AlreadyClaimedSeat));
        }
        let free_address: DataIndex = get_free_address_on_market_fixed(
            &mut self.fixed,
            &mut self.dynamic,
        );
        if free_address == NIL {
            return Err(EngineError::Nix(NixError::InvalidFreeList));
        }
        let claimed_seat: ClaimedSeat = ClaimedSeat::new_empty(*trader);
        let ghost fa = self.fixed;
        let ghost da = self.dynamic;
        let ghost det = set![free_address];
        let ghost none = Set::<u32>::empty();
        self.dynamic.slots.set((free_address / BLOCK) as usize, MarketSlot::Seat(claimed_seat));
        let ghost dm = self.dynamic;
        proof {
            lemma_slot_fits(free_address, da.slots@.len());
            assert forall|i: u32| slot_ok(i, da.slots@.len()) implies #[trigger] slot_at(
                dm.slots@,
                i,
            ) == if i == free_address {
                MarketSlot::Seat(claimed_seat)
            } else {
                slot_at(da.slots@, i)
            } by {
                lemma_slot_update(da.slots@, free_address, MarketSlot::Seat(claimed_seat), i);
            }
            lemma_free_still(fa, da, fa, dm, det, det);
            lemma_seats_still(fa, da, fa, dm, det, det);
            lemma_book_still(fa, da, fa, dm, det, det, true, true);
            lemma_book_still(fa, da, fa, dm, det, det, true, false);
            lemma_book_still(fa, da, fa, dm, det, det, false, true);
            lemma_book_still(fa, da, fa, dm, det, det, false, false);
            let s = seats(fa, dm);
            assert forall|i: u32, t: u32|
                #![trigger s.dom().contains(i), det.contains(t)]
                s.dom().contains(i) && det.contains(t) implies apart(i, t) by {
                assert(slot_at(dm.slots@, i) is Seat);
                lemma_slots_apart(i, t, dm.slots@.len());
            }
        }
        let root = self.fixed.claimed_seats_root_index;
        let new_root = seat_insert(&mut self.dynamic.links, root, free_address, trader);
        self.fixed.claimed_seats_root_index = new_root;
        proof {
            let f1 = self.fixed;
            let d1 = self.dynamic;
            let s = seats(fa, dm);
            let touched = s.dom().insert(free_address);
            assert forall|t: u32| #[trigger] touched.contains(t) implies slot_ok(
                t,
                dm.slots@.len(),
            ) && (det.contains(t) || slot_at(dm.slots@, t) is Seat) by {
                if t != free_address {
                    assert(s.dom().contains(t));
                    assert(slot_at(dm.slots@, t) is Seat);
                }
            }
            lemma_free_kept(fa, dm, d1.links@, det, touched);
            lemma_book_kept(fa, dm, d1.links@, det, touched, true, true);
            lemma_book_kept(fa, dm, d1.links@, det, touched, true, false);
            lemma_book_kept(fa, dm, d1.links@, det, touched, false, true);
            lemma_book_kept(fa, dm, d1.links@, det, touched, false, false);
            lemma_free_still(fa, dm, f1, d1, det, none);
            lemma_book_still(fa, dm, f1, d1, det, none, true, true);
            lemma_book_still(fa, dm, f1, d1, det, none, true, false);
            lemma_book_still(fa, dm, f1, d1, det, none, false, true);
            lemma_book_still(fa, dm, f1, d1, det, none, false, false);
            assert(seats(f0, d0) == s);
            assert forall|i: u32| s.dom().contains(i) implies (#[trigger] s[i]) != trader@ by {
                if s[i] == trader@ {
                    assert(pool_view(f0, d0).has_seat(trader@));
                }
            }
            lemma_seats_after_insert(fa, dm, f1, d1, free_address, *trader);
            assert(crate::slot_pool::seats_of(d1.links@, new_root) == s.insert(
                free_address,
                trader@,
            ));
        }
        Ok(())
    }

    /// Credits `asset_shares` to the seat at `trader_index`, on the balance
    /// of asset A or asset B. Fails, and changes nothing, where the index is
    /// not that of a seat, and where the balance would leave the range of
    /// quantities.
    pub fn deposit(
        &mut self,
        trader_index: DataIndex,
        asset_shares: WrappedI80F48,
        update_base_a: bool,
    ) -> (r: Result<(), EngineError>)
        requires
            old(self).wf(),
        ensures
            final(self).wf(),
            final(self).fixed == old(self).fixed,
            match old(self).pool().deposit(trader_index, asset_shares@, update_base_a) {
                Ok(v) => r.is_ok() && final(self).pool() == v,
                Err(e) => r == Err::<(), _>(e) && final(self).pool() == old(self).pool(),
            },
    {
        match self.get_slot(trader_index) {
            Some(MarketSlot::Seat(_)) => {},
            _ => { return Err(EngineError::Nix(NixError::InvalidDepositAccounts)); },
        }
        update_balance(
            &mut self.fixed,
            &mut self.dynamic,
            trader_index,
            update_base_a,
            true,
            asset_shares,
        )
    }
}

} // verus!
