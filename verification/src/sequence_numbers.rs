//! The sequence numbers of the orders in the books stay below the counters
//! of the header.

use crate::claimed_seat::ClaimedSeat;
use crate::dynamic_account::DynamicAccount;
use crate::global::GlobalTradeView;
use crate::invariants::{lemma_market_slots_are_parted, lemma_market_slots_match_their_trees};
use crate::marginfi_utils::spec_buffer_factor;
use crate::market::{
    is_order_of, order_in, seat_in, slot_ok, MarketDynamic, MarketFixed, MarketSlot, PoolView,
};
use crate::market_helpers::lemma_slot_update;
use crate::matching::{
    makers, spec_fill, spec_match, spec_remove_and_update_balances, spec_settle_fill, spec_step,
    spec_taker_balances, AddOrderToMarketArgs, MatchContext, MatchState, StepOutcome,
};
use crate::place_order::{
    sequence_number_of, spec_after_match, spec_initial_state, spec_place_order,
};
use crate::quantities::WrappedI80F48;
use crate::resting_order::RestingOrder;
use crate::round_trip::numbers_at_most;
use crate::slot_pool::{indices, lemma_place, lemma_rank_bounds, place, rank};
use vstd::prelude::*;

verus! {

/// Whether the free list links empty slots, each once, and each book holds
/// orders of its tree pair and side, each in a slot of its own.
pub open spec fn books_hold_orders(pool: PoolView) -> bool {
    let n = pool.slots.len();
    &&& forall|k: int|
        0 <= k < pool.free.len() ==> slot_ok(#[trigger] pool.free[k], n) && pool.slot(
            pool.free[k],
        ) is Empty
    &&& forall|k: int, l: int|
        0 <= k < l < pool.free.len() ==> #[trigger] pool.free[k] != #[trigger] pool.free[l]
    &&& forall|a: bool, b: bool, k: int|
        0 <= k < pool.book(a, b).len() ==> slot_ok((#[trigger] pool.book(a, b)[k]).0, n)
            && is_order_of(pool.slot(pool.book(a, b)[k].0), a, b)
    &&& forall|a: bool, b: bool, k: int, l: int|
        0 <= k < l < pool.book(a, b).len() ==> (#[trigger] pool.book(a, b)[k]).0 != (
        #[trigger] pool.book(a, b)[l]).0
}

/// Whether the books hold orders and no order of tree pair A has a sequence
/// number above `na`, none of tree pair B one above `nb`.
pub open spec fn numbered(pool: PoolView, na: u64, nb: u64) -> bool {
    &&& books_hold_orders(pool)
    &&& numbers_at_most(pool, true, na)
    &&& numbers_at_most(pool, false, nb)
}

/// A slot that holds no order and gets another record keeps the books and
/// their numbers, where the slot is in no book and the free list keeps to
/// empty slots.
proof fn lemma_other_slot_changed(pool: PoolView, index: u32, record: MarketSlot, na: u64, nb: u64)
    requires
        numbered(pool, na, nb),
        slot_ok(index, pool.slots.len()),
        !(pool.slot(index) is Order),
        !(pool.slot(index) is Empty),
        !(record is Empty),
    ensures
        books_hold_orders(pool.set_slot(index, record)),
        numbers_at_most(pool.set_slot(index, record), true, na),
        numbers_at_most(pool.set_slot(index, record), false, nb),
{
    let after = pool.set_slot(index, record);
    let n = pool.slots.len();
    assert forall|i: u32| slot_ok(i, n) implies #[trigger] after.slot(i) == if i == index {
        record
    } else {
        pool.slot(i)
    } by {
        lemma_slot_update(pool.slots, index, record, i);
    }
    assert forall|a: bool, b: bool, k: int| 0 <= k < after.book(a, b).len() implies slot_ok(
        (#[trigger] after.book(a, b)[k]).0,
        n,
    ) && is_order_of(after.slot(after.book(a, b)[k].0), a, b) && after.slot(after.book(a, b)[k].0)
        == pool.slot(after.book(a, b)[k].0) by {
        assert(after.book(a, b)[k] == pool.book(a, b)[k]);
        assert(is_order_of(pool.slot(pool.book(a, b)[k].0), a, b));
    }
    assert forall|a: bool, b: bool, k: int, l: int|
        0 <= k < l < after.book(a, b).len() implies (#[trigger] after.book(a, b)[k]).0 != (
    #[trigger] after.book(a, b)[l]).0 by {
        assert(after.book(a, b)[k] == pool.book(a, b)[k]);
        assert(after.book(a, b)[l] == pool.book(a, b)[l]);
    }
    assert forall|k: int| 0 <= k < after.free.len() implies slot_ok(#[trigger] after.free[k], n)
        && after.slot(after.free[k]) is Empty by {
        assert(pool.slot(pool.free[k]) is Empty);
    }
    assert forall|b: bool, k: int| 0 <= k < after.book(true, b).len() implies order_in(
        after.slot((#[trigger] after.book(true, b)[k]).0),
    ).sequence_number <= na by {
        assert(after.book(true, b)[k] == pool.book(true, b)[k]);
        assert(is_order_of(pool.slot(pool.book(true, b)[k].0), true, b));
        assert(order_in(pool.slot(pool.book(true, b)[k].0)).sequence_number <= na);
    }
    assert forall|b: bool, k: int| 0 <= k < after.book(false, b).len() implies order_in(
        after.slot((#[trigger] after.book(false, b)[k]).0),
    ).sequence_number <= nb by {
        assert(after.book(false, b)[k] == pool.book(false, b)[k]);
        assert(is_order_of(pool.slot(pool.book(false, b)[k].0), false, b));
        assert(order_in(pool.slot(pool.book(false, b)[k].0)).sequence_number <= nb);
    }
}

/// A change of a seat keeps the books and their numbers.
pub proof fn lemma_seat_changed(pool: PoolView, index: u32, seat: ClaimedSeat, na: u64, nb: u64)
    requires
        numbered(pool, na, nb),
        pool.is_seat(index),
    ensures
        numbered(pool.set_slot(index, MarketSlot::Seat(seat)), na, nb),
{
    lemma_other_slot_changed(pool, index, MarketSlot::Seat(seat), na, nb);
}

/// The place before of the entry at place `k` after the entry at place `p`
/// left.
pub open spec fn before_leaving(mine: bool, k: int, p: int) -> int {
    if mine && k >= p {
        k + 1
    } else {
        k
    }
}

/// Whether the entry at place `k` of a book after is an entry of the book
/// before the order at place `p` of the book of `pair` and `side` left its
/// slot `index`: in another slot, with its record as it was.
pub open spec fn carried(
    pool: PoolView,
    after: PoolView,
    a: bool,
    b: bool,
    k: int,
    pair: bool,
    side: bool,
    p: int,
    index: u32,
) -> bool {
    let j = before_leaving(a == pair && b == side, k, p);
    &&& 0 <= j < pool.book(a, b).len()
    &&& after.book(a, b)[k] == pool.book(a, b)[j]
    &&& pool.book(a, b)[j].0 != index
    &&& after.slot(pool.book(a, b)[j].0) == pool.slot(pool.book(a, b)[j].0)
}


/// The entries of the books after an order left: each is an entry before,
/// in another slot than the one that was freed, and its record is as it
/// was.
proof fn lemma_entries_after_leaving(pool: PoolView, use_a_tree: bool, is_bid: bool, index: u32)
    requires
        books_hold_orders(pool),
        indices(pool.book(use_a_tree, is_bid)).contains(index),
    ensures
        slot_ok(index, pool.slots.len()),
        pool.free_order(use_a_tree, is_bid, index).slots.len() == pool.slots.len(),
        pool.free_order(use_a_tree, is_bid, index).free == seq![index] + pool.free,
        pool.free_order(use_a_tree, is_bid, index).slot(index) is Empty,
        pool.slot(index) is Order,
        forall|a: bool, b: bool|
            (#[trigger] pool.free_order(use_a_tree, is_bid, index).book(a, b)).len() == pool.book(
                a,
                b,
            ).len() - if a == use_a_tree && b == is_bid {
                1int
            } else {
                0int
            },
        forall|a: bool, b: bool, k: int|
            0 <= k < pool.free_order(use_a_tree, is_bid, index).book(a, b).len()
                ==> #[trigger] carried(
                pool,
                pool.free_order(use_a_tree, is_bid, index),
                a,
                b,
                k,
                use_a_tree,
                is_bid,
                place(pool.book(use_a_tree, is_bid), index),
                index,
            ),
{
    let after = pool.free_order(use_a_tree, is_bid, index);
    let n = pool.slots.len();
    let book = pool.book(use_a_tree, is_bid);
    lemma_place(book, index);
    let p = place(book, index);
    assert(slot_ok(pool.book(use_a_tree, is_bid)[p].0, n));
    assert(is_order_of(pool.slot(pool.book(use_a_tree, is_bid)[p].0), use_a_tree, is_bid));
    lemma_slot_update(pool.slots, index, MarketSlot::Empty, index);
    assert(after.book(use_a_tree, is_bid) == book.remove(p));
    assert forall|a: bool, b: bool|
        (#[trigger] after.book(a, b)).len() == pool.book(a, b).len() - if a == use_a_tree && b
            == is_bid {
            1int
        } else {
            0int
        } by {
        if !(a == use_a_tree && b == is_bid) {
            assert(after.book(a, b) == pool.book(a, b));
        }
    }
    assert forall|a: bool, b: bool, k: int|
        0 <= k < after.book(a, b).len() implies #[trigger] carried(
        pool,
        after,
        a,
        b,
        k,
        use_a_tree,
        is_bid,
        p,
        index,
    ) by {
        let j = before_leaving(a == use_a_tree && b == is_bid, k, p);
        if a == use_a_tree && b == is_bid {
            assert(after.book(a, b) == book.remove(p));
            if j < p {
                assert(book[j].0 != book[p].0);
            } else {
                assert(book[p].0 != book[j].0);
            }
        } else {
            assert(after.book(a, b) == pool.book(a, b));
            assert(is_order_of(pool.slot(pool.book(a, b)[j].0), a, b));
        }
        assert(slot_ok(pool.book(a, b)[j].0, n));
        lemma_slot_update(pool.slots, index, MarketSlot::Empty, pool.book(a, b)[j].0);
    }
}

/// An order that leaves its book, and whose slot is freed, keeps the books
/// and their numbers.
pub proof fn lemma_order_left(
    pool: PoolView,
    use_a_tree: bool,
    is_bid: bool,
    index: u32,
    na: u64,
    nb: u64,
)
    requires
        numbered(pool, na, nb),
        indices(pool.book(use_a_tree, is_bid)).contains(index),
    ensures
        numbered(pool.free_order(use_a_tree, is_bid, index), na, nb),
{
    lemma_order_left_books(pool, use_a_tree, is_bid, index);
    lemma_order_left_numbers(pool, use_a_tree, is_bid, index, true, na);
    lemma_order_left_numbers(pool, use_a_tree, is_bid, index, false, nb);
}

proof fn lemma_order_left_books(pool: PoolView, use_a_tree: bool, is_bid: bool, index: u32)
    requires
        books_hold_orders(pool),
        indices(pool.book(use_a_tree, is_bid)).contains(index),
    ensures
        books_hold_orders(pool.free_order(use_a_tree, is_bid, index)),
{
    let after = pool.free_order(use_a_tree, is_bid, index);
    let n = pool.slots.len();
    let p = place(pool.book(use_a_tree, is_bid), index);
    lemma_entries_after_leaving(pool, use_a_tree, is_bid, index);
    assert forall|a: bool, b: bool, k: int| 0 <= k < after.book(a, b).len() implies slot_ok(
        (#[trigger] after.book(a, b)[k]).0,
        n,
    ) && is_order_of(after.slot(after.book(a, b)[k].0), a, b) by {
        let j = before_leaving(a == use_a_tree && b == is_bid, k, p);
        assert(carried(pool, after, a, b, k, use_a_tree, is_bid, p, index));
        assert(is_order_of(pool.slot(pool.book(a, b)[j].0), a, b));
    }
    assert forall|a: bool, b: bool, k: int, l: int|
        0 <= k < l < after.book(a, b).len() implies (#[trigger] after.book(a, b)[k]).0 != (
    #[trigger] after.book(a, b)[l]).0 by {
        let jk = before_leaving(a == use_a_tree && b == is_bid, k, p);
        let jl = before_leaving(a == use_a_tree && b == is_bid, l, p);
        assert(carried(pool, after, a, b, k, use_a_tree, is_bid, p, index));
        assert(carried(pool, after, a, b, l, use_a_tree, is_bid, p, index));
        assert(pool.book(a, b)[jk].0 != pool.book(a, b)[jl].0);
    }
    assert forall|k: int| 0 <= k < after.free.len() implies slot_ok(#[trigger] after.free[k], n)
        && after.slot(after.free[k]) is Empty by {
        if k > 0 {
            assert(after.free[k] == pool.free[k - 1]);
            assert(pool.slot(pool.free[k - 1]) is Empty);
            lemma_slot_update(pool.slots, index, MarketSlot::Empty, pool.free[k - 1]);
        }
    }
    assert forall|k: int, l: int| 0 <= k < l < after.free.len() implies #[trigger] after.free[k]
        != #[trigger] after.free[l] by {
        assert(after.free[l] == pool.free[l - 1]);
        assert(pool.slot(pool.free[l - 1]) is Empty);
        if k > 0 {
            assert(after.free[k] == pool.free[k - 1]);
        }
    }
}

proof fn lemma_order_left_numbers(
    pool: PoolView,
    use_a_tree: bool,
    is_bid: bool,
    index: u32,
    pair: bool,
    bound: u64,
)
    requires
        books_hold_orders(pool),
        numbers_at_most(pool, pair, bound),
        indices(pool.book(use_a_tree, is_bid)).contains(index),
    ensures
        numbers_at_most(pool.free_order(use_a_tree, is_bid, index), pair, bound),
{
    let after = pool.free_order(use_a_tree, is_bid, index);
    let p = place(pool.book(use_a_tree, is_bid), index);
    lemma_entries_after_leaving(pool, use_a_tree, is_bid, index);
    assert forall|b: bool, k: int| 0 <= k < after.book(pair, b).len() implies order_in(
        after.slot((#[trigger] after.book(pair, b)[k]).0),
    ).sequence_number <= bound by {
        let j = before_leaving(pair == use_a_tree && b == is_bid, k, p);
        assert(carried(pool, after, pair, b, k, use_a_tree, is_bid, p, index));
        assert(order_in(pool.slot(pool.book(pair, b)[j].0)).sequence_number <= bound);
    }
}

/// An order that is replaced in its slot by one of the same tree pair, side
/// and sequence number keeps the books and their numbers.
pub proof fn lemma_order_changed(pool: PoolView, index: u32, order: RestingOrder, na: u64, nb: u64)
    requires
        numbered(pool, na, nb),
        pool.is_order(index),
        order.is_a_tree == order_in(pool.slot(index)).is_a_tree,
        order.is_bid == order_in(pool.slot(index)).is_bid,
        order.sequence_number == order_in(pool.slot(index)).sequence_number,
    ensures
        numbered(pool.set_slot(index, MarketSlot::Order(order)), na, nb),
{
    let after = pool.set_slot(index, MarketSlot::Order(order));
    let n = pool.slots.len();
    assert forall|i: u32| slot_ok(i, n) implies #[trigger] after.slot(i) == if i == index {
        MarketSlot::Order(order)
    } else {
        pool.slot(i)
    } by {
        lemma_slot_update(pool.slots, index, MarketSlot::Order(order), i);
    }
    assert forall|a: bool, b: bool, k: int| 0 <= k < after.book(a, b).len() implies slot_ok(
        (#[trigger] after.book(a, b)[k]).0,
        n,
    ) && is_order_of(after.slot(after.book(a, b)[k].0), a, b) && order_in(
        after.slot(after.book(a, b)[k].0),
    ).sequence_number == order_in(pool.slot(after.book(a, b)[k].0)).sequence_number by {
        assert(after.book(a, b)[k] == pool.book(a, b)[k]);
        assert(is_order_of(pool.slot(pool.book(a, b)[k].0), a, b));
    }
    assert forall|a: bool, b: bool, k: int, l: int|
        0 <= k < l < after.book(a, b).len() implies (#[trigger] after.book(a, b)[k]).0 != (
    #[trigger] after.book(a, b)[l]).0 by {
        assert(after.book(a, b)[k] == pool.book(a, b)[k]);
        assert(after.book(a, b)[l] == pool.book(a, b)[l]);
    }
    assert forall|k: int| 0 <= k < after.free.len() implies slot_ok(#[trigger] after.free[k], n)
        && after.slot(after.free[k]) is Empty by {
        assert(pool.slot(pool.free[k]) is Empty);
    }
    assert forall|b: bool, k: int| 0 <= k < after.book(true, b).len() implies order_in(
        after.slot((#[trigger] after.book(true, b)[k]).0),
    ).sequence_number <= na by {
        assert(after.book(true, b)[k] == pool.book(true, b)[k]);
        assert(is_order_of(pool.slot(pool.book(true, b)[k].0), true, b));
        assert(order_in(pool.slot(pool.book(true, b)[k].0)).sequence_number <= na);
    }
    assert forall|b: bool, k: int| 0 <= k < after.book(false, b).len() implies order_in(
        after.slot((#[trigger] after.book(false, b)[k]).0),
    ).sequence_number <= nb by {
        assert(after.book(false, b)[k] == pool.book(false, b)[k]);
        assert(is_order_of(pool.slot(pool.book(false, b)[k].0), false, b));
        assert(order_in(pool.slot(pool.book(false, b)[k].0)).sequence_number <= nb);
    }
}

/// An order that rests in the first free slot keeps the books, and the
/// numbers where its own is within the bound of its tree pair.
pub proof fn lemma_order_rested(pool: PoolView, order: RestingOrder, na: u64, nb: u64)
    requires
        numbered(pool, na, nb),
        pool.free.len() > 0,
        order.sequence_number <= if order.is_a_tree {
            na
        } else {
            nb
        },
    ensures
        numbered(pool.rest_order(order), na, nb),
{
    let after = pool.rest_order(order);
    let n = pool.slots.len();
    let index = pool.free[0];
    let book = pool.book(order.is_a_tree, order.is_bid);
    let r = rank(book, order.spec_priority());
    lemma_rank_bounds(book, order.spec_priority());
    assert(slot_ok(pool.free[0], n) && pool.slot(pool.free[0]) is Empty);
    assert forall|i: u32| slot_ok(i, n) implies #[trigger] after.slot(i) == if i == index {
        MarketSlot::Order(order)
    } else {
        pool.slot(i)
    } by {
        lemma_slot_update(pool.slots, index, MarketSlot::Order(order), i);
    }
    assert(after.book(order.is_a_tree, order.is_bid) == book.insert(
        r,
        (index, order.spec_priority()),
    ));
    // Each entry after is the new one or an entry before, away from the slot
    // that was taken.
    assert forall|a: bool, b: bool, k: int| 0 <= k < after.book(a, b).len() implies ({
        let mine = a == order.is_a_tree && b == order.is_bid;
        let j = if mine && k > r {
            k - 1
        } else {
            k
        };
        if mine && k == r {
            (#[trigger] after.book(a, b)[k]).0 == index
        } else {
            &&& 0 <= j < pool.book(a, b).len()
            &&& after.book(a, b)[k] == pool.book(a, b)[j]
            &&& pool.book(a, b)[j].0 != index
        }
    }) by {
        let mine = a == order.is_a_tree && b == order.is_bid;
        let j = if mine && k > r {
            k - 1
        } else {
            k
        };
        if mine {
            assert(after.book(a, b) == book.insert(r, (index, order.spec_priority())));
        } else {
            assert(after.book(a, b) == pool.book(a, b));
        }
        if !(mine && k == r) {
            assert(is_order_of(pool.slot(pool.book(a, b)[j].0), a, b));
        }
    }
    assert forall|a: bool, b: bool, k: int| 0 <= k < after.book(a, b).len() implies slot_ok(
        (#[trigger] after.book(a, b)[k]).0,
        n,
    ) && is_order_of(after.slot(after.book(a, b)[k].0), a, b) by {
        let mine = a == order.is_a_tree && b == order.is_bid;
        let j = if mine && k > r {
            k - 1
        } else {
            k
        };
        if !(mine && k == r) {
            assert(after.book(a, b)[k] == pool.book(a, b)[j]);
            assert(is_order_of(pool.slot(pool.book(a, b)[j].0), a, b));
        }
    }
    assert forall|a: bool, b: bool, k: int, l: int|
        0 <= k < l < after.book(a, b).len() implies (#[trigger] after.book(a, b)[k]).0 != (
    #[trigger] after.book(a, b)[l]).0 by {
        let mine = a == order.is_a_tree && b == order.is_bid;
        let jk = if mine && k > r {
            k - 1
        } else {
            k
        };
        let jl = if mine && l > r {
            l - 1
        } else {
            l
        };
        if mine && k == r {
            assert(after.book(a, b)[l] == pool.book(a, b)[jl]);
        } else if mine && l == r {
            assert(after.book(a, b)[k] == pool.book(a, b)[jk]);
        } else {
            assert(after.book(a, b)[k] == pool.book(a, b)[jk]);
            assert(after.book(a, b)[l] == pool.book(a, b)[jl]);
            assert(pool.book(a, b)[jk].0 != pool.book(a, b)[jl].0);
        }
    }
    assert forall|k: int| 0 <= k < after.free.len() implies slot_ok(#[trigger] after.free[k], n)
        && after.slot(after.free[k]) is Empty by {
        assert(after.free[k] == pool.free[k + 1]);
        assert(pool.free[0] != pool.free[k + 1]);
    }
    assert forall|k: int, l: int| 0 <= k < l < after.free.len() implies #[trigger] after.free[k]
        != #[trigger] after.free[l] by {
        assert(after.free[k] == pool.free[k + 1]);
        assert(after.free[l] == pool.free[l + 1]);
    }
    assert forall|b: bool, k: int| 0 <= k < after.book(true, b).len() implies order_in(
        after.slot((#[trigger] after.book(true, b)[k]).0),
    ).sequence_number <= na by {
        let mine = order.is_a_tree && b == order.is_bid;
        let j = if mine && k > r {
            k - 1
        } else {
            k
        };
        if !(mine && k == r) {
            assert(after.book(true, b)[k] == pool.book(true, b)[j]);
            assert(slot_ok(pool.book(true, b)[j].0, n));
            assert(order_in(pool.slot(pool.book(true, b)[j].0)).sequence_number <= na);
        }
    }
    assert forall|b: bool, k: int| 0 <= k < after.book(false, b).len() implies order_in(
        after.slot((#[trigger] after.book(false, b)[k]).0),
    ).sequence_number <= nb by {
        let mine = !order.is_a_tree && b == order.is_bid;
        let j = if mine && k > r {
            k - 1
        } else {
            k
        };
        if !(mine && k == r) {
            assert(after.book(false, b)[k] == pool.book(false, b)[j]);
            assert(slot_ok(pool.book(false, b)[j].0, n));
            assert(order_in(pool.slot(pool.book(false, b)[j].0)).sequence_number <= nb);
        }
    }
}

/// A bound on the numbers of a tree pair that holds, holds when it is
/// raised.
pub proof fn lemma_bound_raised(pool: PoolView, use_a_tree: bool, low: u64, high: u64)
    requires
        numbers_at_most(pool, use_a_tree, low),
        low <= high,
    ensures
        numbers_at_most(pool, use_a_tree, high),
{
    assert forall|b: bool, k: int| 0 <= k < pool.book(use_a_tree, b).len() implies order_in(
        pool.slot((#[trigger] pool.book(use_a_tree, b)[k]).0),
    ).sequence_number <= high by {
        assert(order_in(pool.slot(pool.book(use_a_tree, b)[k].0)).sequence_number <= low);
    }
}

/// A change of a balance keeps the books and their numbers.
pub proof fn lemma_balance_changed(
    pool: PoolView,
    index: u32,
    update_base_a: bool,
    is_increase: bool,
    shares: int,
    na: u64,
    nb: u64,
)
    requires
        numbered(pool, na, nb),
        pool.balance(index, update_base_a, is_increase, shares).is_ok(),
    ensures
        numbered(pool.balance(index, update_base_a, is_increase, shares).unwrap(), na, nb),
{
    let after = pool.balance(index, update_base_a, is_increase, shares).unwrap();
    lemma_seat_changed(pool, index, seat_in(after.slot(index)), na, nb);
    lemma_slot_update(pool.slots, index, after.slot(index), index);
}

/// A change of a volume keeps the books and their numbers.
pub proof fn lemma_volume_changed(
    pool: PoolView,
    index: u32,
    amount: int,
    use_a_tree: bool,
    na: u64,
    nb: u64,
)
    requires
        numbered(pool, na, nb),
    ensures
        numbered(pool.volume(index, amount, use_a_tree), na, nb),
{
    if pool.is_seat(index) {
        let after = pool.volume(index, amount, use_a_tree);
        lemma_seat_changed(pool, index, seat_in(after.slot(index)), na, nb);
        lemma_slot_update(pool.slots, index, after.slot(index), index);
    }
}

/// Taking an order out of its book for good keeps the books and their
/// numbers.
pub proof fn lemma_removal_keeps_numbers(
    pool: PoolView,
    base_global: Option<GlobalTradeView>,
    use_a_tree: bool,
    index: u32,
    na: u64,
    nb: u64,
)
    requires
        numbered(pool, na, nb),
        indices(pool.book(use_a_tree, order_in(pool.slot(index)).is_bid)).contains(index),
        spec_remove_and_update_balances(pool, base_global, use_a_tree, index).is_ok(),
    ensures
        numbered(
            spec_remove_and_update_balances(pool, base_global, use_a_tree, index).unwrap().0,
            na,
            nb,
        ),
{
    let order = order_in(pool.slot(index));
    if order.order_type == crate::resting_order::OrderType::Global {
        lemma_order_left(pool, use_a_tree, false, index, na, nb);
    } else if !order.is_bid {
        let side = crate::market::spec_should_update_base_a(use_a_tree, false);
        lemma_balance_changed(
            pool,
            order.trader_index,
            side,
            true,
            order.collateral_shares@,
            na,
            nb,
        );
        let credited = pool.balance(order.trader_index, side, true, order.collateral_shares@).unwrap();
        assert(credited.book(use_a_tree, false) == pool.book(use_a_tree, false));
        lemma_order_left(credited, use_a_tree, false, index, na, nb);
    } else {
        lemma_order_left(pool, use_a_tree, true, index, na, nb);
    }
}

/// The taker's payment keeps the books and their numbers.
pub proof fn lemma_payment_keeps_numbers(
    ctx: MatchContext,
    pool: PoolView,
    base_shares: i128,
    quote_shares: i128,
    na: u64,
    nb: u64,
)
    requires
        numbered(pool, na, nb),
        spec_taker_balances(ctx, pool, base_shares, quote_shares).is_ok(),
    ensures
        numbered(spec_taker_balances(ctx, pool, base_shares, quote_shares).unwrap(), na, nb),
        forall|a: bool, b: bool| #[trigger]
            spec_taker_balances(ctx, pool, base_shares, quote_shares).unwrap().book(a, b)
                == pool.book(a, b),
        forall|i: u32|
            pool.is_order(i) ==> #[trigger] spec_taker_balances(
                ctx,
                pool,
                base_shares,
                quote_shares,
            ).unwrap().slot(i) == pool.slot(i),
{
    let t = ctx.args.trader_index;
    let pays = crate::market::spec_should_update_base_a(ctx.args.use_a_tree, ctx.args.is_bid);
    let amount = if ctx.args.is_bid {
        quote_shares as int
    } else {
        base_shares as int
    };
    let paid = pool.balance(t, pays, false, amount).unwrap();
    lemma_balance_changed(pool, t, pays, false, amount, na, nb);
    assert forall|i: u32| pool.is_order(i) implies #[trigger] paid.slot(i) == pool.slot(i) by {
        lemma_slot_update(pool.slots, t, paid.slot(t), i);
    }
    if ctx.args.is_bid && ctx.args.order_type != crate::resting_order::OrderType::Reverse {
        let gets = crate::market::spec_should_update_base_a(ctx.args.use_a_tree, !ctx.args.is_bid);
        lemma_balance_changed(paid, t, gets, true, base_shares as int, na, nb);
        let both = paid.balance(t, gets, true, base_shares as int).unwrap();
        assert forall|i: u32| pool.is_order(i) implies #[trigger] both.slot(i) == pool.slot(i) by {
            lemma_slot_update(paid.slots, t, both.slot(t), i);
            lemma_slot_update(pool.slots, t, paid.slot(t), i);
        }
    }
}

/// Settling a fill keeps the books and their numbers.
pub proof fn lemma_settlement_keeps_numbers(
    ctx: MatchContext,
    quote_global: Option<GlobalTradeView>,
    s: MatchState,
    index: u32,
    maker_key: crate::constants::Pubkey,
    base: u64,
    quote: u64,
    full: bool,
    na: u64,
    nb: u64,
)
    requires
        numbered(s.pool, na, nb),
        makers(s.pool, ctx).len() > 0,
        index == makers(s.pool, ctx).last().0,
    ensures
        match spec_settle_fill(
            ctx,
            quote_global,
            s,
            index,
            order_in(s.pool.slot(index)),
            maker_key,
            base,
            quote,
            full,
        ) {
            StepOutcome::Continue(n) => numbered(n.pool, na, nb),
            StepOutcome::Stop(n) => numbered(n.pool, na, nb),
            StepOutcome::Fail(_) => true,
        },
{
    let a = ctx.args.use_a_tree;
    let side = !ctx.args.is_bid;
    let maker = order_in(s.pool.slot(index));
    let book = s.pool.book(a, side);
    assert(makers(s.pool, ctx) == book);
    assert(s.pool.book(a, side)[book.len() - 1].0 == index);
    assert(is_order_of(s.pool.slot(s.pool.book(a, side)[book.len() - 1].0), a, side));
    assert(slot_ok(s.pool.book(a, side)[book.len() - 1].0, s.pool.slots.len()));
    assert(indices(book)[book.len() - 1] == index);
    let base_shares = crate::marginfi_utils::spec_tokens_to_shares(
        base,
        ctx.args.base_bank.asset_share_value@,
    );
    let quote_shares = crate::marginfi_utils::spec_tokens_to_shares(
        quote,
        ctx.args.quote_bank.asset_share_value@,
    );
    if crate::matching::spec_add_traded(s.totals, base, quote).is_some() && base_shares.is_some()
        && quote_shares.is_some() {
        let paying = spec_taker_balances(ctx, s.pool, base_shares.unwrap(), quote_shares.unwrap());
        if paying.is_ok() {
            let paid = paying.unwrap();
            lemma_payment_keeps_numbers(
                ctx,
                s.pool,
                base_shares.unwrap(),
                quote_shares.unwrap(),
                na,
                nb,
            );
            let v1 = paid.volume(maker.trader_index, base_shares.unwrap() as int, a);
            lemma_volume_changed(paid, maker.trader_index, base_shares.unwrap() as int, a, na, nb);
            let pool = v1.volume(ctx.args.trader_index, base_shares.unwrap() as int, a);
            lemma_volume_changed(v1, ctx.args.trader_index, base_shares.unwrap() as int, a, na, nb);
            assert(paid.book(a, side) == book);
            assert(v1.book(a, side) == book);
            assert(pool.book(a, side) == book);
            assert(s.pool.is_order(index));
            assert(paid.slot(index) == s.pool.slot(index));
            if paid.is_seat(maker.trader_index) {
                lemma_slot_update(paid.slots, maker.trader_index, v1.slot(maker.trader_index), index);
            }
            assert(v1.slot(index) == s.pool.slot(index));
            if v1.is_seat(ctx.args.trader_index) {
                lemma_slot_update(
                    v1.slots,
                    ctx.args.trader_index,
                    pool.slot(ctx.args.trader_index),
                    index,
                );
            }
            assert(pool.slot(index) == s.pool.slot(index));
            if full {
                lemma_order_left(pool, a, side, index, na, nb);
            } else {
                let reduced = if maker.is_bid {
                    maker.spec_reduce_bid(ctx.args.base_bank, ctx.args.quote_bank, quote, base)
                } else {
                    maker.spec_reduce_ask(ctx.args.base_bank, base)
                };
                if reduced.is_ok() {
                    lemma_order_changed(pool, index, reduced.unwrap(), na, nb);
                }
            }
        }
    }
}

/// A step of matching keeps the books and their numbers.
pub proof fn lemma_step_keeps_numbers(
    ctx: MatchContext,
    quote_global: Option<GlobalTradeView>,
    s: MatchState,
    na: u64,
    nb: u64,
)
    requires
        numbered(s.pool, na, nb),
        makers(s.pool, ctx).len() > 0,
    ensures
        match spec_step(ctx, quote_global, s) {
            StepOutcome::Continue(n) => numbered(n.pool, na, nb),
            StepOutcome::Stop(n) => numbered(n.pool, na, nb),
            StepOutcome::Fail(_) => true,
        },
{
    let a = ctx.args.use_a_tree;
    let side = !ctx.args.is_bid;
    let book = s.pool.book(a, side);
    assert(makers(s.pool, ctx) == book);
    let index = book.last().0;
    let maker = order_in(s.pool.slot(index));
    assert(s.pool.book(a, side)[book.len() - 1].0 == index);
    assert(is_order_of(s.pool.slot(s.pool.book(a, side)[book.len() - 1].0), a, side));
    assert(indices(book)[book.len() - 1] == index);
    assert(maker.is_bid == side);
    if maker.spec_is_expired(ctx.args.now_slot) || maker.collateral_shares@ == 0 {
        if spec_remove_and_update_balances(s.pool, s.base_global, a, index).is_ok() {
            lemma_removal_keeps_numbers(s.pool, s.base_global, a, index, na, nb);
        }
    } else if crate::matching::spec_rate_stops(ctx, maker.rate_bps) {
    } else if !crate::resting_order::spec_order_type_can_take(ctx.args.order_type) {
    } else {
        lemma_fill_keeps_numbers(ctx, quote_global, s, na, nb);
    }
}

/// A fill keeps the books and their numbers.
pub proof fn lemma_fill_keeps_numbers(
    ctx: MatchContext,
    quote_global: Option<GlobalTradeView>,
    s: MatchState,
    na: u64,
    nb: u64,
)
    requires
        numbered(s.pool, na, nb),
        makers(s.pool, ctx).len() > 0,
    ensures
        match spec_fill(
            ctx,
            quote_global,
            s,
            makers(s.pool, ctx).last().0,
            order_in(s.pool.slot(makers(s.pool, ctx).last().0)),
        ) {
            StepOutcome::Continue(n) => numbered(n.pool, na, nb),
            StepOutcome::Stop(n) => numbered(n.pool, na, nb),
            StepOutcome::Fail(_) => true,
        },
{
    let a = ctx.args.use_a_tree;
    let side = !ctx.args.is_bid;
    let book = s.pool.book(a, side);
    assert(makers(s.pool, ctx) == book);
    let index = book.last().0;
    let maker = order_in(s.pool.slot(index));
    assert(s.pool.book(a, side)[book.len() - 1].0 == index);
    assert(is_order_of(s.pool.slot(s.pool.book(a, side)[book.len() - 1].0), a, side));
    assert(indices(book)[book.len() - 1] == index);
    assert(maker.is_bid == side);
    match maker.spec_num_base_atoms(ctx.args.base_bank) {
        None => {},
        Some(maker_atoms) => {
            let full = s.totals.remaining_base_atoms >= maker_atoms;
            let base = if full {
                maker_atoms
            } else {
                s.totals.remaining_base_atoms
            };
            match crate::marginfi_utils::spec_required_quote_collateral(
                ctx.args.base_bank,
                ctx.args.quote_bank,
                ctx.args.base_oracle_price_usd@,
                ctx.args.quote_oracle_price_usd@,
                ctx.buffer_f@,
                base,
            ) {
                None => {},
                Some(quote) => if s.pool.is_seat(maker.trader_index) {
                    let maker_key = seat_in(s.pool.slot(maker.trader_index)).trader;
                    if maker.order_type == crate::resting_order::OrderType::Global {
                        match crate::global::spec_move_global_tokens(s.base_global, maker_key, base) {
                            Err(_) => {},
                            Ok((backed, g, e)) => if !backed {
                                if spec_remove_and_update_balances(s.pool, g, a, index).is_ok() {
                                    lemma_removal_keeps_numbers(s.pool, g, a, index, na, nb);
                                }
                            } else {
                                match crate::matching::spec_add_global_traded(
                                    s.totals,
                                    ctx.args.is_bid,
                                    base,
                                    quote,
                                ) {
                                    None => {},
                                    Some(t) => {
                                        let moved = MatchState {
                                            base_global: g,
                                            totals: t,
                                            effects: s.effects + e,
                                            ..s
                                        };
                                        lemma_settlement_keeps_numbers(
                                            ctx,
                                            quote_global,
                                            moved,
                                            index,
                                            maker_key,
                                            base,
                                            quote,
                                            full,
                                            na,
                                            nb,
                                        );
                                    },
                                }
                            },
                        }
                    } else {
                        lemma_settlement_keeps_numbers(
                            ctx,
                            quote_global,
                            s,
                            index,
                            maker_key,
                            base,
                            quote,
                            full,
                            na,
                            nb,
                        );
                    }
                },
            }
        },
    }
}

/// Matching keeps the books and their numbers.
pub proof fn lemma_match_keeps_numbers(
    ctx: MatchContext,
    quote_global: Option<GlobalTradeView>,
    s: MatchState,
    limit: nat,
    na: u64,
    nb: u64,
)
    requires
        numbered(s.pool, na, nb),
        spec_match(ctx, quote_global, s, limit).is_ok(),
    ensures
        numbered(spec_match(ctx, quote_global, s, limit).unwrap().pool, na, nb),
    decreases limit,
{
    if limit == 0 || s.totals.remaining_base_atoms == 0 || makers(s.pool, ctx).len() == 0 {
    } else {
        lemma_step_keeps_numbers(ctx, quote_global, s, na, nb);
        match spec_step(ctx, quote_global, s) {
            StepOutcome::Continue(next) => {
                lemma_match_keeps_numbers(ctx, quote_global, next, (limit - 1) as nat, na, nb);
            },
            _ => {},
        }
    }
}

/// What follows the matching keeps the books, and the numbers below the
/// counters as they then stand.
pub proof fn lemma_after_match_keeps_numbers(fixed: MarketFixed, ctx: MatchContext, s: MatchState)
    requires
        numbered(
            s.pool,
            fixed.base_a_order_sequence_number,
            fixed.base_b_order_sequence_number,
        ),
        fixed.base_a_order_sequence_number < u64::MAX,
        fixed.base_b_order_sequence_number < u64::MAX,
        spec_after_match(fixed, ctx, s).is_ok(),
    ensures
        numbered(
            spec_after_match(fixed, ctx, s).unwrap().pool,
            spec_after_match(fixed, ctx, s).unwrap().base_a_order_sequence_number,
            spec_after_match(fixed, ctx, s).unwrap().base_b_order_sequence_number,
        ),
        spec_after_match(fixed, ctx, s).unwrap().base_a_order_sequence_number
            >= fixed.base_a_order_sequence_number,
        spec_after_match(fixed, ctx, s).unwrap().base_b_order_sequence_number
            >= fixed.base_b_order_sequence_number,
{
    let a = ctx.args.use_a_tree;
    let o = spec_after_match(fixed, ctx, s).unwrap();
    let na = o.base_a_order_sequence_number;
    let nb = o.base_b_order_sequence_number;
    lemma_bound_raised(s.pool, true, fixed.base_a_order_sequence_number, na);
    lemma_bound_raised(s.pool, false, fixed.base_b_order_sequence_number, nb);
    let header = crate::place_order::spec_matched_header(fixed, ctx, s.totals);
    let seq = sequence_number_of(header, a);
    if !crate::place_order::spec_reverse_applies(ctx, s.totals)
        && crate::place_order::spec_nothing_to_rest(ctx, s.totals) {
    } else if crate::place_order::spec_reverse_applies(ctx, s.totals) {
        let reversed = crate::place_order::spec_reverse_order(
            ctx,
            s.totals,
            crate::place_order::next_sequence_number(sequence_number_of(header, !a)),
        );
        match reversed {
            Ok(Some(order)) => {
                lemma_order_rested(s.pool, order, na, nb);
            },
            Ok(None) => {
                lemma_rest_keeps_numbers(fixed, ctx, s, na, nb);
            },
            Err(_) => {},
        }
    } else {
        lemma_rest_keeps_numbers(fixed, ctx, s, na, nb);
    }
}

/// The remainder that rests keeps the books and their numbers.
proof fn lemma_rest_keeps_numbers(
    fixed: MarketFixed,
    ctx: MatchContext,
    s: MatchState,
    na: u64,
    nb: u64,
)
    requires
        numbered(s.pool, na, nb),
        sequence_number_of(
            crate::place_order::spec_matched_header(fixed, ctx, s.totals),
            ctx.args.use_a_tree,
        ) <= if ctx.args.use_a_tree {
            na
        } else {
            nb
        },
    ensures
        !crate::place_order::spec_nothing_to_rest(ctx, s.totals) ==> match crate::place_order::spec_resting_shares(
            ctx,
            s.totals.remaining_base_atoms,
        ) {
            None => true,
            Some((collateral, liability)) => match crate::place_order::spec_rest(
                s.pool,
                s.base_global,
                s.effects.push(crate::place_order::spec_settlement(ctx, s.totals)),
                crate::place_order::spec_resting_order(
                    ctx,
                    sequence_number_of(
                        crate::place_order::spec_matched_header(fixed, ctx, s.totals),
                        ctx.args.use_a_tree,
                    ),
                    collateral,
                    liability,
                ),
            ) {
                Err(_) => true,
                Ok((pool, _, _)) => numbered(pool, na, nb),
            },
        },
{
    if !crate::place_order::spec_nothing_to_rest(ctx, s.totals) {
        match crate::place_order::spec_resting_shares(ctx, s.totals.remaining_base_atoms) {
            None => {},
            Some((collateral, liability)) => {
                let order = crate::place_order::spec_resting_order(
                    ctx,
                    sequence_number_of(
                        crate::place_order::spec_matched_header(fixed, ctx, s.totals),
                        ctx.args.use_a_tree,
                    ),
                    collateral,
                    liability,
                );
                let effects = s.effects.push(crate::place_order::spec_settlement(ctx, s.totals));
                if crate::place_order::spec_rest(s.pool, s.base_global, effects, order).is_ok() {
                    if order.order_type == crate::resting_order::OrderType::Global {
                        lemma_order_rested(s.pool, order, na, nb);
                    } else {
                        let side = crate::market::spec_should_update_base_a(
                            order.is_a_tree,
                            order.is_bid,
                        );
                        lemma_balance_changed(
                            s.pool,
                            order.trader_index,
                            side,
                            false,
                            order.collateral_shares@,
                            na,
                            nb,
                        );
                        let paid = s.pool.balance(
                            order.trader_index,
                            side,
                            false,
                            order.collateral_shares@,
                        ).unwrap();
                        assert(paid.free == s.pool.free);
                        lemma_order_rested(paid, order, na, nb);
                    }
                }
            },
        }
    }
}

/// Cancelling an order keeps the books and their numbers.
pub proof fn lemma_cancel_keeps_numbers(
    pool: PoolView,
    ledger: crate::market_loan::LoansView,
    base_global: Option<GlobalTradeView>,
    use_a_tree: bool,
    index: u32,
    now_unix_timestamp: i64,
    now_slot: u32,
    na: u64,
    nb: u64,
)
    requires
        numbered(pool, na, nb),
        crate::cancel_order::spec_cancel_by_index(
            pool,
            ledger,
            base_global,
            use_a_tree,
            index,
            now_unix_timestamp,
            now_slot,
        ).is_ok(),
    ensures
        numbered(
            crate::cancel_order::spec_cancel_by_index(
                pool,
                ledger,
                base_global,
                use_a_tree,
                index,
                now_unix_timestamp,
                now_slot,
            ).unwrap().0,
            na,
            nb,
        ),
{
    let order = order_in(pool.slot(index));
    if order.order_type == crate::resting_order::OrderType::Global {
        lemma_order_left(pool, use_a_tree, false, index, na, nb);
    } else if order.is_bid {
        lemma_order_left(pool, use_a_tree, true, index, na, nb);
    } else {
        let side = crate::market::spec_should_update_base_a(use_a_tree, false);
        lemma_balance_changed(
            pool,
            order.trader_index,
            side,
            true,
            order.collateral_shares@,
            na,
            nb,
        );
        let credited = pool.balance(order.trader_index, side, true, order.collateral_shares@).unwrap();
        assert(credited.book(use_a_tree, false) == pool.book(use_a_tree, false));
        lemma_order_left(credited, use_a_tree, false, index, na, nb);
    }
}

/// Claiming a seat keeps the books and their numbers.
pub proof fn lemma_claim_keeps_numbers(
    pool: PoolView,
    trader: crate::constants::Pubkey,
    na: u64,
    nb: u64,
)
    requires
        numbered(pool, na, nb),
        pool.claim_seat(trader).is_ok(),
    ensures
        numbered(pool.claim_seat(trader).unwrap(), na, nb),
{
    let after = pool.claim_seat(trader).unwrap();
    let n = pool.slots.len();
    let index = pool.free[0];
    let seat = MarketSlot::Seat(ClaimedSeat::spec_new_empty(trader));
    assert(slot_ok(pool.free[0], n) && pool.slot(pool.free[0]) is Empty);
    assert forall|i: u32| slot_ok(i, n) implies #[trigger] after.slot(i) == if i == index {
        seat
    } else {
        pool.slot(i)
    } by {
        lemma_slot_update(pool.slots, index, seat, i);
    }
    assert forall|a: bool, b: bool, k: int| 0 <= k < after.book(a, b).len() implies slot_ok(
        (#[trigger] after.book(a, b)[k]).0,
        n,
    ) && is_order_of(after.slot(after.book(a, b)[k].0), a, b) by {
        assert(after.book(a, b)[k] == pool.book(a, b)[k]);
        assert(is_order_of(pool.slot(pool.book(a, b)[k].0), a, b));
    }
    assert forall|a: bool, b: bool, k: int, l: int|
        0 <= k < l < after.book(a, b).len() implies (#[trigger] after.book(a, b)[k]).0 != (
    #[trigger] after.book(a, b)[l]).0 by {
        assert(after.book(a, b)[k] == pool.book(a, b)[k]);
        assert(after.book(a, b)[l] == pool.book(a, b)[l]);
    }
    assert forall|k: int| 0 <= k < after.free.len() implies slot_ok(#[trigger] after.free[k], n)
        && after.slot(after.free[k]) is Empty by {
        assert(after.free[k] == pool.free[k + 1]);
        assert(pool.free[0] != pool.free[k + 1]);
    }
    assert forall|k: int, l: int| 0 <= k < l < after.free.len() implies #[trigger] after.free[k]
        != #[trigger] after.free[l] by {
        assert(after.free[k] == pool.free[k + 1]);
        assert(after.free[l] == pool.free[l + 1]);
    }
    assert forall|b: bool, k: int| 0 <= k < after.book(true, b).len() implies order_in(
        after.slot((#[trigger] after.book(true, b)[k]).0),
    ).sequence_number <= na by {
        assert(after.book(true, b)[k] == pool.book(true, b)[k]);
        assert(is_order_of(pool.slot(pool.book(true, b)[k].0), true, b));
        assert(order_in(pool.slot(pool.book(true, b)[k].0)).sequence_number <= na);
    }
    assert forall|b: bool, k: int| 0 <= k < after.book(false, b).len() implies order_in(
        after.slot((#[trigger] after.book(false, b)[k]).0),
    ).sequence_number <= nb by {
        assert(after.book(false, b)[k] == pool.book(false, b)[k]);
        assert(is_order_of(pool.slot(pool.book(false, b)[k].0), false, b));
        assert(order_in(pool.slot(pool.book(false, b)[k].0)).sequence_number <= nb);
    }
}

/// A deposit keeps the books and their numbers.
pub proof fn lemma_deposit_keeps_numbers(
    pool: PoolView,
    index: u32,
    shares: int,
    update_base_a: bool,
    na: u64,
    nb: u64,
)
    requires
        numbered(pool, na, nb),
        pool.deposit(index, shares, update_base_a).is_ok(),
    ensures
        numbered(pool.deposit(index, shares, update_base_a).unwrap(), na, nb),
{
    lemma_balance_changed(pool, index, update_base_a, true, shares, na, nb);
}

/// A new slot keeps the books and their numbers.
pub proof fn lemma_expand_keeps_numbers(pool: PoolView, na: u64, nb: u64)
    requires
        numbered(pool, na, nb),
        crate::market::BLOCK * (pool.slots.len() + 1) <= u32::MAX,
    ensures
        numbered(pool.expand(), na, nb),
{
    let after = pool.expand();
    let n = pool.slots.len();
    let index = (crate::market::BLOCK * n) as u32;
    assert(index as int / 112 == n && index % 112 == 0) by (nonlinear_arith)
        requires
            index == 112 * n,
    ;
    assert forall|i: u32| slot_ok(i, n) implies #[trigger] after.slot(i) == pool.slot(i) && i
        != index by {}
    assert forall|a: bool, b: bool, k: int| 0 <= k < after.book(a, b).len() implies slot_ok(
        (#[trigger] after.book(a, b)[k]).0,
        n + 1,
    ) && is_order_of(after.slot(after.book(a, b)[k].0), a, b) by {
        assert(after.book(a, b)[k] == pool.book(a, b)[k]);
        assert(slot_ok(pool.book(a, b)[k].0, n));
        assert(is_order_of(pool.slot(pool.book(a, b)[k].0), a, b));
    }
    assert forall|a: bool, b: bool, k: int, l: int|
        0 <= k < l < after.book(a, b).len() implies (#[trigger] after.book(a, b)[k]).0 != (
    #[trigger] after.book(a, b)[l]).0 by {
        assert(after.book(a, b)[k] == pool.book(a, b)[k]);
        assert(after.book(a, b)[l] == pool.book(a, b)[l]);
    }
    assert forall|k: int| 0 <= k < after.free.len() implies slot_ok(
        #[trigger] after.free[k],
        n + 1,
    ) && after.slot(after.free[k]) is Empty by {
        if k > 0 {
            assert(after.free[k] == pool.free[k - 1]);
            assert(slot_ok(pool.free[k - 1], n));
        }
    }
    assert forall|k: int, l: int| 0 <= k < l < after.free.len() implies #[trigger] after.free[k]
        != #[trigger] after.free[l] by {
        assert(after.free[l] == pool.free[l - 1]);
        assert(slot_ok(pool.free[l - 1], n));
        if k > 0 {
            assert(after.free[k] == pool.free[k - 1]);
        }
    }
    assert forall|b: bool, k: int| 0 <= k < after.book(true, b).len() implies order_in(
        after.slot((#[trigger] after.book(true, b)[k]).0),
    ).sequence_number <= na by {
        assert(after.book(true, b)[k] == pool.book(true, b)[k]);
        assert(slot_ok(pool.book(true, b)[k].0, n));
        assert(order_in(pool.slot(pool.book(true, b)[k].0)).sequence_number <= na);
    }
    assert forall|b: bool, k: int| 0 <= k < after.book(false, b).len() implies order_in(
        after.slot((#[trigger] after.book(false, b)[k]).0),
    ).sequence_number <= nb by {
        assert(after.book(false, b)[k] == pool.book(false, b)[k]);
        assert(slot_ok(pool.book(false, b)[k].0, n));
        assert(order_in(pool.slot(pool.book(false, b)[k].0)).sequence_number <= nb);
    }
}

/// In a well-formed market the books hold orders.
pub proof fn lemma_well_formed_books_hold_orders(m: DynamicAccount<MarketFixed, MarketDynamic>)
    requires
        m.wf(),
    ensures
        books_hold_orders(m.pool()),
{
    let pool = m.pool();
    lemma_market_slots_match_their_trees(m);
    lemma_market_slots_are_parted(m);
    assert forall|k: int| 0 <= k < pool.free.len() implies slot_ok(
        #[trigger] pool.free[k],
        pool.slots.len(),
    ) && pool.slot(pool.free[k]) is Empty by {
        assert(pool.free.contains(pool.free[k]));
    }
    assert forall|a: bool, b: bool, k: int| 0 <= k < pool.book(a, b).len() implies slot_ok(
        (#[trigger] pool.book(a, b)[k]).0,
        pool.slots.len(),
    ) && is_order_of(pool.slot(pool.book(a, b)[k].0), a, b) by {
        assert(indices(pool.book(a, b))[k] == pool.book(a, b)[k].0);
        assert(indices(pool.book(a, b)).contains(pool.book(a, b)[k].0));
    }
}

/// Placing an order keeps the sequence numbers of the orders in the books
/// at or below the counters of the header: where no order of a tree pair had
/// a number above the pair's counter before, none has after, whatever was
/// matched, evicted, reduced or rested on the way. The counters themselves
/// only grow. This is so short of the largest number, where a counter would
/// wrap around.
pub proof fn lemma_numbers_stay_below_the_counters(
    m: DynamicAccount<MarketFixed, MarketDynamic>,
    base_global: Option<GlobalTradeView>,
    quote_global: Option<GlobalTradeView>,
    args: AddOrderToMarketArgs,
)
    requires
        m.wf(),
        numbers_at_most(m.pool(), true, m.fixed.base_a_order_sequence_number),
        numbers_at_most(m.pool(), false, m.fixed.base_b_order_sequence_number),
        m.fixed.base_a_order_sequence_number < u64::MAX,
        m.fixed.base_b_order_sequence_number < u64::MAX,
        spec_place_order(m.fixed, m.pool(), base_global, quote_global, args).is_ok(),
    ensures
        ({
            let placed = spec_place_order(
                m.fixed,
                m.pool(),
                base_global,
                quote_global,
                args,
            ).unwrap();
            &&& numbers_at_most(placed.pool, true, placed.base_a_order_sequence_number)
            &&& numbers_at_most(placed.pool, false, placed.base_b_order_sequence_number)
            &&& placed.base_a_order_sequence_number >= m.fixed.base_a_order_sequence_number
            &&& placed.base_b_order_sequence_number >= m.fixed.base_b_order_sequence_number
        }),
{
    let pool = m.pool();
    let a = args.use_a_tree;
    lemma_well_formed_books_hold_orders(m);
    let buffer = spec_buffer_factor(m.fixed.fee_state.ltv_buffer_bps).unwrap();
    let ctx = MatchContext {
        args,
        buffer_f: WrappedI80F48 { value: buffer },
        taker: seat_in(pool.slot(args.trader_index)).trader,
        taker_sequence_number: sequence_number_of(m.fixed, a),
    };
    let s = spec_initial_state(pool, base_global, args);
    let limit = makers(pool, ctx).len();
    let na = m.fixed.base_a_order_sequence_number;
    let nb = m.fixed.base_b_order_sequence_number;
    lemma_match_keeps_numbers(ctx, quote_global, s, limit, na, nb);
    let done = spec_match(ctx, quote_global, s, limit).unwrap();
    lemma_after_match_keeps_numbers(m.fixed, ctx, done);
}

} // verus!
