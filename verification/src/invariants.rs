//! What holds of every well-formed market and ledger.

use crate::constants::NIL;
use crate::dynamic_account::DynamicAccount;
use crate::market::{
    best_of, book_inv, is_order_of, market_inv, order_in, root_of, slot_at, slot_ok, MarketDynamic,
    MarketFixed, BLOCK,
};
use crate::market_loan::{
    loan_in, loan_slot_at, loan_slot_ok, MarketLoansDynamic, MarketLoansFixed, LOAN_BLOCK,
};
use crate::slot_pool::{indices, last_slot, sorted};
use vstd::prelude::*;

verus! {

/// Every slot of a market holds what the structure it is linked into says:
/// the free list links the empty slots, starting at its head, the tree of
/// seats the slots with a seat, and each book the slots with an order of its
/// tree pair and side.
/// The pool has a slot for every 112 bytes allocated.
pub proof fn lemma_market_slots_match_their_trees(m: DynamicAccount<MarketFixed, MarketDynamic>)
    requires
        m.wf(),
    ensures
        m.fixed.num_bytes_allocated == BLOCK * m.pool().slots.len(),
        (m.fixed.free_list_head_index == NIL) == (m.pool().free.len() == 0),
        m.pool().free.len() > 0 ==> m.pool().free[0] == m.fixed.free_list_head_index,
        forall|i: u32| #[trigger]
            m.pool().free.contains(i) <==> slot_ok(i, m.pool().slots.len()) && m.pool().slot(
                i,
            ) is Empty,
        forall|i: u32| #[trigger]
            m.pool().seats.dom().contains(i) <==> slot_ok(i, m.pool().slots.len())
                && m.pool().slot(i) is Seat,
        forall|i: u32, a: bool, b: bool| #[trigger]
            indices(m.pool().book(a, b)).contains(i) <==> slot_ok(i, m.pool().slots.len())
                && is_order_of(m.pool().slot(i), a, b),
{
    reveal(market_inv);
    let none = Set::<u32>::empty();
    assert forall|i: u32| #[trigger]
        m.pool().free.contains(i) <==> slot_ok(i, m.pool().slots.len()) && m.pool().slot(
            i,
        ) is Empty by {
        if m.pool().free.contains(i) {
            let k = choose|k: int| 0 <= k < m.pool().free.len() && m.pool().free[k] == i;
            assert(slot_ok(m.pool().free[k], m.pool().slots.len()));
        }
        if slot_ok(i, m.pool().slots.len()) && m.pool().slot(i) is Empty {
            assert(slot_at(m.dynamic.slots@, i) is Empty);
        }
    }
    assert forall|i: u32| #[trigger]
        m.pool().seats.dom().contains(i) <==> slot_ok(i, m.pool().slots.len()) && m.pool().slot(
            i,
        ) is Seat by {
        if slot_ok(i, m.pool().slots.len()) && m.pool().slot(i) is Seat {
            assert(slot_at(m.dynamic.slots@, i) is Seat);
        }
        if m.pool().seats.dom().contains(i) {
            assert(slot_at(m.dynamic.slots@, i) is Seat);
        }
    }
    assert forall|i: u32, a: bool, b: bool| #[trigger]
        indices(m.pool().book(a, b)).contains(i) <==> slot_ok(i, m.pool().slots.len())
            && is_order_of(m.pool().slot(i), a, b) by {
        assert(book_inv(m.fixed, m.dynamic, none, a, b)) by {
            if a {
                if b {
                    assert(book_inv(m.fixed, m.dynamic, none, true, true));
                } else {
                    assert(book_inv(m.fixed, m.dynamic, none, true, false));
                }
            } else {
                if b {
                    assert(book_inv(m.fixed, m.dynamic, none, false, true));
                } else {
                    assert(book_inv(m.fixed, m.dynamic, none, false, false));
                }
            }
        }
        let e = m.pool().book(a, b);
        assert(e == crate::market::book(m.fixed, m.dynamic, a, b));
        if indices(e).contains(i) {
            let k = choose|k: int| 0 <= k < indices(e).len() && indices(e)[k] == i;
            assert(e[k].0 == i);
            assert(slot_ok(e[k].0, m.dynamic.slots@.len()));
        }
        if slot_ok(i, m.pool().slots.len()) && is_order_of(m.pool().slot(i), a, b) {
            assert(is_order_of(slot_at(m.dynamic.slots@, i), a, b));
        }
    }
}

/// The slots of a market are parted among the free list, the tree of seats
/// and the four books: every slot is in one of them, none in two, and none
/// twice in a list or a book.
pub proof fn lemma_market_slots_are_parted(m: DynamicAccount<MarketFixed, MarketDynamic>)
    requires
        m.wf(),
    ensures
        forall|i: u32|
            slot_ok(i, m.pool().slots.len()) ==> #[trigger] m.pool().free.contains(i)
                || m.pool().seats.dom().contains(i) || indices(
                m.pool().book(
                    order_in(m.pool().slot(i)).is_a_tree,
                    order_in(m.pool().slot(i)).is_bid,
                ),
            ).contains(i),
        forall|i: u32|
            !(#[trigger] m.pool().free.contains(i) && m.pool().seats.dom().contains(i)),
        forall|i: u32, a: bool, b: bool|
            !(m.pool().free.contains(i) && #[trigger] indices(m.pool().book(a, b)).contains(i))
                && !(m.pool().seats.dom().contains(i) && indices(m.pool().book(a, b)).contains(
                i,
            )),
        forall|i: u32, a: bool, b: bool, c: bool, d: bool|
            #![trigger indices(m.pool().book(a, b)).contains(i), indices(m.pool().book(c, d)).contains(i)]
            indices(m.pool().book(a, b)).contains(i) && indices(m.pool().book(c, d)).contains(i)
                ==> a == c && b == d,
        forall|k: int, l: int|
            0 <= k < l < m.pool().free.len() ==> m.pool().free[k] != m.pool().free[l],
        forall|a: bool, b: bool, k: int, l: int|
            0 <= k < l < m.pool().book(a, b).len() ==> (#[trigger] m.pool().book(a, b)[k]).0 != (
            #[trigger] m.pool().book(a, b)[l]).0,
{
    lemma_market_slots_match_their_trees(m);
    reveal(market_inv);
    let none = Set::<u32>::empty();
    assert forall|i: u32|
        slot_ok(i, m.pool().slots.len()) implies #[trigger] m.pool().free.contains(i)
        || m.pool().seats.dom().contains(i) || indices(
        m.pool().book(order_in(m.pool().slot(i)).is_a_tree, order_in(m.pool().slot(i)).is_bid),
    ).contains(i) by {
        let o = order_in(m.pool().slot(i));
        if m.pool().slot(i) is Order {
            assert(is_order_of(m.pool().slot(i), o.is_a_tree, o.is_bid));
            assert(indices(m.pool().book(o.is_a_tree, o.is_bid)).contains(i));
        } else if m.pool().slot(i) is Seat {
            assert(m.pool().seats.dom().contains(i));
        }
    }
    assert forall|a: bool, b: bool, k: int, l: int|
        0 <= k < l < m.pool().book(a, b).len() implies (#[trigger] m.pool().book(a, b)[k]).0 != (
    #[trigger] m.pool().book(a, b)[l]).0 by {
        if a {
            if b {
                assert(book_inv(m.fixed, m.dynamic, none, true, true));
            } else {
                assert(book_inv(m.fixed, m.dynamic, none, true, false));
            }
        } else {
            if b {
                assert(book_inv(m.fixed, m.dynamic, none, false, true));
            } else {
                assert(book_inv(m.fixed, m.dynamic, none, false, false));
            }
        }
    }
}

/// The cached best index of a book is the slot of the order that comes last
/// in the book, and no order of the book has a higher priority: no bid a
/// higher rate, no ask a lower one. The root is the tree's root. Both are
/// `NIL` exactly when the book is empty.
pub proof fn lemma_best_is_the_maximum(
    m: DynamicAccount<MarketFixed, MarketDynamic>,
    use_a_tree: bool,
    is_bid: bool,
)
    requires
        m.wf(),
    ensures
        best_of(m.fixed, use_a_tree, is_bid) == last_slot(m.pool().book(use_a_tree, is_bid)),
        (best_of(m.fixed, use_a_tree, is_bid) == NIL) == (m.pool().book(use_a_tree, is_bid).len()
            == 0),
        (root_of(m.fixed, use_a_tree, is_bid) == NIL) == (m.pool().book(use_a_tree, is_bid).len()
            == 0),
        sorted(m.pool().book(use_a_tree, is_bid)),
        forall|i: u32|
            slot_ok(i, m.pool().slots.len()) && is_order_of(
                #[trigger] m.pool().slot(i),
                use_a_tree,
                is_bid,
            ) ==> m.pool().book(use_a_tree, is_bid).len() > 0 && order_in(
                m.pool().slot(i),
            ).spec_priority() <= order_in(
                m.pool().slot(best_of(m.fixed, use_a_tree, is_bid)),
            ).spec_priority(),
{
    reveal(market_inv);
    let none = Set::<u32>::empty();
    if use_a_tree {
        if is_bid {
            assert(book_inv(m.fixed, m.dynamic, none, true, true));
        } else {
            assert(book_inv(m.fixed, m.dynamic, none, true, false));
        }
    } else {
        if is_bid {
            assert(book_inv(m.fixed, m.dynamic, none, false, true));
        } else {
            assert(book_inv(m.fixed, m.dynamic, none, false, false));
        }
    }
    let e = m.pool().book(use_a_tree, is_bid);
    assert(e == crate::market::book(m.fixed, m.dynamic, use_a_tree, is_bid));
    if e.len() > 0 {
        let last = e.len() - 1;
        assert(slot_ok(e[last].0, m.dynamic.slots@.len()));
        crate::market_helpers::lemma_slot_fits(e[last].0, m.dynamic.slots@.len());
    }
    assert forall|i: u32|
        slot_ok(i, m.pool().slots.len()) && is_order_of(
            #[trigger] m.pool().slot(i),
            use_a_tree,
            is_bid,
        ) implies e.len() > 0 && order_in(m.pool().slot(i)).spec_priority() <= order_in(
        m.pool().slot(best_of(m.fixed, use_a_tree, is_bid)),
    ).spec_priority() by {
        assert(is_order_of(slot_at(m.dynamic.slots@, i), use_a_tree, is_bid));
        assert(indices(e).contains(i));
        let k = choose|k: int| 0 <= k < indices(e).len() && indices(e)[k] == i;
        assert(e[k].0 == i);
        let last = e.len() - 1;
        assert(e[k].1 <= e[last].1);
        assert(e[last].1 == order_in(slot_at(m.dynamic.slots@, e[last].0)).spec_priority());
        assert(e[k].1 == order_in(slot_at(m.dynamic.slots@, e[k].0)).spec_priority());
    }
}

/// Every slot of a ledger holds what the structure it is linked into says:
/// the free list links the empty slots, starting at its head, and the tree
/// the slots with a loan,
/// each under its sequence number; no slot is in both. The pool has a slot
/// for every 96 bytes allocated.
pub proof fn lemma_ledger_slots_match_their_trees(
    l: DynamicAccount<MarketLoansFixed, MarketLoansDynamic>,
)
    requires
        l.wf(),
    ensures
        l.fixed.num_bytes_allocated == LOAN_BLOCK * l.view().slots.len(),
        l.view().num_active_loans == l.view().loans.len(),
        (l.fixed.free_list_head_index == NIL) == (l.view().free.len() == 0),
        l.view().free.len() > 0 ==> l.view().free[0] == l.fixed.free_list_head_index,
        forall|i: u32| #[trigger]
            l.view().free.contains(i) <==> loan_slot_ok(i, l.view().slots.len()) && loan_slot_at(
                l.view().slots,
                i,
            ) is Empty,
        forall|i: u32| #[trigger]
            indices(l.view().loans).contains(i) <==> loan_slot_ok(i, l.view().slots.len())
                && loan_slot_at(l.view().slots, i) is Loan,
        forall|k: int|
            0 <= k < l.view().loans.len() ==> loan_in(
                loan_slot_at(l.view().slots, (#[trigger] l.view().loans[k]).0),
            ).sequence_number == l.view().loans[k].1,
{
    let e = l.view().loans;
    assert forall|i: u32| #[trigger]
        l.view().free.contains(i) <==> loan_slot_ok(i, l.view().slots.len()) && loan_slot_at(
            l.view().slots,
            i,
        ) is Empty by {
        if l.view().free.contains(i) {
            let k = choose|k: int| 0 <= k < l.view().free.len() && l.view().free[k] == i;
            assert(loan_slot_ok(l.view().free[k], l.view().slots.len()));
        }
    }
    assert forall|i: u32| #[trigger]
        indices(e).contains(i) <==> loan_slot_ok(i, l.view().slots.len()) && loan_slot_at(
            l.view().slots,
            i,
        ) is Loan by {
        if indices(e).contains(i) {
            let k = choose|k: int| 0 <= k < indices(e).len() && indices(e)[k] == i;
            assert(e[k].0 == i);
            assert(loan_slot_ok(e[k].0, l.view().slots.len()));
        }
    }
}

/// A well-formed market passes the test of its shape.
pub proof fn lemma_well_formed_market_has_its_shape(m: DynamicAccount<MarketFixed, MarketDynamic>)
    requires
        m.wf(),
    ensures
        crate::market::spec_shape_ok(m.fixed, m.dynamic),
{
    reveal(market_inv);
    let none = Set::<u32>::empty();
    let n = m.dynamic.slots@.len();
    let f = crate::market::free_list(m.fixed, m.dynamic);
    if f.len() > 0 {
        assert(slot_ok(f[0], n));
    }
    assert(book_inv(m.fixed, m.dynamic, none, true, true));
    assert(book_inv(m.fixed, m.dynamic, none, true, false));
    assert(book_inv(m.fixed, m.dynamic, none, false, true));
    assert(book_inv(m.fixed, m.dynamic, none, false, false));
    assert forall|a: bool, b: bool|
        crate::market::spec_index_in_pool(#[trigger] best_of(m.fixed, a, b), n) by {
        let e = crate::market::book(m.fixed, m.dynamic, a, b);
        assert(book_inv(m.fixed, m.dynamic, none, a, b));
        if e.len() > 0 {
            assert(slot_ok(e[e.len() - 1].0, n));
        }
    }
    assert(crate::market::spec_index_in_pool(best_of(m.fixed, true, true), n));
    assert(crate::market::spec_index_in_pool(best_of(m.fixed, true, false), n));
    assert(crate::market::spec_index_in_pool(best_of(m.fixed, false, true), n));
    assert(crate::market::spec_index_in_pool(best_of(m.fixed, false, false), n));
}

/// A well-formed ledger passes the test of its shape.
pub proof fn lemma_well_formed_ledger_has_its_shape(
    m: DynamicAccount<MarketLoansFixed, MarketLoansDynamic>,
)
    requires
        m.wf(),
    ensures
        crate::market_loan::spec_ledger_shape_ok(m.fixed, m.dynamic),
{
    let f = crate::market_loan::loan_free_list(m.fixed, m.dynamic);
    if f.len() > 0 {
        assert(loan_slot_ok(f[0], m.dynamic.slots@.len()));
    }
}

} // verus!
