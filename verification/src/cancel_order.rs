//! Cancelling a resting order.

use crate::constants::{DataIndex, NIL};
use crate::dynamic_account::DynamicAccount;
use crate::error::{EngineError, NixError};
use crate::global::{
    opt_view, remove_from_global, spec_remove_from_global, GlobalTradeAccounts, GlobalTradeView,
};
use crate::logs::Effect;
use crate::market::{
    book, book_inv, get_book_indexes, is_order_of, market_inv, order_in, pool_view,
    remove_order_from_tree_and_free, root_of, same_settings, should_update_base_a, slot_at, slot_ok,
    spec_should_update_base_a, update_balance, MarketDynamic, MarketFixed, MarketSlot, PoolView,
};
use crate::market_loan::{ActiveLoan, LoansView, MarketLoansDynamic, MarketLoansFixed};
use crate::matching::{lemma_balance_frame, pool_is_resting, read_order};
use crate::resting_order::{OrderType, RestingOrder};
use crate::slot_pool::{indices, lemma_place, place, tree_next_lower};
use crate::market_helpers::lemma_slot_fits;
use vstd::prelude::*;

verus! {

/// How many of the entries from place `from` on hold an order with
/// `sequence_number`.
pub open spec fn count_from(
    entries: Seq<(u32, u64)>,
    slots: Seq<MarketSlot>,
    sequence_number: u64,
    from: int,
) -> nat
    decreases entries.len() - from,
{
    if from < 0 || from >= entries.len() {
        0
    } else {
        count_from(entries, slots, sequence_number, from + 1) + if order_in(
            slot_at(slots, entries[from].0),
        ).sequence_number == sequence_number {
            1nat
        } else {
            0nat
        }
    }
}

/// The slot of the first of the entries from place `from` on that holds an
/// order with `sequence_number`; `NIL` where none does.
pub open spec fn first_from(
    entries: Seq<(u32, u64)>,
    slots: Seq<MarketSlot>,
    sequence_number: u64,
    from: int,
) -> u32
    decreases entries.len() - from,
{
    if from < 0 || from >= entries.len() {
        NIL
    } else if order_in(slot_at(slots, entries[from].0)).sequence_number == sequence_number {
        entries[from].0
    } else {
        first_from(entries, slots, sequence_number, from + 1)
    }
}

/// The order to cancel for a trader and a sequence number: the one order of
/// the tree pair, asks and bids, with that sequence number, where there is
/// exactly one and it is the trader's. `None` otherwise.
pub open spec fn spec_cancel_target(
    pool: PoolView,
    use_a_tree: bool,
    trader_index: u32,
    sequence_number: u64,
) -> Option<u32> {
    let asks = pool.book(use_a_tree, false);
    let bids = pool.book(use_a_tree, true);
    let in_asks = count_from(asks, pool.slots, sequence_number, 0);
    let in_bids = count_from(bids, pool.slots, sequence_number, 0);
    let index = if in_asks == 1 {
        first_from(asks, pool.slots, sequence_number, 0)
    } else {
        first_from(bids, pool.slots, sequence_number, 0)
    };
    if in_asks + in_bids == 1 && order_in(pool.slot(index)).trader_index == trader_index {
        Some(index)
    } else {
        None
    }
}

/// The loan that a cancelled bid becomes: its debt stays with the money
/// market, which lends at its own rate.
pub open spec fn spec_cancelled_loan(
    use_a_tree: bool,
    order: RestingOrder,
    now_unix_timestamp: i64,
    now_slot: u32,
) -> ActiveLoan {
    ActiveLoan::spec_new_empty(
        use_a_tree,
        0,
        order.trader_index,
        false,
        order.collateral_shares,
        order.liability_shares,
        0,
        now_unix_timestamp,
        now_slot as i64,
    )
}

/// What cancelling the order at `index` does. The slot must hold an order
/// that rests in the tree pair. For a global ask the refund of its gas
/// prepayment is asked for. A bid becomes a loan in the ledger, which grows
/// by a slot for it: its collateral cannot go back, as its debt stays. An
/// ask's collateral goes back to its maker's seat. Then the order leaves its
/// book and its slot is free.
pub open spec fn spec_cancel_by_index(
    pool: PoolView,
    ledger: LoansView,
    base_global: Option<GlobalTradeView>,
    use_a_tree: bool,
    index: u32,
    now_unix_timestamp: i64,
    now_slot: u32,
) -> Result<(PoolView, LoansView, Seq<Effect>), EngineError> {
    if !pool_is_resting(pool, use_a_tree, index) {
        Err(EngineError::Nix(NixError::InvalidCancel))
    } else {
        let order = order_in(pool.slot(index));
        if order.order_type == OrderType::Global {
            if order.is_bid {
                Err(EngineError::Nix(NixError::InvalidGlobalBidOrder))
            } else {
                Ok(
                    (
                        pool.free_order(use_a_tree, false, index),
                        ledger,
                        spec_remove_from_global(base_global, true),
                    ),
                )
            }
        } else if order.is_bid {
            if 96 * (ledger.slots.len() + 1) > u32::MAX {
                Err(EngineError::Nix(NixError::NumericalOverflow))
            } else {
                match ledger.expand().add_loan(
                    spec_cancelled_loan(use_a_tree, order, now_unix_timestamp, now_slot),
                ) {
                    Err(e) => Err(e),
                    Ok(l) => Ok((pool.free_order(use_a_tree, true, index), l, Seq::empty())),
                }
            }
        } else {
            match pool.balance(
                order.trader_index,
                spec_should_update_base_a(use_a_tree, false),
                true,
                order.collateral_shares@,
            ) {
                Err(e) => Err(e),
                Ok(p) => Ok((p.free_order(use_a_tree, false, index), ledger, Seq::empty())),
            }
        }
    }
}

/// In a book each slot has one entry, so the place of an entry's slot is
/// the place of the entry.
pub proof fn lemma_place_of_entry(entries: Seq<(u32, u64)>, k: int)
    requires
        0 <= k < entries.len(),
        forall|i: int, j: int| 0 <= i < j < entries.len() ==> entries[i].0 != entries[j].0,
    ensures
        place(entries, entries[k].0) == k,
{
    lemma_place(entries, entries[k].0);
    assert(indices(entries)[k] == entries[k].0);
    let p = place(entries, entries[k].0);
    if p < k {
        assert(entries[p].0 != entries[k].0);
    }
}

/// Scans a book, the best order first, for orders with `sequence_number`.
/// Returns how many it holds, counting to two at most, and the slot of one of
/// them.
pub fn scan_book(
    fixed: &MarketFixed,
    dynamic: &MarketDynamic,
    use_a_tree: bool,
    is_bid: bool,
    sequence_number: u64,
) -> (r: (u8, DataIndex))
    requires
        market_inv(*fixed, *dynamic, Set::empty()),
    ensures
        r.0 as nat == if count_from(
            book(*fixed, *dynamic, use_a_tree, is_bid),
            dynamic.slots@,
            sequence_number,
            0,
        ) >= 2 {
            2nat
        } else {
            count_from(book(*fixed, *dynamic, use_a_tree, is_bid), dynamic.slots@, sequence_number, 0)
        },
        r.0 >= 1 ==> r.1 == first_from(
            book(*fixed, *dynamic, use_a_tree, is_bid),
            dynamic.slots@,
            sequence_number,
            0,
        ) && indices(book(*fixed, *dynamic, use_a_tree, is_bid)).contains(r.1) && slot_ok(
            r.1,
            dynamic.slots@.len(),
        ) && is_order_of(slot_at(dynamic.slots@, r.1), use_a_tree, is_bid),
{
    proof {
        reveal(market_inv);
        if use_a_tree {
            if is_bid {
                assert(book_inv(*fixed, *dynamic, Set::empty(), true, true));
            } else {
                assert(book_inv(*fixed, *dynamic, Set::empty(), true, false));
            }
        } else {
            if is_bid {
                assert(book_inv(*fixed, *dynamic, Set::empty(), false, true));
            } else {
                assert(book_inv(*fixed, *dynamic, Set::empty(), false, false));
            }
        }
    }
    let ghost e = book(*fixed, *dynamic, use_a_tree, is_bid);
    let (root, best) = get_book_indexes(fixed, use_a_tree, is_bid);
    let mut cursor: DataIndex = best;
    let mut found: u8 = 0;
    let mut index_found: DataIndex = NIL;
    let ghost mut k: int = e.len() - 1;
    while cursor != NIL
        invariant
            -1 <= k < e.len(),
            e == book(*fixed, *dynamic, use_a_tree, is_bid),
            root == root_of(*fixed, use_a_tree, is_bid),
            (root == NIL) == (e.len() == 0),
            book_inv(*fixed, *dynamic, Set::empty(), use_a_tree, is_bid),
            cursor == if k >= 0 {
                e[k].0
            } else {
                NIL
            },
            found as nat == if count_from(e, dynamic.slots@, sequence_number, k + 1) >= 2 {
                2nat
            } else {
                count_from(e, dynamic.slots@, sequence_number, k + 1)
            },
            found >= 1 ==> index_found == first_from(e, dynamic.slots@, sequence_number, k + 1)
                && indices(e).contains(index_found) && slot_ok(index_found, dynamic.slots@.len())
                && is_order_of(slot_at(dynamic.slots@, index_found), use_a_tree, is_bid),
        decreases k + 1,
    {
        proof {
            assert(k >= 0) by {
                if k < 0 {
                    assert(cursor == NIL);
                }
            }
            assert(slot_ok(e[k].0, dynamic.slots@.len()));
            assert(is_order_of(slot_at(dynamic.slots@, e[k].0), use_a_tree, is_bid));
            lemma_place_of_entry(e, k);
            assert(indices(e)[k] == e[k].0);
        }
        let resting_order = read_order(dynamic, cursor);
        if resting_order.get_sequence_number() == sequence_number {
            if found < 2 {
                found = found + 1;
            }
            index_found = cursor;
        }
        cursor = tree_next_lower(&dynamic.links, root, cursor);
        proof {
            k = k - 1;
            if k >= 0 {
                crate::market_helpers::lemma_slot_fits(e[k].0, dynamic.slots@.len());
            }
        }
    }
    proof {
        if k >= 0 {
            assert(slot_ok(e[k].0, dynamic.slots@.len()));
            crate::market_helpers::lemma_slot_fits(e[k].0, dynamic.slots@.len());
        }
        assert(k == -1);
    }
    (found, index_found)
}

/// What cancelling the order of a trader with a sequence number does: the
/// order is looked for on both sides of the tree pair, and cancelled where
/// it is the only one there with that number and the trader's.
pub open spec fn spec_cancel(
    pool: PoolView,
    ledger: LoansView,
    base_global: Option<GlobalTradeView>,
    use_a_tree: bool,
    trader_index: u32,
    sequence_number: u64,
    now_unix_timestamp: i64,
    now_slot: u32,
) -> Result<(PoolView, LoansView, Seq<Effect>), EngineError> {
    match spec_cancel_target(pool, use_a_tree, trader_index, sequence_number) {
        None => Err(EngineError::Nix(NixError::InvalidCancel)),
        Some(index) => spec_cancel_by_index(
            pool,
            ledger,
            base_global,
            use_a_tree,
            index,
            now_unix_timestamp,
            now_slot,
        ),
    }
}

/// In a well-formed market an order of a tree pair rests in the book of its
/// side.
pub proof fn lemma_order_is_resting(
    fixed: MarketFixed,
    dynamic: MarketDynamic,
    use_a_tree: bool,
    index: u32,
)
    requires
        market_inv(fixed, dynamic, Set::empty()),
        slot_ok(index, dynamic.slots@.len()),
        slot_at(dynamic.slots@, index) is Order,
        order_in(slot_at(dynamic.slots@, index)).is_a_tree == use_a_tree,
    ensures
        pool_is_resting(pool_view(fixed, dynamic), use_a_tree, index),
{
    reveal(market_inv);
    let is_bid = order_in(slot_at(dynamic.slots@, index)).is_bid;
    assert(is_order_of(slot_at(dynamic.slots@, index), use_a_tree, is_bid));
    if use_a_tree {
        if is_bid {
            assert(book_inv(fixed, dynamic, Set::empty(), true, true));
        } else {
            assert(book_inv(fixed, dynamic, Set::empty(), true, false));
        }
    } else {
        if is_bid {
            assert(book_inv(fixed, dynamic, Set::empty(), false, true));
        } else {
            assert(book_inv(fixed, dynamic, Set::empty(), false, false));
        }
    }
}

impl DynamicAccount<MarketFixed, MarketDynamic> {
    /// Cancels the order at `order_index`, which must rest in the tree pair.
    /// A bid becomes a loan in `market_loans`; the ledger grows by a slot
    /// for it. On failure the market and the ledger are unchanged.
    pub fn cancel_order_by_index(
        &mut self,
        use_a_tree: bool,
        order_index: DataIndex,
        base_global: &Option<GlobalTradeAccounts>,
        market_loans: &mut DynamicAccount<MarketLoansFixed, MarketLoansDynamic>,
        now_unix_timestamp: i64,
        now_slot: u32,
        effects: &mut Vec<Effect>,
    ) -> (r: Result<(), EngineError>)
        requires
            old(self).wf(),
            old(market_loans).wf(),
        ensures
            final(self).wf(),
            final(market_loans).wf(),
            final(market_loans).same_ledger(old(market_loans)),
            same_settings(old(self).fixed, final(self).fixed),
            crate::market::indexes_kept(old(self).fixed, final(self).fixed, set![(use_a_tree, order_in(old(self).pool().slot(order_index)).is_bid)]),
            final(self).fixed.num_bytes_allocated == old(self).fixed.num_bytes_allocated,
            match spec_cancel_by_index(
                old(self).pool(),
                old(market_loans).view(),
                opt_view(*base_global),
                use_a_tree,
                order_index,
                now_unix_timestamp,
                now_slot,
            ) {
                Ok((p, l, e)) => r.is_ok() && final(self).pool() == p
                    && final(market_loans).view() == l && final(effects)@ == old(effects)@ + e,
                Err(e) => r == Err::<(), _>(e) && final(self).pool() == old(self).pool()
                    && final(self).fixed == old(self).fixed && final(effects)@ == old(effects)@
                    && final(market_loans).view() == old(market_loans).view()
                    && final(market_loans).fixed == old(market_loans).fixed,
            },
    {
        let resting_order = match self.get_slot(order_index) {
            Some(MarketSlot::Order(o)) => o,
            _ => { return Err(EngineError::Nix(NixError::InvalidCancel)); },
        };
        if resting_order.is_a_tree != use_a_tree {
            return Err(EngineError::Nix(NixError::InvalidCancel));
        }
        let ghost p0 = self.pool();
        proof {
            lemma_order_is_resting(self.fixed, self.dynamic, use_a_tree, order_index);
        }
        let is_bid: bool = resting_order.get_is_bid();
        if resting_order.is_global() {
            if is_bid {
                return Err(EngineError::Nix(NixError::InvalidGlobalBidOrder));
            } else {
                remove_from_global(base_global, true, effects)?;
            }
        } else {
            if is_bid {
                let new_active_loan = ActiveLoan::new_empty(
                    use_a_tree,
                    0,
                    resting_order.get_trader_index(),
                    false,
                    resting_order.get_collateral_shares(),
                    resting_order.get_liability_shares(),
                    0,
                    now_unix_timestamp,
                    now_slot as i64,
                );
                // What can fail is found out before the ledger is touched.
                if market_loans.fixed.num_bytes_allocated > u32::MAX - crate::market_loan::LOAN_BLOCK {
                    return Err(EngineError::Nix(NixError::NumericalOverflow));
                }
                if market_loans.fixed.num_active_loans >= crate::constants::MAX_ACTIVE_LOANS {
                    return Err(EngineError::Nix(NixError::MaxActiveLoansExceeded));
                }
                if market_loans.fixed.loan_sequence_number == u64::MAX {
                    return Err(EngineError::Nix(NixError::NumericalOverflow));
                }
                match market_loans.expand_one() {
                    Ok(()) => {},
                    Err(e) => { return Err(e); },
                }
                match market_loans.add_loan(new_active_loan) {
                    Ok(()) => {},
                    Err(e) => { return Err(e); },
                }
            } else {
                proof {
                    lemma_balance_frame(
                        p0,
                        resting_order.trader_index,
                        spec_should_update_base_a(use_a_tree, false),
                        true,
                        resting_order.collateral_shares@,
                    );
                }
                update_balance(
                    &mut self.fixed,
                    &mut self.dynamic,
                    resting_order.get_trader_index(),
                    should_update_base_a(use_a_tree, false),
                    true,
                    resting_order.get_collateral_shares(),
                )?;
            }
            proof {
                assert(effects@ == old(effects)@ + Seq::<Effect>::empty());
            }
        }
        remove_order_from_tree_and_free(
            &mut self.fixed,
            &mut self.dynamic,
            use_a_tree,
            order_index,
            is_bid,
        )?;
        Ok(())
    }

    /// Cancels the order of the trader at `trader_index` with
    /// `order_sequence_number`, found by a scan of both sides of the tree
    /// pair. Fails where no order or more than one has that number, and
    /// where the order is another trader's. On failure the market and the
    /// ledger are unchanged.
    pub fn cancel_order(
        &mut self,
        use_a_tree: bool,
        trader_index: DataIndex,
        order_sequence_number: u64,
        base_global: &Option<GlobalTradeAccounts>,
        market_loans: &mut DynamicAccount<MarketLoansFixed, MarketLoansDynamic>,
        now_unix_timestamp: i64,
        now_slot: u32,
        effects: &mut Vec<Effect>,
    ) -> (r: Result<(), EngineError>)
        requires
            old(self).wf(),
            old(market_loans).wf(),
        ensures
            final(self).wf(),
            final(market_loans).wf(),
            final(market_loans).same_ledger(old(market_loans)),
            same_settings(old(self).fixed, final(self).fixed),
            crate::market::indexes_kept(
                old(self).fixed,
                final(self).fixed,
                match spec_cancel_target(
                    old(self).pool(),
                    use_a_tree,
                    trader_index,
                    order_sequence_number,
                ) {
                    Some(index) => set![(use_a_tree, order_in(old(self).pool().slot(index)).is_bid)],
                    None => Set::empty(),
                },
            ),
            final(self).fixed.num_bytes_allocated == old(self).fixed.num_bytes_allocated,
            match spec_cancel(
                old(self).pool(),
                old(market_loans).view(),
                opt_view(*base_global),
                use_a_tree,
                trader_index,
                order_sequence_number,
                now_unix_timestamp,
                now_slot,
            ) {
                Ok((p, l, e)) => r.is_ok() && final(self).pool() == p
                    && final(market_loans).view() == l && final(effects)@ == old(effects)@ + e,
                Err(e) => r == Err::<(), _>(e) && final(self).pool() == old(self).pool()
                    && final(self).fixed == old(self).fixed && final(effects)@ == old(effects)@
                    && final(market_loans).view() == old(market_loans).view()
                    && final(market_loans).fixed == old(market_loans).fixed,
            },
    {
        // One scan to find the order on the ask side, one on the bid side.
        let (in_asks, ask_index) = scan_book(
            &self.fixed,
            &self.dynamic,
            use_a_tree,
            false,
            order_sequence_number,
        );
        let (in_bids, bid_index) = scan_book(
            &self.fixed,
            &self.dynamic,
            use_a_tree,
            true,
            order_sequence_number,
        );
        if in_asks + in_bids != 1 {
            // None, or the book is broken: never fail silently.
            return Err(EngineError::Nix(NixError::InvalidCancel));
        }
        let index_to_remove: DataIndex = if in_asks == 1 {
            ask_index
        } else {
            bid_index
        };
        let resting_order = read_order(&self.dynamic, index_to_remove);
        if resting_order.get_trader_index() != trader_index {
            return Err(EngineError::Nix(NixError::InvalidCancel));
        }
        self.cancel_order_by_index(
            use_a_tree,
            index_to_remove,
            base_global,
            market_loans,
            now_unix_timestamp,
            now_slot,
            effects,
        )
    }
}

} // verus!
