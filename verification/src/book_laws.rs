//! What holds of the books and the ledger when orders rest, leave and are
//! found again.

use crate::cancel_order::{
    count_from, first_from, spec_cancel, spec_cancel_by_index, spec_cancel_target,
};
use crate::claimed_seat::ClaimedSeat;
use crate::constants::{MAX_ACTIVE_LOANS, NIL};
use crate::dynamic_account::DynamicAccount;
use crate::error::{EngineError, NixError};
use crate::global::GlobalTradeView;
use crate::invariants::{lemma_market_slots_are_parted, lemma_market_slots_match_their_trees};
use crate::logs::Effect;
use crate::marginfi_utils::spec_buffer_factor;
use crate::market::{
    order_in, seat_in, slot_ok, spec_should_update_base_a, MarketDynamic, MarketFixed, MarketSlot,
    PoolView,
};
use crate::market_helpers::lemma_slot_update;
use crate::invariants::lemma_ledger_slots_match_their_trees;
use crate::market_loan::{
    loan_slot_at, loan_slot_ok, ActiveLoan, LoanSlot, LoanStatus, LoansView, MarketLoansDynamic,
    MarketLoansFixed,
};
use crate::matching::{
    makers, pool_is_resting, spec_expired_loan, spec_match, spec_remove_and_update_balances,
    spec_step, AddOrderToMarketArgs, MatchContext, MatchState, StepOutcome,
};
use crate::place_order::{sequence_number_of, spec_initial_state, spec_place_order, spec_rest};
use crate::quantities::WrappedI80F48;
use crate::resting_order::{OrderType, RestingOrder};
use crate::round_trip::{
    lemma_place_then_cancel_restores_the_seat, no_fill_from, number_is_its_own, numbers_at_most,
};
use crate::slot_pool::{indices, lemma_place, lemma_rank_bounds, place, rank};
use vstd::prelude::*;

verus! {

/// Whether `a` is the beginning of `b`.
pub open spec fn loans_begin(a: Seq<ActiveLoan>, b: Seq<ActiveLoan>) -> bool {
    a.len() <= b.len() && forall|i: int| 0 <= i < a.len() ==> b[i] == a[i]
}

/// An order that rests is an order record in the book of its tree pair and
/// side, and in no other book: where resting succeeds, the slot that is
/// returned holds the order, the book of the order's pair and side has the
/// slot, behind the orders of lower priority, and no other book has it.
pub proof fn lemma_rested_order_is_in_its_book(
    m: DynamicAccount<MarketFixed, MarketDynamic>,
    base_global: Option<GlobalTradeView>,
    effects: Seq<Effect>,
    order: RestingOrder,
)
    requires
        m.wf(),
        spec_rest(m.pool(), base_global, effects, order).is_ok(),
    ensures
        ({
            let rested = spec_rest(m.pool(), base_global, effects, order).unwrap();
            let book = m.pool().book(order.is_a_tree, order.is_bid);
            &&& rested.2 == m.pool().free[0]
            &&& slot_ok(rested.2, m.pool().slots.len())
            &&& rested.0.slot(rested.2) == MarketSlot::Order(order)
            &&& rested.0.book(order.is_a_tree, order.is_bid) == book.insert(
                rank(book, order.spec_priority()),
                (rested.2, order.spec_priority()),
            )
            &&& forall|a: bool, b: bool|
                indices(#[trigger] rested.0.book(a, b)).contains(rested.2) <==> a
                    == order.is_a_tree && b == order.is_bid
        }),
{
    let pool = m.pool();
    let index = pool.free[0];
    lemma_market_slots_match_their_trees(m);
    lemma_market_slots_are_parted(m);
    assert(pool.free.len() > 0);
    assert(pool.free.contains(pool.free[0]));
    let paid = if order.order_type == OrderType::Global {
        pool
    } else {
        pool.balance(
            order.trader_index,
            spec_should_update_base_a(order.is_a_tree, order.is_bid),
            false,
            order.collateral_shares@,
        ).unwrap()
    };
    let rested = spec_rest(pool, base_global, effects, order).unwrap();
    assert(rested.0 == paid.rest_order(order));
    assert(paid.free == pool.free);
    assert(paid.slots.len() == pool.slots.len());
    lemma_slot_update(paid.slots, index, MarketSlot::Order(order), index);
    let book = pool.book(order.is_a_tree, order.is_bid);
    let r = rank(book, order.spec_priority());
    lemma_rank_bounds(book, order.spec_priority());
    let after = rested.0.book(order.is_a_tree, order.is_bid);
    assert(after == book.insert(r, (index, order.spec_priority())));
    assert(indices(after)[r] == index);
    assert forall|a: bool, b: bool|
        indices(#[trigger] rested.0.book(a, b)).contains(index) <==> a == order.is_a_tree && b
            == order.is_bid by {
        if !(a == order.is_a_tree && b == order.is_bid) {
            assert(rested.0.book(a, b) == pool.book(a, b));
            assert(!indices(pool.book(a, b)).contains(index));
        }
    }
}

/// An ask that is taken out of the book for good gives its collateral back
/// to its maker, on the side of the asset that it lent, and nothing else of
/// a seat changes; its slot is empty and heads the free list, and the book
/// has it no more. This is so for an ask that is not global, where the
/// credit stays in the range of quantities.
pub proof fn lemma_removed_ask_is_refunded(
    m: DynamicAccount<MarketFixed, MarketDynamic>,
    base_global: Option<GlobalTradeView>,
    use_a_tree: bool,
    index: u32,
)
    requires
        m.wf(),
        pool_is_resting(m.pool(), use_a_tree, index),
        !order_in(m.pool().slot(index)).is_bid,
        order_in(m.pool().slot(index)).order_type != OrderType::Global,
        spec_remove_and_update_balances(m.pool(), base_global, use_a_tree, index).is_ok(),
    ensures
        ({
            let order = order_in(m.pool().slot(index));
            let maker = order.trader_index;
            let before = seat_in(m.pool().slot(maker));
            let taken = spec_remove_and_update_balances(
                m.pool(),
                base_global,
                use_a_tree,
                index,
            ).unwrap();
            let credited = (if use_a_tree {
                before.base_a_withdrawable_asset_share@
            } else {
                before.base_b_withdrawable_asset_share@
            }) + order.collateral_shares@;
            &&& taken.1.len() == 0
            &&& taken.0.free == seq![index] + m.pool().free
            &&& taken.0.slot(index) is Empty
            &&& !indices(taken.0.book(use_a_tree, false)).contains(index)
            &&& m.pool().is_seat(maker)
            &&& taken.0.slot(maker) == MarketSlot::Seat(
                if use_a_tree {
                    (ClaimedSeat {
                        base_a_withdrawable_asset_share: WrappedI80F48 { value: credited as i128 },
                        ..before
                    })
                } else {
                    (ClaimedSeat {
                        base_b_withdrawable_asset_share: WrappedI80F48 { value: credited as i128 },
                        ..before
                    })
                },
            )
            &&& crate::quantities::fits(credited)
            &&& forall|i: u32|
                slot_ok(i, m.pool().slots.len()) && i != index && i != maker
                    ==> #[trigger] taken.0.slot(i) == m.pool().slot(i)
        }),
{
    let pool = m.pool();
    let order = order_in(pool.slot(index));
    let maker = order.trader_index;
    lemma_market_slots_are_parted(m);
    let credited = pool.balance(maker, spec_should_update_base_a(use_a_tree, false), true, order.collateral_shares@).unwrap();
    let seat1 = seat_in(credited.slot(maker));
    assert(pool.is_seat(maker));
    assert(maker != index);
    assert forall|i: u32| slot_ok(i, pool.slots.len()) implies #[trigger] credited.slot(i) == if i
        == maker {
        MarketSlot::Seat(seat1)
    } else {
        pool.slot(i)
    } by {
        lemma_slot_update(pool.slots, maker, credited.slot(maker), i);
    }
    lemma_slot_update(pool.slots, maker, credited.slot(maker), maker);
    let taken = credited.free_order(use_a_tree, false, index);
    assert forall|i: u32| slot_ok(i, pool.slots.len()) implies #[trigger] taken.slot(i) == if i
        == index {
        MarketSlot::Empty
    } else {
        credited.slot(i)
    } by {
        lemma_slot_update(credited.slots, index, MarketSlot::Empty, i);
    }
    let book = pool.book(use_a_tree, false);
    assert(credited.book(use_a_tree, false) == book);
    lemma_place(book, index);
    let k = place(book, index);
    let rest = book.remove(k);
    assert(taken.book(use_a_tree, false) == rest);
    if indices(rest).contains(index) {
        let j = choose|j: int| 0 <= j < indices(rest).len() && indices(rest)[j] == index;
        if j < k {
            assert(rest[j] == book[j]);
            assert(book[j].0 != book[k].0);
        } else {
            assert(rest[j] == book[j + 1]);
            assert(book[k].0 != book[j + 1].0);
        }
    }
}

/// A bid that is taken out of the book for good changes no seat: its
/// collateral stays where it is, as its debt stays. Its slot is empty and
/// heads the free list, and the book has it no more.
pub proof fn lemma_removed_bid_changes_no_seat(
    m: DynamicAccount<MarketFixed, MarketDynamic>,
    base_global: Option<GlobalTradeView>,
    use_a_tree: bool,
    index: u32,
)
    requires
        m.wf(),
        pool_is_resting(m.pool(), use_a_tree, index),
        order_in(m.pool().slot(index)).is_bid,
        order_in(m.pool().slot(index)).order_type != OrderType::Global,
    ensures
        spec_remove_and_update_balances(m.pool(), base_global, use_a_tree, index).is_ok(),
        ({
            let taken = spec_remove_and_update_balances(
                m.pool(),
                base_global,
                use_a_tree,
                index,
            ).unwrap();
            &&& taken.1.len() == 0
            &&& taken.0.free == seq![index] + m.pool().free
            &&& taken.0.slot(index) is Empty
            &&& !indices(taken.0.book(use_a_tree, true)).contains(index)
            &&& forall|i: u32|
                slot_ok(i, m.pool().slots.len()) && i != index ==> #[trigger] taken.0.slot(i)
                    == m.pool().slot(i)
        }),
{
    let pool = m.pool();
    lemma_market_slots_are_parted(m);
    let taken = pool.free_order(use_a_tree, true, index);
    assert forall|i: u32| slot_ok(i, pool.slots.len()) implies #[trigger] taken.slot(i) == if i
        == index {
        MarketSlot::Empty
    } else {
        pool.slot(i)
    } by {
        lemma_slot_update(pool.slots, index, MarketSlot::Empty, i);
    }
    let book = pool.book(use_a_tree, true);
    lemma_place(book, index);
    let k = place(book, index);
    let rest = book.remove(k);
    assert(taken.book(use_a_tree, true) == rest);
    if indices(rest).contains(index) {
        let j = choose|j: int| 0 <= j < indices(rest).len() && indices(rest)[j] == index;
        if j < k {
            assert(rest[j] == book[j]);
            assert(book[j].0 != book[k].0);
        } else {
            assert(rest[j] == book[j + 1]);
            assert(book[k].0 != book[j + 1].0);
        }
    }
}

/// A step of matching only adds to the loans.
pub proof fn lemma_step_adds_loans(
    ctx: MatchContext,
    quote_global: Option<GlobalTradeView>,
    s: MatchState,
)
    ensures
        match spec_step(ctx, quote_global, s) {
            StepOutcome::Continue(n) => loans_begin(s.new_loans, n.new_loans),
            StepOutcome::Stop(n) => loans_begin(s.new_loans, n.new_loans),
            StepOutcome::Fail(_) => true,
        },
{
}

/// Matching only adds to the loans.
pub proof fn lemma_match_adds_loans(
    ctx: MatchContext,
    quote_global: Option<GlobalTradeView>,
    s: MatchState,
    limit: nat,
)
    requires
        spec_match(ctx, quote_global, s, limit).is_ok(),
    ensures
        loans_begin(s.new_loans, spec_match(ctx, quote_global, s, limit).unwrap().new_loans),
    decreases limit,
{
    if limit == 0 || s.totals.remaining_base_atoms == 0 || makers(s.pool, ctx).len() == 0 {
    } else {
        lemma_step_adds_loans(ctx, quote_global, s);
        match spec_step(ctx, quote_global, s) {
            StepOutcome::Continue(next) => {
                lemma_match_adds_loans(ctx, quote_global, next, (limit - 1) as nat);
            },
            _ => {},
        }
    }
}

/// An expired bid at the top of the book becomes the first loan of the ask
/// that meets it: where an ask for some atoms is placed and the best bid of
/// its tree pair has expired, the first loan that placing the ask returns is
/// that of the bid, which borrows from the money market itself: no lender,
/// the bid's seat as borrower, the bid's collateral and liability, the rate
/// zero, active.
pub proof fn lemma_expired_best_bid_is_the_first_loan(
    fixed: MarketFixed,
    pool: PoolView,
    base_global: Option<GlobalTradeView>,
    quote_global: Option<GlobalTradeView>,
    args: AddOrderToMarketArgs,
)
    requires
        !args.is_bid,
        args.num_base_atoms > 0,
        pool.book(args.use_a_tree, true).len() > 0,
        order_in(pool.slot(pool.book(args.use_a_tree, true).last().0)).is_bid,
        order_in(pool.slot(pool.book(args.use_a_tree, true).last().0)).spec_is_expired(
            args.now_slot,
        ),
        spec_place_order(fixed, pool, base_global, quote_global, args).is_ok(),
    ensures
        ({
            let bid = order_in(pool.slot(pool.book(args.use_a_tree, true).last().0));
            let loans = spec_place_order(
                fixed,
                pool,
                base_global,
                quote_global,
                args,
            ).unwrap().placed.matched_loans;
            &&& loans.len() > 0
            &&& loans[0] == (ActiveLoan {
                sequence_number: 0,
                lender_index: 0,
                borrower_index: bid.trader_index,
                is_lender_global: bid.order_type == OrderType::Global,
                is_liability_base_a: args.use_a_tree,
                status: LoanStatus::Active,
                collateral_shares: bid.collateral_shares,
                liability_shares: bid.liability_shares,
                rate_bps: 0,
                start_timestamp: args.now_unix_timestamp,
                last_updated_slot: args.now_slot as i64,
            })
        }),
{
    let a = args.use_a_tree;
    let buffer = spec_buffer_factor(fixed.fee_state.ltv_buffer_bps).unwrap();
    let ctx = MatchContext {
        args,
        buffer_f: WrappedI80F48 { value: buffer },
        taker: seat_in(pool.slot(args.trader_index)).trader,
        taker_sequence_number: sequence_number_of(fixed, a),
    };
    let s = spec_initial_state(pool, base_global, args);
    let limit = makers(pool, ctx).len();
    assert(makers(s.pool, ctx) == pool.book(a, true));
    let bid = order_in(pool.slot(pool.book(a, true).last().0));
    let done = spec_match(ctx, quote_global, s, limit).unwrap();
    match spec_step(ctx, quote_global, s) {
        StepOutcome::Continue(next) => {
            assert(next.new_loans == s.new_loans.push(spec_expired_loan(ctx, bid)));
            assert(next.new_loans[0] == spec_expired_loan(ctx, bid));
            lemma_match_adds_loans(ctx, quote_global, next, (limit - 1) as nat);
            assert(done.new_loans[0] == next.new_loans[0]);
        },
        _ => {},
    }
}

/// A loan that is added is a loan record in the tree: where adding succeeds,
/// the slot that headed the free list holds the loan under the next sequence
/// number, the tree has that slot under that number behind all other loans,
/// and the free list has it no more.
pub proof fn lemma_added_loan_is_in_the_tree(
    m: DynamicAccount<MarketLoansFixed, MarketLoansDynamic>,
    loan: ActiveLoan,
)
    requires
        m.wf(),
        m.view().add_loan(loan).is_ok(),
    ensures
        ({
            let v = m.view();
            let w = v.add_loan(loan).unwrap();
            let index = v.free[0];
            &&& loan_slot_ok(index, v.slots.len())
            &&& loan_slot_at(w.slots, index) == LoanSlot::Loan(
                ActiveLoan { sequence_number: v.next_sequence_number, ..loan },
            )
            &&& w.loans == v.loans.push((index, v.next_sequence_number))
            &&& !w.free.contains(index)
            &&& forall|k: int| 0 <= k < v.loans.len() ==> (#[trigger] v.loans[k]).0 != index
        }),
{
    let v = m.view();
    let w = v.add_loan(loan).unwrap();
    let index = v.free[0];
    lemma_ledger_slots_match_their_trees(m);
    assert(v.free.contains(v.free[0]));
    if w.free.contains(index) {
        let k = choose|k: int| 0 <= k < w.free.len() && w.free[k] == index;
        assert(w.free[k] == v.free[k + 1]);
    }
    assert forall|k: int| 0 <= k < v.loans.len() implies (#[trigger] v.loans[k]).0 != index by {
        assert(indices(v.loans)[k] == v.loans[k].0);
        assert(indices(v.loans).contains(v.loans[k].0));
    }
}

/// Adding loans one after the other to a ledger with room under its limit
/// never fails for the limit; it succeeds where the slots and the sequence
/// numbers suffice, and then the ledger has as many loans more as were added.
pub proof fn lemma_each_loan_is_counted(v: LoansView, batch: Seq<ActiveLoan>)
    requires
        v.num_active_loans + batch.len() <= MAX_ACTIVE_LOANS,
    ensures
        v.add_each(batch) != Err::<LoansView, _>(
            EngineError::Nix(NixError::MaxActiveLoansExceeded),
        ),
        v.free.len() >= batch.len() && v.next_sequence_number + batch.len() <= u64::MAX
            ==> v.add_each(batch).is_ok(),
        v.add_each(batch).is_ok() ==> v.add_each(batch).unwrap().num_active_loans
            == v.num_active_loans + batch.len() && v.add_each(batch).unwrap().loans.len()
            == v.loans.len() + batch.len() && v.add_each(batch).unwrap().free.len() + batch.len()
            == v.free.len(),
    decreases batch.len(),
{
    if batch.len() > 0 {
        match v.add_loan(batch[0]) {
            Ok(next) => {
                lemma_each_loan_is_counted(next, batch.drop_first());
            },
            Err(_) => {},
        }
    }
}

/// A batch of loans is refused for the limit exactly when it would take the
/// ledger over `MAX_ACTIVE_LOANS`. Otherwise it succeeds where the free
/// slots and the sequence numbers suffice, and then the ledger has as many
/// loans more as the batch holds, which is within the limit.
pub proof fn lemma_batch_stays_within_limit(v: LoansView, batch: Seq<ActiveLoan>)
    requires
        v.num_active_loans <= MAX_ACTIVE_LOANS,
    ensures
        (v.add_loans(batch) == Err::<LoansView, _>(
            EngineError::Nix(NixError::MaxActiveLoansExceeded),
        )) == (v.num_active_loans + batch.len() > MAX_ACTIVE_LOANS),
        v.num_active_loans + batch.len() <= MAX_ACTIVE_LOANS && v.free.len() >= batch.len()
            && v.next_sequence_number + batch.len() <= u64::MAX ==> v.add_loans(batch).is_ok(),
        v.add_loans(batch).is_ok() ==> v.add_loans(batch).unwrap().num_active_loans
            == v.num_active_loans + batch.len() && v.add_loans(batch).unwrap().num_active_loans
            <= MAX_ACTIVE_LOANS,
{
    if v.num_active_loans + batch.len() <= MAX_ACTIVE_LOANS {
        lemma_each_loan_is_counted(v, batch);
    }
}

/// Counting the orders with a sequence number in a book that has the order
/// at place `k` and no other order with its number: one from a place up to
/// `k` on, none behind it; and the first that is found is that order.
proof fn lemma_count_one(
    entries: Seq<(u32, u64)>,
    slots: Seq<MarketSlot>,
    number: u64,
    k: int,
    from: int,
)
    requires
        0 <= from <= entries.len(),
        -1 <= k < entries.len(),
        forall|j: int|
            0 <= j < entries.len() ==> (order_in(
                crate::market::slot_at(slots, (#[trigger] entries[j]).0),
            ).sequence_number == number) == (j == k),
    ensures
        count_from(entries, slots, number, from) == if from <= k {
            1nat
        } else {
            0nat
        },
        from <= k ==> first_from(entries, slots, number, from) == entries[k].0,
    decreases entries.len() - from,
{
    if from < entries.len() {
        lemma_count_one(entries, slots, number, k, from + 1);
        assert((order_in(crate::market::slot_at(slots, entries[from].0)).sequence_number == number)
            == (from == k));
    }
}

/// Cancelling an order by its number is cancelling it by its slot, where the
/// number is the order's own: in a well-formed market the order that rests
/// at `index` is found by its trader and its sequence number where no other
/// order of the tree pair has that number.
pub proof fn lemma_cancel_by_number_finds_the_order(
    m: DynamicAccount<MarketFixed, MarketDynamic>,
    ledger: LoansView,
    base_global: Option<GlobalTradeView>,
    use_a_tree: bool,
    index: u32,
    now_unix_timestamp: i64,
    now_slot: u32,
)
    requires
        m.wf(),
        pool_is_resting(m.pool(), use_a_tree, index),
        number_is_its_own(m.pool(), use_a_tree, index),
    ensures
        spec_cancel_target(
            m.pool(),
            use_a_tree,
            order_in(m.pool().slot(index)).trader_index,
            order_in(m.pool().slot(index)).sequence_number,
        ) == Some(index),
        spec_cancel(
            m.pool(),
            ledger,
            base_global,
            use_a_tree,
            order_in(m.pool().slot(index)).trader_index,
            order_in(m.pool().slot(index)).sequence_number,
            now_unix_timestamp,
            now_slot,
        ) == spec_cancel_by_index(
            m.pool(),
            ledger,
            base_global,
            use_a_tree,
            index,
            now_unix_timestamp,
            now_slot,
        ),
{
    let pool = m.pool();
    let order = order_in(pool.slot(index));
    let number = order.sequence_number;
    lemma_market_slots_match_their_trees(m);
    lemma_market_slots_are_parted(m);
    let mine = pool.book(use_a_tree, order.is_bid);
    let other = pool.book(use_a_tree, !order.is_bid);
    lemma_place(mine, index);
    let k = place(mine, index);
    assert forall|j: int| 0 <= j < mine.len() implies (order_in(
        crate::market::slot_at(pool.slots, (#[trigger] mine[j]).0),
    ).sequence_number == number) == (j == k) by {
        if j != k {
            if j < k {
                assert(mine[j].0 != mine[k].0);
            } else {
                assert(mine[k].0 != mine[j].0);
            }
            assert(pool.book(use_a_tree, order.is_bid)[j].0 != index);
        }
    }
    assert forall|j: int| 0 <= j < other.len() implies (order_in(
        crate::market::slot_at(pool.slots, (#[trigger] other[j]).0),
    ).sequence_number == number) == (j == -1) by {
        assert(indices(other)[j] == other[j].0);
        assert(indices(pool.book(use_a_tree, !order.is_bid)).contains(other[j].0));
        assert(pool.book(use_a_tree, !order.is_bid)[j].0 != index);
    }
    lemma_count_one(mine, pool.slots, number, k, 0);
    lemma_count_one(other, pool.slots, number, -1, 0);
}

/// Placing an ask and cancelling it by its sequence number leaves the
/// trader's seat as it was and adds no loan: where the ask rested with none
/// of it filled and `after` is the market with the ask in it. The ask is
/// found by its number because no order of the tree pair had a number above
/// the header's, which was not the largest.
pub proof fn lemma_place_then_cancel_by_number_restores_the_seat(
    m: DynamicAccount<MarketFixed, MarketDynamic>,
    after: DynamicAccount<MarketFixed, MarketDynamic>,
    ledger: LoansView,
    base_global: Option<GlobalTradeView>,
    quote_global: Option<GlobalTradeView>,
    args: AddOrderToMarketArgs,
    now_unix_timestamp: i64,
    now_slot: u32,
)
    requires
        m.wf(),
        after.wf(),
        !args.is_bid,
        spec_place_order(m.fixed, m.pool(), base_global, quote_global, args).is_ok(),
        spec_place_order(
            m.fixed,
            m.pool(),
            base_global,
            quote_global,
            args,
        ).unwrap().placed.order_index != NIL,
        no_fill_from(
            spec_place_order(m.fixed, m.pool(), base_global, quote_global, args).unwrap().placed.effects,
            0,
        ),
        after.pool() == spec_place_order(
            m.fixed,
            m.pool(),
            base_global,
            quote_global,
            args,
        ).unwrap().pool,
        sequence_number_of(m.fixed, args.use_a_tree) < u64::MAX,
        numbers_at_most(m.pool(), args.use_a_tree, sequence_number_of(m.fixed, args.use_a_tree)),
    ensures
        ({
            let placed = spec_place_order(
                m.fixed,
                m.pool(),
                base_global,
                quote_global,
                args,
            ).unwrap();
            let cancelled = spec_cancel(
                placed.pool,
                ledger,
                placed.base_global,
                args.use_a_tree,
                args.trader_index,
                placed.placed.order_sequence_number,
                now_unix_timestamp,
                now_slot,
            );
            &&& cancelled.is_ok()
            &&& cancelled.unwrap().0.slot(args.trader_index) == m.pool().slot(args.trader_index)
            &&& cancelled.unwrap().1 == ledger
        }),
{
    let placed = spec_place_order(m.fixed, m.pool(), base_global, quote_global, args).unwrap();
    let index = placed.placed.order_index;
    lemma_place_then_cancel_restores_the_seat(
        m,
        ledger,
        base_global,
        quote_global,
        args,
        now_unix_timestamp,
        now_slot,
    );
    lemma_cancel_by_number_finds_the_order(
        after,
        ledger,
        placed.base_global,
        args.use_a_tree,
        index,
        now_unix_timestamp,
        now_slot,
    );
}

/// Growing the pool of a market by a slot keeps its parts apart: the new
/// slot is the one behind the last, it is empty and heads the free list,
/// the free list goes on as it was, every other slot has the record it had,
/// and the free list still has exactly the empty slots, each once.
pub proof fn lemma_expanded_market_is_parted(m: DynamicAccount<MarketFixed, MarketDynamic>)
    requires
        m.wf(),
        m.fixed.num_bytes_allocated + crate::market::BLOCK <= u32::MAX,
    ensures
        ({
            let pool = m.pool();
            let grown = pool.expand();
            let added = m.fixed.num_bytes_allocated;
            &&& grown.slots.len() == pool.slots.len() + 1
            &&& slot_ok(added, grown.slots.len())
            &&& !slot_ok(added, pool.slots.len())
            &&& grown.slot(added) is Empty
            &&& grown.free == seq![added] + pool.free
            &&& forall|i: u32| slot_ok(i, pool.slots.len()) ==> #[trigger] grown.slot(i) == pool.slot(i)
            &&& forall|i: u32|
                slot_ok(i, grown.slots.len()) ==> (#[trigger] grown.free.contains(i) <==> grown.slot(
                    i,
                ) is Empty)
            &&& forall|k: int, l: int| 0 <= k < l < grown.free.len() ==> grown.free[k] != grown.free[l]
            &&& grown.seats == pool.seats
            &&& forall|a: bool, b: bool| #[trigger] grown.book(a, b) == pool.book(a, b)
        }),
{
    let pool = m.pool();
    let grown = pool.expand();
    let n = pool.slots.len();
    let added = m.fixed.num_bytes_allocated;
    lemma_market_slots_match_their_trees(m);
    lemma_market_slots_are_parted(m);
    assert(added == 112 * n);
    assert(added as int / 112 == n && added % 112 == 0) by (nonlinear_arith)
        requires
            added == 112 * n,
    ;
    assert(grown.free[0] == added);
    assert forall|i: u32| slot_ok(i, grown.slots.len()) implies (#[trigger] grown.free.contains(i)
        <==> grown.slot(i) is Empty) by {
        if i == added {
        } else {
            assert(slot_ok(i, n)) by {
                assert(i as int / 112 != n) by (nonlinear_arith)
                    requires
                        i % 112 == 0,
                        i != 112 * n,
                        0 <= i,
                ;
            }
            assert(grown.slot(i) == pool.slot(i));
            if grown.free.contains(i) {
                let k = choose|k: int| 0 <= k < grown.free.len() && grown.free[k] == i;
                assert(k > 0);
                assert(pool.free[k - 1] == i);
                assert(pool.free.contains(i));
            }
            if pool.free.contains(i) {
                let k = choose|k: int| 0 <= k < pool.free.len() && pool.free[k] == i;
                assert(grown.free[k + 1] == i);
            }
        }
    }
    assert forall|k: int, l: int| 0 <= k < l < grown.free.len() implies grown.free[k]
        != grown.free[l] by {
        assert(grown.free[l] == pool.free[l - 1]);
        assert(pool.free.contains(pool.free[l - 1]));
        if k > 0 {
            assert(grown.free[k] == pool.free[k - 1]);
        }
    }
}

/// Growing the pool of a ledger by `n` slots puts each new slot on the free
/// list once, ahead of the slots that were free, the slot added last first;
/// the new slots are empty, and the loans and the records of the other
/// slots are as they were.
pub proof fn lemma_expanded_ledger(v: LoansView, n: nat)
    ensures
        v.expand_by(n).slots.len() == v.slots.len() + n,
        v.expand_by(n).free.len() == v.free.len() + n,
        v.expand_by(n).loans == v.loans,
        v.expand_by(n).num_active_loans == v.num_active_loans,
        v.expand_by(n).next_sequence_number == v.next_sequence_number,
        forall|k: int|
            0 <= k < n ==> #[trigger] v.expand_by(n).free[k] == ((crate::market_loan::LOAN_BLOCK * (
            v.slots.len() + n - 1 - k)) as u32),
        forall|k: int| 0 <= k < v.free.len() ==> #[trigger] v.expand_by(n).free[n + k] == v.free[k],
        forall|j: int| 0 <= j < v.slots.len() ==> #[trigger] v.expand_by(n).slots[j] == v.slots[j],
        forall|j: int|
            v.slots.len() <= j < v.slots.len() + n ==> #[trigger] v.expand_by(n).slots[j]
                == LoanSlot::Empty,
    decreases n,
{
    if n > 0 {
        let w = v.expand();
        lemma_expanded_ledger(w, (n - 1) as nat);
        let r = w.expand_by((n - 1) as nat);
        assert(v.expand_by(n) == r);
        assert forall|k: int| 0 <= k < n implies #[trigger] r.free[k] == ((
        crate::market_loan::LOAN_BLOCK * (v.slots.len() + n - 1 - k)) as u32) by {
            if k < n - 1 {
                assert(w.slots.len() + (n - 1) - 1 - k == v.slots.len() + n - 1 - k);
            } else {
                assert(r.free[(n - 1) + 0] == w.free[0]);
            }
        }
        assert forall|k: int| 0 <= k < v.free.len() implies #[trigger] r.free[n + k]
            == v.free[k] by {
            assert(r.free[(n - 1) + (k + 1)] == w.free[k + 1]);
        }
        assert forall|j: int| 0 <= j < v.slots.len() implies #[trigger] r.slots[j]
            == v.slots[j] by {
            assert(r.slots[j] == w.slots[j]);
        }
        assert forall|j: int| v.slots.len() <= j < v.slots.len() + n implies #[trigger] r.slots[j]
            == LoanSlot::Empty by {
            if j == v.slots.len() {
                assert(r.slots[j] == w.slots[j]);
            }
        }
    }
}

} // verus!
