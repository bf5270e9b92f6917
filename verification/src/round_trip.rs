//! Placing an ask and cancelling it again.

use crate::cancel_order::{lemma_place_of_entry, spec_cancel_by_index};
use crate::constants::NIL;
use crate::dynamic_account::DynamicAccount;
use crate::global::GlobalTradeView;
use crate::invariants::{lemma_market_slots_are_parted, lemma_market_slots_match_their_trees};
use crate::logs::Effect;
use crate::marginfi_utils::spec_buffer_factor;
use crate::market::{
    is_order_of, order_in, seat_in, slot_ok, spec_should_update_base_a, MarketDynamic, MarketFixed,
    MarketSlot, PoolView,
};
use crate::market_helpers::lemma_slot_update;
use crate::market_loan::LoansView;
use crate::matching::{
    lemma_balance_frame, makers, pool_is_resting, spec_expired_loan, spec_match, spec_rate_stops,
    spec_step, AddOrderToMarketArgs, MatchContext, MatchState, StepOutcome,
};
use crate::place_order::{
    sequence_number_of, spec_after_match, spec_initial_state, spec_matched_header,
    spec_place_order, spec_rest, spec_resting_order, spec_resting_shares, spec_settlement,
};
use crate::quantities::WrappedI80F48;
use crate::resting_order::{spec_order_type_can_take, OrderType};
use crate::slot_pool::{indices, lemma_rank_bounds, rank};
use vstd::prelude::*;

verus! {

/// Whether `a` is the beginning of `b`.
pub open spec fn begins(a: Seq<Effect>, b: Seq<Effect>) -> bool {
    a.len() <= b.len() && forall|i: int| 0 <= i < a.len() ==> b[i] == a[i]
}

/// Whether none of the effects from place `from` on is a fill.
pub open spec fn no_fill_from(effects: Seq<Effect>, from: int) -> bool {
    forall|i: int| from <= i < effects.len() ==> !(#[trigger] effects[i] is Fill)
}

/// What an ask relies on while it is matched against the bids of its tree
/// pair: the trader has a seat, the free list links empty slots, each bid of
/// the book is an order in a slot of its own, and each ask of the book is an
/// order.
pub open spec fn bids_linked(pool: PoolView, use_a_tree: bool, trader: u32) -> bool {
    let n = pool.slots.len();
    let bids = pool.book(use_a_tree, true);
    &&& pool.is_seat(trader)
    &&& forall|k: int|
        0 <= k < pool.free.len() ==> slot_ok(#[trigger] pool.free[k], n) && pool.slot(
            pool.free[k],
        ) is Empty
    &&& forall|k: int|
        0 <= k < bids.len() ==> slot_ok((#[trigger] bids[k]).0, n) && is_order_of(
            pool.slot(bids[k].0),
            use_a_tree,
            true,
        )
    &&& forall|k: int, l: int|
        0 <= k < l < bids.len() ==> (#[trigger] bids[k]).0 != (#[trigger] bids[l]).0
    &&& forall|k: int|
        0 <= k < pool.book(use_a_tree, false).len() ==> slot_ok(
            (#[trigger] pool.book(use_a_tree, false)[k]).0,
            n,
        ) && is_order_of(pool.slot(pool.book(use_a_tree, false)[k].0), use_a_tree, false)
}

/// Whether no order in the books of a tree pair has a sequence number above
/// `limit`.
pub open spec fn numbers_at_most(pool: PoolView, use_a_tree: bool, limit: u64) -> bool {
    forall|b: bool, k: int|
        0 <= k < pool.book(use_a_tree, b).len() ==> order_in(
            pool.slot((#[trigger] pool.book(use_a_tree, b)[k]).0),
        ).sequence_number <= limit
}

/// Whether the order at `index` is the only order of the tree pair, bids and
/// asks, with its sequence number.
pub open spec fn number_is_its_own(pool: PoolView, use_a_tree: bool, index: u32) -> bool {
    forall|b: bool, k: int|
        0 <= k < pool.book(use_a_tree, b).len() && (#[trigger] pool.book(use_a_tree, b)[k]).0
            != index ==> order_in(pool.slot(pool.book(use_a_tree, b)[k].0)).sequence_number
            != order_in(pool.slot(index)).sequence_number
}

/// A step of matching only adds to the effects.
pub proof fn lemma_step_adds_effects(
    ctx: MatchContext,
    quote_global: Option<GlobalTradeView>,
    s: MatchState,
)
    ensures
        match spec_step(ctx, quote_global, s) {
            StepOutcome::Continue(n) => begins(s.effects, n.effects),
            StepOutcome::Stop(n) => begins(s.effects, n.effects),
            StepOutcome::Fail(_) => true,
        },
{
}

/// Matching only adds to the effects.
pub proof fn lemma_match_adds_effects(
    ctx: MatchContext,
    quote_global: Option<GlobalTradeView>,
    s: MatchState,
    limit: nat,
)
    requires
        spec_match(ctx, quote_global, s, limit).is_ok(),
    ensures
        begins(s.effects, spec_match(ctx, quote_global, s, limit).unwrap().effects),
    decreases limit,
{
    if limit == 0 || s.totals.remaining_base_atoms == 0 || makers(s.pool, ctx).len() == 0 {
    } else {
        lemma_step_adds_effects(ctx, quote_global, s);
        match spec_step(ctx, quote_global, s) {
            StepOutcome::Continue(next) => {
                lemma_match_adds_effects(ctx, quote_global, next, (limit - 1) as nat);
            },
            _ => {},
        }
    }
}

/// A bid that is filled is logged: where the best maker is a bid that is
/// neither evicted nor too dear, a step that does not fail adds a fill to
/// the effects.
pub proof fn lemma_fill_is_logged(
    ctx: MatchContext,
    quote_global: Option<GlobalTradeView>,
    s: MatchState,
)
    requires
        makers(s.pool, ctx).len() > 0,
        order_in(s.pool.slot(makers(s.pool, ctx).last().0)).is_bid,
        !order_in(s.pool.slot(makers(s.pool, ctx).last().0)).spec_is_expired(ctx.args.now_slot),
        order_in(s.pool.slot(makers(s.pool, ctx).last().0)).collateral_shares@ != 0,
        !spec_rate_stops(ctx, order_in(s.pool.slot(makers(s.pool, ctx).last().0)).rate_bps),
    ensures
        match spec_step(ctx, quote_global, s) {
            StepOutcome::Continue(n) => !no_fill_from(n.effects, s.effects.len() as int),
            StepOutcome::Stop(n) => !no_fill_from(n.effects, s.effects.len() as int),
            StepOutcome::Fail(_) => true,
        },
{
    let maker = order_in(s.pool.slot(makers(s.pool, ctx).last().0));
    let at: int = if maker.order_type == OrderType::Global {
        s.effects.len() as int + 1
    } else {
        s.effects.len() as int
    };
    match spec_step(ctx, quote_global, s) {
        StepOutcome::Continue(n) => {
            assert(at < n.effects.len() && n.effects[at] is Fill);
        },
        StepOutcome::Stop(n) => {
            assert(at < n.effects.len() && n.effects[at] is Fill);
        },
        StepOutcome::Fail(_) => {},
    }
}

/// Evicting the best bid keeps what an ask relies on, and leaves the seats
/// as they were.
pub proof fn lemma_evicted_bid(pool: PoolView, use_a_tree: bool, trader: u32, limit: u64)
    requires
        bids_linked(pool, use_a_tree, trader),
        pool.book(use_a_tree, true).len() > 0,
    ensures
        bids_linked(
            pool.free_order(use_a_tree, true, pool.book(use_a_tree, true).last().0),
            use_a_tree,
            trader,
        ),
        pool.free_order(use_a_tree, true, pool.book(use_a_tree, true).last().0).slot(trader)
            == pool.slot(trader),
        numbers_at_most(pool, use_a_tree, limit) ==> numbers_at_most(
            pool.free_order(use_a_tree, true, pool.book(use_a_tree, true).last().0),
            use_a_tree,
            limit,
        ),
{
    let bids = pool.book(use_a_tree, true);
    let index = bids.last().0;
    let after = pool.free_order(use_a_tree, true, index);
    let n = pool.slots.len();
    lemma_place_of_entry(bids, bids.len() - 1);
    assert(slot_ok(bids[bids.len() - 1].0, n));
    assert(after.book(use_a_tree, true) == bids.remove(bids.len() - 1));
    assert(after.slots.len() == n);
    assert forall|i: u32| slot_ok(i, n) implies #[trigger] after.slot(i) == if i == index {
        MarketSlot::Empty
    } else {
        pool.slot(i)
    } by {
        lemma_slot_update(pool.slots, index, MarketSlot::Empty, i);
    }
    assert(index != trader);
    assert forall|k: int| 0 <= k < after.free.len() implies slot_ok(#[trigger] after.free[k], n)
        && after.slot(after.free[k]) is Empty by {
        if k > 0 {
            assert(after.free[k] == pool.free[k - 1]);
        }
    }
    let rest = after.book(use_a_tree, true);
    assert forall|k: int| 0 <= k < rest.len() implies slot_ok((#[trigger] rest[k]).0, n)
        && is_order_of(after.slot(rest[k].0), use_a_tree, true) by {
        assert(rest[k] == bids[k]);
        assert(bids[k].0 != bids[bids.len() - 1].0);
    }
    assert forall|k: int, l: int| 0 <= k < l < rest.len() implies (#[trigger] rest[k]).0 != (
    #[trigger] rest[l]).0 by {
        assert(rest[k] == bids[k]);
        assert(rest[l] == bids[l]);
    }
    let asks = pool.book(use_a_tree, false);
    assert(after.book(use_a_tree, false) == asks);
    assert forall|k: int| 0 <= k < asks.len() implies slot_ok((#[trigger] asks[k]).0, n)
        && is_order_of(after.slot(asks[k].0), use_a_tree, false) by {
        assert(is_order_of(pool.slot(asks[k].0), use_a_tree, false));
        assert(is_order_of(pool.slot(bids[bids.len() - 1].0), use_a_tree, true));
    }
    if numbers_at_most(pool, use_a_tree, limit) {
        assert forall|b: bool, k: int| 0 <= k < after.book(use_a_tree, b).len() implies order_in(
            after.slot((#[trigger] after.book(use_a_tree, b)[k]).0),
        ).sequence_number <= limit by {
            if b {
                assert(rest[k] == bids[k]);
                assert(bids[k].0 != bids[bids.len() - 1].0);
                assert(pool.book(use_a_tree, true)[k] == bids[k]);
            } else {
                assert(is_order_of(pool.slot(asks[k].0), use_a_tree, false));
                assert(is_order_of(pool.slot(bids[bids.len() - 1].0), use_a_tree, true));
                assert(pool.book(use_a_tree, false)[k] == asks[k]);
            }
        }
    }
}

/// An ask that fills nothing leaves the seats, the sums and the global
/// account as they were: where no fill is among the effects that matching
/// added, every maker that was walked was evicted. No sequence number in the
/// books goes above a bound that held before.
pub proof fn lemma_unfilled_match(
    ctx: MatchContext,
    quote_global: Option<GlobalTradeView>,
    s: MatchState,
    limit: nat,
    bound: u64,
)
    requires
        !ctx.args.is_bid,
        bids_linked(s.pool, ctx.args.use_a_tree, ctx.args.trader_index),
        spec_match(ctx, quote_global, s, limit).is_ok(),
        no_fill_from(
            spec_match(ctx, quote_global, s, limit).unwrap().effects,
            s.effects.len() as int,
        ),
    ensures
        bids_linked(
            spec_match(ctx, quote_global, s, limit).unwrap().pool,
            ctx.args.use_a_tree,
            ctx.args.trader_index,
        ),
        spec_match(ctx, quote_global, s, limit).unwrap().pool.slot(ctx.args.trader_index)
            == s.pool.slot(ctx.args.trader_index),
        spec_match(ctx, quote_global, s, limit).unwrap().totals == s.totals,
        spec_match(ctx, quote_global, s, limit).unwrap().base_global == s.base_global,
        numbers_at_most(s.pool, ctx.args.use_a_tree, bound) ==> numbers_at_most(
            spec_match(ctx, quote_global, s, limit).unwrap().pool,
            ctx.args.use_a_tree,
            bound,
        ),
    decreases limit,
{
    let done = spec_match(ctx, quote_global, s, limit).unwrap();
    if limit == 0 || s.totals.remaining_base_atoms == 0 || makers(s.pool, ctx).len() == 0 {
    } else {
        let a = ctx.args.use_a_tree;
        let bids = s.pool.book(a, true);
        assert(makers(s.pool, ctx) == bids);
        let index = bids.last().0;
        let maker = order_in(s.pool.slot(index));
        assert(is_order_of(s.pool.slot(bids[bids.len() - 1].0), a, true));
        assert(maker.is_bid);
        if maker.spec_is_expired(ctx.args.now_slot) || maker.collateral_shares@ == 0 {
            lemma_evicted_bid(s.pool, a, ctx.args.trader_index, bound);
            let next = MatchState {
                pool: s.pool.free_order(a, true, index),
                new_loans: s.new_loans.push(spec_expired_loan(ctx, maker)),
                effects: s.effects + Seq::<Effect>::empty(),
                ..s
            };
            assert(spec_step(ctx, quote_global, s) == StepOutcome::Continue(next));
            assert(next.effects =~= s.effects);
            lemma_unfilled_match(ctx, quote_global, next, (limit - 1) as nat, bound);
        } else if spec_rate_stops(ctx, maker.rate_bps) {
        } else if !spec_order_type_can_take(ctx.args.order_type) {
        } else {
            lemma_fill_is_logged(ctx, quote_global, s);
            match spec_step(ctx, quote_global, s) {
                StepOutcome::Continue(next) => {
                    lemma_match_adds_effects(ctx, quote_global, next, (limit - 1) as nat);
                    let i = choose|i: int|
                        s.effects.len() <= i < next.effects.len() && #[trigger] next.effects[i] is Fill;
                    assert(done.effects[i] is Fill);
                },
                StepOutcome::Stop(last) => {},
                StepOutcome::Fail(_) => {},
            }
        }
    }
}

/// An ask that rests after its matching and is cancelled again leaves the
/// seat as the matching left it, and adds no loan. The order that rests is
/// the trader's and has the sequence number that placing it returns.
pub proof fn lemma_rest_then_cancel(
    fixed: MarketFixed,
    ctx: MatchContext,
    s: MatchState,
    ledger: LoansView,
    now_unix_timestamp: i64,
    now_slot: u32,
)
    requires
        !ctx.args.is_bid,
        bids_linked(s.pool, ctx.args.use_a_tree, ctx.args.trader_index),
        spec_after_match(fixed, ctx, s).is_ok(),
        spec_after_match(fixed, ctx, s).unwrap().placed.order_index != NIL,
    ensures
        ({
            let placed = spec_after_match(fixed, ctx, s).unwrap();
            let cancelled = spec_cancel_by_index(
                placed.pool,
                ledger,
                placed.base_global,
                ctx.args.use_a_tree,
                placed.placed.order_index,
                now_unix_timestamp,
                now_slot,
            );
            &&& cancelled.is_ok()
            &&& cancelled.unwrap().0.slot(ctx.args.trader_index) == s.pool.slot(
                ctx.args.trader_index,
            )
            &&& cancelled.unwrap().1 == ledger
            &&& pool_is_resting(placed.pool, ctx.args.use_a_tree, placed.placed.order_index)
            &&& order_in(placed.pool.slot(placed.placed.order_index)).trader_index
                == ctx.args.trader_index
            &&& order_in(placed.pool.slot(placed.placed.order_index)).sequence_number
                == placed.placed.order_sequence_number
            &&& sequence_number_of(fixed, ctx.args.use_a_tree) < u64::MAX && numbers_at_most(
                s.pool,
                ctx.args.use_a_tree,
                sequence_number_of(fixed, ctx.args.use_a_tree),
            ) ==> number_is_its_own(placed.pool, ctx.args.use_a_tree, placed.placed.order_index)
        }),
{
    let pool = s.pool;
    let a = ctx.args.use_a_tree;
    let trader = ctx.args.trader_index;
    let header = spec_matched_header(fixed, ctx, s.totals);
    let seq = sequence_number_of(header, a);
    let shares = spec_resting_shares(ctx, s.totals.remaining_base_atoms).unwrap();
    let order = spec_resting_order(ctx, seq, shares.0, shares.1);
    let effects = s.effects.push(spec_settlement(ctx, s.totals));
    let rested = spec_rest(pool, s.base_global, effects, order).unwrap();
    let index = pool.free[0];
    assert(rested.2 == index);
    // The slot of the order was free and the seat is a seat: they differ.
    assert(slot_ok(pool.free[0], pool.slots.len()));
    assert(pool.slot(pool.free[0]) is Empty);
    assert(index != trader);
    let paid = if order.order_type == OrderType::Global {
        pool
    } else {
        pool.balance(trader, spec_should_update_base_a(a, false), false, order.collateral_shares@).unwrap()
    };
    if order.order_type != OrderType::Global {
        lemma_balance_frame(
            pool,
            trader,
            spec_should_update_base_a(a, false),
            false,
            order.collateral_shares@,
        );
    }
    let p1 = paid.rest_order(order);
    assert(rested.0 == p1);
    let e = paid.book(a, false);
    let r = rank(e, order.spec_priority());
    lemma_rank_bounds(e, order.spec_priority());
    assert(p1.book(a, false) == e.insert(r, (index, order.spec_priority())));
    assert(indices(p1.book(a, false))[r] == index);
    assert forall|i: u32| slot_ok(i, paid.slots.len()) implies #[trigger] p1.slot(i) == if i
        == index {
        MarketSlot::Order(order)
    } else {
        paid.slot(i)
    } by {
        lemma_slot_update(paid.slots, index, MarketSlot::Order(order), i);
    }
    assert(pool_is_resting(p1, a, index));
    let before = sequence_number_of(fixed, a);
    if before < u64::MAX && numbers_at_most(pool, a, before) {
        assert(order.sequence_number == before + 1);
        assert(paid.book(a, true) == pool.book(a, true));
        assert(paid.book(a, false) == pool.book(a, false));
        assert forall|b: bool, k: int|
            0 <= k < p1.book(a, b).len() && (#[trigger] p1.book(a, b)[k]).0 != index implies order_in(
                p1.slot(p1.book(a, b)[k].0),
            ).sequence_number != order_in(p1.slot(index)).sequence_number by {
            let entry = p1.book(a, b)[k];
            let j = if b || k < r {
                k
            } else {
                k - 1
            };
            if b {
                assert(p1.book(a, true) == pool.book(a, true));
            } else {
                assert(k != r);
                assert(entry == e[j]);
            }
            assert(pool.book(a, b)[j] == entry);
            assert(slot_ok(pool.book(a, b)[j].0, pool.slots.len()));
            assert(is_order_of(pool.slot(pool.book(a, b)[j].0), a, b));
            assert(entry.0 != trader);
            if order.order_type != OrderType::Global {
                lemma_slot_update(
                    pool.slots,
                    trader,
                    paid.slot(trader),
                    entry.0,
                );
                lemma_slot_update(pool.slots, trader, paid.slot(trader), trader);
            }
            assert(paid.slot(entry.0) == pool.slot(entry.0));
            assert(p1.slot(entry.0) == paid.slot(entry.0));
        }
    }
    if order.order_type != OrderType::Global {
        let seat0 = seat_in(pool.slot(trader));
        let seat1 = seat_in(paid.slot(trader));
        assert forall|i: u32| slot_ok(i, pool.slots.len()) implies #[trigger] paid.slot(i)
            == if i == trader {
            MarketSlot::Seat(seat1)
        } else {
            pool.slot(i)
        } by {
            lemma_slot_update(pool.slots, trader, MarketSlot::Seat(seat1), i);
        }
        assert(p1.slot(trader) == MarketSlot::Seat(seat1));
        let back = p1.balance(trader, spec_should_update_base_a(a, false), true, order.collateral_shares@);
        assert(back.is_ok());
        let p2 = back.unwrap();
        assert forall|i: u32| slot_ok(i, p1.slots.len()) implies #[trigger] p2.slot(i) == if i
            == trader {
            MarketSlot::Seat(seat0)
        } else {
            p1.slot(i)
        } by {
            lemma_slot_update(p1.slots, trader, MarketSlot::Seat(seat0), i);
        }
        let p3 = p2.free_order(a, false, index);
        assert forall|i: u32| slot_ok(i, p2.slots.len()) implies #[trigger] p3.slot(i) == if i
            == index {
            MarketSlot::Empty
        } else {
            p2.slot(i)
        } by {
            lemma_slot_update(p2.slots, index, MarketSlot::Empty, i);
        }
        assert(p3.slot(trader) == pool.slot(trader));
    } else {
        let p3 = p1.free_order(a, false, index);
        assert forall|i: u32| slot_ok(i, p1.slots.len()) implies #[trigger] p3.slot(i) == if i
            == index {
            MarketSlot::Empty
        } else {
            p1.slot(i)
        } by {
            lemma_slot_update(p1.slots, index, MarketSlot::Empty, i);
        }
        assert(p3.slot(trader) == pool.slot(trader));
    }
}

/// Placing an ask and cancelling it again leaves the trader's seat as it was:
/// where the ask rested and none of it was filled, cancelling the order gives
/// back to the seat exactly what placing it took, and adds no loan. Bids that
/// were evicted on the way change nothing of this. The order that rests is
/// the trader's and has the sequence number that placing it returns, which
/// no other order of the tree pair has, where none had a number above the
/// header's before and the header's was not the largest.
pub proof fn lemma_place_then_cancel_restores_the_seat(
    m: DynamicAccount<MarketFixed, MarketDynamic>,
    ledger: LoansView,
    base_global: Option<GlobalTradeView>,
    quote_global: Option<GlobalTradeView>,
    args: AddOrderToMarketArgs,
    now_unix_timestamp: i64,
    now_slot: u32,
)
    requires
        m.wf(),
        !args.is_bid,
        spec_place_order(m.fixed, m.pool(), base_global, quote_global, args).is_ok(),
        spec_place_order(
            m.fixed,
            m.pool(),
            base_global,
            quote_global,
            args,
        ).unwrap().placed.order_index != NIL,
        no_fill_from(
            spec_place_order(m.fixed, m.pool(), base_global, quote_global, args).unwrap().placed.effects,
            0,
        ),
    ensures
        ({
            let placed = spec_place_order(
                m.fixed,
                m.pool(),
                base_global,
                quote_global,
                args,
            ).unwrap();
            let cancelled = spec_cancel_by_index(
                placed.pool,
                ledger,
                placed.base_global,
                args.use_a_tree,
                placed.placed.order_index,
                now_unix_timestamp,
                now_slot,
            );
            &&& cancelled.is_ok()
            &&& cancelled.unwrap().0.slot(args.trader_index) == m.pool().slot(args.trader_index)
            &&& cancelled.unwrap().1 == ledger
            &&& pool_is_resting(placed.pool, args.use_a_tree, placed.placed.order_index)
            &&& order_in(placed.pool.slot(placed.placed.order_index)).trader_index
                == args.trader_index
            &&& order_in(placed.pool.slot(placed.placed.order_index)).sequence_number
                == placed.placed.order_sequence_number
            &&& sequence_number_of(m.fixed, args.use_a_tree) < u64::MAX && numbers_at_most(
                m.pool(),
                args.use_a_tree,
                sequence_number_of(m.fixed, args.use_a_tree),
            ) ==> number_is_its_own(placed.pool, args.use_a_tree, placed.placed.order_index)
        }),
{
    let pool = m.pool();
    let a = args.use_a_tree;
    let trader = args.trader_index;
    let buffer = spec_buffer_factor(m.fixed.fee_state.ltv_buffer_bps).unwrap();
    let ctx = MatchContext {
        args,
        buffer_f: WrappedI80F48 { value: buffer },
        taker: seat_in(pool.slot(trader)).trader,
        taker_sequence_number: sequence_number_of(m.fixed, a),
    };
    let s = spec_initial_state(pool, base_global, args);
    let limit = makers(pool, ctx).len();
    let matched = spec_match(ctx, quote_global, s, limit);
    assert(matched.is_ok());
    let done = matched.unwrap();
    let placed = spec_place_order(m.fixed, pool, base_global, quote_global, args).unwrap();
    assert(placed == spec_after_match(m.fixed, ctx, done).unwrap());
    // What the market's invariant gives to start with.
    lemma_market_slots_match_their_trees(m);
    lemma_market_slots_are_parted(m);
    assert(bids_linked(pool, a, trader)) by {
        let bids = pool.book(a, true);
        assert forall|k: int| 0 <= k < pool.free.len() implies slot_ok(
            #[trigger] pool.free[k],
            pool.slots.len(),
        ) && pool.slot(pool.free[k]) is Empty by {
            assert(pool.free.contains(pool.free[k]));
        }
        assert forall|k: int| 0 <= k < bids.len() implies slot_ok(
            (#[trigger] bids[k]).0,
            pool.slots.len(),
        ) && is_order_of(pool.slot(bids[k].0), a, true) by {
            assert(indices(bids)[k] == bids[k].0);
            assert(indices(pool.book(a, true)).contains(bids[k].0));
        }
        let asks = pool.book(a, false);
        assert forall|k: int| 0 <= k < asks.len() implies slot_ok(
            (#[trigger] asks[k]).0,
            pool.slots.len(),
        ) && is_order_of(pool.slot(asks[k].0), a, false) by {
            assert(indices(asks)[k] == asks[k].0);
            assert(indices(pool.book(a, false)).contains(asks[k].0));
        }
    }
    // The effects of the order begin with those of its matching.
    assert(begins(done.effects, placed.placed.effects));
    assert(no_fill_from(done.effects, 0)) by {
        assert forall|i: int| 0 <= i < done.effects.len() implies !(
        #[trigger] done.effects[i] is Fill) by {
            assert(placed.placed.effects[i] == done.effects[i]);
        }
    }
    lemma_unfilled_match(ctx, quote_global, s, limit, sequence_number_of(m.fixed, a));
    lemma_rest_then_cancel(m.fixed, ctx, done, ledger, now_unix_timestamp, now_slot);
}

} // verus!
