//! Matching a new order against the book: one maker at a time, the best
//! first.

use crate::constants::{DataIndex, Pubkey, NIL};
use crate::error::{EngineError, NixError};
use crate::global::{
    opt_view, opt_wf, remove_from_global, spec_move_global_tokens, spec_remove_from_global,
    try_to_move_global_tokens, GlobalTradeAccounts, GlobalTradeView,
};
use crate::logs::{Effect, FillLog};
use crate::marginfi_utils::{
    convert_tokens_to_asset_shares, get_required_quote_collateral_to_back_loan,
    spec_required_quote_collateral, spec_tokens_to_shares, Bank,
};
use crate::market::is_seat;
use crate::market::{
    best_of, book, get_book_indexes, is_order_of, market_inv, order_in, pool_view,
    record_volume_by_trader_index, remove_order_from_tree_and_free, replace_order, root_of,
    same_settings,
    seat_in, should_update_base_a, slot_at, slot_ok, spec_should_update_base_a, update_balance,
    MarketDynamic, MarketFixed, MarketSlot, PoolView, BLOCK,
};
use crate::market_helpers::lemma_slot_update;
use crate::market_loan::ActiveLoan;
use crate::quantities::WrappedI80F48;
use crate::resting_order::{spec_order_type_can_take, OrderType, RestingOrder};
use crate::slot_pool::{indices, lemma_place, place, tree_next_lower};
use crate::utils::assert_can_take;
use vstd::prelude::*;

verus! {

/// A new order and what the engine needs to know to place it: the oracle
/// prices and the snapshots of the two banks, taken when the operation
/// starts, and the time.
#[derive(Debug, Clone, Copy)]
pub struct AddOrderToMarketArgs {
    pub market: Pubkey,
    /// Slot index of the taker's seat.
    pub trader_index: DataIndex,
    pub num_base_atoms: u64,
    pub rate_bps: u16,
    pub reverse_spread_bps: u16,
    pub is_bid: bool,
    pub use_a_tree: bool,
    /// Last slot at which the order is valid; 0 for no expiry.
    pub last_valid_slot: u32,
    pub order_type: OrderType,
    pub base_mint: Pubkey,
    pub quote_mint: Pubkey,
    /// Low-biased, time-weighted price of the base asset in USD.
    pub base_oracle_price_usd: WrappedI80F48,
    /// Low-biased, time-weighted price of the quote asset in USD.
    pub quote_oracle_price_usd: WrappedI80F48,
    pub base_bank: Bank,
    pub quote_bank: Bank,
    /// The slot at which the order is placed.
    pub now_slot: u32,
    /// The time at which the order is placed.
    pub now_unix_timestamp: i64,
}

/// What stays the same while an order is matched.
#[derive(Debug, Clone, Copy)]
pub struct MatchContext {
    pub args: AddOrderToMarketArgs,
    /// The factor by which the loan-to-value buffer lowers the weight of
    /// collateral.
    pub buffer_f: WrappedI80F48,
    /// The taker's address.
    pub taker: Pubkey,
    /// The sequence number of the tree pair when matching starts.
    pub taker_sequence_number: u64,
}

/// The running sums of a match.
#[derive(Debug, Clone, Copy, PartialEq, Eq, Structural)]
pub struct MatchTotals {
    pub remaining_base_atoms: u64,
    pub total_base_atoms_traded: u64,
    pub total_quote_atoms_traded: u64,
    pub global_base_atoms_traded: u64,
    pub global_quote_atoms_traded: u64,
}

/// Everything that matching changes.
pub struct MatchState {
    pub pool: PoolView,
    pub base_global: Option<GlobalTradeView>,
    pub totals: MatchTotals,
    pub new_loans: Seq<ActiveLoan>,
    pub effects: Seq<Effect>,
}

/// How one step of matching ends.
pub enum StepOutcome {
    /// The maker left the book; matching goes on with the next.
    Continue(MatchState),
    /// Matching is over.
    Stop(MatchState),
    /// The order fails.
    Fail(EngineError),
}

/// The book against which an order is matched: the asks for a bid, the bids
/// for an ask, of the order's tree pair.
pub open spec fn makers(pool: PoolView, ctx: MatchContext) -> Seq<(u32, u64)> {
    pool.book(ctx.args.use_a_tree, !ctx.args.is_bid)
}

/// What taking an order out of the book, for good, does besides: an ask's
/// collateral goes back to the maker's seat; a global ask's gas prepayment
/// is refunded instead; a bid's collateral stays where it is, as its debt
/// stays. A global bid cannot be.
pub open spec fn spec_remove_and_update_balances(
    pool: PoolView,
    base_global: Option<GlobalTradeView>,
    use_a_tree: bool,
    index: u32,
) -> Result<(PoolView, Seq<Effect>), EngineError> {
    let order = order_in(pool.slot(index));
    if order.order_type == OrderType::Global {
        if order.is_bid {
            Err(EngineError::Nix(NixError::InvalidGlobalBidOrder))
        } else {
            Ok(
                (
                    pool.free_order(use_a_tree, false, index),
                    spec_remove_from_global(base_global, true),
                ),
            )
        }
    } else if !order.is_bid {
        match pool.balance(
            order.trader_index,
            spec_should_update_base_a(use_a_tree, false),
            true,
            order.collateral_shares@,
        ) {
            Ok(p) => Ok((p.free_order(use_a_tree, false, index), Seq::empty())),
            Err(e) => Err(e),
        }
    } else {
        Ok((pool.free_order(use_a_tree, true, index), Seq::empty()))
    }
}

/// The loan that an expired bid becomes: the maker borrows from the money
/// market itself, at its rate.
pub open spec fn spec_expired_loan(ctx: MatchContext, maker: RestingOrder) -> ActiveLoan {
    ActiveLoan::spec_new_empty(
        ctx.args.use_a_tree,
        0,
        maker.trader_index,
        maker.order_type == OrderType::Global,
        maker.collateral_shares,
        maker.liability_shares,
        0,
        ctx.args.now_unix_timestamp,
        ctx.args.now_slot as i64,
    )
}

/// The loan that a fill of a whole maker order becomes: the side that asked
/// lends, the side that bid borrows.
pub open spec fn spec_matched_loan(
    ctx: MatchContext,
    maker: RestingOrder,
    base_shares: i128,
    quote_shares: i128,
) -> ActiveLoan {
    ActiveLoan::spec_new_empty(
        ctx.args.use_a_tree,
        if ctx.args.is_bid {
            maker.trader_index
        } else {
            ctx.args.trader_index
        },
        if ctx.args.is_bid {
            ctx.args.trader_index
        } else {
            maker.trader_index
        },
        if ctx.args.is_bid {
            maker.order_type == OrderType::Global
        } else {
            ctx.args.order_type == OrderType::Global
        },
        WrappedI80F48 { value: quote_shares },
        WrappedI80F48 { value: base_shares },
        maker.rate_bps,
        ctx.args.now_unix_timestamp,
        ctx.args.now_slot as i64,
    )
}

/// The log of a fill.
pub open spec fn spec_fill_log(
    ctx: MatchContext,
    maker: RestingOrder,
    maker_key: Pubkey,
    base_atoms: u64,
    quote_atoms: u64,
) -> FillLog {
    FillLog {
        market: ctx.args.market,
        maker: maker_key,
        taker: ctx.taker,
        base_mint: ctx.args.base_mint,
        quote_mint: ctx.args.quote_mint,
        rate_bps: maker.rate_bps,
        base_atoms,
        quote_atoms,
        maker_sequence_number: maker.sequence_number,
        taker_sequence_number: ctx.taker_sequence_number,
        taker_is_buy: ctx.args.is_bid,
        is_maker_global: maker.order_type == OrderType::Global,
    }
}

/// Whether a maker at `rate_bps` is too dear for the taker: above the
/// taker's limit for a bid, below it for an ask.
pub open spec fn spec_rate_stops(ctx: MatchContext, rate_bps: u16) -> bool {
    (ctx.args.is_bid && rate_bps > ctx.args.rate_bps) || (!ctx.args.is_bid && rate_bps
        < ctx.args.rate_bps)
}

/// The sums after a fill of `base` against `quote` atoms was added to the
/// traded totals; `None` on overflow.
pub open spec fn spec_add_traded(t: MatchTotals, base: u64, quote: u64) -> Option<MatchTotals> {
    if t.total_base_atoms_traded + base > u64::MAX || t.total_quote_atoms_traded + quote
        > u64::MAX {
        None
    } else {
        Some(
            MatchTotals {
                total_base_atoms_traded: (t.total_base_atoms_traded + base) as u64,
                total_quote_atoms_traded: (t.total_quote_atoms_traded + quote) as u64,
                ..t
            },
        )
    }
}

/// The sums after a fill against a global maker was added to the global
/// totals: the base atoms for a bid, the quote atoms for an ask; `None` on
/// overflow.
pub open spec fn spec_add_global_traded(t: MatchTotals, is_bid: bool, base: u64, quote: u64)
    -> Option<MatchTotals> {
    if is_bid {
        if t.global_base_atoms_traded + base > u64::MAX {
            None
        } else {
            Some(
                MatchTotals {
                    global_base_atoms_traded: (t.global_base_atoms_traded + base) as u64,
                    ..t
                },
            )
        }
    } else {
        if t.global_quote_atoms_traded + quote > u64::MAX {
            None
        } else {
            Some(
                MatchTotals {
                    global_quote_atoms_traded: (t.global_quote_atoms_traded + quote) as u64,
                    ..t
                },
            )
        }
    }
}

/// The taker's seat after a fill: the collateral side pays, the quote shares
/// for a bid and the base shares for an ask; a bid that is no reverse order
/// receives the base shares on the other side.
pub open spec fn spec_taker_balances(
    ctx: MatchContext,
    pool: PoolView,
    base_shares: i128,
    quote_shares: i128,
) -> Result<PoolView, EngineError> {
    match pool.balance(
        ctx.args.trader_index,
        spec_should_update_base_a(ctx.args.use_a_tree, ctx.args.is_bid),
        false,
        if ctx.args.is_bid {
            quote_shares as int
        } else {
            base_shares as int
        },
    ) {
        Err(e) => Err(e),
        Ok(p) => if ctx.args.is_bid && ctx.args.order_type != OrderType::Reverse {
            p.balance(
                ctx.args.trader_index,
                spec_should_update_base_a(ctx.args.use_a_tree, !ctx.args.is_bid),
                true,
                base_shares as int,
            )
        } else {
            Ok(p)
        },
    }
}

/// What a fill does once its amounts are known and, for a global maker,
/// its tokens have moved: the traded sums grow, the taker's seat pays and
/// receives, both seats record the volume, the fill is logged. A maker that
/// is filled whole leaves the book and a loan is made of the fill; a maker
/// that is filled in part is reduced, and matching stops.
pub open spec fn spec_settle_fill(
    ctx: MatchContext,
    quote_global: Option<GlobalTradeView>,
    s: MatchState,
    index: u32,
    maker: RestingOrder,
    maker_key: Pubkey,
    base: u64,
    quote: u64,
    full: bool,
) -> StepOutcome {
    let totals = spec_add_traded(s.totals, base, quote);
    let base_shares = spec_tokens_to_shares(base, ctx.args.base_bank.asset_share_value@);
    let quote_shares = spec_tokens_to_shares(quote, ctx.args.quote_bank.asset_share_value@);
    if totals.is_none() || base_shares.is_none() || quote_shares.is_none() {
        StepOutcome::Fail(EngineError::Nix(NixError::NumericalOverflow))
    } else {
        match spec_taker_balances(ctx, s.pool, base_shares.unwrap(), quote_shares.unwrap()) {
            Err(e) => StepOutcome::Fail(e),
            Ok(paid) => {
                let pool = paid.volume(
                    maker.trader_index,
                    base_shares.unwrap() as int,
                    ctx.args.use_a_tree,
                ).volume(ctx.args.trader_index, base_shares.unwrap() as int, ctx.args.use_a_tree);
                let effects = s.effects.push(
                    Effect::Fill(spec_fill_log(ctx, maker, maker_key, base, quote)),
                );
                if full {
                    StepOutcome::Continue(
                        MatchState {
                            pool: pool.free_order(ctx.args.use_a_tree, !ctx.args.is_bid, index),
                            base_global: s.base_global,
                            totals: MatchTotals {
                                remaining_base_atoms: (s.totals.remaining_base_atoms - base) as u64,
                                ..totals.unwrap()
                            },
                            new_loans: s.new_loans.push(
                                spec_matched_loan(
                                    ctx,
                                    maker,
                                    base_shares.unwrap(),
                                    quote_shares.unwrap(),
                                ),
                            ),
                            effects: if maker.order_type == OrderType::Global {
                                effects + spec_remove_from_global(
                                    if ctx.args.is_bid {
                                        s.base_global
                                    } else {
                                        quote_global
                                    },
                                    ctx.args.is_bid,
                                )
                            } else {
                                effects
                            },
                        },
                    )
                } else {
                    let reduced = if maker.is_bid {
                        maker.spec_reduce_bid(
                            ctx.args.base_bank,
                            ctx.args.quote_bank,
                            quote,
                            base,
                        )
                    } else {
                        maker.spec_reduce_ask(ctx.args.base_bank, base)
                    };
                    match reduced {
                        Err(e) => StepOutcome::Fail(e),
                        Ok(o) => StepOutcome::Stop(
                            MatchState {
                                pool: pool.set_slot(index, MarketSlot::Order(o)),
                                base_global: s.base_global,
                                totals: MatchTotals {
                                    remaining_base_atoms: 0,
                                    ..totals.unwrap()
                                },
                                new_loans: s.new_loans,
                                effects,
                            },
                        ),
                    }
                }
            },
        }
    }
}

/// What a fill against the maker at `index` does: the maker's atoms are
/// the most that can be filled; the quote atoms are the collateral that
/// backs the filled base atoms; the tokens of a global maker are moved in,
/// and a global maker without backing is evicted instead.
pub open spec fn spec_fill(
    ctx: MatchContext,
    quote_global: Option<GlobalTradeView>,
    s: MatchState,
    index: u32,
    maker: RestingOrder,
) -> StepOutcome {
    match maker.spec_num_base_atoms(ctx.args.base_bank) {
        None => StepOutcome::Fail(EngineError::Nix(NixError::NumericalOverflow)),
        Some(maker_atoms) => {
            let full = s.totals.remaining_base_atoms >= maker_atoms;
            let base = if full {
                maker_atoms
            } else {
                s.totals.remaining_base_atoms
            };
            match spec_required_quote_collateral(
                ctx.args.base_bank,
                ctx.args.quote_bank,
                ctx.args.base_oracle_price_usd@,
                ctx.args.quote_oracle_price_usd@,
                ctx.buffer_f@,
                base,
            ) {
                None => StepOutcome::Fail(EngineError::Nix(NixError::NumericalOverflow)),
                Some(quote) => if !s.pool.is_seat(maker.trader_index) {
                    StepOutcome::Fail(EngineError::InvalidArgument)
                } else {
                    let maker_key = seat_in(s.pool.slot(maker.trader_index)).trader;
                    if maker.order_type == OrderType::Global {
                        match spec_move_global_tokens(s.base_global, maker_key, base) {
                            Err(e) => StepOutcome::Fail(e),
                            Ok((backed, g, e)) => if !backed {
                                match spec_remove_and_update_balances(
                                    s.pool,
                                    g,
                                    ctx.args.use_a_tree,
                                    index,
                                ) {
                                    Err(e2) => StepOutcome::Fail(e2),
                                    Ok((p, e2)) => StepOutcome::Continue(
                                        MatchState {
                                            pool: p,
                                            base_global: g,
                                            effects: s.effects + e + e2,
                                            ..s
                                        },
                                    ),
                                }
                            } else {
                                match spec_add_global_traded(
                                    s.totals,
                                    ctx.args.is_bid,
                                    base,
                                    quote,
                                ) {
                                    None => StepOutcome::Fail(
                                        EngineError::Nix(NixError::NumericalOverflow),
                                    ),
                                    Some(t) => spec_settle_fill(
                                        ctx,
                                        quote_global,
                                        MatchState {
                                            base_global: g,
                                            totals: t,
                                            effects: s.effects + e,
                                            ..s
                                        },
                                        index,
                                        maker,
                                        maker_key,
                                        base,
                                        quote,
                                        full,
                                    ),
                                }
                            },
                        }
                    } else {
                        spec_settle_fill(
                            ctx,
                            quote_global,
                            s,
                            index,
                            maker,
                            maker_key,
                            base,
                            quote,
                            full,
                        )
                    }
                },
            }
        },
    }
}

/// One step of matching, against the best maker of the book. A maker that
/// has expired or has no collateral is evicted, whatever its rate; a bid
/// among them becomes a loan. A maker too dear for the taker ends the
/// matching. Otherwise the taker must be of a type that may take, and the
/// maker is filled.
pub open spec fn spec_step(
    ctx: MatchContext,
    quote_global: Option<GlobalTradeView>,
    s: MatchState,
) -> StepOutcome
    recommends
        makers(s.pool, ctx).len() > 0,
{
    let index = makers(s.pool, ctx).last().0;
    let maker = order_in(s.pool.slot(index));
    if maker.spec_is_expired(ctx.args.now_slot) || maker.collateral_shares@ == 0 {
        match spec_remove_and_update_balances(s.pool, s.base_global, ctx.args.use_a_tree, index) {
            Err(e) => StepOutcome::Fail(e),
            Ok((p, e)) => StepOutcome::Continue(
                MatchState {
                    pool: p,
                    new_loans: if maker.is_bid {
                        s.new_loans.push(spec_expired_loan(ctx, maker))
                    } else {
                        s.new_loans
                    },
                    effects: s.effects + e,
                    ..s
                },
            ),
        }
    } else if spec_rate_stops(ctx, maker.rate_bps) {
        StepOutcome::Stop(s)
    } else if !spec_order_type_can_take(ctx.args.order_type) {
        StepOutcome::Fail(EngineError::Nix(NixError::PostOnlyCrosses))
    } else {
        spec_fill(ctx, quote_global, s, index, maker)
    }
}

/// Matching: steps against the best maker for as long as atoms remain and
/// the book has makers, at most `limit` of them.
pub open spec fn spec_match(
    ctx: MatchContext,
    quote_global: Option<GlobalTradeView>,
    s: MatchState,
    limit: nat,
) -> Result<MatchState, EngineError>
    decreases limit,
{
    if limit == 0 || s.totals.remaining_base_atoms == 0 || makers(s.pool, ctx).len() == 0 {
        Ok(s)
    } else {
        match spec_step(ctx, quote_global, s) {
            StepOutcome::Continue(next) => spec_match(ctx, quote_global, next, (limit - 1) as nat),
            StepOutcome::Stop(last) => Ok(last),
            StepOutcome::Fail(e) => Err(e),
        }
    }
}

/// What matching changes, as the engine holds it.
pub open spec fn match_state(
    fixed: MarketFixed,
    dynamic: MarketDynamic,
    base_global: Option<GlobalTradeAccounts>,
    totals: MatchTotals,
    new_loans: Seq<ActiveLoan>,
    effects: Seq<Effect>,
) -> MatchState {
    MatchState {
        pool: pool_view(fixed, dynamic),
        base_global: opt_view(base_global),
        totals,
        new_loans,
        effects,
    }
}

/// Whether the slot at `index` holds an order that is in the book of the
/// tree pair, on the side that the order names.
pub open spec fn is_resting(
    fixed: MarketFixed,
    dynamic: MarketDynamic,
    use_a_tree: bool,
    index: u32,
) -> bool {
    pool_is_resting(pool_view(fixed, dynamic), use_a_tree, index)
}

/// Whether the slot at `index` holds an order that is in the book of the
/// tree pair, on the side that the order names.
pub open spec fn pool_is_resting(pool: PoolView, use_a_tree: bool, index: u32) -> bool {
    &&& pool.is_order(index)
    &&& order_in(pool.slot(index)).is_a_tree == use_a_tree
    &&& indices(pool.book(use_a_tree, order_in(pool.slot(index)).is_bid)).contains(index)
}

/// A change of a seat's balance leaves the free list, the trees and the
/// orders as they were, and seats stay seats.
pub proof fn lemma_balance_frame(
    pool: PoolView,
    index: u32,
    update_base_a: bool,
    is_increase: bool,
    shares: int,
)
    ensures
        match pool.balance(index, update_base_a, is_increase, shares) {
            Ok(p) => pool_same_but_seats(pool, p),
            Err(_) => true,
        },
{
    match pool.balance(index, update_base_a, is_increase, shares) {
        Ok(p) => {
            let seat = crate::market::spec_update_balance(
                seat_in(pool.slot(index)),
                update_base_a,
                is_increase,
                shares,
            ).unwrap();
            assert forall|i: u32| slot_ok(i, pool.slots.len()) implies #[trigger] p.slot(i)
                == if i == index {
                MarketSlot::Seat(seat)
            } else {
                pool.slot(i)
            } by {
                lemma_slot_update(pool.slots, index, MarketSlot::Seat(seat), i);
            }
        },
        Err(_) => {},
    }
}

/// A change of a seat's volume leaves the free list, the trees and the
/// orders as they were, and seats stay seats.
pub proof fn lemma_volume_frame(pool: PoolView, index: u32, amount: int, use_a_tree: bool)
    ensures
        pool_same_but_seats(pool, pool.volume(index, amount, use_a_tree)),
{
    let p = pool.volume(index, amount, use_a_tree);
    if pool.is_seat(index) {
        let seat = crate::market::spec_record_volume(seat_in(pool.slot(index)), amount, use_a_tree);
        assert forall|i: u32| slot_ok(i, pool.slots.len()) implies #[trigger] p.slot(i) == if i
            == index {
            MarketSlot::Seat(seat)
        } else {
            pool.slot(i)
        } by {
            lemma_slot_update(pool.slots, index, MarketSlot::Seat(seat), i);
        }
    }
}

/// Whether two pools differ at most in what their seats hold.
pub open spec fn pool_same_but_seats(p0: PoolView, p1: PoolView) -> bool {
    &&& p1.free == p0.free
    &&& p1.seats == p0.seats
    &&& p1.a_bids == p0.a_bids
    &&& p1.a_asks == p0.a_asks
    &&& p1.b_bids == p0.b_bids
    &&& p1.b_asks == p0.b_asks
    &&& p1.slots.len() == p0.slots.len()
    &&& forall|i: u32|
        slot_ok(i, p0.slots.len()) ==> (#[trigger] p1.slot(i)) is Seat == p0.slot(i) is Seat && (
        !(p0.slot(i) is Seat) ==> p1.slot(i) == p0.slot(i)) && (p0.slot(i) is Seat ==> seat_in(
            p1.slot(i),
        ).trader == seat_in(p0.slot(i)).trader)
}

/// The best order of a book that is not empty is resting, and it comes last
/// in the book.
pub proof fn lemma_best_is_resting(
    fixed: MarketFixed,
    dynamic: MarketDynamic,
    use_a_tree: bool,
    is_bid: bool,
)
    requires
        market_inv(fixed, dynamic, Set::empty()),
        book(fixed, dynamic, use_a_tree, is_bid).len() > 0,
    ensures
        is_resting(fixed, dynamic, use_a_tree, best_of(fixed, use_a_tree, is_bid)),
        order_in(slot_at(dynamic.slots@, best_of(fixed, use_a_tree, is_bid))).is_bid == is_bid,
        order_in(slot_at(dynamic.slots@, best_of(fixed, use_a_tree, is_bid))).is_a_tree
            == use_a_tree,
        best_of(fixed, use_a_tree, is_bid) == book(fixed, dynamic, use_a_tree, is_bid).last().0,
        best_of(fixed, use_a_tree, is_bid) != NIL,
        root_of(fixed, use_a_tree, is_bid) != NIL,
        place(
            book(fixed, dynamic, use_a_tree, is_bid),
            best_of(fixed, use_a_tree, is_bid),
        ) == book(fixed, dynamic, use_a_tree, is_bid).len() - 1,
{
    reveal(market_inv);
    let e = book(fixed, dynamic, use_a_tree, is_bid);
    let best = best_of(fixed, use_a_tree, is_bid);
    let last = e.len() - 1;
    if use_a_tree {
        if is_bid {
            assert(crate::market::book_inv(fixed, dynamic, Set::empty(), true, true));
        } else {
            assert(crate::market::book_inv(fixed, dynamic, Set::empty(), true, false));
        }
    } else {
        if is_bid {
            assert(crate::market::book_inv(fixed, dynamic, Set::empty(), false, true));
        } else {
            assert(crate::market::book_inv(fixed, dynamic, Set::empty(), false, false));
        }
    }
    assert(best == e[last].0);
    assert(slot_ok(e[last].0, dynamic.slots@.len()));
    assert(is_order_of(slot_at(dynamic.slots@, e[last].0), use_a_tree, is_bid));
    assert(indices(e)[last] == best);
    lemma_place(e, best);
    crate::market_helpers::lemma_slot_fits(best, dynamic.slots@.len());
    if place(e, best) < last {
        assert(e[place(e, best)].0 != e[last].0);
    }
}

/// The cached best index of a book is the slot of its last entry, and `NIL`
/// for an empty book.
pub proof fn lemma_best_is_last(
    fixed: MarketFixed,
    dynamic: MarketDynamic,
    use_a_tree: bool,
    is_bid: bool,
)
    requires
        market_inv(fixed, dynamic, Set::empty()),
    ensures
        best_of(fixed, use_a_tree, is_bid) == crate::slot_pool::last_slot(
            book(fixed, dynamic, use_a_tree, is_bid),
        ),
        (root_of(fixed, use_a_tree, is_bid) == NIL) == (book(
            fixed,
            dynamic,
            use_a_tree,
            is_bid,
        ).len() == 0),
{
    reveal(market_inv);
    if use_a_tree {
        if is_bid {
            assert(crate::market::book_inv(fixed, dynamic, Set::empty(), true, true));
        } else {
            assert(crate::market::book_inv(fixed, dynamic, Set::empty(), true, false));
        }
    } else {
        if is_bid {
            assert(crate::market::book_inv(fixed, dynamic, Set::empty(), false, true));
        } else {
            assert(crate::market::book_inv(fixed, dynamic, Set::empty(), false, false));
        }
    }
}

/// The slot of the order that comes just before the order at
/// `current_maker_order_index` in the book against which a taker is matched:
/// the asks for a bid, the bids for an ask. `NIL` where there is none.
pub fn get_next_candidate_match_index(
    dynamic: &MarketDynamic,
    current_maker_order_index: DataIndex,
    asks_root_index: DataIndex,
    asks_best_index: DataIndex,
    bids_root_index: DataIndex,
    bids_best_index: DataIndex,
    is_bid: bool,
) -> (r: DataIndex)
    requires
        current_maker_order_index != NIL,
        is_bid ==> asks_root_index != NIL && place(
            crate::slot_pool::tree_of(dynamic.links@, asks_root_index),
            current_maker_order_index,
        ) < crate::slot_pool::tree_of(dynamic.links@, asks_root_index).len(),
        !is_bid ==> bids_root_index != NIL && place(
            crate::slot_pool::tree_of(dynamic.links@, bids_root_index),
            current_maker_order_index,
        ) < crate::slot_pool::tree_of(dynamic.links@, bids_root_index).len(),
    ensures
        ({
            let e = crate::slot_pool::tree_of(
                dynamic.links@,
                if is_bid {
                    asks_root_index
                } else {
                    bids_root_index
                },
            );
            r == if place(e, current_maker_order_index) == 0 {
                NIL
            } else {
                e[place(e, current_maker_order_index) - 1].0
            }
        }),
{
    proof {
        lemma_place(
            crate::slot_pool::tree_of(
                dynamic.links@,
                if is_bid {
                    asks_root_index
                } else {
                    bids_root_index
                },
            ),
            current_maker_order_index,
        );
    }
    if is_bid {
        tree_next_lower(&dynamic.links, asks_root_index, current_maker_order_index)
    } else {
        tree_next_lower(&dynamic.links, bids_root_index, current_maker_order_index)
    }
}

/// The order in the slot at `index`.
pub fn read_order(dynamic: &MarketDynamic, index: DataIndex) -> (o: RestingOrder)
    requires
        slot_ok(index, dynamic.slots@.len()),
        slot_at(dynamic.slots@, index) is Order,
    ensures
        o == order_in(slot_at(dynamic.slots@, index)),
{
    match dynamic.slots[(index / BLOCK) as usize] {
        MarketSlot::Order(o) => o,
        _ => RestingOrder::default(),
    }
}

/// Takes the order at `order_to_remove_index` out of its book for good and
/// frees its slot. An ask's collateral goes back to its maker's seat; for a
/// global ask the refund of its gas prepayment is asked for instead. Fails,
/// and changes nothing, for a global bid and where the seat cannot take the
/// collateral.
pub fn remove_and_update_balances(
    fixed: &mut MarketFixed,
    dynamic: &mut MarketDynamic,
    use_a_tree: bool,
    order_to_remove_index: DataIndex,
    base_global: &Option<GlobalTradeAccounts>,
    effects: &mut Vec<Effect>,
) -> (r: Result<(), EngineError>)
    requires
        market_inv(*old(fixed), *old(dynamic), Set::empty()),
        is_resting(*old(fixed), *old(dynamic), use_a_tree, order_to_remove_index),
    ensures
        market_inv(*final(fixed), *final(dynamic), Set::empty()),
        same_settings(*old(fixed), *final(fixed)),
        crate::market::indexes_kept(*old(fixed), *final(fixed), set![(use_a_tree, order_in(slot_at(old(dynamic).slots@, order_to_remove_index)).is_bid)]),
        final(fixed).num_bytes_allocated == old(fixed).num_bytes_allocated,
        match spec_remove_and_update_balances(
            pool_view(*old(fixed), *old(dynamic)),
            opt_view(*base_global),
            use_a_tree,
            order_to_remove_index,
        ) {
            Ok((p, e)) => r.is_ok() && pool_view(*final(fixed), *final(dynamic)) == p
                && final(effects)@ == old(effects)@ + e,
            Err(e) => r == Err::<(), _>(e) && pool_view(*final(fixed), *final(dynamic))
                == pool_view(*old(fixed), *old(dynamic)) && final(effects)@ == old(effects)@
                && *final(fixed) == *old(fixed),
        },
{
    let resting_order_to_remove = read_order(dynamic, order_to_remove_index);
    let order_to_remove_is_bid: bool = resting_order_to_remove.get_is_bid();
    if resting_order_to_remove.is_global() {
        if order_to_remove_is_bid {
            return Err(EngineError::Nix(NixError::InvalidGlobalBidOrder));
        } else {
            remove_from_global(base_global, true, effects)?;
        }
    } else {
        if !order_to_remove_is_bid {
            let asset_shares_to_return = resting_order_to_remove.get_collateral_shares();
            update_balance(
                fixed,
                dynamic,
                resting_order_to_remove.get_trader_index(),
                should_update_base_a(use_a_tree, order_to_remove_is_bid),
                true,
                asset_shares_to_return,
            )?;
        }
        proof {
            assert(effects@ == old(effects)@ + Seq::<Effect>::empty());
        }
    }
    remove_order_from_tree_and_free(
        fixed,
        dynamic,
        use_a_tree,
        order_to_remove_index,
        order_to_remove_is_bid,
    )?;
    Ok(())
}

/// The seat of the taker pays for a fill, and a bid that is no reverse
/// order receives what it borrowed. On failure the first payment may have
/// been made.
pub fn update_taker_balances(
    ctx: &MatchContext,
    fixed: &mut MarketFixed,
    dynamic: &mut MarketDynamic,
    base_shares: WrappedI80F48,
    quote_shares: WrappedI80F48,
) -> (r: Result<(), EngineError>)
    requires
        market_inv(*old(fixed), *old(dynamic), Set::empty()),
    ensures
        market_inv(*final(fixed), *final(dynamic), Set::empty()),
        *final(fixed) == *old(fixed),
        match spec_taker_balances(
            *ctx,
            pool_view(*old(fixed), *old(dynamic)),
            base_shares.value,
            quote_shares.value,
        ) {
            Ok(p) => r.is_ok() && pool_view(*final(fixed), *final(dynamic)) == p
                && pool_same_but_seats(pool_view(*old(fixed), *old(dynamic)), p),
            Err(e) => r == Err::<(), _>(e),
        },
{
    let is_bid = ctx.args.is_bid;
    let use_a_tree = ctx.args.use_a_tree;
    let trader_index = ctx.args.trader_index;
    let ghost p0 = pool_view(*fixed, *dynamic);
    proof {
        lemma_balance_frame(
            p0,
            trader_index,
            spec_should_update_base_a(use_a_tree, is_bid),
            false,
            if is_bid {
                quote_shares@
            } else {
                base_shares@
            },
        );
    }
    update_balance(
        fixed,
        dynamic,
        trader_index,
        should_update_base_a(use_a_tree, is_bid),
        false,
        if is_bid {
            quote_shares
        } else {
            base_shares
        },
    )?;
    if is_bid && ctx.args.order_type != OrderType::Reverse {
        proof {
            lemma_balance_frame(
                pool_view(*fixed, *dynamic),
                trader_index,
                spec_should_update_base_a(use_a_tree, !is_bid),
                true,
                base_shares@,
            );
        }
        update_balance(
            fixed,
            dynamic,
            trader_index,
            should_update_base_a(use_a_tree, !is_bid),
            true,
            base_shares,
        )?;
    }
    Ok(())
}

/// Settles a fill of `base_atoms_traded` against `quote_atoms_traded` with
/// the maker at `index`, the best of its book. Returns the next maker to
/// match where the maker was filled whole and left the book, and `None`
/// where it was filled in part, which ends the matching.
pub fn settle_fill(
    ctx: &MatchContext,
    fixed: &mut MarketFixed,
    dynamic: &mut MarketDynamic,
    base_global: &Option<GlobalTradeAccounts>,
    quote_global: &Option<GlobalTradeAccounts>,
    totals: &mut MatchTotals,
    new_loans: &mut Vec<ActiveLoan>,
    effects: &mut Vec<Effect>,
    index: DataIndex,
    maker_key: Pubkey,
    base_atoms_traded: u64,
    quote_atoms_traded: u64,
    did_fully_match_resting_order: bool,
) -> (r: Result<Option<DataIndex>, EngineError>)
    requires
        market_inv(*old(fixed), *old(dynamic), Set::empty()),
        makers(pool_view(*old(fixed), *old(dynamic)), *ctx).len() > 0,
        index == best_of(*old(fixed), ctx.args.use_a_tree, !ctx.args.is_bid),
        did_fully_match_resting_order ==> base_atoms_traded <= old(totals).remaining_base_atoms,
    ensures
        market_inv(*final(fixed), *final(dynamic), Set::empty()),
        same_settings(*old(fixed), *final(fixed)),
        crate::market::indexes_kept(*old(fixed), *final(fixed), set![(ctx.args.use_a_tree, !ctx.args.is_bid)]),
        final(fixed).num_bytes_allocated == old(fixed).num_bytes_allocated,
        match spec_settle_fill(
            *ctx,
            opt_view(*quote_global),
            match_state(
                *old(fixed),
                *old(dynamic),
                *base_global,
                *old(totals),
                old(new_loans)@,
                old(effects)@,
            ),
            index,
            order_in(slot_at(old(dynamic).slots@, index)),
            maker_key,
            base_atoms_traded,
            quote_atoms_traded,
            did_fully_match_resting_order,
        ) {
            StepOutcome::Continue(s) => r.is_ok() && r.unwrap().is_some() && r.unwrap().unwrap()
                == best_of(*final(fixed), ctx.args.use_a_tree, !ctx.args.is_bid) && match_state(
                *final(fixed),
                *final(dynamic),
                *base_global,
                *final(totals),
                final(new_loans)@,
                final(effects)@,
            ) == s && makers(pool_view(*final(fixed), *final(dynamic)), *ctx).len() < makers(
                pool_view(*old(fixed), *old(dynamic)),
                *ctx,
            ).len(),
            StepOutcome::Stop(s) => r.is_ok() && r.unwrap().is_none() && match_state(
                *final(fixed),
                *final(dynamic),
                *base_global,
                *final(totals),
                final(new_loans)@,
                final(effects)@,
            ) == s,
            StepOutcome::Fail(e) => r == Err::<Option<DataIndex>, _>(e),
        },
{
    let is_bid = ctx.args.is_bid;
    let use_a_tree = ctx.args.use_a_tree;
    let trader_index = ctx.args.trader_index;
    let ghost f0 = *fixed;
    let ghost d0 = *dynamic;
    let ghost p0 = pool_view(f0, d0);
    proof {
        lemma_best_is_resting(f0, d0, use_a_tree, !is_bid);
    }
    let maker_order = read_order(dynamic, index);
    let overflow = Err(EngineError::Nix(NixError::NumericalOverflow));
    let total_base = match totals.total_base_atoms_traded.checked_add(base_atoms_traded) {
        Some(t) => t,
        None => { return overflow; },
    };
    let total_quote = match totals.total_quote_atoms_traded.checked_add(quote_atoms_traded) {
        Some(t) => t,
        None => { return overflow; },
    };
    let base_atom_asset_shares_traded = match convert_tokens_to_asset_shares(
        base_atoms_traded,
        &ctx.args.base_bank,
    ) {
        Ok(v) => v,
        Err(_) => { return overflow; },
    };
    let quote_atom_asset_shares_traded = match convert_tokens_to_asset_shares(
        quote_atoms_traded,
        &ctx.args.quote_bank,
    ) {
        Ok(v) => v,
        Err(_) => { return overflow; },
    };
    update_taker_balances(
        ctx,
        fixed,
        dynamic,
        base_atom_asset_shares_traded,
        quote_atom_asset_shares_traded,
    )?;
    let ghost p1 = pool_view(*fixed, *dynamic);
    proof {
        lemma_volume_frame(
            p1,
            maker_order.trader_index,
            base_atom_asset_shares_traded@,
            use_a_tree,
        );
        lemma_volume_frame(
            p1.volume(maker_order.trader_index, base_atom_asset_shares_traded@, use_a_tree),
            trader_index,
            base_atom_asset_shares_traded@,
            use_a_tree,
        );
    }
    record_volume_by_trader_index(
        fixed,
        dynamic,
        maker_order.get_trader_index(),
        base_atom_asset_shares_traded,
        use_a_tree,
    );
    record_volume_by_trader_index(
        fixed,
        dynamic,
        trader_index,
        base_atom_asset_shares_traded,
        use_a_tree,
    );
    let ghost p3 = pool_view(*fixed, *dynamic);
    proof {
        assert(pool_same_but_seats(p0, p3));
        assert(p3.slot(index) == p0.slot(index));
    }
    effects.push(
        Effect::Fill(
            FillLog {
                market: ctx.args.market,
                maker: maker_key,
                taker: ctx.taker,
                base_mint: ctx.args.base_mint,
                quote_mint: ctx.args.quote_mint,
                base_atoms: base_atoms_traded,
                quote_atoms: quote_atoms_traded,
                rate_bps: maker_order.get_rate_bps(),
                maker_sequence_number: maker_order.get_sequence_number(),
                taker_sequence_number: ctx.taker_sequence_number,
                taker_is_buy: is_bid,
                is_maker_global: maker_order.is_global(),
            },
        ),
    );
    if did_fully_match_resting_order {
        if maker_order.is_global() {
            if is_bid {
                remove_from_global(base_global, true, effects)?;
            } else {
                remove_from_global(quote_global, false, effects)?;
            }
        }
        let (bids_best_index, asks_best_index, bids_root_index, asks_root_index) =
            crate::market::get_tree_indexes(fixed, use_a_tree);
        proof {
            lemma_best_is_resting(*fixed, *dynamic, use_a_tree, !is_bid);
        }
        let next_maker_order_index: DataIndex = get_next_candidate_match_index(
            dynamic,
            index,
            asks_root_index,
            asks_best_index,
            bids_root_index,
            bids_best_index,
            is_bid,
        );
        remove_order_from_tree_and_free(fixed, dynamic, use_a_tree, index, !is_bid)?;
        totals.remaining_base_atoms = totals.remaining_base_atoms - base_atoms_traded;
        totals.total_base_atoms_traded = total_base;
        totals.total_quote_atoms_traded = total_quote;
        let active_loan = ActiveLoan::new_empty(
            use_a_tree,
            if is_bid {
                maker_order.get_trader_index()
            } else {
                trader_index
            },
            if is_bid {
                trader_index
            } else {
                maker_order.get_trader_index()
            },
            if is_bid {
                maker_order.is_global()
            } else {
                ctx.args.order_type == OrderType::Global
            },
            quote_atom_asset_shares_traded,
            base_atom_asset_shares_traded,
            maker_order.get_rate_bps(),
            ctx.args.now_unix_timestamp,
            ctx.args.now_slot as i64,
        );
        new_loans.push(active_loan);
        proof {
            let e = p3.book(use_a_tree, !is_bid);
            let p4 = pool_view(*fixed, *dynamic);
            assert(p4.book(use_a_tree, !is_bid) == e.remove(e.len() - 1));
            lemma_best_is_last(*fixed, *dynamic, use_a_tree, !is_bid);
            assert(next_maker_order_index == best_of(*fixed, use_a_tree, !is_bid));
            crate::market_helpers::lemma_slot_fits(index, d0.slots@.len());
            if maker_order.order_type != OrderType::Global {
                assert(effects@ =~= old(effects)@.push(
                    Effect::Fill(
                        spec_fill_log(
                            *ctx,
                            maker_order,
                            maker_key,
                            base_atoms_traded,
                            quote_atoms_traded,
                        ),
                    ),
                ));
            }
        }
        Ok(Some(next_maker_order_index))
    } else {
        let mut reduced = maker_order;
        if maker_order.get_is_bid() {
            reduced.reduce_bid(
                &ctx.args.base_bank,
                &ctx.args.quote_bank,
                quote_atoms_traded,
                base_atoms_traded,
            )?;
        } else {
            reduced.reduce_ask(&ctx.args.base_bank, base_atoms_traded)?;
        }
        replace_order(fixed, dynamic, index, reduced);
        totals.remaining_base_atoms = 0;
        totals.total_base_atoms_traded = total_base;
        totals.total_quote_atoms_traded = total_quote;
        Ok(None)
    }
}

/// Evicts the maker at `index`, the best of the book against which the taker
/// is matched, and returns the maker that is best after it.
pub fn evict_best(
    ctx: &MatchContext,
    fixed: &mut MarketFixed,
    dynamic: &mut MarketDynamic,
    base_global: &Option<GlobalTradeAccounts>,
    effects: &mut Vec<Effect>,
    index: DataIndex,
) -> (r: Result<DataIndex, EngineError>)
    requires
        market_inv(*old(fixed), *old(dynamic), Set::empty()),
        makers(pool_view(*old(fixed), *old(dynamic)), *ctx).len() > 0,
        index == best_of(*old(fixed), ctx.args.use_a_tree, !ctx.args.is_bid),
    ensures
        market_inv(*final(fixed), *final(dynamic), Set::empty()),
        same_settings(*old(fixed), *final(fixed)),
        crate::market::indexes_kept(*old(fixed), *final(fixed), set![(ctx.args.use_a_tree, !ctx.args.is_bid)]),
        final(fixed).num_bytes_allocated == old(fixed).num_bytes_allocated,
        match spec_remove_and_update_balances(
            pool_view(*old(fixed), *old(dynamic)),
            opt_view(*base_global),
            ctx.args.use_a_tree,
            index,
        ) {
            Ok((p, e)) => r.is_ok() && r.unwrap() == best_of(
                *final(fixed),
                ctx.args.use_a_tree,
                !ctx.args.is_bid,
            ) && pool_view(*final(fixed), *final(dynamic)) == p && final(effects)@ == old(effects)@ + e && makers(p, *ctx).len() < makers(
                pool_view(*old(fixed), *old(dynamic)),
                *ctx,
            ).len(),
            Err(e) => r == Err::<DataIndex, _>(e),
        },
{
    let is_bid = ctx.args.is_bid;
    let use_a_tree = ctx.args.use_a_tree;
    let ghost p0 = pool_view(*fixed, *dynamic);
    proof {
        lemma_best_is_resting(*fixed, *dynamic, use_a_tree, !is_bid);
        lemma_balance_frame(
            p0,
            order_in(p0.slot(index)).trader_index,
            spec_should_update_base_a(use_a_tree, false),
            true,
            order_in(p0.slot(index)).collateral_shares@,
        );
    }
    let (bids_best_index, asks_best_index, bids_root_index, asks_root_index) =
        crate::market::get_tree_indexes(fixed, use_a_tree);
    let next_maker_order_index: DataIndex = get_next_candidate_match_index(
        dynamic,
        index,
        asks_root_index,
        asks_best_index,
        bids_root_index,
        bids_best_index,
        is_bid,
    );
    remove_and_update_balances(fixed, dynamic, use_a_tree, index, base_global, effects)?;
    proof {
        let e = p0.book(use_a_tree, !is_bid);
        let p1 = pool_view(*fixed, *dynamic);
        assert(p1.book(use_a_tree, !is_bid) == e.remove(e.len() - 1));
        lemma_best_is_last(*fixed, *dynamic, use_a_tree, !is_bid);
    }
    Ok(next_maker_order_index)
}

/// Fills the maker at `index`, the best of the book against which the taker
/// is matched. Returns the next maker to match where this one left the book,
/// and `None` where the matching ends.
pub fn fill_maker(
    ctx: &MatchContext,
    fixed: &mut MarketFixed,
    dynamic: &mut MarketDynamic,
    base_global: &mut Option<GlobalTradeAccounts>,
    quote_global: &Option<GlobalTradeAccounts>,
    totals: &mut MatchTotals,
    new_loans: &mut Vec<ActiveLoan>,
    effects: &mut Vec<Effect>,
    index: DataIndex,
) -> (r: Result<Option<DataIndex>, EngineError>)
    requires
        market_inv(*old(fixed), *old(dynamic), Set::empty()),
        opt_wf(*old(base_global)),
        makers(pool_view(*old(fixed), *old(dynamic)), *ctx).len() > 0,
        index == best_of(*old(fixed), ctx.args.use_a_tree, !ctx.args.is_bid),
    ensures
        market_inv(*final(fixed), *final(dynamic), Set::empty()),
        opt_wf(*final(base_global)),
        same_settings(*old(fixed), *final(fixed)),
        crate::market::indexes_kept(*old(fixed), *final(fixed), set![(ctx.args.use_a_tree, !ctx.args.is_bid)]),
        final(fixed).num_bytes_allocated == old(fixed).num_bytes_allocated,
        match spec_fill(
            *ctx,
            opt_view(*quote_global),
            match_state(
                *old(fixed),
                *old(dynamic),
                *old(base_global),
                *old(totals),
                old(new_loans)@,
                old(effects)@,
            ),
            index,
            order_in(slot_at(old(dynamic).slots@, index)),
        ) {
            StepOutcome::Continue(s) => r.is_ok() && r.unwrap().is_some() && r.unwrap().unwrap()
                == best_of(*final(fixed), ctx.args.use_a_tree, !ctx.args.is_bid) && match_state(
                *final(fixed),
                *final(dynamic),
                *final(base_global),
                *final(totals),
                final(new_loans)@,
                final(effects)@,
            ) == s && makers(pool_view(*final(fixed), *final(dynamic)), *ctx).len() < makers(
                pool_view(*old(fixed), *old(dynamic)),
                *ctx,
            ).len(),
            StepOutcome::Stop(s) => r.is_ok() && r.unwrap().is_none() && match_state(
                *final(fixed),
                *final(dynamic),
                *final(base_global),
                *final(totals),
                final(new_loans)@,
                final(effects)@,
            ) == s,
            StepOutcome::Fail(e) => r == Err::<Option<DataIndex>, _>(e),
        },
{
    let is_bid = ctx.args.is_bid;
    let ghost p0 = pool_view(*fixed, *dynamic);
    proof {
        lemma_best_is_resting(*fixed, *dynamic, ctx.args.use_a_tree, !is_bid);
    }
    let maker_order = read_order(dynamic, index);
    let maker_trader_index: DataIndex = maker_order.get_trader_index();
    let maker_base_atoms: u64 = maker_order.get_num_base_atoms(&ctx.args.base_bank)?;
    let did_fully_match_resting_order: bool = totals.remaining_base_atoms >= maker_base_atoms;
    let base_atoms_traded: u64 = if did_fully_match_resting_order {
        maker_base_atoms
    } else {
        totals.remaining_base_atoms
    };
    let quote_atoms_traded: u64 = get_required_quote_collateral_to_back_loan(
        &ctx.args.base_bank,
        &ctx.args.quote_bank,
        ctx.args.base_oracle_price_usd,
        ctx.args.quote_oracle_price_usd,
        ctx.buffer_f,
        base_atoms_traded,
    )?;
    if maker_trader_index % BLOCK != 0 || (maker_trader_index / BLOCK) as usize
        >= dynamic.slots.len() {
        return Err(EngineError::InvalidArgument);
    }
    let maker: Pubkey = match dynamic.slots[(maker_trader_index / BLOCK) as usize] {
        MarketSlot::Seat(seat) => seat.trader,
        _ => { return Err(EngineError::InvalidArgument); },
    };
    if maker_order.is_global() {
        let has_enough_tokens: bool = try_to_move_global_tokens(
            base_global,
            &maker,
            base_atoms_traded,
            effects,
        )?;
        if !has_enough_tokens {
            let next = evict_best(ctx, fixed, dynamic, base_global, effects, index)?;
            return Ok(Some(next));
        } else {
            if is_bid {
                totals.global_base_atoms_traded = match totals.global_base_atoms_traded.checked_add(
                    base_atoms_traded,
                ) {
                    Some(t) => t,
                    None => { return Err(EngineError::Nix(NixError::NumericalOverflow)); },
                };
            } else {
                totals.global_quote_atoms_traded =
                match totals.global_quote_atoms_traded.checked_add(quote_atoms_traded) {
                    Some(t) => t,
                    None => { return Err(EngineError::Nix(NixError::NumericalOverflow)); },
                };
            }
        }
    }
    settle_fill(
        ctx,
        fixed,
        dynamic,
        base_global,
        quote_global,
        totals,
        new_loans,
        effects,
        index,
        maker,
        base_atoms_traded,
        quote_atoms_traded,
        did_fully_match_resting_order,
    )
}

/// One step of matching against the maker at `index`, the best of the book.
/// Returns the next maker to match where this one left the book, and `None`
/// where the matching ends.
pub fn match_step(
    ctx: &MatchContext,
    fixed: &mut MarketFixed,
    dynamic: &mut MarketDynamic,
    base_global: &mut Option<GlobalTradeAccounts>,
    quote_global: &Option<GlobalTradeAccounts>,
    totals: &mut MatchTotals,
    new_loans: &mut Vec<ActiveLoan>,
    effects: &mut Vec<Effect>,
    index: DataIndex,
) -> (r: Result<Option<DataIndex>, EngineError>)
    requires
        market_inv(*old(fixed), *old(dynamic), Set::empty()),
        opt_wf(*old(base_global)),
        makers(pool_view(*old(fixed), *old(dynamic)), *ctx).len() > 0,
        index == best_of(*old(fixed), ctx.args.use_a_tree, !ctx.args.is_bid),
    ensures
        market_inv(*final(fixed), *final(dynamic), Set::empty()),
        opt_wf(*final(base_global)),
        same_settings(*old(fixed), *final(fixed)),
        crate::market::indexes_kept(*old(fixed), *final(fixed), set![(ctx.args.use_a_tree, !ctx.args.is_bid)]),
        final(fixed).num_bytes_allocated == old(fixed).num_bytes_allocated,
        match spec_step(
            *ctx,
            opt_view(*quote_global),
            match_state(
                *old(fixed),
                *old(dynamic),
                *old(base_global),
                *old(totals),
                old(new_loans)@,
                old(effects)@,
            ),
        ) {
            StepOutcome::Continue(s) => r.is_ok() && r.unwrap().is_some() && r.unwrap().unwrap()
                == best_of(*final(fixed), ctx.args.use_a_tree, !ctx.args.is_bid) && match_state(
                *final(fixed),
                *final(dynamic),
                *final(base_global),
                *final(totals),
                final(new_loans)@,
                final(effects)@,
            ) == s && makers(pool_view(*final(fixed), *final(dynamic)), *ctx).len() < makers(
                pool_view(*old(fixed), *old(dynamic)),
                *ctx,
            ).len(),
            StepOutcome::Stop(s) => r.is_ok() && r.unwrap().is_none() && match_state(
                *final(fixed),
                *final(dynamic),
                *final(base_global),
                *final(totals),
                final(new_loans)@,
                final(effects)@,
            ) == s,
            StepOutcome::Fail(e) => r == Err::<Option<DataIndex>, _>(e),
        },
{
    let is_bid = ctx.args.is_bid;
    proof {
        lemma_best_is_resting(*fixed, *dynamic, ctx.args.use_a_tree, !is_bid);
    }
    let maker_order = read_order(dynamic, index);
    if maker_order.is_expired(ctx.args.now_slot) || maker_order.get_collateral_shares().is_zero() {
        let next = evict_best(ctx, fixed, dynamic, base_global, effects, index)?;
        if maker_order.get_is_bid() {
            // The debt of an expired bid stays with the money market.
            let active_loan = ActiveLoan::new_empty(
                ctx.args.use_a_tree,
                0,
                maker_order.get_trader_index(),
                maker_order.is_global(),
                maker_order.get_collateral_shares(),
                maker_order.get_liability_shares(),
                0,
                ctx.args.now_unix_timestamp,
                ctx.args.now_slot as i64,
            );
            new_loans.push(active_loan);
        }
        return Ok(Some(next));
    }
    // Stop trying to match if the rate no longer satisfies the limit.
    if (is_bid && maker_order.get_rate_bps() > ctx.args.rate_bps) || (!is_bid
        && maker_order.get_rate_bps() < ctx.args.rate_bps) {
        return Ok(None);
    }
    // Got a match. A post-only order fails here, rather than cross the book.
    assert_can_take(ctx.args.order_type)?;
    fill_maker(
        ctx,
        fixed,
        dynamic,
        base_global,
        quote_global,
        totals,
        new_loans,
        effects,
        index,
    )
}

/// Matches the taker against the book, the best maker first, until no atoms
/// remain, the book is empty, or a maker is too dear or filled only in part.
pub fn match_order(
    ctx: &MatchContext,
    fixed: &mut MarketFixed,
    dynamic: &mut MarketDynamic,
    base_global: &mut Option<GlobalTradeAccounts>,
    quote_global: &Option<GlobalTradeAccounts>,
    totals: &mut MatchTotals,
    new_loans: &mut Vec<ActiveLoan>,
    effects: &mut Vec<Effect>,
) -> (r: Result<(), EngineError>)
    requires
        market_inv(*old(fixed), *old(dynamic), Set::empty()),
        opt_wf(*old(base_global)),
    ensures
        market_inv(*final(fixed), *final(dynamic), Set::empty()),
        opt_wf(*final(base_global)),
        same_settings(*old(fixed), *final(fixed)),
        crate::market::indexes_kept(*old(fixed), *final(fixed), set![(ctx.args.use_a_tree, !ctx.args.is_bid)]),
        final(fixed).num_bytes_allocated == old(fixed).num_bytes_allocated,
        match spec_match(
            *ctx,
            opt_view(*quote_global),
            match_state(
                *old(fixed),
                *old(dynamic),
                *old(base_global),
                *old(totals),
                old(new_loans)@,
                old(effects)@,
            ),
            makers(pool_view(*old(fixed), *old(dynamic)), *ctx).len(),
        ) {
            Ok(s) => r.is_ok() && match_state(
                *final(fixed),
                *final(dynamic),
                *final(base_global),
                *final(totals),
                final(new_loans)@,
                final(effects)@,
            ) == s,
            Err(e) => r == Err::<(), _>(e),
        },
{
    let use_a_tree = ctx.args.use_a_tree;
    let is_bid = ctx.args.is_bid;
    let (_, best) = get_book_indexes(fixed, use_a_tree, !is_bid);
    let mut current_maker_order_index: DataIndex = best;
    let mut going = true;
    let ghost target = spec_match(
        *ctx,
        opt_view(*quote_global),
        match_state(*fixed, *dynamic, *base_global, *totals, new_loans@, effects@),
        makers(pool_view(*fixed, *dynamic), *ctx).len(),
    );
    let ghost mut limit: nat = makers(pool_view(*fixed, *dynamic), *ctx).len();
    while going && totals.remaining_base_atoms > 0 && current_maker_order_index != NIL
        invariant
            market_inv(*fixed, *dynamic, Set::empty()),
            opt_wf(*base_global),
            same_settings(*old(fixed), *fixed),
            crate::market::indexes_kept(
                *old(fixed),
                *fixed,
                set![(ctx.args.use_a_tree, !ctx.args.is_bid)],
            ),
            fixed.num_bytes_allocated == old(fixed).num_bytes_allocated,
            use_a_tree == ctx.args.use_a_tree,
            is_bid == ctx.args.is_bid,
            going ==> current_maker_order_index == best_of(*fixed, use_a_tree, !is_bid),
            limit >= makers(pool_view(*fixed, *dynamic), *ctx).len(),
            going ==> spec_match(
                *ctx,
                opt_view(*quote_global),
                match_state(*fixed, *dynamic, *base_global, *totals, new_loans@, effects@),
                limit,
            ) == target,
            !going ==> target == Ok::<MatchState, EngineError>(
                match_state(*fixed, *dynamic, *base_global, *totals, new_loans@, effects@),
            ),
            target == spec_match(
                *ctx,
                opt_view(*quote_global),
                match_state(
                    *old(fixed),
                    *old(dynamic),
                    *old(base_global),
                    *old(totals),
                    old(new_loans)@,
                    old(effects)@,
                ),
                makers(pool_view(*old(fixed), *old(dynamic)), *ctx).len(),
            ),
        decreases
                if going {
                    1 + makers(pool_view(*fixed, *dynamic), *ctx).len()
                } else {
                    0
                },
    {
        let ghost before = match_state(
            *fixed,
            *dynamic,
            *base_global,
            *totals,
            new_loans@,
            effects@,
        );
        proof {
            lemma_best_is_last(*fixed, *dynamic, use_a_tree, !is_bid);
            assert(makers(before.pool, *ctx).len() > 0);
            assert(limit > 0);
            assert(spec_match(*ctx, opt_view(*quote_global), before, limit) == match spec_step(
                *ctx,
                opt_view(*quote_global),
                before,
            ) {
                StepOutcome::Continue(next) => spec_match(
                    *ctx,
                    opt_view(*quote_global),
                    next,
                    (limit - 1) as nat,
                ),
                StepOutcome::Stop(last) => Ok(last),
                StepOutcome::Fail(e) => Err(e),
            });
        }
        let step = match_step(
            ctx,
            fixed,
            dynamic,
            base_global,
            quote_global,
            totals,
            new_loans,
            effects,
            current_maker_order_index,
        );
        match step {
            Ok(Some(next)) => {
                current_maker_order_index = next;
                proof {
                    limit = (limit - 1) as nat;
                }
            },
            Ok(None) => {
                going = false;
            },
            Err(e) => { return Err(e); },
        }
    }
    proof {
        if going {
            let last = match_state(*fixed, *dynamic, *base_global, *totals, new_loans@, effects@);
            if makers(last.pool, *ctx).len() > 0 {
                lemma_best_is_resting(*fixed, *dynamic, use_a_tree, !is_bid);
            }
            assert(spec_match(*ctx, opt_view(*quote_global), last, limit) == Ok::<
                MatchState,
                EngineError,
            >(last));
        }
    }
    Ok(())
}

/// An expired maker at the top of the book is evicted, whatever its rate and
/// whatever the type of the taker: where it can be taken out, matching goes
/// on without it, and an expired bid has become a loan.
pub proof fn lemma_expired_maker_is_evicted(
    ctx: MatchContext,
    quote_global: Option<GlobalTradeView>,
    s: MatchState,
)
    requires
        makers(s.pool, ctx).len() > 0,
        order_in(s.pool.slot(makers(s.pool, ctx).last().0)).spec_is_expired(ctx.args.now_slot),
        spec_remove_and_update_balances(
            s.pool,
            s.base_global,
            ctx.args.use_a_tree,
            makers(s.pool, ctx).last().0,
        ).is_ok(),
    ensures
        ({
            let index = makers(s.pool, ctx).last().0;
            let maker = order_in(s.pool.slot(index));
            let book = s.pool.book(ctx.args.use_a_tree, maker.is_bid);
            let taken = spec_remove_and_update_balances(
                s.pool,
                s.base_global,
                ctx.args.use_a_tree,
                index,
            ).unwrap();
            &&& spec_step(ctx, quote_global, s) == StepOutcome::Continue(
                MatchState {
                    pool: taken.0,
                    new_loans: if maker.is_bid {
                        s.new_loans.push(spec_expired_loan(ctx, maker))
                    } else {
                        s.new_loans
                    },
                    effects: s.effects + taken.1,
                    ..s
                },
            )
            &&& taken.0.book(ctx.args.use_a_tree, maker.is_bid) == book.remove(place(book, index))
            &&& taken.0.free == seq![index] + s.pool.free
        }),
{
    let index = makers(s.pool, ctx).last().0;
    let maker = order_in(s.pool.slot(index));
    if maker.order_type != OrderType::Global && !maker.is_bid {
        lemma_balance_frame(
            s.pool,
            maker.trader_index,
            spec_should_update_base_a(ctx.args.use_a_tree, false),
            true,
            maker.collateral_shares@,
        );
    }
}

} // verus!
