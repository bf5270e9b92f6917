//! Placing an order: match it against the book, then rest what is left.

use crate::constants::{DataIndex, NIL, NO_EXPIRATION_LAST_VALID_SLOT};
use crate::dynamic_account::DynamicAccount;
use crate::error::{EngineError, NixError};
use crate::global::{
    opt_view, opt_wf, spec_add_order, try_to_add_to_global, GlobalTradeAccounts, GlobalTradeView,
};
use crate::logs::Effect;
use crate::marginfi_utils::{
    buffer_factor, convert_tokens_to_asset_shares, convert_tokens_to_liability_shares,
    get_required_quote_collateral_to_back_loan, spec_buffer_factor,
    spec_required_quote_collateral, spec_tokens_to_shares,
};
use crate::market::{
    insert_order_into_tree, market_inv, pool_view, seat_in, should_update_base_a,
    spec_should_update_base_a, update_balance, MarketDynamic, MarketFixed, MarketSlot, PoolView,
};
use crate::market_helpers::get_free_address_on_market_fixed;
use crate::market_loan::ActiveLoan;
use crate::matching::{
    makers, match_order, match_state, spec_match, AddOrderToMarketArgs, MatchContext, MatchState,
    MatchTotals,
};
use crate::quantities::{one, wrapping_sum, WrappedI80F48};
use crate::resting_order::{
    order_type_can_rest, spec_order_type_can_rest, OrderType, RestingOrder,
};
use crate::utils::{
    assert_not_already_expired, assert_valid_order_type, spec_not_already_expired,
    spec_valid_order_type,
};
use vstd::prelude::*;

verus! {

/// What placing an order returns.
#[derive(Debug)]
pub struct AddOrderToMarketResult {
    /// The sequence number given to the order.
    pub order_sequence_number: u64,
    /// Slot index of the order that rests, or `NIL` where none does.
    pub order_index: DataIndex,
    pub base_atoms_traded: u64,
    pub quote_atoms_traded: u64,
    /// The loans made of the fills, to be added to the ledger.
    pub matched_loans: Vec<ActiveLoan>,
    /// What the caller has to log and to do outside, in order.
    pub effects: Vec<Effect>,
}

/// What is needed to rest the remainder of an order.
#[derive(Debug, Clone, Copy)]
pub struct RestRemainingOrderToMarketArgs {
    pub trader_index: DataIndex,
    pub rate_bps: u16,
    pub is_bid: bool,
    pub last_valid_slot: u32,
    pub order_type: OrderType,
    pub use_a_tree: bool,
}

/// What placing an order returns, in contracts.
pub struct PlacedView {
    pub order_sequence_number: u64,
    pub order_index: DataIndex,
    pub base_atoms_traded: u64,
    pub quote_atoms_traded: u64,
    pub matched_loans: Seq<ActiveLoan>,
    pub effects: Seq<Effect>,
}

impl AddOrderToMarketResult {
    pub open spec fn view(&self) -> PlacedView {
        PlacedView {
            order_sequence_number: self.order_sequence_number,
            order_index: self.order_index,
            base_atoms_traded: self.base_atoms_traded,
            quote_atoms_traded: self.quote_atoms_traded,
            matched_loans: self.matched_loans@,
            effects: self.effects@,
        }
    }
}

/// A market after an order was placed, and what placing it returned.
pub struct PlaceOutcome {
    pub pool: PoolView,
    pub base_global: Option<GlobalTradeView>,
    /// The sequence number of tree pair A.
    pub base_a_order_sequence_number: u64,
    /// The sequence number of tree pair B.
    pub base_b_order_sequence_number: u64,
    /// The lifetime volume of tree pair A.
    pub base_a_match_volume: WrappedI80F48,
    /// The lifetime volume of tree pair B.
    pub base_b_match_volume: WrappedI80F48,
    pub placed: PlacedView,
}

/// The next sequence number; it wraps around.
pub open spec fn next_sequence_number(n: u64) -> u64 {
    if n == u64::MAX {
        0u64
    } else {
        (n + 1) as u64
    }
}

/// The rate at which a filled reverse order is placed again, on the other
/// side: the rate lowered by the spread, rounded down; `None` where the
/// spread is above 10000 basis points.
pub open spec fn spec_reverse_rate(rate_bps: u16, reverse_spread_bps: u16) -> Option<u16> {
    if reverse_spread_bps > 10000 {
        None
    } else {
        Some(((rate_bps as int * (10000 - reverse_spread_bps)) / 10000) as u16)
    }
}

/// Whether two headers differ at most in where the pool's structures start,
/// in the sequence numbers and in the volumes.
pub open spec fn settings_kept(f0: MarketFixed, f1: MarketFixed) -> bool {
    f1 == (MarketFixed {
        base_a_order_sequence_number: f1.base_a_order_sequence_number,
        base_b_order_sequence_number: f1.base_b_order_sequence_number,
        base_a_match_volume: f1.base_a_match_volume,
        base_b_match_volume: f1.base_b_match_volume,
        num_bytes_allocated: f1.num_bytes_allocated,
        base_a_bids_root_index: f1.base_a_bids_root_index,
        base_a_bids_best_index: f1.base_a_bids_best_index,
        base_b_bids_root_index: f1.base_b_bids_root_index,
        base_b_bids_best_index: f1.base_b_bids_best_index,
        base_a_asks_root_index: f1.base_a_asks_root_index,
        base_a_asks_best_index: f1.base_a_asks_best_index,
        base_b_asks_root_index: f1.base_b_asks_root_index,
        base_b_asks_best_index: f1.base_b_asks_best_index,
        claimed_seats_root_index: f1.claimed_seats_root_index,
        free_list_head_index: f1.free_list_head_index,
        ..f0
    })
}

/// The collateral and the liability shares of the order that rests for
/// `remaining` base atoms. A bid posts the quote collateral that backs the
/// atoms and would owe their liability shares; an ask lends the atoms'
/// asset shares, and a global ask holds the atoms themselves.
pub open spec fn spec_resting_shares(ctx: MatchContext, remaining: u64) -> Option<(i128, i128)> {
    if ctx.args.is_bid {
        match spec_required_quote_collateral(
            ctx.args.base_bank,
            ctx.args.quote_bank,
            ctx.args.base_oracle_price_usd@,
            ctx.args.quote_oracle_price_usd@,
            ctx.buffer_f@,
            remaining,
        ) {
            None => None,
            Some(quote) => {
                let c = spec_tokens_to_shares(quote, ctx.args.quote_bank.asset_share_value@);
                let l = spec_tokens_to_shares(remaining, ctx.args.base_bank.liability_share_value@);
                if c.is_some() && l.is_some() {
                    Some((c.unwrap(), l.unwrap()))
                } else {
                    None
                }
            },
        }
    } else if ctx.args.order_type == OrderType::Global {
        Some(((remaining as int * one()) as i128, 0i128))
    } else {
        match spec_tokens_to_shares(remaining, ctx.args.base_bank.asset_share_value@) {
            Some(c) => Some((c, 0i128)),
            None => None,
        }
    }
}

/// The order that rests for what is left of the taker.
pub open spec fn spec_resting_order(
    ctx: MatchContext,
    sequence_number: u64,
    collateral: i128,
    liability: i128,
) -> RestingOrder {
    RestingOrder {
        collateral_shares: WrappedI80F48 { value: collateral },
        liability_shares: WrappedI80F48 { value: liability },
        rate_bps: ctx.args.rate_bps,
        sequence_number,
        trader_index: ctx.args.trader_index,
        last_valid_slot: ctx.args.last_valid_slot,
        order_type: ctx.args.order_type,
        is_bid: ctx.args.is_bid,
        is_a_tree: ctx.args.use_a_tree,
        reverse_spread: 0,
    }
}

/// What resting `order` does: it needs a free slot. A global order needs the
/// global accounts and the deposit that backs it, and a gas prepayment is
/// asked for; any other order is paid for from the taker's seat, on the
/// collateral side. Then the order takes the first free slot and its place in
/// its book. Returns the pool, the effects and the order's slot.
pub open spec fn spec_rest(
    pool: PoolView,
    base_global: Option<GlobalTradeView>,
    effects: Seq<Effect>,
    order: RestingOrder,
) -> Result<(PoolView, Seq<Effect>, u32), EngineError> {
    if pool.free.len() == 0 {
        Err(EngineError::Nix(NixError::InvalidFreeList))
    } else if order.order_type == OrderType::Global {
        if order.is_bid {
            Err(EngineError::Nix(NixError::InvalidGlobalBidOrder))
        } else {
            match base_global {
                None => Err(EngineError::Nix(NixError::MissingGlobal)),
                Some(g) => match spec_add_order(g.traders, order, g.gas_payer@) {
                    Err(e) => Err(e),
                    Ok(()) => Ok(
                        (pool.rest_order(order), effects.push(Effect::GasPrepayment), pool.free[0]),
                    ),
                },
            }
        }
    } else {
        match pool.balance(
            order.trader_index,
            spec_should_update_base_a(order.is_a_tree, order.is_bid),
            false,
            order.collateral_shares@,
        ) {
            Err(e) => Err(e),
            Ok(p) => Ok((p.rest_order(order), effects, pool.free[0])),
        }
    }
}

/// The order that a filled reverse bid places on the other side: a limit ask
/// on the other tree pair, without expiry, for the base atoms that were
/// traded and those that remain, at the rate lowered by the spread. `None`
/// where those atoms are worth no shares.
pub open spec fn spec_reverse_order(ctx: MatchContext, totals: MatchTotals, sequence_number: u64)
    -> Result<Option<RestingOrder>, EngineError> {
    let atoms = totals.total_base_atoms_traded + totals.global_base_atoms_traded
        + totals.remaining_base_atoms;
    if spec_reverse_rate(ctx.args.rate_bps, ctx.args.reverse_spread_bps).is_none() || atoms
        > u64::MAX {
        Err(EngineError::Nix(NixError::NumericalOverflow))
    } else {
        match spec_tokens_to_shares(atoms as u64, ctx.args.base_bank.asset_share_value@) {
            None => Err(EngineError::Nix(NixError::NumericalOverflow)),
            Some(shares) => if shares > 0 {
                Ok(
                    Some(
                        RestingOrder {
                            collateral_shares: WrappedI80F48 { value: shares },
                            liability_shares: WrappedI80F48 { value: 0 },
                            rate_bps: spec_reverse_rate(
                                ctx.args.rate_bps,
                                ctx.args.reverse_spread_bps,
                            ).unwrap(),
                            sequence_number,
                            trader_index: ctx.args.trader_index,
                            last_valid_slot: NO_EXPIRATION_LAST_VALID_SLOT,
                            order_type: OrderType::Limit,
                            is_bid: false,
                            is_a_tree: !ctx.args.use_a_tree,
                            reverse_spread: 0,
                        },
                    ),
                )
            } else {
                Ok(None)
            },
        }
    }
}

/// What the caller has to settle with the money market for an order that
/// goes on after matching: a bid borrows the base atoms that remain and
/// deposits them; an ask withdraws the base atoms that were traded and
/// repays.
pub open spec fn spec_settlement(ctx: MatchContext, totals: MatchTotals) -> Effect {
    if ctx.args.is_bid {
        Effect::BorrowThenDeposit { atoms: totals.remaining_base_atoms }
    } else {
        Effect::WithdrawThenRepay { atoms: totals.total_base_atoms_traded }
    }
}

/// Whether nothing of the order is to rest: its type does not rest, no
/// atoms remain, or its rate is zero.
pub open spec fn spec_nothing_to_rest(ctx: MatchContext, totals: MatchTotals) -> bool {
    !spec_order_type_can_rest(ctx.args.order_type) || totals.remaining_base_atoms == 0
        || ctx.args.rate_bps == 0
}

/// Whether the order is a reverse bid of which something was filled.
pub open spec fn spec_reverse_applies(ctx: MatchContext, totals: MatchTotals) -> bool {
    ctx.args.is_bid && ctx.args.order_type == OrderType::Reverse && totals.total_base_atoms_traded
        > 0
}

/// The header's numbers after matching: the matched base atoms are added to
/// the volume of the tree pair, which wraps around, and the sequence number
/// of the tree pair goes up by one, however many makers were walked.
pub open spec fn spec_matched_header(fixed: MarketFixed, ctx: MatchContext, totals: MatchTotals)
    -> MarketFixed {
    if ctx.args.use_a_tree {
        MarketFixed {
            base_a_match_volume: WrappedI80F48 {
                value: wrapping_sum(
                    fixed.base_a_match_volume@,
                    totals.total_base_atoms_traded as int * one(),
                ) as i128,
            },
            base_a_order_sequence_number: next_sequence_number(fixed.base_a_order_sequence_number),
            ..fixed
        }
    } else {
        MarketFixed {
            base_b_match_volume: WrappedI80F48 {
                value: wrapping_sum(
                    fixed.base_b_match_volume@,
                    totals.total_base_atoms_traded as int * one(),
                ) as i128,
            },
            base_b_order_sequence_number: next_sequence_number(fixed.base_b_order_sequence_number),
            ..fixed
        }
    }
}

/// The sequence number of a tree pair.
pub open spec fn sequence_number_of(fixed: MarketFixed, use_a_tree: bool) -> u64 {
    if use_a_tree {
        fixed.base_a_order_sequence_number
    } else {
        fixed.base_b_order_sequence_number
    }
}

/// The header with the sequence number of the other tree pair gone up by
/// one.
pub open spec fn spec_bump_other(fixed: MarketFixed, use_a_tree: bool) -> MarketFixed {
    if use_a_tree {
        MarketFixed {
            base_b_order_sequence_number: next_sequence_number(fixed.base_b_order_sequence_number),
            ..fixed
        }
    } else {
        MarketFixed {
            base_a_order_sequence_number: next_sequence_number(fixed.base_a_order_sequence_number),
            ..fixed
        }
    }
}

/// The outcome of placing an order, put together.
pub open spec fn spec_outcome(
    fixed: MarketFixed,
    pool: PoolView,
    s: MatchState,
    order_sequence_number: u64,
    order_index: u32,
    effects: Seq<Effect>,
) -> PlaceOutcome {
    PlaceOutcome {
        pool,
        base_global: s.base_global,
        base_a_order_sequence_number: fixed.base_a_order_sequence_number,
        base_b_order_sequence_number: fixed.base_b_order_sequence_number,
        base_a_match_volume: fixed.base_a_match_volume,
        base_b_match_volume: fixed.base_b_match_volume,
        placed: PlacedView {
            order_sequence_number,
            order_index,
            base_atoms_traded: s.totals.total_base_atoms_traded,
            quote_atoms_traded: s.totals.total_quote_atoms_traded,
            matched_loans: s.new_loans,
            effects,
        },
    }
}

/// What follows the matching. The volume and the sequence number of the tree
/// pair are brought up to date. A reverse bid of which something was filled
/// is settled and placed again as an ask on the other tree pair, whose
/// sequence number goes up. Otherwise an order of which nothing is to rest
/// is done; any other is settled and its remainder rests.
pub open spec fn spec_after_match(fixed0: MarketFixed, ctx: MatchContext, s: MatchState)
    -> Result<PlaceOutcome, EngineError> {
    let fixed = spec_matched_header(fixed0, ctx, s.totals);
    let seq = sequence_number_of(fixed, ctx.args.use_a_tree);
    if !spec_reverse_applies(ctx, s.totals) && spec_nothing_to_rest(ctx, s.totals) {
        Ok(spec_outcome(fixed, s.pool, s, seq, NIL, s.effects))
    } else {
        let effects = s.effects.push(spec_settlement(ctx, s.totals));
        let reversed = if spec_reverse_applies(ctx, s.totals) {
            spec_reverse_order(
                ctx,
                s.totals,
                next_sequence_number(sequence_number_of(fixed, !ctx.args.use_a_tree)),
            )
        } else {
            Ok(None)
        };
        match reversed {
            Err(e) => Err(e),
            Ok(Some(order)) => if s.pool.free.len() == 0 {
                Err(EngineError::Nix(NixError::InvalidFreeList))
            } else {
                Ok(
                    spec_outcome(
                        spec_bump_other(fixed, ctx.args.use_a_tree),
                        s.pool.rest_order(order),
                        s,
                        seq,
                        s.pool.free[0],
                        effects,
                    ),
                )
            },
            Ok(None) => if spec_nothing_to_rest(ctx, s.totals) {
                Ok(spec_outcome(fixed, s.pool, s, seq, NIL, effects))
            } else {
                match spec_resting_shares(ctx, s.totals.remaining_base_atoms) {
                    None => Err(EngineError::Nix(NixError::NumericalOverflow)),
                    Some((collateral, liability)) => match spec_rest(
                        s.pool,
                        s.base_global,
                        effects,
                        spec_resting_order(ctx, seq, collateral, liability),
                    ) {
                        Err(e) => Err(e),
                        Ok((pool, all, index)) => Ok(spec_outcome(fixed, pool, s, seq, index, all)),
                    },
                }
            },
        }
    }
}

/// The state in which the matching of an order starts.
pub open spec fn spec_initial_state(
    pool: PoolView,
    base_global: Option<GlobalTradeView>,
    args: AddOrderToMarketArgs,
) -> MatchState {
    MatchState {
        pool,
        base_global,
        totals: MatchTotals {
            remaining_base_atoms: args.num_base_atoms,
            total_base_atoms_traded: 0,
            total_quote_atoms_traded: 0,
            global_base_atoms_traded: 0,
            global_quote_atoms_traded: 0,
        },
        new_loans: Seq::empty(),
        effects: Seq::empty(),
    }
}

/// What placing an order does. The taker must have a seat; the order must
/// not be expired; a global order must be an ask and a reverse order a bid.
/// Then the order is matched against the other side of its tree pair, and
/// what follows the matching is done.
pub open spec fn spec_place_order(
    fixed: MarketFixed,
    pool: PoolView,
    base_global: Option<GlobalTradeView>,
    quote_global: Option<GlobalTradeView>,
    args: AddOrderToMarketArgs,
) -> Result<PlaceOutcome, EngineError> {
    if !pool.is_seat(args.trader_index) {
        Err(EngineError::Nix(NixError::AlreadyClaimedSeat))
    } else if !spec_not_already_expired(args.last_valid_slot, args.now_slot) {
        Err(EngineError::Nix(NixError::AlreadyExpired))
    } else if spec_valid_order_type(args.order_type, args.is_bid).is_err() {
        Err(spec_valid_order_type(args.order_type, args.is_bid).unwrap_err())
    } else {
        match spec_buffer_factor(fixed.fee_state.ltv_buffer_bps) {
            None => Err(EngineError::Nix(NixError::NumericalOverflow)),
            Some(buffer) => {
                let ctx = MatchContext {
                    args,
                    buffer_f: WrappedI80F48 { value: buffer },
                    taker: seat_in(pool.slot(args.trader_index)).trader,
                    taker_sequence_number: sequence_number_of(fixed, args.use_a_tree),
                };
                match spec_match(
                    ctx,
                    quote_global,
                    spec_initial_state(pool, base_global, args),
                    makers(pool, ctx).len(),
                ) {
                    Err(e) => Err(e),
                    Ok(s) => spec_after_match(fixed, ctx, s),
                }
            },
        }
    }
}

/// Rests `order`, for which the caller has found a free slot to exist: a
/// global order is admitted by the global account and its gas prepayment is
/// asked for; any other order is paid for from its trader's seat. Then the
/// order takes the first free slot and its place in its book. Returns the
/// order's slot. On failure nothing changes.
pub fn rest_order(
    fixed: &mut MarketFixed,
    dynamic: &mut MarketDynamic,
    base_global: &Option<GlobalTradeAccounts>,
    effects: &mut Vec<Effect>,
    order: &RestingOrder,
) -> (r: Result<DataIndex, EngineError>)
    requires
        market_inv(*old(fixed), *old(dynamic), Set::empty()),
    ensures
        market_inv(*final(fixed), *final(dynamic), Set::empty()),
        crate::market::same_settings(*old(fixed), *final(fixed)),
        crate::market::indexes_kept(*old(fixed), *final(fixed), set![(order.is_a_tree, order.is_bid)]),
        final(fixed).num_bytes_allocated == old(fixed).num_bytes_allocated,
        match spec_rest(
            pool_view(*old(fixed), *old(dynamic)),
            opt_view(*base_global),
            old(effects)@,
            *order,
        ) {
            Ok((pool, all, index)) => r == Ok::<DataIndex, EngineError>(index) && pool_view(
                *final(fixed),
                *final(dynamic),
            ) == pool && final(effects)@ == all,
            Err(e) => r == Err::<DataIndex, _>(e) && pool_view(*final(fixed), *final(dynamic))
                == pool_view(*old(fixed), *old(dynamic)) && final(effects)@ == old(effects)@
                && *final(fixed) == *old(fixed),
        },
{
    let ghost p0 = pool_view(*fixed, *dynamic);
    if fixed.free_list_head_index == NIL {
        proof {
            reveal(market_inv);
        }
        return Err(EngineError::Nix(NixError::InvalidFreeList));
    }
    proof {
        reveal(market_inv);
        assert(p0.free.len() > 0);
    }
    if order.is_global() {
        if order.get_is_bid() {
            return Err(EngineError::Nix(NixError::InvalidGlobalBidOrder));
        } else {
            match base_global {
                None => { return Err(EngineError::Nix(NixError::MissingGlobal)); },
                Some(accounts) => {
                    try_to_add_to_global(accounts, order, effects)?;
                },
            }
        }
    } else {
        proof {
            crate::matching::lemma_balance_frame(
                p0,
                order.trader_index,
                spec_should_update_base_a(order.is_a_tree, order.is_bid),
                false,
                order.collateral_shares@,
            );
        }
        update_balance(
            fixed,
            dynamic,
            order.get_trader_index(),
            should_update_base_a(order.is_a_tree, order.get_is_bid()),
            false,
            order.get_collateral_shares(),
        )?;
    }
    let free_address: DataIndex = get_free_address_on_market_fixed(fixed, dynamic);
    insert_order_into_tree(
        order.is_a_tree,
        order.get_is_bid(),
        fixed,
        dynamic,
        free_address,
        order,
    );
    Ok(free_address)
}

/// The next sequence number; it wraps around.
pub fn bump_sequence_number(n: u64) -> (r: u64)
    ensures
        r == next_sequence_number(n),
{
    if n == u64::MAX {
        0
    } else {
        n + 1
    }
}

/// The rate at which a filled reverse order is placed again.
pub fn reverse_rate(rate_bps: u16, reverse_spread_bps: u16) -> (r: Option<u16>)
    ensures
        r == spec_reverse_rate(rate_bps, reverse_spread_bps),
{
    if reverse_spread_bps > 10000 {
        return None;
    }
    let keep: u32 = 10000u32 - (reverse_spread_bps as u32);
    assert(0 <= rate_bps as int * keep <= 65535 * 10000) by (nonlinear_arith)
        requires
            0 <= rate_bps <= 65535,
            0 <= keep <= 10000,
    ;
    let product: u32 = (rate_bps as u32) * keep;
    assert(product as int / 10000 <= rate_bps) by (nonlinear_arith)
        requires
            product == rate_bps as int * keep,
            0 <= keep <= 10000,
            0 <= rate_bps,
    ;
    let rate: u32 = product / 10000;
    Some(rate as u16)
}

/// The collateral and the liability shares of the order that rests for
/// `remaining_base_atoms`.
pub fn resting_shares(ctx: &MatchContext, remaining_base_atoms: u64) -> (r: Result<
    (WrappedI80F48, WrappedI80F48),
    EngineError,
>)
    ensures
        match spec_resting_shares(*ctx, remaining_base_atoms) {
            Some((c, l)) => r.is_ok() && r.unwrap().0.value == c && r.unwrap().1.value == l,
            None => r == Err::<(WrappedI80F48, WrappedI80F48), _>(
                EngineError::Nix(NixError::NumericalOverflow),
            ),
        },
{
    let overflow = Err(EngineError::Nix(NixError::NumericalOverflow));
    if ctx.args.is_bid {
        let remaining_quote_atoms = match get_required_quote_collateral_to_back_loan(
            &ctx.args.base_bank,
            &ctx.args.quote_bank,
            ctx.args.base_oracle_price_usd,
            ctx.args.quote_oracle_price_usd,
            ctx.buffer_f,
            remaining_base_atoms,
        ) {
            Ok(q) => q,
            Err(_) => { return overflow; },
        };
        let collateral = match convert_tokens_to_asset_shares(
            remaining_quote_atoms,
            &ctx.args.quote_bank,
        ) {
            Ok(c) => c,
            Err(_) => { return overflow; },
        };
        let liability = match convert_tokens_to_liability_shares(
            remaining_base_atoms,
            &ctx.args.base_bank,
        ) {
            Ok(l) => l,
            Err(_) => { return overflow; },
        };
        Ok((collateral, liability))
    } else if ctx.args.order_type == OrderType::Global {
        // A global order holds its collateral in token atoms.
        Ok((WrappedI80F48::from_u64(remaining_base_atoms), WrappedI80F48::zero()))
    } else {
        match convert_tokens_to_asset_shares(remaining_base_atoms, &ctx.args.base_bank) {
            Ok(c) => Ok((c, WrappedI80F48::zero())),
            Err(_) => overflow,
        }
    }
}

/// The order that a filled reverse bid places on the other side, if its
/// atoms are worth any shares.
pub fn reverse_order(ctx: &MatchContext, totals: &MatchTotals, sequence_number: u64) -> (r: Result<
    Option<RestingOrder>,
    EngineError,
>)
    ensures
        r == spec_reverse_order(*ctx, *totals, sequence_number),
{
    let overflow = Err(EngineError::Nix(NixError::NumericalOverflow));
    let rate = match reverse_rate(ctx.args.rate_bps, ctx.args.reverse_spread_bps) {
        Some(r) => r,
        None => { return overflow; },
    };
    let with_global = match totals.total_base_atoms_traded.checked_add(
        totals.global_base_atoms_traded,
    ) {
        Some(a) => a,
        None => { return overflow; },
    };
    let reverse_base_atoms = match with_global.checked_add(totals.remaining_base_atoms) {
        Some(a) => a,
        None => { return overflow; },
    };
    let total_reverse_base_shares = match convert_tokens_to_asset_shares(
        reverse_base_atoms,
        &ctx.args.base_bank,
    ) {
        Ok(s) => s,
        Err(_) => { return overflow; },
    };
    if total_reverse_base_shares.gt(WrappedI80F48::zero()) {
        let order = RestingOrder::new(
            rate,
            sequence_number,
            total_reverse_base_shares,
            WrappedI80F48::zero(),
            !ctx.args.use_a_tree,
            ctx.args.trader_index,
            NO_EXPIRATION_LAST_VALID_SLOT,
            OrderType::Limit,
            false,
            0,
        )?;
        Ok(Some(order))
    } else {
        Ok(None)
    }
}

impl DynamicAccount<MarketFixed, MarketDynamic> {
    /// Rests what is left of an order: for `remaining_collateral_shares` and
    /// `remaining_liability_shares`, under `order_sequence_number`. A reverse
    /// order must come without expiry.
    pub fn rest_remaining(
        &mut self,
        args: &RestRemainingOrderToMarketArgs,
        remaining_collateral_shares: WrappedI80F48,
        remaining_liability_shares: WrappedI80F48,
        order_sequence_number: u64,
        total_base_atoms_traded: u64,
        total_quote_atoms_traded: u64,
        loans: Vec<ActiveLoan>,
        effects: Vec<Effect>,
        base_global: &Option<GlobalTradeAccounts>,
    ) -> (r: Result<AddOrderToMarketResult, EngineError>)
        requires
            old(self).wf(),
            !(args.order_type == OrderType::Reverse && args.last_valid_slot
                != NO_EXPIRATION_LAST_VALID_SLOT),
        ensures
            final(self).wf(),
            crate::market::same_settings(old(self).fixed, final(self).fixed),
            crate::market::indexes_kept(old(self).fixed, final(self).fixed, set![(args.use_a_tree, args.is_bid)]),
            final(self).fixed.num_bytes_allocated == old(self).fixed.num_bytes_allocated,
            match spec_valid_order_type(args.order_type, args.is_bid) {
                Err(e) => r.is_err() && r.unwrap_err() == e,
                Ok(()) => match spec_rest(
                    old(self).pool(),
                    opt_view(*base_global),
                    effects@,
                    RestingOrder {
                        collateral_shares: remaining_collateral_shares,
                        liability_shares: remaining_liability_shares,
                        rate_bps: args.rate_bps,
                        sequence_number: order_sequence_number,
                        trader_index: args.trader_index,
                        last_valid_slot: args.last_valid_slot,
                        order_type: args.order_type,
                        is_bid: args.is_bid,
                        is_a_tree: args.use_a_tree,
                        reverse_spread: 0,
                    },
                ) {
                    Ok((pool, all, index)) => r.is_ok() && final(self).pool() == pool
                        && r.unwrap()@ == (PlacedView {
                        order_sequence_number,
                        order_index: index,
                        base_atoms_traded: total_base_atoms_traded,
                        quote_atoms_traded: total_quote_atoms_traded,
                        matched_loans: loans@,
                        effects: all,
                    }),
                    Err(e) => r.is_err() && r.unwrap_err() == e,
                },
            },
    {
        match assert_valid_order_type(args.order_type, args.is_bid) {
            Ok(()) => {},
            Err(e) => { return Err(e); },
        }
        let resting_order: RestingOrder = RestingOrder::new(
            args.rate_bps,
            order_sequence_number,
            remaining_collateral_shares,
            remaining_liability_shares,
            args.use_a_tree,
            args.trader_index,
            args.last_valid_slot,
            args.order_type,
            args.is_bid,
            0,
        )?;
        let mut effects = effects;
        let free_address = match rest_order(
            &mut self.fixed,
            &mut self.dynamic,
            base_global,
            &mut effects,
            &resting_order,
        ) {
            Ok(a) => a,
            Err(e) => { return Err(e); },
        };
        Ok(
            AddOrderToMarketResult {
                order_sequence_number,
                order_index: free_address,
                base_atoms_traded: total_base_atoms_traded,
                quote_atoms_traded: total_quote_atoms_traded,
                matched_loans: loans,
                effects,
            },
        )
    }
}

/// The books in which what is left of an order may come to rest: the book of
/// its tree pair and side, and for a reverse bid the asks of the other tree
/// pair.
pub open spec fn spec_books_rested(use_a_tree: bool, is_bid: bool, order_type: OrderType) -> Set<
    (bool, bool),
> {
    if is_bid && order_type == OrderType::Reverse {
        set![(use_a_tree, is_bid), (!use_a_tree, false)]
    } else {
        set![(use_a_tree, is_bid)]
    }
}

/// The books that placing an order may change: those in which it may come
/// to rest, and the book of its makers.
pub open spec fn spec_books_of_order(use_a_tree: bool, is_bid: bool, order_type: OrderType) -> Set<
    (bool, bool),
> {
    spec_books_rested(use_a_tree, is_bid, order_type).insert((use_a_tree, !is_bid))
}

/// Whether a header and a pool are those of an outcome, the rest of the
/// header being that of `f0`.
pub open spec fn is_outcome(f0: MarketFixed, f1: MarketFixed, pool: PoolView, o: PlaceOutcome)
    -> bool {
    &&& settings_kept(f0, f1)
    &&& f1.num_bytes_allocated == f0.num_bytes_allocated
    &&& pool == o.pool
    &&& f1.base_a_order_sequence_number == o.base_a_order_sequence_number
    &&& f1.base_b_order_sequence_number == o.base_b_order_sequence_number
    &&& f1.base_a_match_volume == o.base_a_match_volume
    &&& f1.base_b_match_volume == o.base_b_match_volume
}

/// Brings the volume and the sequence number of the order's tree pair up to
/// date after matching, and returns the order's sequence number.
pub fn record_match(fixed: &mut MarketFixed, ctx: &MatchContext, totals: &MatchTotals) -> (r: u64)
    ensures
        *final(fixed) == spec_matched_header(*old(fixed), *ctx, *totals),
        r == sequence_number_of(*final(fixed), ctx.args.use_a_tree),
{
    let traded = WrappedI80F48::from_u64(totals.total_base_atoms_traded);
    if ctx.args.use_a_tree {
        fixed.base_a_match_volume = fixed.base_a_match_volume.wrapping_add(traded);
        fixed.base_a_order_sequence_number = bump_sequence_number(
            fixed.base_a_order_sequence_number,
        );
        fixed.base_a_order_sequence_number
    } else {
        fixed.base_b_match_volume = fixed.base_b_match_volume.wrapping_add(traded);
        fixed.base_b_order_sequence_number = bump_sequence_number(
            fixed.base_b_order_sequence_number,
        );
        fixed.base_b_order_sequence_number
    }
}

/// Raises the sequence number of the other tree pair by one.
pub fn bump_other_sequence_number(fixed: &mut MarketFixed, use_a_tree: bool)
    ensures
        *final(fixed) == spec_bump_other(*old(fixed), use_a_tree),
{
    if use_a_tree {
        fixed.base_b_order_sequence_number = bump_sequence_number(
            fixed.base_b_order_sequence_number,
        );
    } else {
        fixed.base_a_order_sequence_number = bump_sequence_number(
            fixed.base_a_order_sequence_number,
        );
    }
}

impl DynamicAccount<MarketFixed, MarketDynamic> {
    /// What follows the matching of an order: the header's numbers, the
    /// settlement with the money market, the reverse order or the remainder
    /// that rests.
    pub fn after_match(
        &mut self,
        ctx: &MatchContext,
        base_global: &Option<GlobalTradeAccounts>,
        totals: &MatchTotals,
        new_loans: Vec<ActiveLoan>,
        effects: Vec<Effect>,
    ) -> (r: Result<AddOrderToMarketResult, EngineError>)
        requires
            old(self).wf(),
            spec_valid_order_type(ctx.args.order_type, ctx.args.is_bid).is_ok(),
            !(ctx.args.order_type == OrderType::Reverse && ctx.args.last_valid_slot
                != NO_EXPIRATION_LAST_VALID_SLOT),
        ensures
            final(self).wf(),
            crate::market::indexes_kept(
                old(self).fixed,
                final(self).fixed,
                spec_books_rested(ctx.args.use_a_tree, ctx.args.is_bid, ctx.args.order_type),
            ),
            match spec_after_match(
                old(self).fixed,
                *ctx,
                match_state(
                    old(self).fixed,
                    old(self).dynamic,
                    *base_global,
                    *totals,
                    new_loans@,
                    effects@,
                ),
            ) {
                Ok(o) => r.is_ok() && r.unwrap()@ == o.placed && is_outcome(
                    old(self).fixed,
                    final(self).fixed,
                    final(self).pool(),
                    o,
                ),
                Err(e) => r.is_err() && r.unwrap_err() == e,
            },
    {
        let ghost s = match_state(
            self.fixed,
            self.dynamic,
            *base_global,
            *totals,
            new_loans@,
            effects@,
        );
        let ghost f0 = self.fixed;
        proof {
            reveal(market_inv);
        }
        let order_sequence_number = record_match(&mut self.fixed, ctx, totals);
        let ghost f1 = self.fixed;
        proof {
            assert(market_inv(self.fixed, self.dynamic, Set::empty()));
            assert(self.pool() == s.pool);
        }
        let reverse = ctx.args.is_bid && ctx.args.order_type == OrderType::Reverse
            && totals.total_base_atoms_traded > 0;
        let nothing_to_rest = !order_type_can_rest(ctx.args.order_type)
            || totals.remaining_base_atoms == 0 || ctx.args.rate_bps == 0;
        let mut effects = effects;
        if !reverse && nothing_to_rest {
            return Ok(
                AddOrderToMarketResult {
                    order_sequence_number,
                    order_index: NIL,
                    base_atoms_traded: totals.total_base_atoms_traded,
                    quote_atoms_traded: totals.total_quote_atoms_traded,
                    matched_loans: new_loans,
                    effects,
                },
            );
        }
        if ctx.args.is_bid {
            effects.push(Effect::BorrowThenDeposit { atoms: totals.remaining_base_atoms });
        } else {
            effects.push(Effect::WithdrawThenRepay { atoms: totals.total_base_atoms_traded });
        }
        if reverse {
            let other = if ctx.args.use_a_tree {
                self.fixed.base_b_order_sequence_number
            } else {
                self.fixed.base_a_order_sequence_number
            };
            let reverse_order_sequence_number = bump_sequence_number(other);
            match reverse_order(ctx, totals, reverse_order_sequence_number) {
                Err(e) => { return Err(e); },
                Ok(Some(new_reverse_resting_order)) => {
                    if self.fixed.free_list_head_index == NIL {
                        return Err(EngineError::Nix(NixError::InvalidFreeList));
                    }
                    bump_other_sequence_number(&mut self.fixed, ctx.args.use_a_tree);
                    proof {
                        assert(market_inv(self.fixed, self.dynamic, Set::empty()));
                        assert(self.pool() == s.pool);
                    }
                    let free_address: DataIndex = get_free_address_on_market_fixed(
                        &mut self.fixed,
                        &mut self.dynamic,
                    );
                    insert_order_into_tree(
                        !ctx.args.use_a_tree,
                        false,
                        &mut self.fixed,
                        &mut self.dynamic,
                        free_address,
                        &new_reverse_resting_order,
                    );
                    return Ok(
                        AddOrderToMarketResult {
                            order_sequence_number,
                            order_index: free_address,
                            base_atoms_traded: totals.total_base_atoms_traded,
                            quote_atoms_traded: totals.total_quote_atoms_traded,
                            matched_loans: new_loans,
                            effects,
                        },
                    );
                },
                Ok(None) => {},
            }
        }
        if nothing_to_rest {
            return Ok(
                AddOrderToMarketResult {
                    order_sequence_number,
                    order_index: NIL,
                    base_atoms_traded: totals.total_base_atoms_traded,
                    quote_atoms_traded: totals.total_quote_atoms_traded,
                    matched_loans: new_loans,
                    effects,
                },
            );
        }
        let (remaining_collateral_shares, remaining_liability_shares) = match resting_shares(
            ctx,
            totals.remaining_base_atoms,
        ) {
            Ok(shares) => shares,
            Err(e) => { return Err(e); },
        };
        let rest_args = RestRemainingOrderToMarketArgs {
            trader_index: ctx.args.trader_index,
            rate_bps: ctx.args.rate_bps,
            is_bid: ctx.args.is_bid,
            use_a_tree: ctx.args.use_a_tree,
            order_type: ctx.args.order_type,
            last_valid_slot: ctx.args.last_valid_slot,
        };
        self.rest_remaining(
            &rest_args,
            remaining_collateral_shares,
            remaining_liability_shares,
            order_sequence_number,
            totals.total_base_atoms_traded,
            totals.total_quote_atoms_traded,
            new_loans,
            effects,
            base_global,
        )
    }

    /// Places an order: matches it against the other side of its tree pair
    /// and rests what is left. A reverse order must come without expiry.
    ///
    /// A failed order commits nothing: the market and the global account
    /// are then as they were.
    pub fn place_order(
        &mut self,
        args: AddOrderToMarketArgs,
        base_global: &mut Option<GlobalTradeAccounts>,
        quote_global: &Option<GlobalTradeAccounts>,
    ) -> (r: Result<AddOrderToMarketResult, EngineError>)
        requires
            old(self).wf(),
            opt_wf(*old(base_global)),
            !(args.order_type == OrderType::Reverse && args.last_valid_slot
                != NO_EXPIRATION_LAST_VALID_SLOT),
        ensures
            final(self).wf(),
            opt_wf(*final(base_global)),
            crate::market::indexes_kept(
                old(self).fixed,
                final(self).fixed,
                spec_books_of_order(args.use_a_tree, args.is_bid, args.order_type),
            ),
            match spec_place_order(
                old(self).fixed,
                old(self).pool(),
                opt_view(*old(base_global)),
                opt_view(*quote_global),
                args,
            ) {
                Ok(o) => r.is_ok() && r.unwrap()@ == o.placed && opt_view(*final(base_global))
                    == o.base_global && is_outcome(
                    old(self).fixed,
                    final(self).fixed,
                    final(self).pool(),
                    o,
                ),
                Err(e) => r.is_err() && r.unwrap_err() == e && final(self).fixed == old(self).fixed && final(self).pool() == old(self).pool() && opt_view(
                    *final(base_global),
                ) == opt_view(*old(base_global)),
            },
    {
        let saved = self.snapshot();
        let saved_global = crate::global::snapshot_global(base_global);
        match self.place_order_in_place(args, base_global, quote_global) {
            Ok(placed) => Ok(placed),
            Err(e) => {
                *self = saved;
                *base_global = saved_global;
                Err(e)
            },
        }
    }

    /// Places an order as `place_order` does, without keeping a copy to go
    /// back to: on failure the market is well formed, but part of the order
    /// may have been carried out, and the caller discards the market.
    pub fn place_order_in_place(
        &mut self,
        args: AddOrderToMarketArgs,
        base_global: &mut Option<GlobalTradeAccounts>,
        quote_global: &Option<GlobalTradeAccounts>,
    ) -> (r: Result<AddOrderToMarketResult, EngineError>)
        requires
            old(self).wf(),
            opt_wf(*old(base_global)),
            !(args.order_type == OrderType::Reverse && args.last_valid_slot
                != NO_EXPIRATION_LAST_VALID_SLOT),
        ensures
            final(self).wf(),
            opt_wf(*final(base_global)),
            crate::market::indexes_kept(
                old(self).fixed,
                final(self).fixed,
                spec_books_of_order(args.use_a_tree, args.is_bid, args.order_type),
            ),
            match spec_place_order(
                old(self).fixed,
                old(self).pool(),
                opt_view(*old(base_global)),
                opt_view(*quote_global),
                args,
            ) {
                Ok(o) => r.is_ok() && r.unwrap()@ == o.placed && opt_view(*final(base_global))
                    == o.base_global && is_outcome(
                    old(self).fixed,
                    final(self).fixed,
                    final(self).pool(),
                    o,
                ),
                Err(e) => r.is_err() && r.unwrap_err() == e,
            },
    {
        let trader_index = args.trader_index;
        let taker = match self.get_slot(trader_index) {
            Some(MarketSlot::Seat(seat)) => seat.trader,
            _ => { return Err(EngineError::Nix(NixError::AlreadyClaimedSeat)); },
        };
        match assert_not_already_expired(args.last_valid_slot, args.now_slot) {
            Ok(()) => {},
            Err(e) => { return Err(e); },
        }
        match assert_valid_order_type(args.order_type, args.is_bid) {
            Ok(()) => {},
            Err(e) => { return Err(e); },
        }
        let buffer_f = match buffer_factor(self.fixed.fee_state.ltv_buffer_bps) {
            Ok(b) => b,
            Err(e) => { return Err(e); },
        };
        let ctx = MatchContext {
            args,
            buffer_f,
            taker,
            taker_sequence_number: if args.use_a_tree {
                self.fixed.base_a_order_sequence_number
            } else {
                self.fixed.base_b_order_sequence_number
            },
        };
        let mut totals = MatchTotals {
            remaining_base_atoms: args.num_base_atoms,
            total_base_atoms_traded: 0,
            total_quote_atoms_traded: 0,
            global_base_atoms_traded: 0,
            global_quote_atoms_traded: 0,
        };
        let mut new_loans: Vec<ActiveLoan> = Vec::new();
        let mut effects: Vec<Effect> = Vec::new();
        let ghost f0 = self.fixed;
        match match_order(
            &ctx,
            &mut self.fixed,
            &mut self.dynamic,
            base_global,
            quote_global,
            &mut totals,
            &mut new_loans,
            &mut effects,
        ) {
            Ok(()) => {},
            Err(e) => { return Err(e); },
        }
        proof {
            assert(spec_matched_header(self.fixed, ctx, totals).fee_state == f0.fee_state);
        }
        let ghost f1 = self.fixed;
        let r = self.after_match(&ctx, base_global, &totals, new_loans, effects);
        proof {
            lemma_after_match_reads_numbers(f0, f1, ctx, match_state(
                f1,
                old(self).dynamic,
                *base_global,
                totals,
                Seq::empty(),
                Seq::empty(),
            ));
        }
        r
    }
}

/// What follows the matching reads only the sequence numbers and the volumes
/// of the header.
pub proof fn lemma_after_match_reads_numbers(
    f0: MarketFixed,
    f1: MarketFixed,
    ctx: MatchContext,
    s: MatchState,
)
    requires
        f1.base_a_order_sequence_number == f0.base_a_order_sequence_number,
        f1.base_b_order_sequence_number == f0.base_b_order_sequence_number,
        f1.base_a_match_volume == f0.base_a_match_volume,
        f1.base_b_match_volume == f0.base_b_match_volume,
    ensures
        forall|t: MatchState| #[trigger] spec_after_match(f1, ctx, t) == spec_after_match(f0, ctx, t),
{
}

/// Every order that is placed takes the next sequence number of its tree
/// pair, however many makers it was matched against; the number of the
/// other tree pair stays, or goes up by one where a reverse order was placed
/// again there. Short of the largest number, a sequence number only grows.
pub proof fn lemma_sequence_numbers_advance(
    fixed: MarketFixed,
    pool: PoolView,
    base_global: Option<GlobalTradeView>,
    quote_global: Option<GlobalTradeView>,
    args: AddOrderToMarketArgs,
)
    requires
        spec_place_order(fixed, pool, base_global, quote_global, args).is_ok(),
    ensures
        ({
            let o = spec_place_order(fixed, pool, base_global, quote_global, args).unwrap();
            let before = sequence_number_of(fixed, args.use_a_tree);
            let other_before = sequence_number_of(fixed, !args.use_a_tree);
            let after = if args.use_a_tree {
                o.base_a_order_sequence_number
            } else {
                o.base_b_order_sequence_number
            };
            let other_after = if args.use_a_tree {
                o.base_b_order_sequence_number
            } else {
                o.base_a_order_sequence_number
            };
            &&& after == next_sequence_number(before)
            &&& o.placed.order_sequence_number == after
            &&& other_after == other_before || other_after == next_sequence_number(other_before)
            &&& before < u64::MAX ==> after > before
            &&& other_before < u64::MAX ==> other_after >= other_before
        }),
{
}

/// An order of a trader without a seat is refused.
pub proof fn lemma_order_needs_a_seat(
    fixed: MarketFixed,
    pool: PoolView,
    base_global: Option<GlobalTradeView>,
    quote_global: Option<GlobalTradeView>,
    args: AddOrderToMarketArgs,
)
    requires
        !pool.is_seat(args.trader_index),
    ensures
        spec_place_order(fixed, pool, base_global, quote_global, args) == Err::<PlaceOutcome, _>(
            EngineError::Nix(NixError::AlreadyClaimedSeat),
        ),
{
}

/// An order that has an expiry which is not in the future is refused as
/// already expired.
pub proof fn lemma_expired_order_is_refused(
    fixed: MarketFixed,
    pool: PoolView,
    base_global: Option<GlobalTradeView>,
    quote_global: Option<GlobalTradeView>,
    args: AddOrderToMarketArgs,
)
    requires
        pool.is_seat(args.trader_index),
        args.last_valid_slot != NO_EXPIRATION_LAST_VALID_SLOT,
        args.last_valid_slot <= args.now_slot,
    ensures
        spec_place_order(fixed, pool, base_global, quote_global, args) == Err::<PlaceOutcome, _>(
            EngineError::Nix(NixError::AlreadyExpired),
        ),
{
}

/// A global order that is a bid is refused.
pub proof fn lemma_global_bid_is_refused(
    fixed: MarketFixed,
    pool: PoolView,
    base_global: Option<GlobalTradeView>,
    quote_global: Option<GlobalTradeView>,
    args: AddOrderToMarketArgs,
)
    requires
        pool.is_seat(args.trader_index),
        spec_not_already_expired(args.last_valid_slot, args.now_slot),
        args.order_type == OrderType::Global,
        args.is_bid,
    ensures
        spec_place_order(fixed, pool, base_global, quote_global, args) == Err::<PlaceOutcome, _>(
            EngineError::Nix(NixError::InvalidGlobalBidOrder),
        ),
{
}

/// A reverse order that is an ask is refused.
pub proof fn lemma_reverse_ask_is_refused(
    fixed: MarketFixed,
    pool: PoolView,
    base_global: Option<GlobalTradeView>,
    quote_global: Option<GlobalTradeView>,
    args: AddOrderToMarketArgs,
)
    requires
        pool.is_seat(args.trader_index),
        spec_not_already_expired(args.last_valid_slot, args.now_slot),
        args.order_type == OrderType::Reverse,
        !args.is_bid,
    ensures
        spec_place_order(fixed, pool, base_global, quote_global, args) == Err::<PlaceOutcome, _>(
            EngineError::Nix(NixError::InvalidAskReverseOrder),
        ),
{
}

/// A post-only order, or a global one, that would cross at the top of the
/// book is refused: where the order is for some atoms and the best maker of
/// the other side is neither expired, nor without collateral, nor too dear.
pub proof fn lemma_post_only_crosses(
    fixed: MarketFixed,
    pool: PoolView,
    base_global: Option<GlobalTradeView>,
    quote_global: Option<GlobalTradeView>,
    args: AddOrderToMarketArgs,
)
    requires
        pool.is_seat(args.trader_index),
        spec_not_already_expired(args.last_valid_slot, args.now_slot),
        spec_valid_order_type(args.order_type, args.is_bid).is_ok(),
        spec_buffer_factor(fixed.fee_state.ltv_buffer_bps).is_some(),
        args.order_type == OrderType::PostOnly || args.order_type == OrderType::Global,
        args.num_base_atoms > 0,
        pool.book(args.use_a_tree, !args.is_bid).len() > 0,
        ({
            let maker = crate::market::order_in(
                pool.slot(pool.book(args.use_a_tree, !args.is_bid).last().0),
            );
            &&& !maker.spec_is_expired(args.now_slot)
            &&& maker.collateral_shares@ != 0
            &&& if args.is_bid {
                maker.rate_bps <= args.rate_bps
            } else {
                maker.rate_bps >= args.rate_bps
            }
        }),
    ensures
        spec_place_order(fixed, pool, base_global, quote_global, args) == Err::<PlaceOutcome, _>(
            EngineError::Nix(NixError::PostOnlyCrosses),
        ),
{
    let buffer = spec_buffer_factor(fixed.fee_state.ltv_buffer_bps).unwrap();
    let ctx = MatchContext {
        args,
        buffer_f: WrappedI80F48 { value: buffer },
        taker: seat_in(pool.slot(args.trader_index)).trader,
        taker_sequence_number: sequence_number_of(fixed, args.use_a_tree),
    };
    let s = spec_initial_state(pool, base_global, args);
    assert(makers(pool, ctx) == pool.book(args.use_a_tree, !args.is_bid));
    assert(crate::matching::spec_step(ctx, quote_global, s) == crate::matching::StepOutcome::Fail(
        EngineError::Nix(NixError::PostOnlyCrosses),
    ));
    assert(spec_match(ctx, quote_global, s, makers(pool, ctx).len()) == Err::<MatchState, _>(
        EngineError::Nix(NixError::PostOnlyCrosses),
    ));
}

/// A bid that rests is backed at the prices at which it was posted: the
/// collateral that backs the atoms its liability stands for is no more than
/// the atoms its collateral is worth, and one. This holds where prices and
/// weights are not negative and the share values are positive and at most
/// `2^48`.
pub proof fn lemma_resting_bid_is_backed(ctx: MatchContext, remaining: u64)
    requires
        ctx.args.is_bid,
        spec_resting_shares(ctx, remaining).is_some(),
        0 <= ctx.args.base_oracle_price_usd@,
        0 <= ctx.args.quote_oracle_price_usd@,
        0 <= ctx.args.base_bank.config.liability_weight_init@,
        0 <= ctx.args.quote_bank.config.asset_weight_init@,
        0 <= ctx.buffer_f@,
        0 < ctx.args.base_bank.liability_share_value@,
        0 < ctx.args.quote_bank.asset_share_value@ <= one() * one(),
    ensures
        ({
            let shares = spec_resting_shares(ctx, remaining).unwrap();
            let liability_atoms = crate::marginfi_utils::spec_shares_to_tokens_ceil(
                shares.1 as int,
                ctx.args.base_bank.liability_share_value@,
            );
            let collateral_atoms = crate::marginfi_utils::spec_shares_to_tokens_floor(
                shares.0 as int,
                ctx.args.quote_bank.asset_share_value@,
            );
            &&& liability_atoms.is_some()
            &&& collateral_atoms.is_some()
            &&& spec_required_quote_collateral(
                ctx.args.base_bank,
                ctx.args.quote_bank,
                ctx.args.base_oracle_price_usd@,
                ctx.args.quote_oracle_price_usd@,
                ctx.buffer_f@,
                liability_atoms.unwrap(),
            ).is_some()
            &&& spec_required_quote_collateral(
                ctx.args.base_bank,
                ctx.args.quote_bank,
                ctx.args.base_oracle_price_usd@,
                ctx.args.quote_oracle_price_usd@,
                ctx.buffer_f@,
                liability_atoms.unwrap(),
            ).unwrap() <= collateral_atoms.unwrap() + 1
        }),
{
    let quote = spec_required_quote_collateral(
        ctx.args.base_bank,
        ctx.args.quote_bank,
        ctx.args.base_oracle_price_usd@,
        ctx.args.quote_oracle_price_usd@,
        ctx.buffer_f@,
        remaining,
    ).unwrap();
    crate::marginfi_utils::lemma_tokens_shares_tokens(
        quote,
        ctx.args.quote_bank.asset_share_value@,
    );
    crate::marginfi_utils::lemma_repayment_is_at_most_the_loan(
        remaining,
        ctx.args.base_bank.liability_share_value@,
    );
    let shares = spec_resting_shares(ctx, remaining).unwrap();
    let liability_atoms = crate::marginfi_utils::spec_shares_to_tokens_ceil(
        shares.1 as int,
        ctx.args.base_bank.liability_share_value@,
    ).unwrap();
    crate::marginfi_utils::lemma_required_collateral_is_monotone(
        ctx.args.base_bank,
        ctx.args.quote_bank,
        ctx.args.base_oracle_price_usd@,
        ctx.args.quote_oracle_price_usd@,
        ctx.buffer_f@,
        liability_atoms,
        remaining,
    );
}

} // verus!
