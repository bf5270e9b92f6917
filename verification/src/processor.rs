//! The operations of the program on a market and its ledger, from decoded
//! parameters to the effects that the caller carries out.

use crate::cancel_order::{spec_cancel, spec_cancel_by_index};
use crate::constants::{DataIndex, Pubkey, NIL, NO_EXPIRATION_LAST_VALID_SLOT};
use crate::dynamic_account::DynamicAccount;
use crate::error::{EngineError, NixError};
use crate::addresses::{
    get_market_fee_receiver_address, get_nix_marginfi_account_address, get_vault_address,
    spec_derived,
};
use crate::global::{
    opt_view, opt_wf, spec_add_trader, spec_deposit, GlobalDynamic, GlobalFixed,
    GlobalTradeAccounts, GlobalTradeView,
};
use crate::instruction::CreateMarketParams;
use crate::logs::{CreateMarketLoanAccountLog, CreateMarketLog, GlobalAddTraderLog, GlobalDepositLog};
use crate::market::CreateMarketArgs;
use crate::instruction::{CancelOrderParams, PlaceOrderParams};
use crate::logs::{CancelOrderLog, ClaimSeatLog, Effect, PlaceOrderLog};
use crate::marginfi_utils::Bank;
use crate::market::{order_in, seat_in, MarketDynamic, MarketFixed, MarketSlot, PoolView, BLOCK};
use crate::market_loan::{LoansView, MarketLoansDynamic, MarketLoansFixed};
use crate::matching::AddOrderToMarketArgs;
use crate::place_order::{spec_place_order, PlaceOutcome};
use crate::quantities::WrappedI80F48;
use crate::resting_order::OrderType;
use crate::utils::keys_equal;
use vstd::prelude::*;
use vstd::string::StringSliceAdditionalSpecFns;

verus! {

/// What a new market is made for: its address, its two mints with their
/// decimals, the group and the bank of the money market for each, and its
/// admin.
#[derive(Debug, Clone, Copy)]
pub struct CreateMarketKeys {
    pub market: Pubkey,
    pub admin: Pubkey,
    pub base_a_mint: Pubkey,
    pub base_b_mint: Pubkey,
    pub base_a_mint_decimals: u8,
    pub base_b_mint_decimals: u8,
    pub base_a_marginfi_group: Pubkey,
    pub base_a_marginfi_bank: Pubkey,
    pub base_b_marginfi_group: Pubkey,
    pub base_b_marginfi_bank: Pubkey,
}

/// The header's addresses and numbers for a new market: the vaults, the fee
/// receivers and the accounts with the money market are derived from the
/// market and each mint. `None` where an address cannot be derived.
pub fn derive_create_market_args(keys: &CreateMarketKeys, params: &CreateMarketParams) -> (r:
    Option<CreateMarketArgs>)
    ensures
        r.is_some() ==> ({
            let a = r.unwrap();
            &&& a.base_a_mint == keys.base_a_mint
            &&& a.base_b_mint == keys.base_b_mint
            &&& a.base_a_mint_decimals == keys.base_a_mint_decimals
            &&& a.base_b_mint_decimals == keys.base_b_mint_decimals
            &&& a.base_a_marginfi_group == keys.base_a_marginfi_group
            &&& a.base_a_marginfi_bank == keys.base_a_marginfi_bank
            &&& a.base_b_marginfi_group == keys.base_b_marginfi_group
            &&& a.base_b_marginfi_bank == keys.base_b_marginfi_bank
            &&& a.admin == keys.admin
            &&& a.protocol_fee_rate_bps == params.protocol_fee_rate_bps
            &&& a.ltv_buffer_bps == params.marginfi_market_buffer_bps
            &&& Some((a.base_a_vault@, spec_derived(
                "vault".spec_bytes(),
                keys.market,
                Some(keys.base_a_mint),
            ).unwrap().1)) == spec_derived(
                "vault".spec_bytes(),
                keys.market,
                Some(keys.base_a_mint),
            )
            &&& Some((a.base_b_vault@, spec_derived(
                "vault".spec_bytes(),
                keys.market,
                Some(keys.base_b_mint),
            ).unwrap().1)) == spec_derived(
                "vault".spec_bytes(),
                keys.market,
                Some(keys.base_b_mint),
            )
            &&& Some((a.base_a_fee_receiver@, spec_derived(
                "fee-receiver".spec_bytes(),
                keys.market,
                Some(keys.base_a_mint),
            ).unwrap().1)) == spec_derived(
                "fee-receiver".spec_bytes(),
                keys.market,
                Some(keys.base_a_mint),
            )
            &&& Some((a.base_b_fee_receiver@, spec_derived(
                "fee-receiver".spec_bytes(),
                keys.market,
                Some(keys.base_b_mint),
            ).unwrap().1)) == spec_derived(
                "fee-receiver".spec_bytes(),
                keys.market,
                Some(keys.base_b_mint),
            )
            &&& Some((a.base_a_marginfi_account@, spec_derived(
                "nix_marginfi_account".spec_bytes(),
                keys.market,
                Some(keys.base_a_mint),
            ).unwrap().1)) == spec_derived(
                "nix_marginfi_account".spec_bytes(),
                keys.market,
                Some(keys.base_a_mint),
            )
            &&& Some((a.base_b_marginfi_account@, spec_derived(
                "nix_marginfi_account".spec_bytes(),
                keys.market,
                Some(keys.base_b_mint),
            ).unwrap().1)) == spec_derived(
                "nix_marginfi_account".spec_bytes(),
                keys.market,
                Some(keys.base_b_mint),
            )
        }),
        r.is_some() == (spec_derived(
            "vault".spec_bytes(),
            keys.market,
            Some(keys.base_a_mint),
        ).is_some() && spec_derived(
            "vault".spec_bytes(),
            keys.market,
            Some(keys.base_b_mint),
        ).is_some() && spec_derived(
            "fee-receiver".spec_bytes(),
            keys.market,
            Some(keys.base_a_mint),
        ).is_some() && spec_derived(
            "fee-receiver".spec_bytes(),
            keys.market,
            Some(keys.base_b_mint),
        ).is_some() && spec_derived(
            "nix_marginfi_account".spec_bytes(),
            keys.market,
            Some(keys.base_a_mint),
        ).is_some() && spec_derived(
            "nix_marginfi_account".spec_bytes(),
            keys.market,
            Some(keys.base_b_mint),
        ).is_some()),
{
    let (base_a_vault, _) = get_vault_address(&keys.market, &keys.base_a_mint)?;
    let (base_b_vault, _) = get_vault_address(&keys.market, &keys.base_b_mint)?;
    let (base_a_fee_receiver, _) = get_market_fee_receiver_address(
        &keys.market,
        &keys.base_a_mint,
    )?;
    let (base_b_fee_receiver, _) = get_market_fee_receiver_address(
        &keys.market,
        &keys.base_b_mint,
    )?;
    let (base_a_marginfi_account, _) = get_nix_marginfi_account_address(
        &keys.market,
        &keys.base_a_mint,
    )?;
    let (base_b_marginfi_account, _) = get_nix_marginfi_account_address(
        &keys.market,
        &keys.base_b_mint,
    )?;
    Some(
        CreateMarketArgs {
            base_a_mint: keys.base_a_mint,
            base_b_mint: keys.base_b_mint,
            base_a_mint_decimals: keys.base_a_mint_decimals,
            base_b_mint_decimals: keys.base_b_mint_decimals,
            base_a_vault,
            base_b_vault,
            base_a_fee_receiver,
            base_b_fee_receiver,
            base_a_marginfi_group: keys.base_a_marginfi_group,
            base_a_marginfi_bank: keys.base_a_marginfi_bank,
            base_a_marginfi_account,
            base_b_marginfi_group: keys.base_b_marginfi_group,
            base_b_marginfi_bank: keys.base_b_marginfi_bank,
            base_b_marginfi_account,
            admin: keys.admin,
            protocol_fee_rate_bps: params.protocol_fee_rate_bps,
            ltv_buffer_bps: params.marginfi_market_buffer_bps,
        },
    )
}

/// The `CreateMarket` operation: a market with the given header, one free
/// slot, and its log.
pub fn process_create_market_core(market_key: &Pubkey, args: &CreateMarketArgs) -> (r: (
    DynamicAccount<MarketFixed, MarketDynamic>,
    Effect,
))
    ensures
        r.0.wf(),
        crate::market::same_settings(
            MarketFixed::spec_new_empty(
                *args,
                crate::utils::spec_discriminant(
                    crate::utils::MARKET_FIXED_TYPE_NAME.spec_bytes(),
                ),
            ),
            r.0.fixed,
        ),
        r.0.fixed.num_bytes_allocated == BLOCK,
        r.0.pool().free == seq![0u32],
        r.0.pool().slots == seq![MarketSlot::Empty],
        r.0.pool().seats == Map::<u32, Seq<u8>>::empty(),
        forall|a: bool, b: bool| (#[trigger] r.0.pool().book(a, b)).len() == 0,
        r.1 == Effect::CreateMarket(
            CreateMarketLog {
                base_a_mint: args.base_a_mint,
                base_b_mint: args.base_b_mint,
                market_key: *market_key,
                admin: args.admin,
            },
        ),
{
    let fixed = MarketFixed::new_empty(args);
    let mut market = DynamicAccount::<MarketFixed, MarketDynamic>::new(fixed);
    let ghost empty = market.pool();
    let grown = market.market_expand();
    proof {
        assert(grown.is_ok());
        assert(market.pool() == empty.expand());
        assert(empty.free =~= Seq::<u32>::empty());
        assert(market.pool().free =~= seq![0u32]);
        assert(market.pool().slots =~= seq![MarketSlot::Empty]);
        assert forall|a: bool, b: bool| (#[trigger] market.pool().book(a, b)).len() == 0 by {
            assert(market.pool().book(a, b) == empty.book(a, b));
        }
    }
    (
        market,
        Effect::CreateMarket(
            CreateMarketLog {
                base_a_mint: args.base_a_mint,
                base_b_mint: args.base_b_mint,
                market_key: *market_key,
                admin: args.admin,
            },
        ),
    )
}

/// The `CreateMarketLoanAccount` operation: an empty ledger of the market
/// with one free slot, and its log.
pub fn process_create_market_loan_account_core(
    market: &Pubkey,
    market_loan_account_key: &Pubkey,
    admin: &Pubkey,
) -> (r: (DynamicAccount<MarketLoansFixed, MarketLoansDynamic>, Effect))
    ensures
        r.0.wf(),
        r.0.fixed.market == *market,
        r.0.fixed.num_bytes_allocated == crate::market_loan::LOAN_BLOCK,
        r.0.view().free == seq![0u32],
        r.0.view().loans.len() == 0,
        r.0.view().num_active_loans == 0,
        r.0.view().next_sequence_number == 0,
        r.1 == Effect::CreateMarketLoanAccount(
            CreateMarketLoanAccountLog {
                market: *market,
                market_loan_account_key: *market_loan_account_key,
                admin: *admin,
            },
        ),
{
    let fixed = MarketLoansFixed::new_empty(*market);
    let mut ledger = DynamicAccount::<MarketLoansFixed, MarketLoansDynamic>::new(fixed);
    let ghost empty = ledger.view();
    let grown = ledger.expand_one();
    proof {
        assert(grown.is_ok());
        assert(empty.free =~= Seq::<u32>::empty());
        assert(ledger.view().free =~= seq![0u32]);
    }
    (
        ledger,
        Effect::CreateMarketLoanAccount(
            CreateMarketLoanAccountLog {
                market: *market,
                market_loan_account_key: *market_loan_account_key,
                admin: *admin,
            },
        ),
    )
}

/// The `GlobalAddTrader` operation: seats the payer on the global account
/// and logs it.
pub fn process_global_add_trader(
    global: &mut DynamicAccount<GlobalFixed, GlobalDynamic>,
    global_key: &Pubkey,
    payer: &Pubkey,
) -> (r: Result<Effect, EngineError>)
    requires
        old(global).wf(),
    ensures
        final(global).wf(),
        match spec_add_trader(old(global).traders(), *payer) {
            Ok(t) => final(global).traders() == t && r == Ok::<Effect, EngineError>(
                Effect::GlobalAddTrader(GlobalAddTraderLog { global: *global_key, trader: *payer }),
            ),
            Err(e) => final(global).traders() == old(global).traders() && r == Err::<Effect, _>(e),
        },
{
    match global.add_trader(payer) {
        Ok(()) => Ok(
            Effect::GlobalAddTrader(GlobalAddTraderLog { global: *global_key, trader: *payer }),
        ),
        Err(e) => Err(e),
    }
}

/// The `GlobalDeposit` operation: credits `amount` atoms to the payer on the
/// global account. The log is made by `global_deposit_log` once the tokens
/// have moved.
pub fn process_global_deposit(
    global: &mut DynamicAccount<GlobalFixed, GlobalDynamic>,
    payer: &Pubkey,
    amount: u64,
) -> (r: Result<(), EngineError>)
    requires
        old(global).wf(),
    ensures
        final(global).wf(),
        final(global).fixed == old(global).fixed,
        match spec_deposit(old(global).traders(), payer@, amount) {
            Ok(t) => r.is_ok() && final(global).traders() == t,
            Err(e) => r == Err::<(), _>(e) && final(global).traders() == old(global).traders(),
        },
{
    global.deposit_global(payer, amount)
}

/// The log of a deposit into a global account: of what arrived in the
/// vault, which with a mint that takes a transfer fee is less than was sent.
/// `None` where the vault holds less than before.
pub fn global_deposit_log(
    global_key: &Pubkey,
    payer: &Pubkey,
    vault_balance_before: u64,
    vault_balance_after: u64,
) -> (r: Option<Effect>)
    ensures
        r == if vault_balance_after >= vault_balance_before {
            Some(
                Effect::GlobalDeposit(
                    GlobalDepositLog {
                        global: *global_key,
                        trader: *payer,
                        deposited_amount: (vault_balance_after - vault_balance_before) as u64,
                    },
                ),
            )
        } else {
            None
        },
{
    match vault_balance_after.checked_sub(vault_balance_before) {
        Some(deposited_amount) => Some(
            Effect::GlobalDeposit(
                GlobalDepositLog { global: *global_key, trader: *payer, deposited_amount },
            ),
        ),
        None => None,
    }
}

/// Whether a hinted index is that of the seat of `payer`: the index of a
/// slot that holds a seat whose trader is `payer`.
pub open spec fn spec_trader_hint_ok(pool: PoolView, hinted_index: u32, payer: Pubkey) -> bool {
    pool.is_seat(hinted_index) && seat_in(pool.slot(hinted_index)).trader@ == payer@
}

/// The slot index of the seat of `payer`: the hinted one where it is right,
/// looked up where there is no hint. `NIL` where `payer` has no seat; a
/// wrong hint fails.
pub open spec fn spec_trader_index_with_hint(
    pool: PoolView,
    trader_index_hint: Option<u32>,
    payer: Pubkey,
) -> Result<u32, EngineError> {
    match trader_index_hint {
        None => Ok(pool.trader_index_of(payer@)),
        Some(hinted_index) => if spec_trader_hint_ok(pool, hinted_index, payer) {
            Ok(hinted_index)
        } else {
            Err(EngineError::Nix(NixError::WrongIndexHintParams))
        },
    }
}

/// Whether a hinted index is that of the order to cancel: the index of a
/// slot that holds an order of the trader with the sequence number.
pub open spec fn spec_order_hint_ok(
    pool: PoolView,
    hinted_index: u32,
    trader_index: u32,
    order_sequence_number: u64,
) -> bool {
    pool.is_order(hinted_index) && order_in(pool.slot(hinted_index)).trader_index == trader_index
        && order_in(pool.slot(hinted_index)).sequence_number == order_sequence_number
}

impl DynamicAccount<MarketFixed, MarketDynamic> {
    /// Checks a hint of where the seat of `payer` is: it must be the index
    /// of a slot, the slot must hold a seat, and the seat must be the
    /// payer's.
    pub fn verify_trader_index_hint(&self, hinted_index: DataIndex, payer: &Pubkey) -> (r: Result<
        (),
        EngineError,
    >)
        requires
            self.wf(),
        ensures
            r == if spec_trader_hint_ok(self.pool(), hinted_index, *payer) {
                Ok::<(), EngineError>(())
            } else {
                Err(EngineError::Nix(NixError::WrongIndexHintParams))
            },
    {
        match self.get_slot(hinted_index) {
            Some(MarketSlot::Seat(seat)) => {
                if keys_equal(&seat.trader, payer) {
                    Ok(())
                } else {
                    Err(EngineError::Nix(NixError::WrongIndexHintParams))
                }
            },
            _ => Err(EngineError::Nix(NixError::WrongIndexHintParams)),
        }
    }

    /// The slot index of the seat of `payer`, by hint or by lookup.
    pub fn get_trader_index_with_hint(
        &self,
        trader_index_hint: Option<DataIndex>,
        payer: &Pubkey,
    ) -> (r: Result<DataIndex, EngineError>)
        requires
            self.wf(),
        ensures
            r == spec_trader_index_with_hint(self.pool(), trader_index_hint, *payer),
            r.is_ok() ==> r.unwrap() == NIL || spec_trader_hint_ok(
                self.pool(),
                r.unwrap(),
                *payer,
            ),
    {
        match trader_index_hint {
            None => {
                let index = self.get_trader_index(payer);
                proof {
                    if index != NIL {
                        assert(self.pool().slots == self.dynamic.slots@);
                    }
                }
                Ok(index)
            },
            Some(hinted_index) => {
                self.verify_trader_index_hint(hinted_index, payer)?;
                Ok(hinted_index)
            },
        }
    }

    /// Checks a hint of where the order to cancel is: it must be the index
    /// of a slot, the slot must hold an order, and the order must be the
    /// trader's and have the sequence number.
    pub fn verify_order_index_hint(
        &self,
        hinted_cancel_index: DataIndex,
        trader_index: DataIndex,
        order_sequence_number: u64,
    ) -> (r: Result<(), EngineError>)
        requires
            self.wf(),
        ensures
            r == if spec_order_hint_ok(
                self.pool(),
                hinted_cancel_index,
                trader_index,
                order_sequence_number,
            ) {
                Ok::<(), EngineError>(())
            } else {
                Err(EngineError::Nix(NixError::WrongIndexHintParams))
            },
    {
        match self.get_slot(hinted_cancel_index) {
            Some(MarketSlot::Order(order)) => {
                if trader_index == order.get_trader_index() && order_sequence_number
                    == order.get_sequence_number() {
                    Ok(())
                } else {
                    Err(EngineError::Nix(NixError::WrongIndexHintParams))
                }
            },
            _ => Err(EngineError::Nix(NixError::WrongIndexHintParams)),
        }
    }

    /// Grows the pool by a slot where none is free, so that the next
    /// operation finds one.
    pub fn expand_market_if_needed(&mut self) -> (r: Result<(), EngineError>)
        requires
            old(self).wf(),
        ensures
            final(self).wf(),
            crate::market::same_settings(old(self).fixed, final(self).fixed),
            crate::market::indexes_kept(old(self).fixed, final(self).fixed, Set::empty()),
            old(self).pool().free.len() > 0 ==> r.is_ok() && final(self).pool() == old(self).pool() && final(self).fixed == old(self).fixed,
            old(self).pool().free.len() == 0 ==> r.is_ok() == (old(self).fixed.num_bytes_allocated
                + BLOCK <= u32::MAX) && (r.is_ok() ==> final(self).pool() == old(self).pool().expand()) && (r.is_err() ==> r == Err::<(), _>(
                EngineError::Nix(NixError::NumericalOverflow),
            ) && final(self).pool() == old(self).pool() && final(self).fixed == old(self).fixed),
    {
        if self.has_free_block() {
            return Ok(());
        }
        self.market_expand()
    }

    /// The `ClaimSeat` operation:
    /// claims a seat for `payer`, logs it, and grows the pool where no slot
    /// is left free. On failure nothing changes.
    pub fn process_claim_seat(&mut self, market: &Pubkey, payer: &Pubkey) -> (r: Result<
        Effect,
        EngineError,
    >)
        requires
            old(self).wf(),
        ensures
            final(self).wf(),
            crate::market::same_settings(old(self).fixed, final(self).fixed),
            crate::market::books_kept_but(old(self).fixed, final(self).fixed, Set::empty()),
            match old(self).pool().claim_seat(*payer) {
                Err(e) => r.is_err() && r.unwrap_err() == e && final(self).pool() == old(self).pool()
                    && final(self).fixed == old(self).fixed,
                Ok(v) => if v.free.len() > 0 {
                    r.is_ok() && final(self).pool() == v
                } else if old(self).fixed.num_bytes_allocated + BLOCK <= u32::MAX {
                    r.is_ok() && final(self).pool() == v.expand()
                } else {
                    r.is_err() && r.unwrap_err() == EngineError::Nix(
                        NixError::NumericalOverflow,
                    ) && final(self).pool() == old(self).pool()
                        && final(self).fixed == old(self).fixed
                },
            },
            r.is_ok() ==> r.unwrap() == Effect::ClaimSeat(
                ClaimSeatLog { market: *market, trader: *payer },
            ),
    {
        // The seat would take the last free slot of a pool that cannot grow.
        if self.get_trader_index(payer) == NIL && self.has_free_block()
            && !self.has_two_free_blocks() && self.fixed.num_bytes_allocated > u32::MAX - BLOCK {
            return Err(EngineError::Nix(NixError::NumericalOverflow));
        }
        match self.claim_seat(payer) {
            Ok(()) => {},
            Err(e) => { return Err(e); },
        }
        match self.expand_market_if_needed() {
            Ok(()) => {},
            Err(e) => { return Err(e); },
        }
        Ok(Effect::ClaimSeat(ClaimSeatLog { market: *market, trader: *payer }))
    }
}

/// The asset shares that a deposit into the money market gained: what the
/// account holds after less what it held before. A loss means that the money
/// market is in no valid state.
pub open spec fn spec_shares_gained(before: int, after: int) -> Result<i128, EngineError> {
    if !crate::quantities::fits(after - before) {
        Err(EngineError::Nix(NixError::NumericalOverflow))
    } else if after - before < 0 {
        Err(EngineError::Nix(NixError::InvalidMarginfiState))
    } else {
        Ok((after - before) as i128)
    }
}

/// The `Deposit` operation, once the tokens are with the money market: the
/// asset shares that the market's account gained there are credited to the
/// payer's seat, found by hint or by lookup. On failure nothing changes.
pub fn process_deposit_core(
    market: &mut DynamicAccount<MarketFixed, MarketDynamic>,
    payer: &Pubkey,
    trader_index_hint: Option<DataIndex>,
    balance_before_mfi_shares: WrappedI80F48,
    balance_after_mfi_shares: WrappedI80F48,
    is_base_a: bool,
) -> (r: Result<(), EngineError>)
    requires
        old(market).wf(),
    ensures
        final(market).wf(),
        final(market).fixed == old(market).fixed,
        match spec_shares_gained(balance_before_mfi_shares@, balance_after_mfi_shares@) {
            Err(e) => r == Err::<(), _>(e) && final(market).pool() == old(market).pool(),
            Ok(gained) => match spec_trader_index_with_hint(
                old(market).pool(),
                trader_index_hint,
                *payer,
            ) {
                Err(e) => r == Err::<(), _>(e) && final(market).pool() == old(market).pool(),
                Ok(trader_index) => match old(market).pool().deposit(
                    trader_index,
                    gained as int,
                    is_base_a,
                ) {
                    Err(e) => r == Err::<(), _>(e) && final(market).pool() == old(market).pool(),
                    Ok(v) => r.is_ok() && final(market).pool() == v,
                },
            },
        },
{
    let mfi_asset_shares_gained = match balance_after_mfi_shares.checked_sub(
        balance_before_mfi_shares,
    ) {
        Some(g) => g,
        None => { return Err(EngineError::Nix(NixError::NumericalOverflow)); },
    };
    if !mfi_asset_shares_gained.ge(WrappedI80F48::zero()) {
        return Err(EngineError::Nix(NixError::InvalidMarginfiState));
    }
    let trader_index = match market.get_trader_index_with_hint(trader_index_hint, payer) {
        Ok(i) => i,
        Err(e) => { return Err(e); },
    };
    market.deposit(trader_index, mfi_asset_shares_gained, is_base_a)
}

/// What an order needs besides its parameters: the market's address, the
/// mints, the banks' snapshots and the oracle prices, and the time.
#[derive(Debug, Clone, Copy)]
pub struct PlaceOrderInputs {
    pub market: Pubkey,
    pub base_mint: Pubkey,
    pub quote_mint: Pubkey,
    pub base_oracle_price_usd: WrappedI80F48,
    pub quote_oracle_price_usd: WrappedI80F48,
    pub base_bank: Bank,
    pub quote_bank: Bank,
    pub now_slot: u32,
    pub now_unix_timestamp: i64,
}

/// The order that the parameters of `PlaceOrder` stand for.
pub open spec fn spec_order_args(
    params: PlaceOrderParams,
    inputs: PlaceOrderInputs,
    trader_index: u32,
) -> AddOrderToMarketArgs {
    AddOrderToMarketArgs {
        market: inputs.market,
        trader_index,
        num_base_atoms: params.num_base_atoms,
        rate_bps: params.rate_bps,
        reverse_spread_bps: params.reverse_spread_bps,
        is_bid: params.is_bid,
        use_a_tree: params.use_a_tree,
        last_valid_slot: params.last_valid_slot,
        order_type: params.order_type,
        base_mint: inputs.base_mint,
        quote_mint: inputs.quote_mint,
        base_oracle_price_usd: inputs.base_oracle_price_usd,
        quote_oracle_price_usd: inputs.quote_oracle_price_usd,
        base_bank: inputs.base_bank,
        quote_bank: inputs.quote_bank,
        now_slot: inputs.now_slot,
        now_unix_timestamp: inputs.now_unix_timestamp,
    }
}

/// The log of an order that was placed.
pub open spec fn spec_place_order_log(
    params: PlaceOrderParams,
    inputs: PlaceOrderInputs,
    payer: Pubkey,
    o: PlaceOutcome,
) -> PlaceOrderLog {
    PlaceOrderLog {
        market: inputs.market,
        trader: payer,
        base_atoms: o.placed.base_atoms_traded,
        rate_bps: params.rate_bps,
        order_type: params.order_type,
        is_bid: params.is_bid,
        order_sequence_number: o.placed.order_sequence_number,
        order_index: o.placed.order_index,
        last_valid_slot: params.last_valid_slot,
    }
}

/// The `PlaceOrder` operation. The payer's seat is found, by hint or by
/// lookup; a reverse order with an expiry is refused; the order is placed
/// and logged; the pool grows where no slot is left free; the ledger grows
/// by a slot for each loan that was made, and takes the loans.
///
/// A failed operation commits nothing: the market, the ledger and the
/// global account are then as they were.
pub fn process_place_order_core(
    market: &mut DynamicAccount<MarketFixed, MarketDynamic>,
    market_loans: &mut DynamicAccount<MarketLoansFixed, MarketLoansDynamic>,
    payer: &Pubkey,
    params: PlaceOrderParams,
    inputs: &PlaceOrderInputs,
    base_global: &mut Option<GlobalTradeAccounts>,
    quote_global: &Option<GlobalTradeAccounts>,
) -> (r: Result<Vec<Effect>, EngineError>)
    requires
        old(market).wf(),
        old(market_loans).wf(),
        opt_wf(*old(base_global)),
    ensures
        final(market).wf(),
        final(market_loans).wf(),
        final(market_loans).same_ledger(old(market_loans)),
        opt_wf(*final(base_global)),
        crate::market::indexes_kept(
            old(market).fixed,
            final(market).fixed,
            crate::place_order::spec_books_of_order(
                params.use_a_tree,
                params.is_bid,
                params.order_type,
            ),
        ),
        r.is_err() ==> final(market).fixed == old(market).fixed && final(market).pool() == old(market).pool() && final(market_loans).fixed == old(market_loans).fixed && final(market_loans).view() == old(market_loans).view() && opt_view(*final(base_global)) == opt_view(
            *old(base_global),
        ),
        match spec_trader_index_with_hint(old(market).pool(), params.trader_index_hint, *payer) {
            Err(e) => r.is_err() && r.unwrap_err() == e,
            Ok(trader_index) => if params.order_type == OrderType::Reverse
                && params.last_valid_slot != NO_EXPIRATION_LAST_VALID_SLOT {
                r.is_err() && r.unwrap_err() == EngineError::Nix(NixError::InvalidAskReverseOrder)
            } else {
                match spec_place_order(
                    old(market).fixed,
                    old(market).pool(),
                    opt_view(*old(base_global)),
                    opt_view(*quote_global),
                    spec_order_args(params, *inputs, trader_index),
                ) {
                    Err(e) => r.is_err() && r.unwrap_err() == e,
                    Ok(o) => match spec_after_place_order(
                        old(market).fixed.num_bytes_allocated,
                        old(market_loans).view(),
                        o,
                    ) {
                        Err(e) => r.is_err() && r.unwrap_err() == e,
                        Ok((pool, ledger)) => {
                            &&& r.is_ok()
                            &&& opt_view(*final(base_global)) == o.base_global
                            &&& final(market).pool() == pool
                            &&& final(market).fixed.base_a_order_sequence_number
                                == o.base_a_order_sequence_number
                            &&& final(market).fixed.base_b_order_sequence_number
                                == o.base_b_order_sequence_number
                            &&& final(market).fixed.base_a_match_volume == o.base_a_match_volume
                            &&& final(market).fixed.base_b_match_volume == o.base_b_match_volume
                            &&& final(market_loans).view() == ledger
                            &&& r.unwrap()@ == o.placed.effects.push(
                                Effect::PlaceOrder(
                                    spec_place_order_log(params, *inputs, *payer, o),
                                ),
                            )
                        },
                    },
                }
            },
        },
{
    let saved_market = market.snapshot();
    let saved_loans = market_loans.snapshot();
    let saved_global = crate::global::snapshot_global(base_global);
    match process_place_order_in_place(
        market,
        market_loans,
        payer,
        params,
        inputs,
        base_global,
        quote_global,
    ) {
        Ok(effects) => Ok(effects),
        Err(e) => {
            *market = saved_market;
            *market_loans = saved_loans;
            *base_global = saved_global;
            Err(e)
        },
    }
}

/// What follows an order that was placed: the pool grows by a slot where
/// none is left free, the ledger grows by a slot for each loan that was
/// made, and takes the loans. `bytes` is the size of the market's pool.
pub open spec fn spec_after_place_order(bytes: u32, ledger: LoansView, o: PlaceOutcome) -> Result<
    (PoolView, LoansView),
    EngineError,
> {
    if o.pool.free.len() == 0 && bytes + BLOCK > u32::MAX {
        Err(EngineError::Nix(NixError::NumericalOverflow))
    } else if o.placed.matched_loans.len() > u32::MAX {
        Err(EngineError::Nix(NixError::MaxActiveLoansExceeded))
    } else if 96 * (ledger.slots.len() + o.placed.matched_loans.len()) > u32::MAX {
        Err(EngineError::Nix(NixError::NumericalOverflow))
    } else {
        match ledger.expand_by(o.placed.matched_loans.len()).add_loans(o.placed.matched_loans) {
            Err(e) => Err(e),
            Ok(l) => Ok(
                (
                    if o.pool.free.len() > 0 {
                        o.pool
                    } else {
                        o.pool.expand()
                    },
                    l,
                ),
            ),
        }
    }
}

/// The `PlaceOrder` operation as `process_place_order_core` carries it out,
/// without keeping a copy to go back to: on failure the market and the ledger
/// are well formed, but part of the operation may have been carried out.
pub fn process_place_order_in_place(
    market: &mut DynamicAccount<MarketFixed, MarketDynamic>,
    market_loans: &mut DynamicAccount<MarketLoansFixed, MarketLoansDynamic>,
    payer: &Pubkey,
    params: PlaceOrderParams,
    inputs: &PlaceOrderInputs,
    base_global: &mut Option<GlobalTradeAccounts>,
    quote_global: &Option<GlobalTradeAccounts>,
) -> (r: Result<Vec<Effect>, EngineError>)
    requires
        old(market).wf(),
        old(market_loans).wf(),
        opt_wf(*old(base_global)),
    ensures
        final(market).wf(),
        final(market_loans).wf(),
        final(market_loans).same_ledger(old(market_loans)),
        opt_wf(*final(base_global)),
        crate::market::indexes_kept(
            old(market).fixed,
            final(market).fixed,
            crate::place_order::spec_books_of_order(
                params.use_a_tree,
                params.is_bid,
                params.order_type,
            ),
        ),
        match spec_trader_index_with_hint(old(market).pool(), params.trader_index_hint, *payer) {
            Err(e) => r.is_err() && r.unwrap_err() == e,
            Ok(trader_index) => if params.order_type == OrderType::Reverse
                && params.last_valid_slot != NO_EXPIRATION_LAST_VALID_SLOT {
                r.is_err() && r.unwrap_err() == EngineError::Nix(NixError::InvalidAskReverseOrder)
            } else {
                match spec_place_order(
                    old(market).fixed,
                    old(market).pool(),
                    opt_view(*old(base_global)),
                    opt_view(*quote_global),
                    spec_order_args(params, *inputs, trader_index),
                ) {
                    Err(e) => r.is_err() && r.unwrap_err() == e,
                    Ok(o) => match spec_after_place_order(
                        old(market).fixed.num_bytes_allocated,
                        old(market_loans).view(),
                        o,
                    ) {
                        Err(e) => r.is_err() && r.unwrap_err() == e,
                        Ok((pool, ledger)) => {
                            &&& r.is_ok()
                            &&& opt_view(*final(base_global)) == o.base_global
                            &&& final(market).pool() == pool
                            &&& final(market).fixed.base_a_order_sequence_number
                                == o.base_a_order_sequence_number
                            &&& final(market).fixed.base_b_order_sequence_number
                                == o.base_b_order_sequence_number
                            &&& final(market).fixed.base_a_match_volume == o.base_a_match_volume
                            &&& final(market).fixed.base_b_match_volume == o.base_b_match_volume
                            &&& final(market_loans).view() == ledger
                            &&& r.unwrap()@ == o.placed.effects.push(
                                Effect::PlaceOrder(
                                    spec_place_order_log(params, *inputs, *payer, o),
                                ),
                            )
                        },
                    },
                }
            },
        },
{
    let trader_index = match market.get_trader_index_with_hint(params.trader_index_hint, payer) {
        Ok(i) => i,
        Err(e) => { return Err(e); },
    };
    if params.order_type == OrderType::Reverse && params.last_valid_slot
        != NO_EXPIRATION_LAST_VALID_SLOT {
        return Err(EngineError::Nix(NixError::InvalidAskReverseOrder));
    }
    let args = AddOrderToMarketArgs {
        market: inputs.market,
        trader_index,
        num_base_atoms: params.num_base_atoms,
        rate_bps: params.rate_bps,
        reverse_spread_bps: params.reverse_spread_bps,
        is_bid: params.is_bid,
        use_a_tree: params.use_a_tree,
        last_valid_slot: params.last_valid_slot,
        order_type: params.order_type,
        base_mint: inputs.base_mint,
        quote_mint: inputs.quote_mint,
        base_oracle_price_usd: inputs.base_oracle_price_usd,
        quote_oracle_price_usd: inputs.quote_oracle_price_usd,
        base_bank: inputs.base_bank,
        quote_bank: inputs.quote_bank,
        now_slot: inputs.now_slot,
        now_unix_timestamp: inputs.now_unix_timestamp,
    };
    let ghost outcome = spec_place_order(
        market.fixed,
        market.pool(),
        opt_view(*base_global),
        opt_view(*quote_global),
        args,
    );
    let res = match market.place_order_in_place(args, base_global, quote_global) {
        Ok(res) => res,
        Err(e) => { return Err(e); },
    };
    let ghost o = outcome.unwrap();
    let mut effects = res.effects;
    effects.push(
        Effect::PlaceOrder(
            PlaceOrderLog {
                market: inputs.market,
                trader: *payer,
                base_atoms: res.base_atoms_traded,
                rate_bps: params.rate_bps,
                order_type: params.order_type,
                is_bid: params.is_bid,
                order_sequence_number: res.order_sequence_number,
                order_index: res.order_index,
                last_valid_slot: params.last_valid_slot,
            },
        ),
    );
    match market.expand_market_if_needed() {
        Ok(()) => {},
        Err(e) => { return Err(e); },
    }
    let matched_loans = res.matched_loans;
    if matched_loans.len() > u32::MAX as usize {
        return Err(EngineError::Nix(NixError::MaxActiveLoansExceeded));
    }
    match market_loans.expand_loan_account(matched_loans.len() as u32) {
        Ok(()) => {},
        Err(e) => { return Err(e); },
    }
    match market_loans.add_loans(&matched_loans) {
        Ok(()) => {},
        Err(e) => { return Err(e); },
    }
    Ok(effects)
}

/// What the `CancelOrder` operation does to the market and the ledger, and
/// the effects of the cancellation.
pub open spec fn spec_process_cancel(
    pool: PoolView,
    ledger: LoansView,
    base_global: Option<GlobalTradeView>,
    payer: Pubkey,
    params: CancelOrderParams,
    now_unix_timestamp: i64,
    now_slot: u32,
) -> Result<(PoolView, LoansView, Seq<Effect>), EngineError> {
    match spec_trader_index_with_hint(pool, params.trader_index_hint, payer) {
        Err(e) => Err(e),
        Ok(trader_index) => match params.order_index_hint {
            None => spec_cancel(
                pool,
                ledger,
                base_global,
                params.use_a_tree,
                trader_index,
                params.order_sequence_number,
                now_unix_timestamp,
                now_slot,
            ),
            Some(hinted) => if !spec_order_hint_ok(
                pool,
                hinted,
                trader_index,
                params.order_sequence_number,
            ) {
                Err(EngineError::Nix(NixError::WrongIndexHintParams))
            } else {
                spec_cancel_by_index(
                    pool,
                    ledger,
                    base_global,
                    params.use_a_tree,
                    hinted,
                    now_unix_timestamp,
                    now_slot,
                )
            },
        },
    }
}

/// The `CancelOrder` operation. The payer's seat is found, by hint or by
/// lookup; the order is found by the hint of its slot, which is checked, or
/// by a scan of the tree pair; it is cancelled, and the cancellation is
/// logged.
pub fn process_cancel_order_core(
    market: &mut DynamicAccount<MarketFixed, MarketDynamic>,
    market_loans: &mut DynamicAccount<MarketLoansFixed, MarketLoansDynamic>,
    market_key: &Pubkey,
    payer: &Pubkey,
    params: CancelOrderParams,
    base_global: &Option<GlobalTradeAccounts>,
    now_unix_timestamp: i64,
    now_slot: u32,
) -> (r: Result<Vec<Effect>, EngineError>)
    requires
        old(market).wf(),
        old(market_loans).wf(),
    ensures
        final(market).wf(),
        final(market_loans).wf(),
        final(market_loans).same_ledger(old(market_loans)),
        crate::market::same_settings(old(market).fixed, final(market).fixed),
        crate::market::indexes_kept(old(market).fixed, final(market).fixed, set![(params.use_a_tree, true), (params.use_a_tree, false)]),
        r.is_err() ==> final(market).pool() == old(market).pool()
            && final(market).fixed == old(market).fixed
            && final(market_loans).view() == old(market_loans).view()
            && final(market_loans).fixed == old(market_loans).fixed,
        match spec_process_cancel(
            old(market).pool(),
            old(market_loans).view(),
            opt_view(*base_global),
            *payer,
            params,
            now_unix_timestamp,
            now_slot,
        ) {
            Err(e) => r.is_err() && r.unwrap_err() == e,
            Ok((p, l, e)) => r.is_ok() && final(market).pool() == p && final(market_loans).view()
                == l && r.unwrap()@ == e.push(
                Effect::CancelOrder(
                    CancelOrderLog {
                        market: *market_key,
                        trader: *payer,
                        order_sequence_number: params.order_sequence_number,
                    },
                ),
            ),
        },
{
    let trader_index = match market.get_trader_index_with_hint(params.trader_index_hint, payer) {
        Ok(i) => i,
        Err(e) => { return Err(e); },
    };
    let mut effects: Vec<Effect> = Vec::new();
    match params.order_index_hint {
        None => {
            match market.cancel_order(
                params.use_a_tree,
                trader_index,
                params.order_sequence_number,
                base_global,
                market_loans,
                now_unix_timestamp,
                now_slot,
                &mut effects,
            ) {
                Ok(()) => {},
                Err(e) => { return Err(e); },
            }
        },
        Some(hinted_cancel_index) => {
            match market.verify_order_index_hint(
                hinted_cancel_index,
                trader_index,
                params.order_sequence_number,
            ) {
                Ok(()) => {},
                Err(e) => { return Err(e); },
            }
            match market.cancel_order_by_index(
                params.use_a_tree,
                hinted_cancel_index,
                base_global,
                market_loans,
                now_unix_timestamp,
                now_slot,
                &mut effects,
            ) {
                Ok(()) => {},
                Err(e) => { return Err(e); },
            }
        },
    }
    proof {
        assert(effects@ =~= Seq::<Effect>::empty() + effects@);
    }
    effects.push(
        Effect::CancelOrder(
            CancelOrderLog {
                market: *market_key,
                trader: *payer,
                order_sequence_number: params.order_sequence_number,
            },
        ),
    );
    Ok(effects)
}

} // verus!
