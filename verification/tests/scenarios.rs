use nix_engine::constants::{MAX_ACTIVE_LOANS, NIL};
use nix_engine::error::{EngineError, NixError};
use nix_engine::global::{GlobalFixed, GlobalTradeAccounts, GlobalValue};
use nix_engine::logs::Effect;
use nix_engine::marginfi_utils::{Bank, BankConfig};
use nix_engine::market::{CreateMarketArgs, MarketFixed, MarketSlot, MarketValue};
use nix_engine::market_loan::{LoanStatus, MarketLoansFixed, MarketLoansValue};
use nix_engine::matching::AddOrderToMarketArgs;
use nix_engine::quantities::WrappedI80F48;
use nix_engine::resting_order::OrderType;

const ONE: i128 = 281_474_976_710_656;

fn key(b: u8) -> [u8; 32] {
    [b; 32]
}

fn q(whole: u64) -> WrappedI80F48 {
    WrappedI80F48::from_u64(whole)
}

fn bank() -> Bank {
    Bank {
        mint_decimals: 6,
        asset_share_value: q(1),
        liability_share_value: q(1),
        config: BankConfig { asset_weight_init: q(1), liability_weight_init: q(1) },
    }
}

fn new_market(slots: usize) -> MarketValue {
    let args = CreateMarketArgs {
        base_a_mint: key(1),
        base_b_mint: key(2),
        base_a_mint_decimals: 6,
        base_b_mint_decimals: 6,
        base_a_vault: key(3),
        base_b_vault: key(4),
        base_a_fee_receiver: key(5),
        base_b_fee_receiver: key(6),
        base_a_marginfi_group: key(7),
        base_a_marginfi_bank: key(8),
        base_a_marginfi_account: key(9),
        base_b_marginfi_group: key(10),
        base_b_marginfi_bank: key(11),
        base_b_marginfi_account: key(12),
        admin: key(13),
        protocol_fee_rate_bps: 0,
        ltv_buffer_bps: 500,
    };
    let mut market = MarketValue::new(MarketFixed::new_empty(&args));
    for _ in 0..slots {
        market.market_expand().unwrap();
    }
    market
}

fn new_ledger() -> MarketLoansValue {
    MarketLoansValue::new(MarketLoansFixed::new_empty(key(42)))
}

fn order(
    trader_index: u32,
    atoms: u64,
    rate_bps: u16,
    is_bid: bool,
    order_type: OrderType,
) -> AddOrderToMarketArgs {
    AddOrderToMarketArgs {
        market: key(42),
        trader_index,
        num_base_atoms: atoms,
        rate_bps,
        reverse_spread_bps: 0,
        is_bid,
        use_a_tree: true,
        last_valid_slot: 0,
        order_type,
        base_mint: key(1),
        quote_mint: key(2),
        base_oracle_price_usd: q(1),
        quote_oracle_price_usd: q(1),
        base_bank: bank(),
        quote_bank: bank(),
        now_slot: 100,
        now_unix_timestamp: 1_700_000_000,
    }
}

fn seat_of(market: &MarketValue, index: u32) -> nix_engine::claimed_seat::ClaimedSeat {
    match market.get_slot(index) {
        Some(MarketSlot::Seat(s)) => s,
        _ => panic!("no seat at {}", index),
    }
}

/// A market with a maker (key 20) and a taker (key 21), both funded on both
/// assets with 10 million shares.
fn funded_market() -> (MarketValue, u32, u32) {
    let mut market = new_market(8);
    market.claim_seat(&key(20)).unwrap();
    market.claim_seat(&key(21)).unwrap();
    let maker = market.get_trader_index(&key(20));
    let taker = market.get_trader_index(&key(21));
    for t in [maker, taker] {
        market.deposit(t, q(10_000_000), true).unwrap();
        market.deposit(t, q(10_000_000), false).unwrap();
    }
    (market, maker, taker)
}

#[test]
fn simple_limit_fill() {
    let (mut market, maker, taker) = funded_market();
    let mut base_global = None;
    let rested = market
        .place_order(order(maker, 1_000_000, 500, false, OrderType::Limit), &mut base_global, &None)
        .unwrap();
    assert_ne!(rested.order_index, NIL);
    assert_eq!(rested.order_sequence_number, 1);
    assert_eq!(market.fixed.base_a_asks_best_index, rested.order_index);
    assert_eq!(seat_of(&market, maker).base_a_withdrawable_asset_share, q(9_000_000));
    assert_eq!(seat_of(&market, maker).base_b_withdrawable_asset_share, q(10_000_000));

    let filled = market
        .place_order(order(taker, 1_000_000, 600, true, OrderType::Limit), &mut base_global, &None)
        .unwrap();
    assert_eq!(filled.base_atoms_traded, 1_000_000);
    assert_eq!(filled.quote_atoms_traded, 1_052_632);
    assert_eq!(filled.order_index, NIL);
    assert_eq!(filled.order_sequence_number, 2);
    assert_eq!(filled.matched_loans.len(), 1);
    let loan = filled.matched_loans[0];
    assert_eq!(loan.lender_index, maker);
    assert_eq!(loan.borrower_index, taker);
    assert_eq!(loan.rate_bps, 500);
    assert_eq!(loan.collateral_shares, q(1_052_632));
    assert_eq!(loan.liability_shares, q(1_000_000));
    assert_eq!(loan.status, LoanStatus::Active);
    assert!(loan.is_liability_base_a);
    assert!(!loan.is_lender_global);
    // The ask tree is empty again.
    assert_eq!(market.fixed.base_a_asks_root_index, NIL);
    assert_eq!(market.fixed.base_a_asks_best_index, NIL);
    // The taker paid quote shares and received base shares.
    let t = seat_of(&market, taker);
    assert_eq!(t.base_b_withdrawable_asset_share, q(10_000_000 - 1_052_632));
    assert_eq!(t.base_a_withdrawable_asset_share, q(11_000_000));
    assert_eq!(t.base_a_volume, q(1_000_000));
    assert_eq!(seat_of(&market, maker).base_a_volume, q(1_000_000));
    assert_eq!(market.fixed.base_a_match_volume, q(1_000_000));
    // One fill was logged.
    assert_eq!(filled.effects.len(), 1);
    match filled.effects[0] {
        Effect::Fill(f) => {
            assert_eq!(f.maker, key(20));
            assert_eq!(f.taker, key(21));
            assert_eq!(f.base_atoms, 1_000_000);
            assert_eq!(f.quote_atoms, 1_052_632);
            assert_eq!(f.rate_bps, 500);
            assert_eq!(f.maker_sequence_number, 1);
            assert_eq!(f.taker_sequence_number, 1);
            assert!(f.taker_is_buy);
            assert!(!f.is_maker_global);
        },
        _ => panic!("expected a fill"),
    }
}

#[test]
fn post_only_that_would_cross() {
    let (mut market, maker, taker) = funded_market();
    let mut base_global = None;
    let rested = market
        .place_order(order(maker, 1_000_000, 500, false, OrderType::Limit), &mut base_global, &None)
        .unwrap();
    let before = seat_of(&market, taker);
    let r = market.place_order(
        order(taker, 1_000_000, 700, true, OrderType::PostOnly),
        &mut base_global,
        &None,
    );
    assert_eq!(r.unwrap_err(), EngineError::Nix(NixError::PostOnlyCrosses));
    // The book is unchanged.
    assert_eq!(market.fixed.base_a_asks_best_index, rested.order_index);
    assert_eq!(market.fixed.base_a_bids_best_index, NIL);
    let after = seat_of(&market, taker);
    assert_eq!(after.base_a_withdrawable_asset_share, before.base_a_withdrawable_asset_share);
    assert_eq!(after.base_b_withdrawable_asset_share, before.base_b_withdrawable_asset_share);
}

#[test]
fn post_only_that_does_not_cross_rests() {
    let (mut market, maker, taker) = funded_market();
    let mut base_global = None;
    market
        .place_order(order(maker, 1_000_000, 500, false, OrderType::Limit), &mut base_global, &None)
        .unwrap();
    let r = market
        .place_order(order(taker, 400_000, 400, true, OrderType::PostOnly), &mut base_global, &None)
        .unwrap();
    assert_ne!(r.order_index, NIL);
    assert_eq!(r.base_atoms_traded, 0);
    assert_eq!(market.fixed.base_a_bids_best_index, r.order_index);
    let resting = *market.get_order_by_index(r.order_index);
    assert!(resting.is_bid);
    assert_eq!(resting.collateral_shares, q(421_053));
    assert_eq!(resting.liability_shares, q(400_000));
    assert_eq!(seat_of(&market, taker).base_b_withdrawable_asset_share, q(10_000_000 - 421_053));
    assert_eq!(r.effects.len(), 1);
    match r.effects[0] {
        Effect::BorrowThenDeposit { atoms } => assert_eq!(atoms, 400_000),
        _ => panic!("expected a settlement"),
    }
}

#[test]
fn reverse_self_repost() {
    let (mut market, maker, taker) = funded_market();
    let mut base_global = None;
    market
        .place_order(order(maker, 500_000, 550, false, OrderType::Limit), &mut base_global, &None)
        .unwrap();
    let b_seq_before = market.fixed.base_b_order_sequence_number;
    let before = seat_of(&market, taker);
    let mut reverse = order(taker, 500_000, 600, true, OrderType::Reverse);
    reverse.reverse_spread_bps = 100;
    let r = market.place_order(reverse, &mut base_global, &None).unwrap();
    assert_eq!(r.base_atoms_traded, 500_000);
    assert_eq!(r.matched_loans.len(), 1);
    // The ask on tree pair A is gone; a limit ask rests on tree pair B.
    assert_eq!(market.fixed.base_a_asks_best_index, NIL);
    assert_ne!(r.order_index, NIL);
    assert_eq!(market.fixed.base_b_asks_best_index, r.order_index);
    let reposted = *market.get_order_by_index(r.order_index);
    assert_eq!(reposted.rate_bps, 594);
    assert_eq!(reposted.order_type, OrderType::Limit);
    assert!(!reposted.is_bid);
    assert!(!reposted.is_a_tree);
    assert_eq!(reposted.last_valid_slot, 0);
    assert_eq!(reposted.sequence_number, b_seq_before + 1);
    assert_eq!(market.fixed.base_b_order_sequence_number, b_seq_before + 1);
    assert_eq!(reposted.collateral_shares, q(500_000));
    assert_eq!(reposted.liability_shares, q(0));
    // Nothing was credited to the taker on the receive side.
    let after = seat_of(&market, taker);
    assert_eq!(after.base_a_withdrawable_asset_share, before.base_a_withdrawable_asset_share);
    assert_eq!(after.base_b_withdrawable_asset_share, q(10_000_000 - 526_316));
}

#[test]
fn expired_maker_eviction() {
    let (mut market, maker, taker) = funded_market();
    let mut base_global = None;
    let mut ask = order(maker, 1_000_000, 500, false, OrderType::Limit);
    ask.now_slot = 50;
    ask.last_valid_slot = 99;
    let rested = market.place_order(ask, &mut base_global, &None).unwrap();
    assert_eq!(seat_of(&market, maker).base_a_withdrawable_asset_share, q(9_000_000));
    let free_before = market.fixed.free_list_head_index;
    // One slot after the maker expired a bid arrives.
    let r = market
        .place_order(order(taker, 300_000, 600, true, OrderType::Limit), &mut base_global, &None)
        .unwrap();
    assert_eq!(r.base_atoms_traded, 0);
    assert_eq!(r.matched_loans.len(), 0);
    // The maker got its collateral back, and its slot was freed and used
    // again for the taker's remainder.
    assert_eq!(seat_of(&market, maker).base_a_withdrawable_asset_share, q(10_000_000));
    assert_eq!(market.fixed.base_a_asks_best_index, NIL);
    assert_eq!(r.order_index, rested.order_index);
    assert_eq!(market.fixed.free_list_head_index, free_before);
    assert_eq!(market.fixed.base_a_bids_best_index, r.order_index);
}

#[test]
fn expired_bid_becomes_a_loan() {
    let (mut market, maker, taker) = funded_market();
    let mut base_global = None;
    let mut bid = order(maker, 400_000, 500, true, OrderType::Limit);
    bid.now_slot = 50;
    bid.last_valid_slot = 60;
    market.place_order(bid, &mut base_global, &None).unwrap();
    let r = market
        .place_order(order(taker, 400_000, 100, false, OrderType::ImmediateOrCancel), &mut base_global, &None)
        .unwrap();
    assert_eq!(r.base_atoms_traded, 0);
    assert_eq!(r.order_index, NIL);
    assert_eq!(r.matched_loans.len(), 1);
    let loan = r.matched_loans[0];
    assert_eq!(loan.lender_index, 0);
    assert_eq!(loan.borrower_index, maker);
    assert_eq!(loan.rate_bps, 0);
    assert_eq!(loan.collateral_shares, q(421_053));
    assert_eq!(loan.liability_shares, q(400_000));
    assert_eq!(market.fixed.base_a_bids_best_index, NIL);
}

#[test]
fn cancel_of_resting_bid() {
    let (mut market, _maker, taker) = funded_market();
    let mut ledger = new_ledger();
    let mut base_global = None;
    let r = market
        .place_order(order(taker, 400_000, 400, true, OrderType::Limit), &mut base_global, &None)
        .unwrap();
    let before = seat_of(&market, taker);
    let mut effects = Vec::new();
    market
        .cancel_order(true, taker, r.order_sequence_number, &None, &mut ledger, 1_700_000_001, 101, &mut effects)
        .unwrap();
    assert_eq!(ledger.fixed.num_active_loans, 1);
    let loan = ledger.get_loan(0).unwrap();
    assert_eq!(loan.lender_index, 0);
    assert_eq!(loan.borrower_index, taker);
    assert_eq!(loan.collateral_shares, q(421_053));
    assert_eq!(loan.liability_shares, q(400_000));
    assert_eq!(loan.rate_bps, 0);
    assert_eq!(loan.sequence_number, 0);
    assert_eq!(ledger.fixed.loan_sequence_number, 1);
    // The order's slot is free, the tree is empty, the seat is as it was.
    assert_eq!(market.fixed.free_list_head_index, r.order_index);
    assert_eq!(market.fixed.base_a_bids_root_index, NIL);
    assert_eq!(market.fixed.base_a_bids_best_index, NIL);
    let after = seat_of(&market, taker);
    assert_eq!(after.base_a_withdrawable_asset_share, before.base_a_withdrawable_asset_share);
    assert_eq!(after.base_b_withdrawable_asset_share, before.base_b_withdrawable_asset_share);
    assert!(effects.is_empty());
}

#[test]
fn place_then_cancel_restores_the_seat_of_an_ask() {
    let (mut market, maker, _taker) = funded_market();
    let mut ledger = new_ledger();
    let mut base_global = None;
    let before = seat_of(&market, maker);
    let r = market
        .place_order(order(maker, 123_456, 500, false, OrderType::Limit), &mut base_global, &None)
        .unwrap();
    assert_eq!(seat_of(&market, maker).base_a_withdrawable_asset_share, q(10_000_000 - 123_456));
    let mut effects = Vec::new();
    market
        .cancel_order(true, maker, r.order_sequence_number, &None, &mut ledger, 0, 100, &mut effects)
        .unwrap();
    let after = seat_of(&market, maker);
    assert_eq!(after.base_a_withdrawable_asset_share, before.base_a_withdrawable_asset_share);
    assert_eq!(after.base_b_withdrawable_asset_share, before.base_b_withdrawable_asset_share);
    assert_eq!(ledger.fixed.num_active_loans, 0);
}

#[test]
fn cancel_for_another_trader_fails() {
    let (mut market, maker, taker) = funded_market();
    let mut ledger = new_ledger();
    let mut base_global = None;
    let r = market
        .place_order(order(maker, 1_000, 500, false, OrderType::Limit), &mut base_global, &None)
        .unwrap();
    let mut effects = Vec::new();
    let e = market
        .cancel_order(true, taker, r.order_sequence_number, &None, &mut ledger, 0, 100, &mut effects)
        .unwrap_err();
    assert_eq!(e, EngineError::Nix(NixError::InvalidCancel));
    let e = market.cancel_order(true, maker, 77, &None, &mut ledger, 0, 100, &mut effects).unwrap_err();
    assert_eq!(e, EngineError::Nix(NixError::InvalidCancel));
    assert_eq!(market.fixed.base_a_asks_best_index, r.order_index);
}

fn global_accounts(maker_balance: u64) -> GlobalTradeAccounts {
    let mut global = GlobalValue::new(GlobalFixed {
        discriminant: 0,
        mint: key(1),
        vault: key(50),
        vault_bump: 255,
        num_seats_claimed: 0,
    });
    global.add_trader(&key(20)).unwrap();
    global.deposit_global(&key(20), maker_balance).unwrap();
    GlobalTradeAccounts {
        global,
        gas_payer: key(20),
        gas_receiver: key(21),
        has_system_program: true,
        mint_blocks_transfer: false,
    }
}

#[test]
fn unbacked_global() {
    let (mut market, maker, taker) = funded_market();
    let mut base_global = Some(global_accounts(1_000_000));
    let rested = market
        .place_order(order(maker, 1_000_000, 500, false, OrderType::Global), &mut base_global, &None)
        .unwrap();
    assert_ne!(rested.order_index, NIL);
    assert!(matches!(rested.effects[rested.effects.len() - 1], Effect::GasPrepayment));
    // A global order is not paid for from the seat.
    assert_eq!(seat_of(&market, maker).base_a_withdrawable_asset_share, q(10_000_000));
    // The maker withdraws part of the deposit behind the order's back.
    base_global.as_mut().unwrap().global.reduce(&key(20), 400_000).unwrap();
    let r = market
        .place_order(order(taker, 1_000_000, 600, true, OrderType::ImmediateOrCancel), &mut base_global, &None)
        .unwrap();
    assert_eq!(r.base_atoms_traded, 0);
    assert_eq!(r.matched_loans.len(), 0);
    assert_eq!(market.fixed.base_a_asks_best_index, NIL);
    assert_eq!(r.effects.len(), 2);
    match r.effects[0] {
        Effect::GlobalCleanup(c) => {
            assert_eq!(c.amount_desired, 1_000_000);
            assert_eq!(c.amount_deposited, 600_000);
            assert_eq!(c.maker, key(20));
            assert_eq!(c.cleaner, key(21));
        },
        _ => panic!("expected a cleanup"),
    }
    assert!(matches!(r.effects[1], Effect::GasRefund { base: true }));
    assert_eq!(base_global.unwrap().global.get_balance_atoms(&key(20)), 600_000);
}

#[test]
fn backed_global_is_filled_whole() {
    let (mut market, maker, taker) = funded_market();
    let mut base_global = Some(global_accounts(1_000_000));
    market
        .place_order(order(maker, 1_000_000, 500, false, OrderType::Global), &mut base_global, &None)
        .unwrap();
    let r = market
        .place_order(order(taker, 1_000_000, 600, true, OrderType::ImmediateOrCancel), &mut base_global, &None)
        .unwrap();
    assert_eq!(r.base_atoms_traded, 1_000_000);
    assert_eq!(r.matched_loans.len(), 1);
    assert!(r.matched_loans[0].is_lender_global);
    assert_eq!(base_global.unwrap().global.get_balance_atoms(&key(20)), 0);
    assert!(matches!(r.effects[0], Effect::GlobalTransfer { atoms: 1_000_000, .. }));
    assert!(matches!(r.effects[1], Effect::Fill(_)));
    assert!(matches!(r.effects[2], Effect::GasRefund { base: true }));
}

#[test]
fn global_bid_is_refused() {
    let (mut market, maker, _taker) = funded_market();
    let mut base_global = Some(global_accounts(1_000_000));
    let e = market
        .place_order(order(maker, 1_000, 500, true, OrderType::Global), &mut base_global, &None)
        .unwrap_err();
    assert_eq!(e, EngineError::Nix(NixError::InvalidGlobalBidOrder));
}

#[test]
fn reverse_ask_is_refused() {
    let (mut market, maker, _taker) = funded_market();
    let e = market
        .place_order(order(maker, 1_000, 500, false, OrderType::Reverse), &mut None, &None)
        .unwrap_err();
    assert_eq!(e, EngineError::Nix(NixError::InvalidAskReverseOrder));
}

#[test]
fn expired_order_is_refused() {
    let (mut market, maker, _taker) = funded_market();
    let mut late = order(maker, 1_000, 500, false, OrderType::Limit);
    late.last_valid_slot = 99;
    let e = market.place_order(late, &mut None, &None).unwrap_err();
    assert_eq!(e, EngineError::Nix(NixError::AlreadyExpired));
    late.last_valid_slot = 100;
    let e = market.place_order(late, &mut None, &None).unwrap_err();
    assert_eq!(e, EngineError::Nix(NixError::AlreadyExpired));
    late.last_valid_slot = 101;
    assert!(market.place_order(late, &mut None, &None).is_ok());
}

#[test]
fn order_without_a_seat_is_refused() {
    let (mut market, _maker, _taker) = funded_market();
    let e = market
        .place_order(order(NIL, 1_000, 500, false, OrderType::Limit), &mut None, &None)
        .unwrap_err();
    assert_eq!(e, EngineError::Nix(NixError::AlreadyClaimedSeat));
}

#[test]
fn taker_without_funds_fails() {
    let mut market = new_market(4);
    market.claim_seat(&key(20)).unwrap();
    market.claim_seat(&key(21)).unwrap();
    let maker = market.get_trader_index(&key(20));
    let taker = market.get_trader_index(&key(21));
    market.deposit(maker, q(1_000_000), true).unwrap();
    market.place_order(order(maker, 1_000_000, 500, false, OrderType::Limit), &mut None, &None).unwrap();
    let e = market
        .place_order(order(taker, 1_000_000, 600, true, OrderType::Limit), &mut None, &None)
        .unwrap_err();
    assert_eq!(e, EngineError::InsufficientFunds);
}

#[test]
fn partial_fill_reduces_the_maker() {
    let (mut market, maker, taker) = funded_market();
    let rested = market
        .place_order(order(maker, 1_000_000, 500, false, OrderType::Limit), &mut None, &None)
        .unwrap();
    let r = market
        .place_order(order(taker, 400_000, 600, true, OrderType::Limit), &mut None, &None)
        .unwrap();
    assert_eq!(r.base_atoms_traded, 400_000);
    assert_eq!(r.quote_atoms_traded, 421_053);
    assert_eq!(r.order_index, NIL);
    assert_eq!(r.matched_loans.len(), 0);
    let left = *market.get_order_by_index(rested.order_index);
    assert_eq!(left.collateral_shares, q(600_000));
    assert_eq!(market.fixed.base_a_asks_best_index, rested.order_index);
}

#[test]
fn best_rate_first_and_oldest_first_among_equals() {
    let (mut market, maker, taker) = funded_market();
    let a = market.place_order(order(maker, 100, 500, false, OrderType::Limit), &mut None, &None).unwrap();
    let b = market.place_order(order(maker, 100, 400, false, OrderType::Limit), &mut None, &None).unwrap();
    let c = market.place_order(order(maker, 100, 400, false, OrderType::Limit), &mut None, &None).unwrap();
    // The lowest rate is best for a borrower; of two asks at one rate, the older.
    assert_eq!(market.fixed.base_a_asks_best_index, b.order_index);
    let r = market
        .place_order(order(taker, 250, 600, true, OrderType::ImmediateOrCancel), &mut None, &None)
        .unwrap();
    assert_eq!(r.base_atoms_traded, 250);
    assert_eq!(r.matched_loans.len(), 2);
    assert_eq!(r.matched_loans[0].rate_bps, 400);
    assert_eq!(r.matched_loans[1].rate_bps, 400);
    let fills: Vec<u64> = r
        .effects
        .iter()
        .filter_map(|e| match e {
            Effect::Fill(f) => Some(f.maker_sequence_number),
            _ => None,
        })
        .collect();
    assert_eq!(fills, vec![b.order_sequence_number, c.order_sequence_number, a.order_sequence_number]);
    assert_eq!(market.fixed.base_a_asks_best_index, a.order_index);
    assert_eq!(market.get_order_by_index(a.order_index).collateral_shares, q(50));
}

#[test]
fn rate_limit_stops_the_match() {
    let (mut market, maker, taker) = funded_market();
    market.place_order(order(maker, 100, 700, false, OrderType::Limit), &mut None, &None).unwrap();
    let r = market
        .place_order(order(taker, 100, 600, true, OrderType::Limit), &mut None, &None)
        .unwrap();
    assert_eq!(r.base_atoms_traded, 0);
    assert_ne!(r.order_index, NIL);
    assert_ne!(market.fixed.base_a_asks_best_index, NIL);
    assert_eq!(market.fixed.base_a_bids_best_index, r.order_index);
}

#[test]
fn sequence_numbers_go_up_by_one_per_order() {
    let (mut market, maker, taker) = funded_market();
    for i in 1..=3u64 {
        let r = market
            .place_order(order(maker, 10, 500, false, OrderType::Limit), &mut None, &None)
            .unwrap();
        assert_eq!(r.order_sequence_number, i);
    }
    let r = market
        .place_order(order(taker, 30, 600, true, OrderType::ImmediateOrCancel), &mut None, &None)
        .unwrap();
    assert_eq!(r.order_sequence_number, 4);
    assert_eq!(market.fixed.base_a_order_sequence_number, 4);
    assert_eq!(market.fixed.base_b_order_sequence_number, 0);
}

#[test]
fn seat_is_claimed_once() {
    let mut market = new_market(3);
    assert_eq!(market.get_trader_index(&key(9)), NIL);
    market.claim_seat(&key(9)).unwrap();
    let index = market.get_trader_index(&key(9));
    assert_ne!(index, NIL);
    assert_eq!(*market.get_trader_key_by_index(index), key(9));
    assert_eq!(
        market.claim_seat(&key(9)).unwrap_err(),
        EngineError::Nix(NixError::AlreadyClaimedSeat)
    );
    market.claim_seat(&key(8)).unwrap();
    market.claim_seat(&key(7)).unwrap();
    assert_eq!(
        market.claim_seat(&key(6)).unwrap_err(),
        EngineError::Nix(NixError::InvalidFreeList)
    );
    assert_ne!(market.get_trader_index(&key(8)), market.get_trader_index(&key(7)));
    assert_eq!(market.get_trader_index(&key(6)), NIL);
}

#[test]
fn pool_grows_slot_by_slot() {
    let mut market = new_market(0);
    assert!(!market.has_free_block());
    assert!(!market.has_two_free_blocks());
    market.market_expand().unwrap();
    assert!(market.has_free_block());
    assert!(!market.has_two_free_blocks());
    assert_eq!(market.fixed.num_bytes_allocated, 112);
    assert_eq!(market.fixed.free_list_head_index, 0);
    market.market_expand().unwrap();
    assert!(market.has_two_free_blocks());
    assert_eq!(market.fixed.num_bytes_allocated, 224);
    assert_eq!(market.fixed.free_list_head_index, 112);
    market.claim_seat(&key(1)).unwrap();
    assert_eq!(market.get_trader_index(&key(1)), 112);
    assert_eq!(market.fixed.free_list_head_index, 0);
    assert!(!market.has_two_free_blocks());
}

#[test]
fn deposit_needs_a_seat() {
    let mut market = new_market(2);
    assert_eq!(
        market.deposit(NIL, q(1), true).unwrap_err(),
        EngineError::Nix(NixError::InvalidDepositAccounts)
    );
    market.claim_seat(&key(1)).unwrap();
    let t = market.get_trader_index(&key(1));
    market.deposit(t, q(5), false).unwrap();
    assert_eq!(seat_of(&market, t).base_b_withdrawable_asset_share.value, 5 * ONE);
    assert_eq!(seat_of(&market, t).base_a_withdrawable_asset_share.value, 0);
}

#[test]
fn ledger_numbers_and_removes_loans() {
    let mut ledger = new_ledger();
    ledger.expand_loan_account(3).unwrap();
    assert_eq!(ledger.fixed.num_bytes_allocated, 288);
    let loan = nix_engine::market_loan::ActiveLoan::new_empty(true, 1, 2, false, q(3), q(4), 5, 6, 7);
    ledger.add_loans(&vec![loan, loan]).unwrap();
    ledger.add_loan(loan).unwrap();
    assert_eq!(ledger.fixed.num_active_loans, 3);
    assert_eq!(ledger.fixed.loan_sequence_number, 3);
    assert_eq!(
        ledger.add_loan(loan).unwrap_err(),
        EngineError::Nix(NixError::InvalidFreeList)
    );
    ledger.remove_loan(1).unwrap();
    assert_eq!(ledger.fixed.num_active_loans, 2);
    assert_eq!(
        ledger.remove_loan(1).unwrap_err(),
        EngineError::Nix(NixError::InvalidFreeList)
    );
    ledger.add_loan(loan).unwrap();
    assert_eq!(ledger.fixed.loan_sequence_number, 4);
    let numbers: Vec<u64> = [0u32, 96, 192]
        .iter()
        .map(|i| ledger.get_loan(*i).unwrap().sequence_number)
        .collect();
    assert_eq!(numbers.iter().filter(|n| **n == 3).count(), 1);
    assert!(numbers.contains(&0) && numbers.contains(&2));
}

#[test]
fn ledger_is_bounded() {
    let mut ledger = new_ledger();
    let loan = nix_engine::market_loan::ActiveLoan::new_empty(true, 1, 2, false, q(3), q(4), 5, 6, 7);
    let too_many = vec![loan; MAX_ACTIVE_LOANS as usize + 1];
    assert_eq!(
        ledger.add_loans(&too_many).unwrap_err(),
        EngineError::Nix(NixError::MaxActiveLoansExceeded)
    );
    assert_eq!(ledger.fixed.num_active_loans, 0);
}

#[test]
fn a_failed_order_commits_nothing() {
    let mut market = new_market(6);
    market.claim_seat(&key(20)).unwrap();
    market.claim_seat(&key(21)).unwrap();
    let maker = market.get_trader_index(&key(20));
    let taker = market.get_trader_index(&key(21));
    market.deposit(maker, q(10_000_000), true).unwrap();
    // The taker can pay for the first fill, but not for the second.
    market.deposit(taker, q(150), false).unwrap();
    let first = market
        .place_order(order(maker, 100, 400, false, OrderType::Limit), &mut None, &None)
        .unwrap();
    let second = market
        .place_order(order(maker, 100, 500, false, OrderType::Limit), &mut None, &None)
        .unwrap();
    let before = (market.fixed, seat_of(&market, taker), seat_of(&market, maker));
    let e = market
        .place_order(order(taker, 200, 600, true, OrderType::Limit), &mut None, &None)
        .unwrap_err();
    assert_eq!(e, EngineError::InsufficientFunds);
    assert_eq!(market.fixed.base_a_asks_best_index, first.order_index);
    assert_eq!(market.fixed.base_a_asks_root_index, before.0.base_a_asks_root_index);
    assert_eq!(market.fixed.free_list_head_index, before.0.free_list_head_index);
    assert_eq!(market.fixed.base_a_order_sequence_number, 2);
    assert_eq!(market.fixed.base_a_match_volume, q(0));
    assert_eq!(market.get_order_by_index(first.order_index).collateral_shares, q(100));
    assert_eq!(market.get_order_by_index(second.order_index).collateral_shares, q(100));
    let after = seat_of(&market, taker);
    assert_eq!(after.base_b_withdrawable_asset_share, before.1.base_b_withdrawable_asset_share);
    assert_eq!(after.base_a_withdrawable_asset_share, before.1.base_a_withdrawable_asset_share);
    assert_eq!(after.base_a_volume, before.1.base_a_volume);
    assert_eq!(seat_of(&market, maker).base_a_volume, before.2.base_a_volume);
    // Carried out in place, the same order leaves its first fill behind.
    let e = market
        .place_order_in_place(order(taker, 200, 600, true, OrderType::Limit), &mut None, &None)
        .unwrap_err();
    assert_eq!(e, EngineError::InsufficientFunds);
    assert_eq!(market.fixed.base_a_asks_best_index, second.order_index);
}
