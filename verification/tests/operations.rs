use nix_engine::addresses::{
    get_global_address, get_global_vault_address, get_market_fee_receiver_address,
    get_market_signer_address, get_nix_marginfi_account_address, get_vault_address,
    validate_marginfi_account_pda, validate_market_signer,
};
use nix_engine::constants::{MAX_ACTIVE_LOANS, NIL};
use nix_engine::error::{EngineError, NixError};
use nix_engine::global::{GlobalFixed, GlobalValue};
use nix_engine::instruction::{CancelOrderParams, CreateMarketParams, PlaceOrderParams};
use nix_engine::logs::Effect;
use nix_engine::marginfi_utils::{
    convert_asset_shares_to_tokens, get_required_quote_collateral_to_back_loan,
    get_token_amount_to_repay_liability_shares, Bank, BankConfig, MARGINFI_BANK_DISCRIMINATOR,
};
use nix_engine::market::{MarketSlot, MarketValue};
use nix_engine::market_loan::{ActiveLoan, MarketLoansValue};
use nix_engine::processor::{
    derive_create_market_args, global_deposit_log, process_cancel_order_core,
    process_create_market_core, process_create_market_loan_account_core, process_deposit_core,
    process_global_add_trader, process_global_deposit, process_place_order_core,
    CreateMarketKeys, PlaceOrderInputs,
};
use nix_engine::quantities::WrappedI80F48;
use nix_engine::resting_order::OrderType;
use nix_engine::utils::{ID, MARKET_FIXED_TYPE_NAME};
use nix_engine::validation::{
    check_marginfi_keys, deposit_side, global_side, marginfi_side, order_mints, side_keys,
    validate_marginfi_discriminator, verify_discriminant,
};
use solana_program::pubkey::Pubkey;

fn key(b: u8) -> [u8; 32] {
    [b; 32]
}

fn q(whole: u64) -> WrappedI80F48 {
    WrappedI80F48::from_u64(whole)
}

fn bank() -> Bank {
    Bank {
        mint_decimals: 6,
        asset_share_value: q(1),
        liability_share_value: q(1),
        config: BankConfig { asset_weight_init: q(1), liability_weight_init: q(1) },
    }
}

fn keys() -> CreateMarketKeys {
    CreateMarketKeys {
        market: key(42),
        admin: key(13),
        base_a_mint: key(1),
        base_b_mint: key(2),
        base_a_mint_decimals: 6,
        base_b_mint_decimals: 9,
        base_a_marginfi_group: key(7),
        base_a_marginfi_bank: key(8),
        base_b_marginfi_group: key(10),
        base_b_marginfi_bank: key(11),
    }
}

fn market_and_ledger() -> (MarketValue, MarketLoansValue) {
    let params = CreateMarketParams { protocol_fee_rate_bps: 3, marginfi_market_buffer_bps: 500 };
    let args = derive_create_market_args(&keys(), &params).unwrap();
    let (market, _) = process_create_market_core(&key(42), &args);
    let (ledger, _) = process_create_market_loan_account_core(&key(42), &key(43), &key(13));
    (market, ledger)
}

fn inputs() -> PlaceOrderInputs {
    PlaceOrderInputs {
        market: key(42),
        base_mint: key(1),
        quote_mint: key(2),
        base_oracle_price_usd: q(1),
        quote_oracle_price_usd: q(1),
        base_bank: bank(),
        quote_bank: bank(),
        now_slot: 100,
        now_unix_timestamp: 1_700_000_000,
    }
}

fn place(atoms: u64, rate_bps: u16, is_bid: bool, order_type: OrderType) -> PlaceOrderParams {
    PlaceOrderParams {
        trader_index_hint: None,
        num_base_atoms: atoms,
        rate_bps,
        reverse_spread_bps: 0,
        is_bid,
        use_a_tree: true,
        last_valid_slot: 0,
        order_type,
    }
}

fn seat_of(market: &MarketValue, index: u32) -> nix_engine::claimed_seat::ClaimedSeat {
    match market.get_slot(index) {
        Some(MarketSlot::Seat(s)) => s,
        _ => panic!("no seat at {}", index),
    }
}

fn derived(seeds: &[&[u8]]) -> ([u8; 32], u8) {
    let (address, bump) = Pubkey::find_program_address(seeds, &Pubkey::new_from_array(ID));
    (address.to_bytes(), bump)
}

#[test]
fn program_address() {
    assert_eq!(
        Pubkey::new_from_array(ID).to_string(),
        "Nixjf1STQfCHXdpapnADG41pirqoy4QaUdQoUu8cL5i"
    );
}

#[test]
fn derived_addresses() {
    let (market, mint) = (key(42), key(1));
    assert_eq!(get_vault_address(&market, &mint), Some(derived(&[b"vault", &market, &mint])));
    assert_eq!(
        get_market_fee_receiver_address(&market, &mint),
        Some(derived(&[b"fee-receiver", &market, &mint]))
    );
    assert_eq!(get_market_signer_address(&market), Some(derived(&[b"market-signer", &market])));
    assert_eq!(
        get_nix_marginfi_account_address(&market, &mint),
        Some(derived(&[b"nix_marginfi_account", &market, &mint]))
    );
    assert_eq!(get_global_address(&mint), Some(derived(&[b"global", &mint])));
    assert_eq!(get_global_vault_address(&mint), Some(derived(&[b"global-vault", &mint])));
    assert_ne!(get_vault_address(&market, &mint).unwrap().0, mint);
    assert_ne!(get_vault_address(&market, &mint), get_vault_address(&mint, &market));
    let (signer, bump) = get_market_signer_address(&market).unwrap();
    assert_eq!(validate_market_signer(&signer, &market), Ok(bump));
    assert_eq!(
        validate_market_signer(&key(5), &market),
        Err(EngineError::Nix(NixError::IncorrectAccount))
    );
    let (account, _) = get_nix_marginfi_account_address(&market, &mint).unwrap();
    assert_eq!(validate_marginfi_account_pda(&account, &market, &mint), Ok(()));
    assert_eq!(
        validate_marginfi_account_pda(&account, &market, &key(2)),
        Err(EngineError::Nix(NixError::InvalidMarginfiAccount))
    );
}

#[test]
fn new_market_and_ledger() {
    let (market, ledger) = market_and_ledger();
    assert_eq!(market.fixed.version, 1);
    assert_eq!(market.fixed.base_a_mint_decimals, 6);
    assert_eq!(market.fixed.base_b_mint_decimals, 9);
    assert_eq!(*market.get_base_a_mint(), key(1));
    assert_eq!(*market.get_base_b_mint(), key(2));
    assert_eq!(*market.fixed.get_admin(), key(13));
    assert_eq!(market.fixed.fee_state.protocol_fee_rate_bps, 3);
    assert_eq!(market.fixed.fee_state.ltv_buffer_bps, 500);
    assert_eq!(*market.fixed.get_base_a_vault(), derived(&[b"vault", &key(42), &key(1)]).0);
    assert_eq!(*market.fixed.get_base_b_vault(), derived(&[b"vault", &key(42), &key(2)]).0);
    assert_eq!(
        *market.fixed.get_base_b_fee_receiver(),
        derived(&[b"fee-receiver", &key(42), &key(2)]).0
    );
    assert_eq!(
        *market.fixed.get_base_a_marginfi_account(),
        derived(&[b"nix_marginfi_account", &key(42), &key(1)]).0
    );
    assert_eq!(verify_discriminant(market.fixed.discriminant, MARKET_FIXED_TYPE_NAME), Ok(()));
    assert_eq!(
        verify_discriminant(ledger.fixed.discriminant, MARKET_FIXED_TYPE_NAME),
        Err(EngineError::InvalidAccountData)
    );
    assert_eq!(market.fixed.get_base_a_order_sequence_number(), 0);
    assert_eq!(market.fixed.num_bytes_allocated, 112);
    assert!(market.fixed.has_free_block());
    assert!(market.has_free_block() && !market.has_two_free_blocks());
    assert_eq!(market.fixed.claimed_seats_root_index, NIL);
    assert_eq!(ledger.fixed.market, key(42));
    assert_eq!(ledger.fixed.num_bytes_allocated, 96);
    assert!(ledger.fixed.has_free_block());
    assert_eq!(ledger.fixed.num_active_loans, 0);
}

#[test]
fn place_and_cancel_through_the_operations() {
    let (mut market, mut ledger) = market_and_ledger();
    let (maker, taker) = (key(20), key(21));
    for t in [&maker, &taker] {
        let log = market.process_claim_seat(&key(42), t).unwrap();
        assert!(matches!(log, Effect::ClaimSeat(l) if l.trader == *t && l.market == key(42)));
        // The pool grew, so that a slot is free again.
        assert!(market.has_free_block());
        process_deposit_core(&mut market, t, None, q(5), q(10_000_005), true).unwrap();
        process_deposit_core(&mut market, t, None, q(0), q(10_000_000), false).unwrap();
    }
    assert_eq!(
        market.process_claim_seat(&key(42), &maker).unwrap_err(),
        EngineError::Nix(NixError::AlreadyClaimedSeat)
    );
    let maker_index = market.get_trader_index(&maker);
    let taker_index = market.get_trader_index(&taker);
    assert_eq!(seat_of(&market, maker_index).base_a_withdrawable_asset_share, q(10_000_000));

    let mut none = None;
    let effects = process_place_order_core(
        &mut market,
        &mut ledger,
        &maker,
        place(1_000_000, 500, false, OrderType::Limit),
        &inputs(),
        &mut none,
        &None,
    )
    .unwrap();
    let ask_index = match effects.last().unwrap() {
        Effect::PlaceOrder(log) => {
            assert_eq!(log.trader, maker);
            assert_eq!(log.order_sequence_number, 1);
            assert_eq!(log.base_atoms, 0);
            assert!(!log.is_bid);
            log.order_index
        },
        _ => panic!("expected the log of the order"),
    };
    assert_eq!(market.fixed.base_a_asks_best_index, ask_index);
    assert!(market.has_free_block());

    // With a hint of the taker's seat, a bid takes part of the ask.
    let mut bid = place(250_000, 600, true, OrderType::ImmediateOrCancel);
    bid.trader_index_hint = Some(taker_index);
    let effects =
        process_place_order_core(&mut market, &mut ledger, &taker, bid, &inputs(), &mut none, &None)
            .unwrap();
    assert!(matches!(effects[0], Effect::Fill(f) if f.base_atoms == 250_000));
    assert_eq!(ledger.fixed.num_active_loans, 0);
    // A wrong hint is refused.
    bid.trader_index_hint = Some(maker_index);
    assert_eq!(
        process_place_order_core(&mut market, &mut ledger, &taker, bid, &inputs(), &mut none, &None)
            .unwrap_err(),
        EngineError::Nix(NixError::WrongIndexHintParams)
    );
    bid.trader_index_hint = Some(ask_index);
    assert_eq!(
        process_place_order_core(&mut market, &mut ledger, &taker, bid, &inputs(), &mut none, &None)
            .unwrap_err(),
        EngineError::Nix(NixError::WrongIndexHintParams)
    );
    bid.trader_index_hint = Some(7);
    assert_eq!(
        process_place_order_core(&mut market, &mut ledger, &taker, bid, &inputs(), &mut none, &None)
            .unwrap_err(),
        EngineError::Nix(NixError::WrongIndexHintParams)
    );
    // The rest of the ask is taken whole: a loan is made and goes to the ledger.
    bid.trader_index_hint = None;
    bid.num_base_atoms = 750_000;
    process_place_order_core(&mut market, &mut ledger, &taker, bid, &inputs(), &mut none, &None)
        .unwrap();
    assert_eq!(ledger.fixed.num_active_loans, 1);
    let loan = ledger.get_loan(96).or(ledger.get_loan(0)).unwrap();
    assert_eq!(loan.lender_index, maker_index);
    assert_eq!(loan.borrower_index, taker_index);
    assert_eq!(loan.liability_shares, q(750_000));

    // A reverse order with an expiry is refused.
    let mut reverse = place(10, 600, true, OrderType::Reverse);
    reverse.last_valid_slot = 1_000;
    assert_eq!(
        process_place_order_core(&mut market, &mut ledger, &taker, reverse, &inputs(), &mut none, &None)
            .unwrap_err(),
        EngineError::Nix(NixError::InvalidAskReverseOrder)
    );

    // An ask rests and is cancelled by the hint of its slot.
    let effects = process_place_order_core(
        &mut market,
        &mut ledger,
        &maker,
        place(1_000, 500, false, OrderType::Limit),
        &inputs(),
        &mut none,
        &None,
    )
    .unwrap();
    let (index, number) = match effects.last().unwrap() {
        Effect::PlaceOrder(log) => (log.order_index, log.order_sequence_number),
        _ => panic!("expected the log of the order"),
    };
    let before = seat_of(&market, maker_index).base_a_withdrawable_asset_share;
    let mut cancel = CancelOrderParams {
        trader_index_hint: None,
        order_sequence_number: number + 1,
        order_index_hint: Some(index),
        use_a_tree: true,
    };
    let wrong = Err(EngineError::Nix(NixError::WrongIndexHintParams));
    let run = |market: &mut MarketValue, ledger: &mut MarketLoansValue, who: &[u8; 32], c| {
        process_cancel_order_core(market, ledger, &key(42), who, c, &None, 0, 100)
    };
    assert_eq!(run(&mut market, &mut ledger, &maker, cancel).map(|_| ()), wrong);
    cancel.order_sequence_number = number;
    assert_eq!(run(&mut market, &mut ledger, &taker, cancel).map(|_| ()), wrong);
    cancel.order_index_hint = Some(index + 1);
    assert_eq!(run(&mut market, &mut ledger, &maker, cancel).map(|_| ()), wrong);
    cancel.order_index_hint = Some(maker_index);
    assert_eq!(run(&mut market, &mut ledger, &maker, cancel).map(|_| ()), wrong);
    cancel.order_index_hint = Some(index);
    let effects = run(&mut market, &mut ledger, &maker, cancel).unwrap();
    assert_eq!(effects.len(), 1);
    assert!(matches!(effects[0], Effect::CancelOrder(l) if l.order_sequence_number == number));
    assert_eq!(
        seat_of(&market, maker_index).base_a_withdrawable_asset_share,
        WrappedI80F48::from_bits(before.value + q(1_000).value)
    );
    assert_eq!(market.fixed.base_a_asks_best_index, NIL);
    cancel.order_index_hint = None;
    assert_eq!(
        run(&mut market, &mut ledger, &maker, cancel).map(|_| ()),
        Err(EngineError::Nix(NixError::InvalidCancel))
    );
}

#[test]
fn deposit_of_shares_gained() {
    let (mut market, _) = market_and_ledger();
    market.process_claim_seat(&key(42), &key(20)).unwrap();
    let index = market.get_trader_index(&key(20));
    assert_eq!(
        process_deposit_core(&mut market, &key(20), None, q(5), q(4), true),
        Err(EngineError::Nix(NixError::InvalidMarginfiState))
    );
    assert_eq!(
        process_deposit_core(
            &mut market,
            &key(20),
            None,
            WrappedI80F48::from_bits(i128::MIN),
            q(1),
            true
        ),
        Err(EngineError::Nix(NixError::NumericalOverflow))
    );
    assert_eq!(
        process_deposit_core(&mut market, &key(21), None, q(0), q(1), true),
        Err(EngineError::Nix(NixError::InvalidDepositAccounts))
    );
    assert_eq!(
        process_deposit_core(&mut market, &key(21), Some(index), q(0), q(1), true),
        Err(EngineError::Nix(NixError::WrongIndexHintParams))
    );
    process_deposit_core(&mut market, &key(20), Some(index), q(2), q(9), false).unwrap();
    assert_eq!(seat_of(&market, index).base_b_withdrawable_asset_share, q(7));
    assert_eq!(seat_of(&market, index).base_a_withdrawable_asset_share, q(0));
}

#[test]
fn global_operations() {
    let mut global = GlobalValue::new(GlobalFixed {
        discriminant: 0,
        mint: key(1),
        vault: key(2),
        vault_bump: 254,
        num_seats_claimed: 0,
    });
    let log = process_global_add_trader(&mut global, &key(60), &key(20)).unwrap();
    assert!(matches!(log, Effect::GlobalAddTrader(l) if l.global == key(60) && l.trader == key(20)));
    assert_eq!(
        process_global_add_trader(&mut global, &key(60), &key(20)).unwrap_err(),
        EngineError::Nix(NixError::AlreadyClaimedSeat)
    );
    process_global_deposit(&mut global, &key(20), 77).unwrap();
    assert_eq!(global.get_balance_atoms(&key(20)), 77);
    assert_eq!(
        process_global_deposit(&mut global, &key(21), 77),
        Err(EngineError::Nix(NixError::MissingGlobal))
    );
    let log = global_deposit_log(&key(60), &key(20), 100, 175).unwrap();
    assert!(matches!(log, Effect::GlobalDeposit(l) if l.deposited_amount == 75));
    assert!(global_deposit_log(&key(60), &key(20), 100, 99).is_none());
}

#[test]
fn expected_accounts() {
    let (market, _) = market_and_ledger();
    let (base, quote) = side_keys(&market.fixed, true);
    assert_eq!(base.mint, key(1));
    assert_eq!(quote.mint, key(2));
    assert_eq!(base.marginfi_bank, key(8));
    assert_eq!(quote.marginfi_group, key(10));
    let (base_b, quote_b) = side_keys(&market.fixed, false);
    assert_eq!(base_b.mint, key(2));
    assert_eq!(quote_b.vault, base.vault);
    assert_eq!(order_mints(&key(1), &key(2), &key(1), &key(2)), Ok(false));
    assert_eq!(order_mints(&key(1), &key(2), &key(2), &key(1)), Ok(true));
    assert_eq!(
        order_mints(&key(1), &key(2), &key(1), &key(3)),
        Err(EngineError::Nix(NixError::InvalidMint))
    );
    assert_eq!(global_side(&key(1), &key(1), &key(2)), Ok(0));
    assert_eq!(global_side(&key(2), &key(1), &key(2)), Ok(1));
    assert_eq!(global_side(&key(3), &key(1), &key(2)), Err(EngineError::Nix(NixError::MissingGlobal)));
    assert_eq!(marginfi_side(&key(7), &base, &quote), Ok(0));
    assert_eq!(marginfi_side(&key(10), &base, &quote), Ok(1));
    assert_eq!(
        marginfi_side(&key(9), &base, &quote),
        Err(EngineError::Nix(NixError::InvalidDepositAccounts))
    );
    let account = base.marginfi_account;
    assert_eq!(check_marginfi_keys(&base, &key(7), &key(8), &account), Ok(()));
    assert_eq!(
        check_marginfi_keys(&base, &key(8), &key(8), &account),
        Err(EngineError::Nix(NixError::InvalidMarginfiGroup))
    );
    assert_eq!(
        check_marginfi_keys(&base, &key(7), &key(7), &account),
        Err(EngineError::Nix(NixError::InvalidMarginfiBank))
    );
    assert_eq!(
        check_marginfi_keys(&base, &key(7), &key(8), &key(9)),
        Err(EngineError::Nix(NixError::InvalidMarginfiAccount))
    );
    assert_eq!(deposit_side(&market.fixed, &key(1)), Ok(true));
    assert_eq!(deposit_side(&market.fixed, &key(2)), Ok(false));
    assert_eq!(
        deposit_side(&market.fixed, &key(3)),
        Err(EngineError::Nix(NixError::InvalidDepositAccounts))
    );
    let mut data = MARGINFI_BANK_DISCRIMINATOR.to_vec();
    data.push(9);
    let bad = Err(EngineError::Nix(NixError::InvalidMarginfiAccount));
    assert_eq!(
        validate_marginfi_discriminator(&key(5), &key(5), &data, &MARGINFI_BANK_DISCRIMINATOR),
        Ok(())
    );
    assert_eq!(
        validate_marginfi_discriminator(&key(4), &key(5), &data, &MARGINFI_BANK_DISCRIMINATOR),
        bad
    );
    assert_eq!(
        validate_marginfi_discriminator(&key(5), &key(5), &data[..7], &MARGINFI_BANK_DISCRIMINATOR),
        bad
    );
    data[7] = 0;
    assert_eq!(
        validate_marginfi_discriminator(&key(5), &key(5), &data, &MARGINFI_BANK_DISCRIMINATOR),
        bad
    );
}

#[test]
fn a_full_ledger_takes_no_loan() {
    let (_, mut ledger) = market_and_ledger();
    ledger.expand_loan_account(MAX_ACTIVE_LOANS as u32).unwrap();
    let loan = ActiveLoan::new_empty(true, 1, 2, false, q(3), q(4), 5, 6, 7);
    ledger.add_loans(&vec![loan; MAX_ACTIVE_LOANS as usize]).unwrap();
    assert_eq!(ledger.fixed.num_active_loans, MAX_ACTIVE_LOANS);
    assert!(ledger.fixed.has_free_block());
    assert_eq!(
        ledger.add_loan(loan).unwrap_err(),
        EngineError::Nix(NixError::MaxActiveLoansExceeded)
    );
    assert_eq!(
        ledger.add_loans(&vec![loan]).unwrap_err(),
        EngineError::Nix(NixError::MaxActiveLoansExceeded)
    );
    ledger.remove_loan(17).unwrap();
    ledger.add_loan(loan).unwrap();
    assert_eq!(ledger.fixed.num_active_loans, MAX_ACTIVE_LOANS);
    assert_eq!(ledger.fixed.loan_sequence_number, MAX_ACTIVE_LOANS + 1);
    ledger.expand_market_loans_if_needed(1).unwrap();
    assert_eq!(ledger.fixed.num_bytes_allocated, 96 * (MAX_ACTIVE_LOANS as u32 + 1));
}

#[test]
fn a_resting_bid_is_backed() {
    // Share values, weights and prices that make every step round.
    let w = |v: i128| WrappedI80F48::from_bits(v);
    let one: i128 = 1 << 48;
    let base = Bank {
        mint_decimals: 9,
        asset_share_value: w(one + one / 7),
        liability_share_value: w(one + one / 3),
        config: BankConfig { asset_weight_init: w(one * 8 / 10), liability_weight_init: w(one * 13 / 10) },
    };
    let quote = Bank {
        mint_decimals: 6,
        asset_share_value: w(one + one / 11),
        liability_share_value: w(one + one / 13),
        config: BankConfig { asset_weight_init: w(one * 9 / 10), liability_weight_init: w(one * 12 / 10) },
    };
    let (mut market, mut ledger) = market_and_ledger();
    market.process_claim_seat(&key(42), &key(20)).unwrap();
    process_deposit_core(&mut market, &key(20), None, q(0), q(u64::MAX / 2), false).unwrap();
    let mut i = inputs();
    i.base_bank = base;
    i.quote_bank = quote;
    i.base_oracle_price_usd = w(one * 137 + 12345);
    i.quote_oracle_price_usd = w(one - 54321);
    let buffer = nix_engine::marginfi_utils::buffer_factor(500).unwrap();
    for atoms in [1u64, 2, 999, 1_000_003, 123_456_789_123] {
        let effects = process_place_order_core(
            &mut market,
            &mut ledger,
            &key(20),
            place(atoms, 400, true, OrderType::Limit),
            &i,
            &mut None,
            &None,
        )
        .unwrap();
        let index = match effects.last().unwrap() {
            Effect::PlaceOrder(log) => log.order_index,
            _ => panic!("expected the log of the order"),
        };
        let order = *market.get_order_by_index(index);
        let owed = get_token_amount_to_repay_liability_shares(order.liability_shares, &base).unwrap();
        let held = convert_asset_shares_to_tokens(order.collateral_shares, &quote).unwrap();
        let required = get_required_quote_collateral_to_back_loan(
            &base,
            &quote,
            i.base_oracle_price_usd,
            i.quote_oracle_price_usd,
            buffer,
            owed,
        )
        .unwrap();
        assert!(owed <= atoms);
        assert!(required <= held + 1, "{} {} {}", atoms, required, held);
    }
}
