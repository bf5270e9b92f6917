use nix_engine::error::EngineError;
use nix_engine::global::{GlobalFixed, GlobalValue};
use nix_engine::market::{CreateMarketArgs, MarketFixed, MarketSlot, MarketValue};
use nix_engine::market_loan::{ActiveLoan, LoanSlot, MarketLoansFixed, MarketLoansValue};
use nix_engine::matching::AddOrderToMarketArgs;
use nix_engine::marginfi_utils::{Bank, BankConfig};
use nix_engine::quantities::WrappedI80F48;
use nix_engine::resting_order::OrderType;
use nix_engine::storage::{get_key, get_quantity, get_signed, put_key, put_number, put_quantity, put_signed, put_zeros};
use nix_engine::stored_accounts::{
    decode_global, decode_market, decode_market_loans, encode_global, encode_market,
    encode_market_loans, get_market_slot, put_market_slot, GLOBAL_HEADER_SIZE,
    GLOBAL_SEAT_SIZE, LEDGER_HEADER_SIZE, MARKET_HEADER_SIZE,
};
use nix_engine::utils::{get_discriminant, GLOBAL_FIXED_TYPE_NAME};

fn key(b: u8) -> [u8; 32] {
    [b; 32]
}

fn q(whole: u64) -> WrappedI80F48 {
    WrappedI80F48::from_u64(whole)
}

fn bank() -> Bank {
    Bank {
        mint_decimals: 6,
        asset_share_value: q(1),
        liability_share_value: q(1),
        config: BankConfig { asset_weight_init: q(1), liability_weight_init: q(1) },
    }
}

fn market() -> MarketValue {
    let args = CreateMarketArgs {
        base_a_mint: key(1),
        base_b_mint: key(2),
        base_a_mint_decimals: 6,
        base_b_mint_decimals: 9,
        base_a_vault: key(3),
        base_b_vault: key(4),
        base_a_fee_receiver: key(5),
        base_b_fee_receiver: key(6),
        base_a_marginfi_group: key(7),
        base_a_marginfi_bank: key(8),
        base_a_marginfi_account: key(9),
        base_b_marginfi_group: key(10),
        base_b_marginfi_bank: key(11),
        base_b_marginfi_account: key(12),
        admin: key(13),
        protocol_fee_rate_bps: 25,
        ltv_buffer_bps: 500,
    };
    let mut market = MarketValue::new(MarketFixed::new_empty(&args));
    for _ in 0..6 {
        market.market_expand().unwrap();
    }
    market.claim_seat(&key(20)).unwrap();
    market.claim_seat(&key(21)).unwrap();
    let maker = market.get_trader_index(&key(20));
    let taker = market.get_trader_index(&key(21));
    for t in [maker, taker] {
        market.deposit(t, q(1_000_000), true).unwrap();
        market.deposit(t, WrappedI80F48::from_bits(123_456_789_012_345_678_901_234_567), false).unwrap();
    }
    for (rate, is_bid, order_type) in
        [(30u16, true, OrderType::Limit), (500, false, OrderType::PostOnly), (400, false, OrderType::Limit)]
    {
        let order = AddOrderToMarketArgs {
            market: key(42),
            trader_index: maker,
            num_base_atoms: 1_000,
            rate_bps: rate,
            reverse_spread_bps: 0,
            is_bid,
            use_a_tree: true,
            last_valid_slot: 777,
            order_type,
            base_mint: key(1),
            quote_mint: key(2),
            base_oracle_price_usd: q(1),
            quote_oracle_price_usd: q(1),
            base_bank: bank(),
            quote_bank: bank(),
            now_slot: 100,
            now_unix_timestamp: 0,
        };
        market.place_order(order, &mut None, &None).unwrap();
    }
    market
}

fn same_slot(a: &MarketSlot, b: &MarketSlot) -> bool {
    format!("{:?}", a) == format!("{:?}", b)
}

#[test]
fn numbers_keys_and_quantities() {
    let mut out = vec![9u8];
    put_number(&mut out, 0x0102_0304_0506_0708, 8);
    put_number(&mut out, 0xABCD, 2);
    put_number(&mut out, 7, 1);
    put_signed(&mut out, -2);
    put_signed(&mut out, i64::MIN);
    put_quantity(&mut out, &WrappedI80F48::from_bits(-1));
    put_quantity(&mut out, &WrappedI80F48::from_bits(i128::MAX));
    put_quantity(&mut out, &WrappedI80F48::from_bits(i128::MIN));
    put_key(&mut out, &key(0x5A));
    put_zeros(&mut out, 3);
    assert_eq!(&out[..12], &[9, 8, 7, 6, 5, 4, 3, 2, 1, 0xCD, 0xAB, 7]);
    assert_eq!(&out[12..20], &(-2i64).to_le_bytes());
    assert_eq!(&out[20..28], &i64::MIN.to_le_bytes());
    assert_eq!(&out[28..44], &(-1i128).to_le_bytes());
    assert_eq!(&out[44..60], &i128::MAX.to_le_bytes());
    assert_eq!(&out[60..76], &i128::MIN.to_le_bytes());
    assert_eq!(&out[76..108], &[0x5A; 32]);
    assert_eq!(&out[108..], &[0, 0, 0]);
    assert_eq!(get_signed(&out, 12), -2);
    assert_eq!(get_signed(&out, 20), i64::MIN);
    assert_eq!(get_quantity(&out, 28).value, -1);
    assert_eq!(get_quantity(&out, 44).value, i128::MAX);
    assert_eq!(get_quantity(&out, 60).value, i128::MIN);
    assert_eq!(get_key(&out, 76), key(0x5A));
}

#[test]
fn a_market_is_read_back() {
    let market = market();
    let bytes = encode_market(&market);
    assert_eq!(bytes.len(), MARKET_HEADER_SIZE + 2 * 6 * 112);
    let read = decode_market(&bytes).unwrap();
    assert_eq!(format!("{:?}", read.fixed), format!("{:?}", market.fixed));
    assert_eq!(read.dynamic.links, market.dynamic.links);
    assert_eq!(read.dynamic.slots.len(), market.dynamic.slots.len());
    for (a, b) in read.dynamic.slots.iter().zip(market.dynamic.slots.iter()) {
        assert!(same_slot(a, b));
    }
    assert_eq!(read.check_shape(), Ok(()));
    assert_eq!(encode_market(&read), bytes);
    // What was read goes on as the market would.
    let mut read = read;
    assert_eq!(read.get_trader_index(&key(21)), market.get_trader_index(&key(21)));
    read.claim_seat(&key(22)).unwrap();
}

#[test]
fn bytes_that_are_no_market() {
    let bad = |r: Result<MarketValue, EngineError>| matches!(r, Err(EngineError::InvalidAccountData));
    let bytes = encode_market(&market());
    assert!(bad(decode_market(&[])));
    assert!(bad(decode_market(&bytes[..MARKET_HEADER_SIZE - 1])));
    assert!(bad(decode_market(&bytes[..bytes.len() - 1])));
    let mut longer = bytes.clone();
    longer.push(0);
    assert!(bad(decode_market(&longer)));
    let mut other_kind = bytes.clone();
    other_kind[0] ^= 1;
    assert!(bad(decode_market(&other_kind)));
    let records = MARKET_HEADER_SIZE + 6 * 112;
    let mut unknown_record = bytes.clone();
    unknown_record[records] = 3;
    assert!(bad(decode_market(&unknown_record)));
    // The bytes of a ledger are no market.
    let ledger = MarketLoansValue::new(MarketLoansFixed::new_empty(key(42)));
    assert!(bad(decode_market(&encode_market_loans(&ledger))));
}

#[test]
fn records_of_slots() {
    let market = market();
    for slot in market.dynamic.slots.iter() {
        let mut out = vec![1u8, 2, 3];
        put_market_slot(&mut out, slot);
        assert_eq!(out.len(), 3 + 112);
        let read = get_market_slot(&out, 3).unwrap();
        assert!(same_slot(&read, slot));
        if let MarketSlot::Order(_) = slot {
            // An order type that does not exist, a flag that is none.
            let mut bad = out.clone();
            bad[3 + 1 + 50] = 6;
            assert!(get_market_slot(&bad, 3).is_none());
            let mut bad = out.clone();
            bad[3 + 1 + 51] = 2;
            assert!(get_market_slot(&bad, 3).is_none());
        }
    }
}

#[test]
fn a_ledger_is_read_back() {
    let mut ledger = MarketLoansValue::new(MarketLoansFixed::new_empty(key(42)));
    ledger.expand_loan_account(4).unwrap();
    for n in 0..3u64 {
        let loan = ActiveLoan::new_empty(n % 2 == 0, 112, 224, n == 1, q(n + 5), q(7), 650, -5, i64::MAX);
        ledger.add_loan(loan).unwrap();
    }
    ledger.remove_loan(1).unwrap();
    let bytes = encode_market_loans(&ledger);
    assert_eq!(bytes.len(), LEDGER_HEADER_SIZE + 2 * 4 * 96);
    let read = decode_market_loans(&bytes).unwrap();
    assert_eq!(format!("{:?}", read.fixed), format!("{:?}", ledger.fixed));
    assert_eq!(read.dynamic.links, ledger.dynamic.links);
    assert_eq!(read.dynamic.slots, ledger.dynamic.slots);
    assert_eq!(read.check_shape(), Ok(()));
    assert!(read.dynamic.slots.iter().any(|s| matches!(s, LoanSlot::Loan(l) if l.start_timestamp == -5)));
    let mut bad = bytes.clone();
    bad[LEDGER_HEADER_SIZE + 4 * 96] = 2;
    assert!(matches!(decode_market_loans(&bad), Err(EngineError::InvalidAccountData)));
    assert!(matches!(decode_market_loans(&bytes[..bytes.len() - 96]), Err(EngineError::InvalidAccountData)));
}

#[test]
fn a_global_account_is_read_back() {
    let mut global = GlobalValue::new(GlobalFixed {
        discriminant: get_discriminant(GLOBAL_FIXED_TYPE_NAME).unwrap(),
        mint: key(1),
        vault: key(2),
        vault_bump: 254,
        num_seats_claimed: 0,
    });
    for b in 30..35u8 {
        global.add_trader(&key(b)).unwrap();
        global.deposit_global(&key(b), b as u64 * 1_000_000_007).unwrap();
    }
    let bytes = encode_global(&global);
    assert_eq!(bytes.len(), GLOBAL_HEADER_SIZE + 5 * GLOBAL_SEAT_SIZE);
    let read = decode_global(&bytes).unwrap();
    assert!(read.is_well_formed());
    assert_eq!(read.fixed.vault_bump, 254);
    assert_eq!(read.fixed.num_seats_claimed, 5);
    assert_eq!(read.fixed.mint, key(1));
    assert_eq!(read.fixed.vault, key(2));
    for b in 30..35u8 {
        assert_eq!(read.get_balance_atoms(&key(b)), b as u64 * 1_000_000_007);
    }
    assert!(matches!(decode_global(&bytes[..bytes.len() - 1]), Err(EngineError::InvalidAccountData)));
    let mut other_kind = bytes.clone();
    other_kind[3] ^= 0x80;
    assert!(matches!(decode_global(&other_kind), Err(EngineError::InvalidAccountData)));
}
