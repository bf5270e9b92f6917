use nix_engine::constants::NIL;
use nix_engine::error::{EngineError, NixError};
use nix_engine::marginfi_utils::{
    borrow_account_metas, check_oracle_key, deposit_account_metas, oracle_account_count,
    CpiAccount, MarginfiCpiKeys,
};
use nix_engine::market::{CreateMarketArgs, MarketFixed, MarketSlot, MarketValue};
use nix_engine::market_helpers::{
    get_free_address_on_market_fixed, get_free_address_on_market_fixed_for_ask_order,
    get_free_address_on_market_fixed_for_bid_order, get_free_address_on_market_fixed_for_seat,
    get_helper_seat, release_address_on_market_fixed, release_address_on_market_fixed_for_ask_order,
    release_address_on_market_fixed_for_bid_order, release_address_on_market_fixed_for_seat,
};
use nix_engine::market::MarketDataTreeNodeType;
use nix_engine::global::{mint_blocks_transfer, GlobalFixed, GlobalValue};
use nix_engine::market_loan::{LoanStatus, MarketLoansFixed, MarketLoansValue};
use nix_engine::validation::{check_admin, check_global_mint, stored_seats_fit, stored_slots};

fn key(b: u8) -> [u8; 32] {
    [b; 32]
}

fn header() -> MarketFixed {
    MarketFixed::new_empty(&CreateMarketArgs {
        base_a_mint: key(1),
        base_b_mint: key(2),
        base_a_mint_decimals: 6,
        base_b_mint_decimals: 9,
        base_a_vault: key(3),
        base_b_vault: key(4),
        base_a_fee_receiver: key(5),
        base_b_fee_receiver: key(6),
        base_a_marginfi_group: key(7),
        base_a_marginfi_bank: key(8),
        base_a_marginfi_account: key(9),
        base_b_marginfi_group: key(10),
        base_b_marginfi_bank: key(11),
        base_b_marginfi_account: key(12),
        admin: key(13),
        protocol_fee_rate_bps: 25,
        ltv_buffer_bps: 500,
    })
}

fn side() -> MarginfiCpiKeys {
    MarginfiCpiKeys {
        marginfi_group: key(7),
        marginfi_bank: key(8),
        marginfi_account: key(9),
        marginfi_liquidity_vault: key(30),
        marginfi_liquidity_vault_authority: key(31),
    }
}

fn flat(accounts: &[CpiAccount]) -> Vec<(u8, bool, bool)> {
    accounts.iter().map(|a| (a.key[0], a.is_signer, a.is_writable)).collect()
}

#[test]
fn accounts_of_a_deposit() {
    let plain = deposit_account_metas(&side(), &key(40), &key(41), &key(42), None);
    assert_eq!(
        flat(&plain),
        vec![
            (7, false, true),
            (9, false, true),
            (40, true, true),
            (8, false, true),
            (41, false, true),
            (30, false, true),
            (42, false, false),
        ]
    );
    let mint = key(43);
    let extended = deposit_account_metas(&side(), &key(40), &key(41), &key(42), Some(&mint));
    assert_eq!(extended.len(), 8);
    assert_eq!(flat(&extended)[..7], flat(&plain)[..]);
    assert_eq!(flat(&extended)[7], (43, false, false));
}

#[test]
fn accounts_of_a_loan() {
    // The loan is taken on the account of the other side.
    let plain = borrow_account_metas(&side(), &key(12), &key(40), &key(41), &key(42), None);
    assert_eq!(
        flat(&plain),
        vec![
            (7, false, true),
            (12, false, true),
            (40, true, true),
            (8, false, true),
            (41, false, true),
            (31, false, true),
            (30, false, true),
            (42, false, false),
        ]
    );
    let mint = key(43);
    let extended =
        borrow_account_metas(&side(), &key(12), &key(40), &key(41), &key(42), Some(&mint));
    assert_eq!(extended.len(), 9);
    assert_eq!(flat(&extended)[8], (43, false, false));
}

#[test]
fn oracle_accounts() {
    assert_eq!(oracle_account_count(false), 1);
    assert_eq!(oracle_account_count(true), 3);
    assert_eq!(check_oracle_key(&key(1), &key(1)), Ok(()));
    let mut other = key(1);
    other[31] = 2;
    assert_eq!(
        check_oracle_key(&key(1), &other),
        Err(EngineError::Nix(NixError::InvalidOracleAccount))
    );
}

#[test]
fn admin_and_global_mint() {
    let fixed = header();
    assert_eq!(check_admin(&fixed, &key(13)), Ok(()));
    assert_eq!(check_admin(&fixed, &key(1)), Err(EngineError::Nix(NixError::InvalidAdminKey)));
    assert_eq!(check_global_mint(&fixed, true, &key(1)), Ok(()));
    assert_eq!(check_global_mint(&fixed, false, &key(2)), Ok(()));
    assert_eq!(
        check_global_mint(&fixed, true, &key(2)),
        Err(EngineError::Nix(NixError::InvalidGlobalMint))
    );
    assert_eq!(
        check_global_mint(&fixed, false, &key(1)),
        Err(EngineError::Nix(NixError::InvalidGlobalMint))
    );
}

#[test]
fn slots_are_taken_and_given_back() {
    let mut market = MarketValue::new(header());
    assert_eq!(get_free_address_on_market_fixed(&mut market.fixed, &mut market.dynamic), NIL);
    for _ in 0..3 {
        market.market_expand().unwrap();
    }
    // The slot that was added last is taken first.
    let first = get_free_address_on_market_fixed(&mut market.fixed, &mut market.dynamic);
    assert_eq!(first, 2 * 112);
    let second = get_free_address_on_market_fixed_for_seat(&mut market.fixed, &mut market.dynamic);
    assert_eq!(second, 112);
    let third =
        get_free_address_on_market_fixed_for_bid_order(&mut market.fixed, &mut market.dynamic);
    assert_eq!(third, 0);
    assert_eq!(
        get_free_address_on_market_fixed_for_ask_order(&mut market.fixed, &mut market.dynamic),
        NIL
    );
    assert!(!market.fixed.has_free_block());
    // What is given back last is taken first.
    release_address_on_market_fixed(&mut market.fixed, &mut market.dynamic, second);
    release_address_on_market_fixed_for_seat(&mut market.fixed, &mut market.dynamic, first);
    release_address_on_market_fixed_for_bid_order(&mut market.fixed, &mut market.dynamic, third);
    assert_eq!(market.fixed.free_list_head_index, third);
    assert_eq!(get_free_address_on_market_fixed(&mut market.fixed, &mut market.dynamic), third);
    assert_eq!(get_free_address_on_market_fixed(&mut market.fixed, &mut market.dynamic), first);
    release_address_on_market_fixed_for_ask_order(&mut market.fixed, &mut market.dynamic, first);
    release_address_on_market_fixed(&mut market.fixed, &mut market.dynamic, third);
    // The pool is whole again: three seats find room, a fourth does not.
    for b in 50..53u8 {
        market.claim_seat(&key(b)).unwrap();
    }
    assert_eq!(market.claim_seat(&key(60)), Err(EngineError::Nix(NixError::InvalidFreeList)));
    let index = market.get_trader_index(&key(51));
    assert!(matches!(market.get_slot(index), Some(MarketSlot::Seat(_))));
    assert_eq!(get_helper_seat(&market.dynamic, index).trader, key(51));
}

#[test]
fn mints_that_block_transfers() {
    assert!(!mint_blocks_transfer(None, None));
    assert!(!mint_blocks_transfer(Some(0), None));
    assert!(!mint_blocks_transfer(Some(0), Some([0u8; 32])));
    assert!(mint_blocks_transfer(Some(1), None));
    assert!(mint_blocks_transfer(Some(u16::MAX), Some([0u8; 32])));
    assert!(mint_blocks_transfer(None, Some(key(9))));
    let mut almost_none = [0u8; 32];
    almost_none[31] = 1;
    assert!(mint_blocks_transfer(Some(0), Some(almost_none)));
}

#[test]
fn stored_accounts_are_framed() {
    let bad = Err(EngineError::InvalidAccountData);
    assert_eq!(stored_slots(736, 736, 112, 0), Ok(0));
    assert_eq!(stored_slots(736 + 2 * 3 * 112, 736, 112, 3 * 112), Ok(3));
    assert_eq!(stored_slots(736 + 2 * 3 * 112 + 1, 736, 112, 3 * 112), bad);
    assert_eq!(stored_slots(736 + 3 * 112, 736, 112, 3 * 112), bad);
    assert_eq!(stored_slots(736 + 2 * 100, 736, 112, 100), bad);
    assert_eq!(stored_slots(72 + 2 * 96, 72, 96, 96), Ok(1));
    assert_eq!(stored_slots(72, 72, 0, 0), bad);
    assert_eq!(stored_seats_fit(96, 96, 40, 0), Ok(()));
    assert_eq!(stored_seats_fit(96 + 3000 * 40, 96, 40, 3000), Ok(()));
    let no_fit = Err(EngineError::InvalidAccountData);
    assert_eq!(stored_seats_fit(96 + 3001 * 40, 96, 40, 3001), no_fit);
    assert_eq!(stored_seats_fit(96 + 2 * 40 - 1, 96, 40, 2), no_fit);
    for b in 0..=255u8 {
        match MarketDataTreeNodeType::try_from_u8(b) {
            Some(kind) => assert_eq!(kind.to_u8(), b),
            None => assert!(b > 2),
        }
        match LoanStatus::try_from_u8(b) {
            Some(status) => assert_eq!(status.to_u8(), b),
            None => assert!(b > 3),
        }
    }
}

#[test]
fn the_shape_of_accounts() {
    let bad = Err(EngineError::InvalidAccountData);
    let mut market = MarketValue::new(header());
    assert_eq!(market.check_shape(), Ok(()));
    for _ in 0..3 {
        market.market_expand().unwrap();
    }
    market.claim_seat(&key(50)).unwrap();
    assert_eq!(market.check_shape(), Ok(()));
    let good = market.fixed;
    market.fixed.num_bytes_allocated = 2 * 112;
    assert_eq!(market.check_shape(), bad);
    market.fixed = good;
    market.fixed.free_list_head_index = 3 * 112;
    assert_eq!(market.check_shape(), bad);
    market.fixed = good;
    market.fixed.base_b_asks_best_index = 7;
    assert_eq!(market.check_shape(), bad);
    market.fixed = good;
    market.dynamic.links.push(0);
    assert_eq!(market.check_shape(), bad);
    market.dynamic.links.pop();
    assert_eq!(market.check_shape(), Ok(()));

    let mut ledger = MarketLoansValue::new(MarketLoansFixed::new_empty(key(42)));
    ledger.expand_loan_account(2).unwrap();
    assert_eq!(ledger.check_shape(), Ok(()));
    ledger.fixed.num_active_loans = 5001;
    assert_eq!(ledger.check_shape(), bad);
    ledger.fixed.num_active_loans = 0;
    ledger.fixed.free_list_head_index = 2 * 96;
    assert_eq!(ledger.check_shape(), bad);

    let mut global = GlobalValue::new(GlobalFixed {
        discriminant: 1,
        mint: key(1),
        vault: key(2),
        vault_bump: 255,
        num_seats_claimed: 0,
    });
    assert!(global.is_well_formed());
    global.add_trader(&key(9)).unwrap();
    assert!(global.is_well_formed());
    global.fixed.num_seats_claimed = 2;
    assert!(!global.is_well_formed());
}
