use nix_engine::claimed_seat::ClaimedSeat;
use nix_engine::constants::{
    GAS_DEPOSIT_LAMPORTS, GLOBAL_BLOCK_SIZE, MARKET_BLOCK_SIZE, MARKET_LOAN_BLOCK_SIZE,
    MAX_ACTIVE_LOANS, MAX_GLOBAL_SEATS, NIL, NO_EXPIRATION_LAST_VALID_SLOT,
};
use nix_engine::error::{EngineError, NixError};
use nix_engine::global::{GlobalFixed, GlobalValue};
use nix_engine::instruction::{
    decode_instruction, CancelOrderParams, CreateMarketParams, DepositParams, GlobalDepositParams,
    NixInstruction, PlaceOrderParams,
};
use nix_engine::logs::{event_discriminant, u64_to_le_bytes, Discriminant, FillLog};
use nix_engine::marginfi_utils::{
    compute_anchor_account_discriminator, compute_anchor_fn_discriminator, hex_to_bytes,
    instruction_data, MARGINFI_ACCOUNT_DISCRIMINATOR, MARGINFI_ACCOUNT_INITIALIZE_DISCRIMINATOR,
    MARGINFI_BANK_DISCRIMINATOR, MARGINFI_GROUP_DISCRIMINATOR,
    MARGINFI_LENDING_ACCOUNT_BORROW_DISCRIMINATOR, MARGINFI_LENDING_ACCOUNT_DEPOSIT_DISCRIMINATOR,
    MARGINFI_LENDING_ACCOUNT_REPAY_DISCRIMINATOR, MARGINFI_LENDING_ACCOUNT_SETTLE_EMISSION,
    MARGINFI_LENDING_ACCOUNT_WITHDRAW_DISCRIMINATOR, MARGINFI_LENDING_ACCOUNT_WITHDRAW_EMISSION,
};
use nix_engine::market::{should_update_base_a, MarketDataTreeNodeType, MarketSlot};
use nix_engine::resting_order::OrderType;
use nix_engine::utils::{
    assert_already_has_seat, assert_can_take, assert_not_already_expired, assert_valid_order_type,
    get_discriminant, keys_equal, MARKET_FIXED_TYPE_NAME, MARKET_LOANS_FIXED_TYPE_NAME,
};

#[test]
fn test_marginfi_discriminant() {
    assert_eq!(
        compute_anchor_account_discriminator("MarginfiGroup").to_vec(),
        MARGINFI_GROUP_DISCRIMINATOR
    );
    assert_eq!(
        compute_anchor_fn_discriminator("marginfi_account_initialize").to_vec(),
        MARGINFI_ACCOUNT_INITIALIZE_DISCRIMINATOR
    );

    assert_eq!(
        compute_anchor_account_discriminator("Bank").to_vec(),
        MARGINFI_BANK_DISCRIMINATOR
    );
    assert_eq!(
        compute_anchor_account_discriminator("MarginfiAccount").to_vec(),
        MARGINFI_ACCOUNT_DISCRIMINATOR
    );
    assert_eq!(
        compute_anchor_fn_discriminator("lending_account_deposit").to_vec(),
        MARGINFI_LENDING_ACCOUNT_DEPOSIT_DISCRIMINATOR
    );
    assert_eq!(
        compute_anchor_fn_discriminator("lending_account_withdraw").to_vec(),
        MARGINFI_LENDING_ACCOUNT_WITHDRAW_DISCRIMINATOR
    );
    assert_eq!(
        compute_anchor_fn_discriminator("lending_account_borrow").to_vec(),
        MARGINFI_LENDING_ACCOUNT_BORROW_DISCRIMINATOR
    );
    assert_eq!(
        compute_anchor_fn_discriminator("lending_account_repay").to_vec(),
        MARGINFI_LENDING_ACCOUNT_REPAY_DISCRIMINATOR
    );
    assert_eq!(
        compute_anchor_fn_discriminator("lending_account_withdraw_emissions").to_vec(),
        MARGINFI_LENDING_ACCOUNT_WITHDRAW_EMISSION
    );
    assert_eq!(
        compute_anchor_fn_discriminator("lending_account_settle_emissions").to_vec(),
        MARGINFI_LENDING_ACCOUNT_SETTLE_EMISSION
    );
}

#[test]
fn test_display() {
    let claimed_seat: ClaimedSeat = ClaimedSeat::new_empty([0u8; 32]);
    assert_eq!(claimed_seat.trader, [0u8; 32]);
}

#[test]
fn test_get_discriminant() {
    // The hash of the program's address followed by the name of the header's
    // type; it changes with either.
    assert_eq!(get_discriminant(MARKET_FIXED_TYPE_NAME).unwrap(), 4_906_530_231_437_361_602);
}

#[test]
fn account_discriminants() {
    assert_eq!(get_discriminant(MARKET_FIXED_TYPE_NAME), Ok(4_906_530_231_437_361_602));
    assert_eq!(get_discriminant(MARKET_LOANS_FIXED_TYPE_NAME), Ok(11_651_541_196_072_575_385));
    assert_eq!(event_discriminant("nix::logs::FillLog"), [188, 255, 249, 196, 105, 168, 215, 49]);
    assert_eq!(FillLog::discriminant(), [188, 255, 249, 196, 105, 168, 215, 49]);
    assert_eq!(u64_to_le_bytes(0x0102_0304_0506_0708), [8, 7, 6, 5, 4, 3, 2, 1]);
}

#[test]
fn hex() {
    assert_eq!(hex_to_bytes("22f123"), vec![0x22, 0xf1, 0x23]);
    assert_eq!(hex_to_bytes("00FFa0"), vec![0x00, 0xff, 0xa0]);
    assert_eq!(hex_to_bytes(""), Vec::<u8>::new());
}

#[test]
fn money_market_instruction_data() {
    assert_eq!(
        instruction_data(&MARGINFI_LENDING_ACCOUNT_BORROW_DISCRIMINATOR, 258, None),
        vec![4, 126, 116, 53, 48, 5, 212, 31, 2, 1, 0, 0, 0, 0, 0, 0]
    );
    assert_eq!(
        instruction_data(&MARGINFI_LENDING_ACCOUNT_DEPOSIT_DISCRIMINATOR, 1, Some(None)),
        vec![171, 94, 235, 103, 82, 64, 212, 140, 1, 0, 0, 0, 0, 0, 0, 0, 0]
    );
    assert_eq!(
        instruction_data(&MARGINFI_LENDING_ACCOUNT_REPAY_DISCRIMINATOR, 1, Some(Some(true))),
        vec![79, 209, 172, 177, 222, 51, 173, 151, 1, 0, 0, 0, 0, 0, 0, 0, 1, 1]
    );
}

#[test]
fn instruction_tags() {
    assert_eq!(NixInstruction::CreateMarket.to_vec(), vec![0]);
    assert_eq!(NixInstruction::PlaceOrder.to_vec(), vec![7]);
    assert_eq!(NixInstruction::CancelOrder.to_vec(), vec![8]);
    assert_eq!(decode_instruction(&[]), Err(EngineError::InvalidInstructionData));
    assert_eq!(decode_instruction(&[9, 1]), Err(EngineError::InvalidAccountData));
    assert_eq!(decode_instruction(&[2]), Ok(NixInstruction::ClaimSeat));
    assert_eq!(decode_instruction(&[6, 1, 2]), Ok(NixInstruction::GlobalDeposit));
    for t in 0..=8u8 {
        assert_eq!(NixInstruction::try_from_tag(t).unwrap().tag(), t);
    }
}

#[test]
fn place_order_parameters() {
    let mut data = vec![1u8, 0x70, 0, 0, 0];
    data.extend_from_slice(&1_000_000u64.to_le_bytes());
    data.extend_from_slice(&600u16.to_le_bytes());
    data.extend_from_slice(&100u16.to_le_bytes());
    data.extend_from_slice(&[1, 0]);
    data.extend_from_slice(&77u32.to_le_bytes());
    data.push(4);
    assert_eq!(
        PlaceOrderParams::try_from_slice(&data),
        Ok(PlaceOrderParams {
            trader_index_hint: Some(112),
            num_base_atoms: 1_000_000,
            rate_bps: 600,
            reverse_spread_bps: 100,
            is_bid: true,
            use_a_tree: false,
            last_valid_slot: 77,
            order_type: OrderType::Reverse,
        })
    );
    let bad = Err(EngineError::InvalidInstructionData);
    let mut extra = data.clone();
    extra.push(0);
    assert_eq!(PlaceOrderParams::try_from_slice(&extra), bad);
    assert_eq!(PlaceOrderParams::try_from_slice(&data[..data.len() - 1]), bad);
    let mut unknown_type = data.clone();
    *unknown_type.last_mut().unwrap() = 6;
    assert_eq!(PlaceOrderParams::try_from_slice(&unknown_type), bad);
    let mut bad_flag = data.clone();
    bad_flag[17] = 2;
    assert_eq!(PlaceOrderParams::try_from_slice(&bad_flag), bad);
    let mut no_hint = vec![0u8];
    no_hint.extend_from_slice(&data[5..]);
    assert_eq!(PlaceOrderParams::try_from_slice(&no_hint).unwrap().trader_index_hint, None);
}

#[test]
fn other_parameters() {
    let mut data = vec![0u8];
    data.extend_from_slice(&42u64.to_le_bytes());
    data.extend_from_slice(&[1, 0xe0, 0, 0, 0]);
    data.push(1);
    assert_eq!(
        CancelOrderParams::try_from_slice(&data),
        Ok(CancelOrderParams {
            trader_index_hint: None,
            order_sequence_number: 42,
            order_index_hint: Some(224),
            use_a_tree: true,
        })
    );
    assert_eq!(
        CancelOrderParams::try_from_slice(&data[..data.len() - 1]),
        Err(EngineError::InvalidInstructionData)
    );
    let mut deposit = 7u64.to_le_bytes().to_vec();
    deposit.push(0);
    assert_eq!(DepositParams::try_from_slice(&deposit), Ok(DepositParams::new(7, None)));
    assert_eq!(
        GlobalDepositParams::try_from_slice(&9u64.to_le_bytes()),
        Ok(GlobalDepositParams::new(9))
    );
    assert_eq!(GlobalDepositParams::new(9).amount, 9);
    let mut create = 5u64.to_le_bytes().to_vec();
    create.extend_from_slice(&500u64.to_le_bytes());
    assert_eq!(
        CreateMarketParams::try_from_slice(&create),
        Ok(CreateMarketParams { protocol_fee_rate_bps: 5, marginfi_market_buffer_bps: 500 })
    );
    assert_eq!(CreateMarketParams::try_from_slice(&create[1..]), Err(EngineError::InvalidInstructionData));
}

#[test]
fn entry_checks() {
    assert_eq!(assert_can_take(OrderType::Limit), Ok(()));
    assert_eq!(assert_can_take(OrderType::PostOnly), Err(EngineError::Nix(NixError::PostOnlyCrosses)));
    assert_eq!(assert_can_take(OrderType::Global), Err(EngineError::Nix(NixError::PostOnlyCrosses)));
    assert_eq!(assert_not_already_expired(NO_EXPIRATION_LAST_VALID_SLOT, 5), Ok(()));
    assert_eq!(assert_not_already_expired(6, 5), Ok(()));
    assert_eq!(assert_not_already_expired(5, 5), Err(EngineError::Nix(NixError::AlreadyExpired)));
    assert_eq!(
        assert_valid_order_type(OrderType::Global, true),
        Err(EngineError::Nix(NixError::InvalidGlobalBidOrder))
    );
    assert_eq!(
        assert_valid_order_type(OrderType::Reverse, false),
        Err(EngineError::Nix(NixError::InvalidAskReverseOrder))
    );
    assert_eq!(assert_valid_order_type(OrderType::Global, false), Ok(()));
    assert_eq!(assert_valid_order_type(OrderType::Reverse, true), Ok(()));
    assert_eq!(assert_already_has_seat(0), Ok(()));
    assert_eq!(assert_already_has_seat(NIL), Err(EngineError::Nix(NixError::AlreadyClaimedSeat)));
    assert!(keys_equal(&[3; 32], &[3; 32]));
    let mut other = [3u8; 32];
    other[31] = 4;
    assert!(!keys_equal(&[3; 32], &other));
}

#[test]
fn error_codes() {
    assert_eq!(NixError::InvalidMarketParameters.code(), 0);
    assert_eq!(NixError::PostOnlyCrosses.code(), 6);
    assert_eq!(NixError::NumericalOverflow.code(), 14);
    assert_eq!(NixError::InvalidGlobalBidOrder.code(), 20);
    assert_eq!(NixError::MaxActiveLoansExceeded.code(), 40);
    assert_eq!(NixError::InvalidAskReverseOrder.code(), 42);
    assert_eq!(NixError::InvalidGlobalMint.code(), 44);
    for c in 0..=44u32 {
        assert_eq!(NixError::from_code(c).unwrap().code(), c);
    }
    assert_eq!(NixError::from_code(45), None);
    assert_eq!(NixError::AlreadyExpired.message(), "New order is already expired");
    assert_eq!(EngineError::Nix(NixError::InvalidCancel).custom_code(), Some(3));
    assert_eq!(EngineError::InsufficientFunds.custom_code(), None);
}

#[test]
fn error_messages() {
    assert_eq!(NixError::InvalidMarketParameters.message(), "Invalid market parameters error");
    assert_eq!(NixError::InvalidFreeList.message(), "Internal free list corruption error");
    assert_eq!(
        NixError::AlreadyClaimedSeat.message(),
        "Cannot claim a second seat for the same trader"
    );
    assert_eq!(NixError::PostOnlyCrosses.message(), "Matched on a post only order");
    assert_eq!(NixError::NumericalOverflow.message(), "Numerical overflow in token calculation");
    assert_eq!(NixError::InvalidGlobalBidOrder.message(), "Global order cannot be bid");
    assert_eq!(
        NixError::MaxActiveLoansExceeded.message(),
        "Maximum number of active loans exceeded"
    );
    assert_eq!(NixError::InvalidGlobalMint.message(), "Invalid Global Mint");
    // Every failure has a sentence of its own.
    let mut seen: Vec<&str> = Vec::new();
    for c in 0..=44u32 {
        let m = NixError::from_code(c).unwrap().message();
        assert!(!m.is_empty());
        assert!(!seen.contains(&m));
        seen.push(m);
    }
}

#[test]
fn constants_and_tags() {
    assert_eq!(GAS_DEPOSIT_LAMPORTS, 5000);
    assert_eq!(MAX_GLOBAL_SEATS, 3000);
    assert_eq!(MAX_ACTIVE_LOANS, 5000);
    assert_eq!(MARKET_BLOCK_SIZE, 112);
    assert_eq!(GLOBAL_BLOCK_SIZE, 64);
    assert_eq!(MARKET_LOAN_BLOCK_SIZE, 96);
    assert_eq!(NO_EXPIRATION_LAST_VALID_SLOT, 0);
    assert_eq!(MarketDataTreeNodeType::Empty.to_u8(), 0);
    assert_eq!(MarketDataTreeNodeType::ClaimedSeat.to_u8(), 1);
    assert_eq!(MarketDataTreeNodeType::RestingOrder.to_u8(), 2);
    assert_eq!(MarketDataTreeNodeType::default(), MarketDataTreeNodeType::ClaimedSeat);
    assert_eq!(MarketSlot::Empty.get_payload_type(), MarketDataTreeNodeType::Empty);
    assert_eq!(
        MarketSlot::Seat(ClaimedSeat::new_empty([1; 32])).get_payload_type(),
        MarketDataTreeNodeType::ClaimedSeat
    );
    assert!(!should_update_base_a(true, true));
    assert!(should_update_base_a(true, false));
    assert!(should_update_base_a(false, true));
    assert!(!should_update_base_a(false, false));
}

#[test]
fn global_account() {
    let mut global = GlobalValue::new(GlobalFixed {
        discriminant: 0,
        mint: [1; 32],
        vault: [2; 32],
        vault_bump: 254,
        num_seats_claimed: 0,
    });
    assert_eq!(*global.get_mint(), [1; 32]);
    assert_eq!(global.get_vault_bump(), 254);
    assert_eq!(global.get_balance_atoms(&[9; 32]), 0);
    assert_eq!(
        global.deposit_global(&[9; 32], 5),
        Err(EngineError::Nix(NixError::MissingGlobal))
    );
    global.add_trader(&[9; 32]).unwrap();
    assert_eq!(global.add_trader(&[9; 32]), Err(EngineError::Nix(NixError::AlreadyClaimedSeat)));
    global.add_trader(&[8; 32]).unwrap();
    global.deposit_global(&[9; 32], 5).unwrap();
    global.deposit_global(&[9; 32], 6).unwrap();
    assert_eq!(global.get_balance_atoms(&[9; 32]), 11);
    assert_eq!(global.get_balance_atoms(&[8; 32]), 0);
    assert_eq!(global.reduce(&[9; 32], 12), Err(EngineError::Nix(NixError::GlobalInsufficient)));
    global.reduce(&[9; 32], 4).unwrap();
    assert_eq!(global.get_balance_atoms(&[9; 32]), 7);
    assert_eq!(
        global.deposit_global(&[9; 32], u64::MAX),
        Err(EngineError::Nix(NixError::NumericalOverflow))
    );
    assert_eq!(global.fixed.num_seats_claimed, 2);
}

#[test]
fn global_seats_are_bounded() {
    let mut global = GlobalValue::new(GlobalFixed {
        discriminant: 0,
        mint: [1; 32],
        vault: [2; 32],
        vault_bump: 254,
        num_seats_claimed: 0,
    });
    for i in 0..MAX_GLOBAL_SEATS {
        let mut k = [0u8; 32];
        k[0] = (i % 256) as u8;
        k[1] = (i / 256) as u8;
        global.add_trader(&k).unwrap();
    }
    assert_eq!(global.add_trader(&[255; 32]), Err(EngineError::Nix(NixError::TooManyGlobalSeats)));
}
