use nix_engine::error::{EngineError, NixError};
use nix_engine::marginfi_utils::{
    buffer_factor, convert_asset_shares_to_tokens, convert_tokens_to_asset_shares,
    convert_tokens_to_liability_shares, exp10, get_required_quote_collateral_to_back_loan,
    get_token_amount_to_repay_liability_shares, Bank, BankConfig,
};
use nix_engine::quantities::WrappedI80F48;
use nix_engine::resting_order::{order_type_can_rest, order_type_can_take, OrderType, RestingOrder};
use std::cmp::Ordering;

const ONE: i128 = 281_474_976_710_656;

fn w(value: i128) -> WrappedI80F48 {
    WrappedI80F48::from_bits(value)
}

fn bank_with(asset_share_value: i128, liability_share_value: i128) -> Bank {
    Bank {
        mint_decimals: 6,
        asset_share_value: w(asset_share_value),
        liability_share_value: w(liability_share_value),
        config: BankConfig { asset_weight_init: w(ONE), liability_weight_init: w(ONE) },
    }
}

#[test]
fn product_rounds_down() {
    assert_eq!(w(ONE * 3 / 2).checked_mul(w(ONE * 5 / 2)), Some(w(1_055_531_162_664_960)));
    // The smallest negative quantity times one half rounds toward minus infinity.
    assert_eq!(w(-1).checked_mul(w(ONE / 2)), Some(w(-1)));
    assert_eq!(w(1).checked_mul(w(ONE / 2)), Some(w(0)));
    assert_eq!(w(i128::MAX).checked_mul(w(2 * ONE)), None);
    assert_eq!(w(i128::MAX).checked_mul(w(ONE)), Some(w(i128::MAX)));
}

#[test]
fn quotient_rounds_toward_zero() {
    assert_eq!(w(ONE).checked_div(w(3 * ONE)), Some(w(93_824_992_236_885)));
    assert_eq!(w(-ONE).checked_div(w(3 * ONE)), Some(w(-93_824_992_236_885)));
    assert_eq!(w(ONE).checked_div(w(0)), None);
    assert_eq!(w(i128::MAX).checked_div(w(ONE / 2)), None);
    assert_eq!(w(7 * ONE).checked_div(w(2 * ONE)), Some(w(7 * ONE / 2)));
}

#[test]
fn floor_and_ceil() {
    assert_eq!(w(ONE * 5 / 2).floor(), w(2 * ONE));
    assert_eq!(w(-ONE * 5 / 2).floor(), w(-3 * ONE));
    assert_eq!(w(ONE * 5 / 2).checked_ceil(), Some(w(3 * ONE)));
    assert_eq!(w(-ONE * 5 / 2).checked_ceil(), Some(w(-2 * ONE)));
    assert_eq!(w(4 * ONE).checked_ceil(), Some(w(4 * ONE)));
    assert_eq!(w(i128::MAX).checked_ceil(), None);
}

#[test]
fn whole_part() {
    assert_eq!(w(ONE * 5 / 2).checked_to_u64(), Some(2));
    assert_eq!(w(-1).checked_to_u64(), None);
    assert_eq!(w((u64::MAX as i128) * ONE).checked_to_u64(), Some(u64::MAX));
    assert_eq!(w((u64::MAX as i128 + 1) * ONE).checked_to_u64(), None);
    assert_eq!(w(0).checked_to_u64(), Some(0));
}

#[test]
fn sums() {
    assert_eq!(WrappedI80F48::from_u64(3).value, 3 * ONE);
    assert_eq!(WrappedI80F48::from_i64(-3).value, -3 * ONE);
    assert_eq!(w(5).checked_add(w(7)), Some(w(12)));
    assert_eq!(w(i128::MAX).checked_add(w(1)), None);
    assert_eq!(w(i128::MIN).checked_sub(w(1)), None);
    assert_eq!(w(5).checked_sub(w(7)), Some(w(-2)));
    assert_eq!(w(i128::MAX).wrapping_add(w(1)), w(i128::MIN));
    assert_eq!(WrappedI80F48::default(), WrappedI80F48::zero());
    assert!(w(0).is_zero());
    assert!(w(2).ge(w(2)) && w(3).gt(w(2)) && !w(2).gt(w(2)));
}

#[test]
fn powers_of_ten() {
    assert_eq!(exp10(0), Some(w(ONE)));
    assert_eq!(exp10(6), Some(w(1_000_000 * ONE)));
    assert_eq!(exp10(23), Some(w(100_000_000_000_000_000_000_000 * ONE)));
    assert_eq!(exp10(24), None);
}

#[test]
fn share_conversions() {
    let b = bank_with(ONE + ONE / 4, 3 * ONE);
    assert_eq!(convert_tokens_to_asset_shares(1000, &b), Ok(w(225_179_981_368_524_800)));
    assert_eq!(convert_asset_shares_to_tokens(w(225_179_981_368_524_800), &b), Ok(1000));
    assert_eq!(convert_tokens_to_liability_shares(1000, &b), Ok(w(93_824_992_236_885_333)));
    assert_eq!(get_token_amount_to_repay_liability_shares(w(93_824_992_236_885_333), &b), Ok(1000));
    // Rounded down, a third of a share is lost; rounded up, it is not.
    let thirds = bank_with(3 * ONE, 3 * ONE);
    assert_eq!(convert_asset_shares_to_tokens(w(93_824_992_236_885_333), &thirds), Ok(999));
    let zero = bank_with(0, 0);
    assert_eq!(
        convert_tokens_to_asset_shares(1, &zero),
        Err(EngineError::Nix(NixError::NumericalOverflow))
    );
    assert_eq!(
        convert_asset_shares_to_tokens(w(-ONE), &b),
        Err(EngineError::Nix(NixError::NumericalOverflow))
    );
}

#[test]
fn tokens_to_shares_to_tokens_loses_at_most_one_atom() {
    for value in [ONE, ONE + 1, 3 * ONE, ONE / 3, 7 * ONE / 5, ONE * ONE] {
        let b = bank_with(value, value);
        for tokens in [0u64, 1, 2, 999, 1_000_000, 123_456_789] {
            if let Ok(shares) = convert_tokens_to_asset_shares(tokens, &b) {
                let back = convert_asset_shares_to_tokens(shares, &b).unwrap();
                assert!(back <= tokens && tokens - back <= 1, "{} {} {}", value, tokens, back);
                let again = convert_tokens_to_asset_shares(back, &b).unwrap();
                assert!(again.value <= shares.value);
            }
        }
    }
}

#[test]
fn required_collateral() {
    let b = bank_with(ONE, ONE);
    let buffer = buffer_factor(500).unwrap();
    assert_eq!(buffer, w(267_401_227_875_123));
    let r = |atoms| get_required_quote_collateral_to_back_loan(&b, &b, w(ONE), w(ONE), buffer, atoms);
    assert_eq!(r(1_000_000), Ok(1_052_632));
    assert_eq!(r(500_000), Ok(526_316));
    assert_eq!(r(0), Ok(0));
    let overflow = Err(EngineError::Nix(NixError::NumericalOverflow));
    assert_eq!(
        get_required_quote_collateral_to_back_loan(&b, &b, w(ONE), w(0), buffer, 1),
        overflow
    );
    let mut many_decimals = b;
    many_decimals.mint_decimals = 24;
    assert_eq!(
        get_required_quote_collateral_to_back_loan(&many_decimals, &b, w(ONE), w(ONE), buffer, 1),
        overflow
    );
    assert_eq!(buffer_factor(u64::MAX), Err(EngineError::Nix(NixError::NumericalOverflow)));
    assert_eq!(buffer_factor(10_000), Ok(w(0)));
    assert_eq!(
        get_required_quote_collateral_to_back_loan(&b, &b, w(ONE), w(ONE), w(0), 1),
        overflow
    );
}

#[test]
fn order_types() {
    assert!(order_type_can_rest(OrderType::Limit));
    assert!(!order_type_can_rest(OrderType::ImmediateOrCancel));
    assert!(order_type_can_rest(OrderType::Reverse));
    assert!(order_type_can_take(OrderType::Limit));
    assert!(!order_type_can_take(OrderType::PostOnly));
    assert!(!order_type_can_take(OrderType::Global));
    assert_eq!(OrderType::default(), OrderType::Limit);
    for b in 0..=5u8 {
        assert_eq!(OrderType::try_from_u8(b).unwrap().to_u8(), b);
    }
    assert_eq!(OrderType::try_from_u8(6), None);
}

fn resting(rate_bps: u16, order_type: OrderType, is_bid: bool) -> RestingOrder {
    RestingOrder::new(rate_bps, 9, w(10 * ONE), w(4 * ONE), true, 224, 0, order_type, is_bid, 0).unwrap()
}

#[test]
fn resting_order_accessors() {
    let mut o =
        RestingOrder::new(500, 9, w(10 * ONE), w(4 * ONE), true, 224, 77, OrderType::Limit, true, 3).unwrap();
    assert_eq!(o.get_rate_bps(), 500);
    assert_eq!(o.get_sequence_number(), 9);
    assert_eq!(o.get_trader_index(), 224);
    assert_eq!(o.get_collateral_shares(), w(10 * ONE));
    assert_eq!(o.get_liability_shares(), w(4 * ONE));
    assert_eq!(o.get_num_base_atoms_global(), w(10 * ONE));
    assert_eq!(o.get_reverse_spread(), 3);
    assert!(o.get_is_bid() && !o.is_global() && !o.is_reverse());
    assert!(!o.is_expired(77) && o.is_expired(78));
    assert!(!resting(1, OrderType::Limit, true).is_expired(u32::MAX));
    o.set_order_type(OrderType::Global);
    assert!(o.is_global());
    assert_eq!(resting(500, OrderType::Limit, true).priority(), 500);
    assert_eq!(resting(500, OrderType::Limit, false).priority(), 65_035);
}

#[test]
fn resting_order_atoms_and_reductions() {
    let b = bank_with(2 * ONE, 3 * ONE);
    let mut bid = resting(500, OrderType::Limit, true);
    let mut ask = resting(500, OrderType::Limit, false);
    // A bid stands for the atoms that repay its liability, an ask for its collateral.
    assert_eq!(bid.get_num_base_atoms(&b), Ok(12));
    assert_eq!(ask.get_num_base_atoms(&b), Ok(20));
    assert_eq!(ask.reduce_bid(&b, &b, 2, 3), Err(EngineError::InvalidArgument));
    assert_eq!(bid.reduce_ask(&b, 3), Err(EngineError::InvalidArgument));
    bid.reduce_bid(&b, &b, 4, 6).unwrap();
    assert_eq!(bid.get_collateral_shares(), w(8 * ONE));
    assert_eq!(bid.get_liability_shares(), w(2 * ONE));
    ask.reduce_ask(&b, 6).unwrap();
    assert_eq!(ask.get_collateral_shares(), w(7 * ONE));
    assert_eq!(ask.get_liability_shares(), w(0));
}

#[test]
fn resting_order_equality_for_lookups() {
    let a = resting(500, OrderType::Limit, true);
    assert!(a == resting(500, OrderType::Limit, false));
    assert!(a != resting(501, OrderType::Limit, true));
    assert!(a != resting(500, OrderType::PostOnly, true));
    let r = resting(500, OrderType::Reverse, true);
    assert!(r == resting(501, OrderType::Reverse, true));
    assert!(r == resting(499, OrderType::Reverse, true));
    assert!(r != resting(502, OrderType::Reverse, true));
    // Rates do not wrap around: the highest rate is far from zero.
    assert!(resting(u16::MAX, OrderType::Reverse, true) != resting(0, OrderType::Reverse, true));
    assert!(resting(0, OrderType::Reverse, true) != resting(u16::MAX, OrderType::Reverse, true));
    assert!(resting(u16::MAX, OrderType::Reverse, true) == resting(u16::MAX - 1, OrderType::Reverse, true));
    assert!(resting(0, OrderType::Reverse, true) == resting(1, OrderType::Reverse, true));
    assert!(resting(0, OrderType::Reverse, true) != resting(2, OrderType::Reverse, true));
}

#[test]
fn resting_order_ordering() {
    let low_bid = resting(400, OrderType::Limit, true);
    let high_bid = resting(500, OrderType::Limit, true);
    assert_eq!(low_bid.partial_cmp(&high_bid), Some(Ordering::Less));
    assert!(high_bid > low_bid);
    assert_eq!(low_bid.partial_cmp(&resting(400, OrderType::PostOnly, true)), Some(Ordering::Equal));
    // Among asks the lower rate is the greater offer.
    let low_ask = resting(400, OrderType::Limit, false);
    let high_ask = resting(500, OrderType::Limit, false);
    assert_eq!(low_ask.partial_cmp(&high_ask), Some(Ordering::Greater));
    assert!(high_ask < low_ask);
}
