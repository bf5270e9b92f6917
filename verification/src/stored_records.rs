//! The bytes of the records and headers of the accounts: an order, a seat,
//! a loan, a seat of a global account, and the header of each kind of account.
//!
//! Each record has its layout, field after field; a reader that tells
//! whether bytes can be one and which; a writer; and the law that what was
//! written is read back.

use crate::claimed_seat::ClaimedSeat;
use crate::global::{GlobalFixed, GlobalTrader};
use crate::instruction::{le_at, read_flag, read_u16, read_u32, read_u64};
use crate::market::{FeeState, MarketFixed};
use crate::market_loan::{ActiveLoan, LoanStatus, MarketLoansFixed};
use crate::resting_order::{OrderType, RestingOrder};
use crate::storage::{
    get_key, get_quantity, get_signed, holds_at, le_seq, lemma_appended, lemma_holds_both,
    lemma_le_seq_len,
    lemma_number_read_back, lemma_quantity_len, lemma_quantity_read_back, lemma_signed_read_back,
    lemma_widths, put_key, put_number, put_quantity, put_signed, quantity_bytes, quantity_of,
    signed_code, signed_of,
};
use vstd::prelude::*;

verus! {

/// The byte of a flag: 1 for true, 0 for false.
pub open spec fn flag_code(b: bool) -> nat {
    if b {
        1
    } else {
        0
    }
}

/// The byte of a flag.
pub fn flag_byte(b: bool) -> (r: u8)
    ensures
        r == flag_code(b),
{
    if b {
        1
    } else {
        0
    }
}

/// The byte of an order type.
pub open spec fn order_type_code(t: OrderType) -> u8 {
    t.spec_to_u8()
}

/// The byte of the status of a loan.
pub open spec fn status_code(s: LoanStatus) -> u8 {
    match s {
        LoanStatus::Active => 0u8,
        LoanStatus::Repaid => 1u8,
        LoanStatus::Defaulted => 2u8,
        LoanStatus::Liquidated => 3u8,
    }
}

/// The 55 bytes of an order.
pub open spec fn order_bytes(v: RestingOrder) -> Seq<u8> {
    quantity_bytes(v.collateral_shares.value)
        + quantity_bytes(v.liability_shares.value)
        + le_seq(v.rate_bps as nat, 2)
        + le_seq(v.sequence_number as nat, 8)
        + le_seq(v.trader_index as nat, 4)
        + le_seq(v.last_valid_slot as nat, 4)
        + le_seq(order_type_code(v.order_type) as nat, 1)
        + le_seq(flag_code(v.is_bid), 1)
        + le_seq(flag_code(v.is_a_tree), 1)
        + le_seq(v.reverse_spread as nat, 2)
}

/// Whether the bytes from `at` on can be those of an order: each flag is 0 or 1
/// and each kind is one that exists.
pub open spec fn order_readable(s: Seq<u8>, at: int) -> bool {
    s[at + 50] <= 5
        && s[at + 51] <= 1
        && s[at + 52] <= 1
}

/// Whether the bytes from `at` on say `v`.
pub open spec fn order_at(s: Seq<u8>, at: int, v: RestingOrder) -> bool {
    &&& v.collateral_shares.value == quantity_of(le_at(s, at, 8), le_at(s, at + 8, 8))
    &&& v.liability_shares.value == quantity_of(le_at(s, at + 16, 8), le_at(s, at + 24, 8))
    &&& v.rate_bps == le_at(s, at + 32, 2)
    &&& v.sequence_number == le_at(s, at + 34, 8)
    &&& v.trader_index == le_at(s, at + 42, 4)
    &&& v.last_valid_slot == le_at(s, at + 46, 4)
    &&& order_type_code(v.order_type) == s[at + 50]
    &&& flag_code(v.is_bid) == s[at + 51]
    &&& flag_code(v.is_a_tree) == s[at + 52]
    &&& v.reverse_spread == le_at(s, at + 53, 2)
}

/// Appends the bytes of an order.
pub fn put_order(out: &mut Vec<u8>, v: &RestingOrder)
    ensures
        final(out)@ == old(out)@ + order_bytes(*v),
{
    let ghost p0 = Seq::<u8>::empty();
    proof {
        assert(out@ =~= old(out)@ + p0);
    }
    put_quantity(out, &v.collateral_shares);
    let ghost p1 = p0 + quantity_bytes((*v).collateral_shares.value);
    proof {
        lemma_appended(old(out)@, p0, quantity_bytes((*v).collateral_shares.value));
        assert(out@ == old(out)@ + p1);
    }
    put_quantity(out, &v.liability_shares);
    let ghost p2 = p1 + quantity_bytes((*v).liability_shares.value);
    proof {
        lemma_appended(old(out)@, p1, quantity_bytes((*v).liability_shares.value));
        assert(out@ == old(out)@ + p2);
    }
    put_number(out, v.rate_bps as u64, 2);
    let ghost p3 = p2 + le_seq((*v).rate_bps as nat, 2);
    proof {
        lemma_appended(old(out)@, p2, le_seq((*v).rate_bps as nat, 2));
        assert(out@ == old(out)@ + p3);
    }
    put_number(out, v.sequence_number, 8);
    let ghost p4 = p3 + le_seq((*v).sequence_number as nat, 8);
    proof {
        lemma_appended(old(out)@, p3, le_seq((*v).sequence_number as nat, 8));
        assert(out@ == old(out)@ + p4);
    }
    put_number(out, v.trader_index as u64, 4);
    let ghost p5 = p4 + le_seq((*v).trader_index as nat, 4);
    proof {
        lemma_appended(old(out)@, p4, le_seq((*v).trader_index as nat, 4));
        assert(out@ == old(out)@ + p5);
    }
    put_number(out, v.last_valid_slot as u64, 4);
    let ghost p6 = p5 + le_seq((*v).last_valid_slot as nat, 4);
    proof {
        lemma_appended(old(out)@, p5, le_seq((*v).last_valid_slot as nat, 4));
        assert(out@ == old(out)@ + p6);
    }
    put_number(out, v.order_type.to_u8() as u64, 1);
    let ghost p7 = p6 + le_seq(order_type_code((*v).order_type) as nat, 1);
    proof {
        lemma_appended(old(out)@, p6, le_seq(order_type_code((*v).order_type) as nat, 1));
        assert(out@ == old(out)@ + p7);
    }
    put_number(out, flag_byte(v.is_bid) as u64, 1);
    let ghost p8 = p7 + le_seq(flag_code((*v).is_bid), 1);
    proof {
        lemma_appended(old(out)@, p7, le_seq(flag_code((*v).is_bid), 1));
        assert(out@ == old(out)@ + p8);
    }
    put_number(out, flag_byte(v.is_a_tree) as u64, 1);
    let ghost p9 = p8 + le_seq(flag_code((*v).is_a_tree), 1);
    proof {
        lemma_appended(old(out)@, p8, le_seq(flag_code((*v).is_a_tree), 1));
        assert(out@ == old(out)@ + p9);
    }
    put_number(out, v.reverse_spread as u64, 2);
    let ghost p10 = p9 + le_seq((*v).reverse_spread as nat, 2);
    proof {
        lemma_appended(old(out)@, p9, le_seq((*v).reverse_spread as nat, 2));
        assert(out@ == old(out)@ + p10);
    }
    proof {
        assert(p10 =~= order_bytes(*v));
    }
}

/// Reads an order from the bytes from `at` on; `None` where they cannot be one.
pub fn get_order(data: &[u8], at: usize) -> (r: Option<RestingOrder>)
    requires
        at + 55 <= data@.len(),
    ensures
        r.is_some() == order_readable(data@, at as int),
        r.is_some() ==> order_at(data@, at as int, r.unwrap()),
{
    let len = data.len();
    proof {
        reveal_with_fuel(le_at, 2);
    }
    let x0 = get_quantity(data, at);
    let x1 = get_quantity(data, at + 16);
    let x2 = read_u16(data, at + 32);
    let x3 = read_u64(data, at + 34);
    let x4 = read_u32(data, at + 42);
    let x5 = read_u32(data, at + 46);
    let x6 = match OrderType::try_from_u8(data[at + 50]) {
        Some(e) => e,
        None => { return None; },
    };
    let x7 = match read_flag(data[at + 51]) {
        Some(b) => b,
        None => { return None; },
    };
    let x8 = match read_flag(data[at + 52]) {
        Some(b) => b,
        None => { return None; },
    };
    let x9 = read_u16(data, at + 53);
    Some(
        RestingOrder {
            collateral_shares: x0,
            liability_shares: x1,
            rate_bps: x2,
            sequence_number: x3,
            trader_index: x4,
            last_valid_slot: x5,
            order_type: x6,
            is_bid: x7,
            is_a_tree: x8,
            reverse_spread: x9,
        },
    )
}

/// An order has 55 bytes.
pub proof fn lemma_order_len(v: RestingOrder)
    ensures
        order_bytes(v).len() == 55,
{
    lemma_quantity_len(v.collateral_shares.value);
    lemma_quantity_len(v.liability_shares.value);
    lemma_le_seq_len(v.rate_bps as nat, 2);
    lemma_le_seq_len(v.sequence_number as nat, 8);
    lemma_le_seq_len(v.trader_index as nat, 4);
    lemma_le_seq_len(v.last_valid_slot as nat, 4);
    lemma_le_seq_len(order_type_code(v.order_type) as nat, 1);
    lemma_le_seq_len(flag_code(v.is_bid), 1);
    lemma_le_seq_len(flag_code(v.is_a_tree), 1);
    lemma_le_seq_len(v.reverse_spread as nat, 2);
}

/// An order is read back from its bytes.
pub proof fn lemma_order_read_back(s: Seq<u8>, at: int, v: RestingOrder)
    requires
        holds_at(s, at, order_bytes(v)),
    ensures
        order_readable(s, at),
        order_at(s, at, v),
{
    let p0 = Seq::<u8>::empty();
    let p1 = p0 + quantity_bytes(v.collateral_shares.value);
    lemma_quantity_len(v.collateral_shares.value);
    assert(p1.len() == 16);
    let p2 = p1 + quantity_bytes(v.liability_shares.value);
    lemma_quantity_len(v.liability_shares.value);
    assert(p2.len() == 32);
    let p3 = p2 + le_seq(v.rate_bps as nat, 2);
    lemma_le_seq_len(v.rate_bps as nat, 2);
    assert(p3.len() == 34);
    let p4 = p3 + le_seq(v.sequence_number as nat, 8);
    lemma_le_seq_len(v.sequence_number as nat, 8);
    assert(p4.len() == 42);
    let p5 = p4 + le_seq(v.trader_index as nat, 4);
    lemma_le_seq_len(v.trader_index as nat, 4);
    assert(p5.len() == 46);
    let p6 = p5 + le_seq(v.last_valid_slot as nat, 4);
    lemma_le_seq_len(v.last_valid_slot as nat, 4);
    assert(p6.len() == 50);
    let p7 = p6 + le_seq(order_type_code(v.order_type) as nat, 1);
    lemma_le_seq_len(order_type_code(v.order_type) as nat, 1);
    assert(p7.len() == 51);
    let p8 = p7 + le_seq(flag_code(v.is_bid), 1);
    lemma_le_seq_len(flag_code(v.is_bid), 1);
    assert(p8.len() == 52);
    let p9 = p8 + le_seq(flag_code(v.is_a_tree), 1);
    lemma_le_seq_len(flag_code(v.is_a_tree), 1);
    assert(p9.len() == 53);
    let p10 = p9 + le_seq(v.reverse_spread as nat, 2);
    lemma_le_seq_len(v.reverse_spread as nat, 2);
    assert(p10.len() == 55);
    assert(p10 =~= order_bytes(v));
    lemma_holds_both(s, at, p9, le_seq(v.reverse_spread as nat, 2));
    lemma_widths(v.reverse_spread as nat);
    lemma_number_read_back(s, at + 53, v.reverse_spread as nat, 2);
    lemma_holds_both(s, at, p8, le_seq(flag_code(v.is_a_tree), 1));
    lemma_widths(flag_code(v.is_a_tree));
    lemma_number_read_back(s, at + 52, flag_code(v.is_a_tree), 1);
    assert(le_at(s, at + 52, 1) == s[at + 52]) by {
        reveal_with_fuel(le_at, 2);
    }
    lemma_holds_both(s, at, p7, le_seq(flag_code(v.is_bid), 1));
    lemma_widths(flag_code(v.is_bid));
    lemma_number_read_back(s, at + 51, flag_code(v.is_bid), 1);
    assert(le_at(s, at + 51, 1) == s[at + 51]) by {
        reveal_with_fuel(le_at, 2);
    }
    lemma_holds_both(s, at, p6, le_seq(order_type_code(v.order_type) as nat, 1));
    lemma_widths(order_type_code(v.order_type) as nat);
    lemma_number_read_back(s, at + 50, order_type_code(v.order_type) as nat, 1);
    assert(le_at(s, at + 50, 1) == s[at + 50]) by {
        reveal_with_fuel(le_at, 2);
    }
    lemma_holds_both(s, at, p5, le_seq(v.last_valid_slot as nat, 4));
    lemma_widths(v.last_valid_slot as nat);
    lemma_number_read_back(s, at + 46, v.last_valid_slot as nat, 4);
    lemma_holds_both(s, at, p4, le_seq(v.trader_index as nat, 4));
    lemma_widths(v.trader_index as nat);
    lemma_number_read_back(s, at + 42, v.trader_index as nat, 4);
    lemma_holds_both(s, at, p3, le_seq(v.sequence_number as nat, 8));
    lemma_widths(v.sequence_number as nat);
    lemma_number_read_back(s, at + 34, v.sequence_number as nat, 8);
    lemma_holds_both(s, at, p2, le_seq(v.rate_bps as nat, 2));
    lemma_widths(v.rate_bps as nat);
    lemma_number_read_back(s, at + 32, v.rate_bps as nat, 2);
    lemma_holds_both(s, at, p1, quantity_bytes(v.liability_shares.value));
    lemma_quantity_read_back(s, at + 16, v.liability_shares.value);
    lemma_holds_both(s, at, p0, quantity_bytes(v.collateral_shares.value));
    lemma_quantity_read_back(s, at, v.collateral_shares.value);
}

/// Bytes say no more than one order.
pub proof fn lemma_order_said_once(s: Seq<u8>, at: int, v: RestingOrder, w: RestingOrder)
    requires
        order_at(s, at, v),
        order_at(s, at, w),
    ensures
        v == w,
{
}

/// The 96 bytes of a seat.
pub open spec fn seat_bytes(v: ClaimedSeat) -> Seq<u8> {
    v.trader@
        + quantity_bytes(v.base_a_withdrawable_asset_share.value)
        + quantity_bytes(v.base_b_withdrawable_asset_share.value)
        + quantity_bytes(v.base_a_volume.value)
        + quantity_bytes(v.base_b_volume.value)
}

/// Whether the bytes from `at` on can be those of a seat: any bytes can.
pub open spec fn seat_readable(s: Seq<u8>, at: int) -> bool {
    true
}

/// Whether the bytes from `at` on say `v`.
pub open spec fn seat_at(s: Seq<u8>, at: int, v: ClaimedSeat) -> bool {
    &&& v.trader@ == s.subrange(at, at + 32)
    &&& v.base_a_withdrawable_asset_share.value == quantity_of(le_at(s, at + 32, 8), le_at(s, at + 40, 8))
    &&& v.base_b_withdrawable_asset_share.value == quantity_of(le_at(s, at + 48, 8), le_at(s, at + 56, 8))
    &&& v.base_a_volume.value == quantity_of(le_at(s, at + 64, 8), le_at(s, at + 72, 8))
    &&& v.base_b_volume.value == quantity_of(le_at(s, at + 80, 8), le_at(s, at + 88, 8))
}

/// Appends the bytes of a seat.
pub fn put_seat(out: &mut Vec<u8>, v: &ClaimedSeat)
    ensures
        final(out)@ == old(out)@ + seat_bytes(*v),
{
    let ghost p0 = Seq::<u8>::empty();
    proof {
        assert(out@ =~= old(out)@ + p0);
    }
    put_key(out, &v.trader);
    let ghost p1 = p0 + (*v).trader@;
    proof {
        lemma_appended(old(out)@, p0, (*v).trader@);
        assert(out@ == old(out)@ + p1);
    }
    put_quantity(out, &v.base_a_withdrawable_asset_share);
    let ghost p2 = p1 + quantity_bytes((*v).base_a_withdrawable_asset_share.value);
    proof {
        lemma_appended(old(out)@, p1, quantity_bytes((*v).base_a_withdrawable_asset_share.value));
        assert(out@ == old(out)@ + p2);
    }
    put_quantity(out, &v.base_b_withdrawable_asset_share);
    let ghost p3 = p2 + quantity_bytes((*v).base_b_withdrawable_asset_share.value);
    proof {
        lemma_appended(old(out)@, p2, quantity_bytes((*v).base_b_withdrawable_asset_share.value));
        assert(out@ == old(out)@ + p3);
    }
    put_quantity(out, &v.base_a_volume);
    let ghost p4 = p3 + quantity_bytes((*v).base_a_volume.value);
    proof {
        lemma_appended(old(out)@, p3, quantity_bytes((*v).base_a_volume.value));
        assert(out@ == old(out)@ + p4);
    }
    put_quantity(out, &v.base_b_volume);
    let ghost p5 = p4 + quantity_bytes((*v).base_b_volume.value);
    proof {
        lemma_appended(old(out)@, p4, quantity_bytes((*v).base_b_volume.value));
        assert(out@ == old(out)@ + p5);
    }
    proof {
        assert(p5 =~= seat_bytes(*v));
    }
}

/// Reads a seat from the bytes from `at` on; `None` where they cannot be one.
pub fn get_seat(data: &[u8], at: usize) -> (r: Option<ClaimedSeat>)
    requires
        at + 96 <= data@.len(),
    ensures
        r.is_some() == seat_readable(data@, at as int),
        r.is_some() ==> seat_at(data@, at as int, r.unwrap()),
{
    let len = data.len();
    proof {
        reveal_with_fuel(le_at, 2);
    }
    let x0 = get_key(data, at);
    let x1 = get_quantity(data, at + 32);
    let x2 = get_quantity(data, at + 48);
    let x3 = get_quantity(data, at + 64);
    let x4 = get_quantity(data, at + 80);
    Some(
        ClaimedSeat {
            trader: x0,
            base_a_withdrawable_asset_share: x1,
            base_b_withdrawable_asset_share: x2,
            base_a_volume: x3,
            base_b_volume: x4,
        },
    )
}

/// A seat has 96 bytes.
pub proof fn lemma_seat_len(v: ClaimedSeat)
    ensures
        seat_bytes(v).len() == 96,
{
    lemma_quantity_len(v.base_a_withdrawable_asset_share.value);
    lemma_quantity_len(v.base_b_withdrawable_asset_share.value);
    lemma_quantity_len(v.base_a_volume.value);
    lemma_quantity_len(v.base_b_volume.value);
}

/// A seat is read back from its bytes.
pub proof fn lemma_seat_read_back(s: Seq<u8>, at: int, v: ClaimedSeat)
    requires
        holds_at(s, at, seat_bytes(v)),
    ensures
        seat_readable(s, at),
        seat_at(s, at, v),
{
    let p0 = Seq::<u8>::empty();
    let p1 = p0 + v.trader@;
    assert(p1.len() == 32);
    let p2 = p1 + quantity_bytes(v.base_a_withdrawable_asset_share.value);
    lemma_quantity_len(v.base_a_withdrawable_asset_share.value);
    assert(p2.len() == 48);
    let p3 = p2 + quantity_bytes(v.base_b_withdrawable_asset_share.value);
    lemma_quantity_len(v.base_b_withdrawable_asset_share.value);
    assert(p3.len() == 64);
    let p4 = p3 + quantity_bytes(v.base_a_volume.value);
    lemma_quantity_len(v.base_a_volume.value);
    assert(p4.len() == 80);
    let p5 = p4 + quantity_bytes(v.base_b_volume.value);
    lemma_quantity_len(v.base_b_volume.value);
    assert(p5.len() == 96);
    assert(p5 =~= seat_bytes(v));
    lemma_holds_both(s, at, p4, quantity_bytes(v.base_b_volume.value));
    lemma_quantity_read_back(s, at + 80, v.base_b_volume.value);
    lemma_holds_both(s, at, p3, quantity_bytes(v.base_a_volume.value));
    lemma_quantity_read_back(s, at + 64, v.base_a_volume.value);
    lemma_holds_both(s, at, p2, quantity_bytes(v.base_b_withdrawable_asset_share.value));
    lemma_quantity_read_back(s, at + 48, v.base_b_withdrawable_asset_share.value);
    lemma_holds_both(s, at, p1, quantity_bytes(v.base_a_withdrawable_asset_share.value));
    lemma_quantity_read_back(s, at + 32, v.base_a_withdrawable_asset_share.value);
    lemma_holds_both(s, at, p0, v.trader@);
}

/// Bytes say no more than one seat.
pub proof fn lemma_seat_said_once(s: Seq<u8>, at: int, v: ClaimedSeat, w: ClaimedSeat)
    requires
        seat_at(s, at, v),
        seat_at(s, at, w),
    ensures
        v == w,
{
    assert(v.trader =~= w.trader);
}

/// The 69 bytes of a loan.
pub open spec fn loan_bytes(v: ActiveLoan) -> Seq<u8> {
    le_seq(v.sequence_number as nat, 8)
        + le_seq(v.lender_index as nat, 4)
        + le_seq(v.borrower_index as nat, 4)
        + le_seq(flag_code(v.is_lender_global), 1)
        + le_seq(status_code(v.status) as nat, 1)
        + le_seq(flag_code(v.is_liability_base_a), 1)
        + quantity_bytes(v.collateral_shares.value)
        + quantity_bytes(v.liability_shares.value)
        + le_seq(v.rate_bps as nat, 2)
        + le_seq(signed_code(v.start_timestamp), 8)
        + le_seq(signed_code(v.last_updated_slot), 8)
}

/// Whether the bytes from `at` on can be those of a loan: each flag is 0 or 1
/// and each kind is one that exists.
pub open spec fn loan_readable(s: Seq<u8>, at: int) -> bool {
    s[at + 16] <= 1
        && s[at + 17] <= 3
        && s[at + 18] <= 1
}

/// Whether the bytes from `at` on say `v`.
pub open spec fn loan_at(s: Seq<u8>, at: int, v: ActiveLoan) -> bool {
    &&& v.sequence_number == le_at(s, at, 8)
    &&& v.lender_index == le_at(s, at + 8, 4)
    &&& v.borrower_index == le_at(s, at + 12, 4)
    &&& flag_code(v.is_lender_global) == s[at + 16]
    &&& status_code(v.status) == s[at + 17]
    &&& flag_code(v.is_liability_base_a) == s[at + 18]
    &&& v.collateral_shares.value == quantity_of(le_at(s, at + 19, 8), le_at(s, at + 27, 8))
    &&& v.liability_shares.value == quantity_of(le_at(s, at + 35, 8), le_at(s, at + 43, 8))
    &&& v.rate_bps == le_at(s, at + 51, 2)
    &&& v.start_timestamp == signed_of(le_at(s, at + 53, 8))
    &&& v.last_updated_slot == signed_of(le_at(s, at + 61, 8))
}

/// Appends the bytes of a loan.
pub fn put_loan(out: &mut Vec<u8>, v: &ActiveLoan)
    ensures
        final(out)@ == old(out)@ + loan_bytes(*v),
{
    let ghost p0 = Seq::<u8>::empty();
    proof {
        assert(out@ =~= old(out)@ + p0);
    }
    put_number(out, v.sequence_number, 8);
    let ghost p1 = p0 + le_seq((*v).sequence_number as nat, 8);
    proof {
        lemma_appended(old(out)@, p0, le_seq((*v).sequence_number as nat, 8));
        assert(out@ == old(out)@ + p1);
    }
    put_number(out, v.lender_index as u64, 4);
    let ghost p2 = p1 + le_seq((*v).lender_index as nat, 4);
    proof {
        lemma_appended(old(out)@, p1, le_seq((*v).lender_index as nat, 4));
        assert(out@ == old(out)@ + p2);
    }
    put_number(out, v.borrower_index as u64, 4);
    let ghost p3 = p2 + le_seq((*v).borrower_index as nat, 4);
    proof {
        lemma_appended(old(out)@, p2, le_seq((*v).borrower_index as nat, 4));
        assert(out@ == old(out)@ + p3);
    }
    put_number(out, flag_byte(v.is_lender_global) as u64, 1);
    let ghost p4 = p3 + le_seq(flag_code((*v).is_lender_global), 1);
    proof {
        lemma_appended(old(out)@, p3, le_seq(flag_code((*v).is_lender_global), 1));
        assert(out@ == old(out)@ + p4);
    }
    put_number(out, v.status.to_u8() as u64, 1);
    let ghost p5 = p4 + le_seq(status_code((*v).status) as nat, 1);
    proof {
        lemma_appended(old(out)@, p4, le_seq(status_code((*v).status) as nat, 1));
        assert(out@ == old(out)@ + p5);
    }
    put_number(out, flag_byte(v.is_liability_base_a) as u64, 1);
    let ghost p6 = p5 + le_seq(flag_code((*v).is_liability_base_a), 1);
    proof {
        lemma_appended(old(out)@, p5, le_seq(flag_code((*v).is_liability_base_a), 1));
        assert(out@ == old(out)@ + p6);
    }
    put_quantity(out, &v.collateral_shares);
    let ghost p7 = p6 + quantity_bytes((*v).collateral_shares.value);
    proof {
        lemma_appended(old(out)@, p6, quantity_bytes((*v).collateral_shares.value));
        assert(out@ == old(out)@ + p7);
    }
    put_quantity(out, &v.liability_shares);
    let ghost p8 = p7 + quantity_bytes((*v).liability_shares.value);
    proof {
        lemma_appended(old(out)@, p7, quantity_bytes((*v).liability_shares.value));
        assert(out@ == old(out)@ + p8);
    }
    put_number(out, v.rate_bps as u64, 2);
    let ghost p9 = p8 + le_seq((*v).rate_bps as nat, 2);
    proof {
        lemma_appended(old(out)@, p8, le_seq((*v).rate_bps as nat, 2));
        assert(out@ == old(out)@ + p9);
    }
    put_signed(out, v.start_timestamp);
    let ghost p10 = p9 + le_seq(signed_code((*v).start_timestamp), 8);
    proof {
        lemma_appended(old(out)@, p9, le_seq(signed_code((*v).start_timestamp), 8));
        assert(out@ == old(out)@ + p10);
    }
    put_signed(out, v.last_updated_slot);
    let ghost p11 = p10 + le_seq(signed_code((*v).last_updated_slot), 8);
    proof {
        lemma_appended(old(out)@, p10, le_seq(signed_code((*v).last_updated_slot), 8));
        assert(out@ == old(out)@ + p11);
    }
    proof {
        assert(p11 =~= loan_bytes(*v));
    }
}

/// Reads a loan from the bytes from `at` on; `None` where they cannot be one.
pub fn get_loan(data: &[u8], at: usize) -> (r: Option<ActiveLoan>)
    requires
        at + 69 <= data@.len(),
    ensures
        r.is_some() == loan_readable(data@, at as int),
        r.is_some() ==> loan_at(data@, at as int, r.unwrap()),
{
    let len = data.len();
    proof {
        reveal_with_fuel(le_at, 2);
    }
    let x0 = read_u64(data, at);
    let x1 = read_u32(data, at + 8);
    let x2 = read_u32(data, at + 12);
    let x3 = match read_flag(data[at + 16]) {
        Some(b) => b,
        None => { return None; },
    };
    let x4 = match LoanStatus::try_from_u8(data[at + 17]) {
        Some(e) => e,
        None => { return None; },
    };
    let x5 = match read_flag(data[at + 18]) {
        Some(b) => b,
        None => { return None; },
    };
    let x6 = get_quantity(data, at + 19);
    let x7 = get_quantity(data, at + 35);
    let x8 = read_u16(data, at + 51);
    let x9 = get_signed(data, at + 53);
    let x10 = get_signed(data, at + 61);
    Some(
        ActiveLoan {
            sequence_number: x0,
            lender_index: x1,
            borrower_index: x2,
            is_lender_global: x3,
            status: x4,
            is_liability_base_a: x5,
            collateral_shares: x6,
            liability_shares: x7,
            rate_bps: x8,
            start_timestamp: x9,
            last_updated_slot: x10,
        },
    )
}

/// A loan has 69 bytes.
pub proof fn lemma_loan_len(v: ActiveLoan)
    ensures
        loan_bytes(v).len() == 69,
{
    lemma_le_seq_len(v.sequence_number as nat, 8);
    lemma_le_seq_len(v.lender_index as nat, 4);
    lemma_le_seq_len(v.borrower_index as nat, 4);
    lemma_le_seq_len(flag_code(v.is_lender_global), 1);
    lemma_le_seq_len(status_code(v.status) as nat, 1);
    lemma_le_seq_len(flag_code(v.is_liability_base_a), 1);
    lemma_quantity_len(v.collateral_shares.value);
    lemma_quantity_len(v.liability_shares.value);
    lemma_le_seq_len(v.rate_bps as nat, 2);
    lemma_le_seq_len(signed_code(v.start_timestamp), 8);
    lemma_le_seq_len(signed_code(v.last_updated_slot), 8);
}

/// A loan is read back from its bytes.
pub proof fn lemma_loan_read_back(s: Seq<u8>, at: int, v: ActiveLoan)
    requires
        holds_at(s, at, loan_bytes(v)),
    ensures
        loan_readable(s, at),
        loan_at(s, at, v),
{
    let p0 = Seq::<u8>::empty();
    let p1 = p0 + le_seq(v.sequence_number as nat, 8);
    lemma_le_seq_len(v.sequence_number as nat, 8);
    assert(p1.len() == 8);
    let p2 = p1 + le_seq(v.lender_index as nat, 4);
    lemma_le_seq_len(v.lender_index as nat, 4);
    assert(p2.len() == 12);
    let p3 = p2 + le_seq(v.borrower_index as nat, 4);
    lemma_le_seq_len(v.borrower_index as nat, 4);
    assert(p3.len() == 16);
    let p4 = p3 + le_seq(flag_code(v.is_lender_global), 1);
    lemma_le_seq_len(flag_code(v.is_lender_global), 1);
    assert(p4.len() == 17);
    let p5 = p4 + le_seq(status_code(v.status) as nat, 1);
    lemma_le_seq_len(status_code(v.status) as nat, 1);
    assert(p5.len() == 18);
    let p6 = p5 + le_seq(flag_code(v.is_liability_base_a), 1);
    lemma_le_seq_len(flag_code(v.is_liability_base_a), 1);
    assert(p6.len() == 19);
    let p7 = p6 + quantity_bytes(v.collateral_shares.value);
    lemma_quantity_len(v.collateral_shares.value);
    assert(p7.len() == 35);
    let p8 = p7 + quantity_bytes(v.liability_shares.value);
    lemma_quantity_len(v.liability_shares.value);
    assert(p8.len() == 51);
    let p9 = p8 + le_seq(v.rate_bps as nat, 2);
    lemma_le_seq_len(v.rate_bps as nat, 2);
    assert(p9.len() == 53);
    let p10 = p9 + le_seq(signed_code(v.start_timestamp), 8);
    lemma_le_seq_len(signed_code(v.start_timestamp), 8);
    assert(p10.len() == 61);
    let p11 = p10 + le_seq(signed_code(v.last_updated_slot), 8);
    lemma_le_seq_len(signed_code(v.last_updated_slot), 8);
    assert(p11.len() == 69);
    assert(p11 =~= loan_bytes(v));
    lemma_holds_both(s, at, p10, le_seq(signed_code(v.last_updated_slot), 8));
    lemma_signed_read_back(s, at + 61, v.last_updated_slot);
    lemma_holds_both(s, at, p9, le_seq(signed_code(v.start_timestamp), 8));
    lemma_signed_read_back(s, at + 53, v.start_timestamp);
    lemma_holds_both(s, at, p8, le_seq(v.rate_bps as nat, 2));
    lemma_widths(v.rate_bps as nat);
    lemma_number_read_back(s, at + 51, v.rate_bps as nat, 2);
    lemma_holds_both(s, at, p7, quantity_bytes(v.liability_shares.value));
    lemma_quantity_read_back(s, at + 35, v.liability_shares.value);
    lemma_holds_both(s, at, p6, quantity_bytes(v.collateral_shares.value));
    lemma_quantity_read_back(s, at + 19, v.collateral_shares.value);
    lemma_holds_both(s, at, p5, le_seq(flag_code(v.is_liability_base_a), 1));
    lemma_widths(flag_code(v.is_liability_base_a));
    lemma_number_read_back(s, at + 18, flag_code(v.is_liability_base_a), 1);
    assert(le_at(s, at + 18, 1) == s[at + 18]) by {
        reveal_with_fuel(le_at, 2);
    }
    lemma_holds_both(s, at, p4, le_seq(status_code(v.status) as nat, 1));
    lemma_widths(status_code(v.status) as nat);
    lemma_number_read_back(s, at + 17, status_code(v.status) as nat, 1);
    assert(le_at(s, at + 17, 1) == s[at + 17]) by {
        reveal_with_fuel(le_at, 2);
    }
    lemma_holds_both(s, at, p3, le_seq(flag_code(v.is_lender_global), 1));
    lemma_widths(flag_code(v.is_lender_global));
    lemma_number_read_back(s, at + 16, flag_code(v.is_lender_global), 1);
    assert(le_at(s, at + 16, 1) == s[at + 16]) by {
        reveal_with_fuel(le_at, 2);
    }
    lemma_holds_both(s, at, p2, le_seq(v.borrower_index as nat, 4));
    lemma_widths(v.borrower_index as nat);
    lemma_number_read_back(s, at + 12, v.borrower_index as nat, 4);
    lemma_holds_both(s, at, p1, le_seq(v.lender_index as nat, 4));
    lemma_widths(v.lender_index as nat);
    lemma_number_read_back(s, at + 8, v.lender_index as nat, 4);
    lemma_holds_both(s, at, p0, le_seq(v.sequence_number as nat, 8));
    lemma_widths(v.sequence_number as nat);
    lemma_number_read_back(s, at, v.sequence_number as nat, 8);
}

/// Bytes say no more than one loan.
pub proof fn lemma_loan_said_once(s: Seq<u8>, at: int, v: ActiveLoan, w: ActiveLoan)
    requires
        loan_at(s, at, v),
        loan_at(s, at, w),
    ensures
        v == w,
{
}

/// The 40 bytes of a seat of a global account.
pub open spec fn trader_bytes(v: GlobalTrader) -> Seq<u8> {
    v.trader@
        + le_seq(v.deposited_atoms as nat, 8)
}

/// Whether the bytes from `at` on can be those of a seat of a global account: any bytes can.
pub open spec fn trader_readable(s: Seq<u8>, at: int) -> bool {
    true
}

/// Whether the bytes from `at` on say `v`.
pub open spec fn trader_at(s: Seq<u8>, at: int, v: GlobalTrader) -> bool {
    &&& v.trader@ == s.subrange(at, at + 32)
    &&& v.deposited_atoms == le_at(s, at + 32, 8)
}

/// Appends the bytes of a seat of a global account.
pub fn put_trader(out: &mut Vec<u8>, v: &GlobalTrader)
    ensures
        final(out)@ == old(out)@ + trader_bytes(*v),
{
    let ghost p0 = Seq::<u8>::empty();
    proof {
        assert(out@ =~= old(out)@ + p0);
    }
    put_key(out, &v.trader);
    let ghost p1 = p0 + (*v).trader@;
    proof {
        lemma_appended(old(out)@, p0, (*v).trader@);
        assert(out@ == old(out)@ + p1);
    }
    put_number(out, v.deposited_atoms, 8);
    let ghost p2 = p1 + le_seq((*v).deposited_atoms as nat, 8);
    proof {
        lemma_appended(old(out)@, p1, le_seq((*v).deposited_atoms as nat, 8));
        assert(out@ == old(out)@ + p2);
    }
    proof {
        assert(p2 =~= trader_bytes(*v));
    }
}

/// Reads a seat of a global account from the bytes from `at` on; `None` where they cannot be one.
pub fn get_trader(data: &[u8], at: usize) -> (r: Option<GlobalTrader>)
    requires
        at + 40 <= data@.len(),
    ensures
        r.is_some() == trader_readable(data@, at as int),
        r.is_some() ==> trader_at(data@, at as int, r.unwrap()),
{
    let len = data.len();
    proof {
        reveal_with_fuel(le_at, 2);
    }
    let x0 = get_key(data, at);
    let x1 = read_u64(data, at + 32);
    Some(
        GlobalTrader {
            trader: x0,
            deposited_atoms: x1,
        },
    )
}

/// A seat of a global account has 40 bytes.
pub proof fn lemma_trader_len(v: GlobalTrader)
    ensures
        trader_bytes(v).len() == 40,
{
    lemma_le_seq_len(v.deposited_atoms as nat, 8);
}

/// A seat of a global account is read back from its bytes.
pub proof fn lemma_trader_read_back(s: Seq<u8>, at: int, v: GlobalTrader)
    requires
        holds_at(s, at, trader_bytes(v)),
    ensures
        trader_readable(s, at),
        trader_at(s, at, v),
{
    let p0 = Seq::<u8>::empty();
    let p1 = p0 + v.trader@;
    assert(p1.len() == 32);
    let p2 = p1 + le_seq(v.deposited_atoms as nat, 8);
    lemma_le_seq_len(v.deposited_atoms as nat, 8);
    assert(p2.len() == 40);
    assert(p2 =~= trader_bytes(v));
    lemma_holds_both(s, at, p1, le_seq(v.deposited_atoms as nat, 8));
    lemma_widths(v.deposited_atoms as nat);
    lemma_number_read_back(s, at + 32, v.deposited_atoms as nat, 8);
    lemma_holds_both(s, at, p0, v.trader@);
}

/// Bytes say no more than one seat of a global account.
pub proof fn lemma_trader_said_once(s: Seq<u8>, at: int, v: GlobalTrader, w: GlobalTrader)
    requires
        trader_at(s, at, v),
        trader_at(s, at, w),
    ensures
        v == w,
{
    assert(v.trader =~= w.trader);
}

/// The 75 bytes of the header of a global account.
pub open spec fn global_header_bytes(v: GlobalFixed) -> Seq<u8> {
    le_seq(v.discriminant as nat, 8)
        + v.mint@
        + v.vault@
        + le_seq(v.vault_bump as nat, 1)
        + le_seq(v.num_seats_claimed as nat, 2)
}

/// Whether the bytes from `at` on can be those of the header of a global account: any bytes can.
pub open spec fn global_header_readable(s: Seq<u8>, at: int) -> bool {
    true
}

/// Whether the bytes from `at` on say `v`.
pub open spec fn global_header_at(s: Seq<u8>, at: int, v: GlobalFixed) -> bool {
    &&& v.discriminant == le_at(s, at, 8)
    &&& v.mint@ == s.subrange(at + 8, at + 40)
    &&& v.vault@ == s.subrange(at + 40, at + 72)
    &&& v.vault_bump == le_at(s, at + 72, 1)
    &&& v.num_seats_claimed == le_at(s, at + 73, 2)
}

/// Appends the bytes of the header of a global account.
pub fn put_global_header(out: &mut Vec<u8>, v: &GlobalFixed)
    ensures
        final(out)@ == old(out)@ + global_header_bytes(*v),
{
    let ghost p0 = Seq::<u8>::empty();
    proof {
        assert(out@ =~= old(out)@ + p0);
    }
    put_number(out, v.discriminant, 8);
    let ghost p1 = p0 + le_seq((*v).discriminant as nat, 8);
    proof {
        lemma_appended(old(out)@, p0, le_seq((*v).discriminant as nat, 8));
        assert(out@ == old(out)@ + p1);
    }
    put_key(out, &v.mint);
    let ghost p2 = p1 + (*v).mint@;
    proof {
        lemma_appended(old(out)@, p1, (*v).mint@);
        assert(out@ == old(out)@ + p2);
    }
    put_key(out, &v.vault);
    let ghost p3 = p2 + (*v).vault@;
    proof {
        lemma_appended(old(out)@, p2, (*v).vault@);
        assert(out@ == old(out)@ + p3);
    }
    put_number(out, v.vault_bump as u64, 1);
    let ghost p4 = p3 + le_seq((*v).vault_bump as nat, 1);
    proof {
        lemma_appended(old(out)@, p3, le_seq((*v).vault_bump as nat, 1));
        assert(out@ == old(out)@ + p4);
    }
    put_number(out, v.num_seats_claimed as u64, 2);
    let ghost p5 = p4 + le_seq((*v).num_seats_claimed as nat, 2);
    proof {
        lemma_appended(old(out)@, p4, le_seq((*v).num_seats_claimed as nat, 2));
        assert(out@ == old(out)@ + p5);
    }
    proof {
        assert(p5 =~= global_header_bytes(*v));
    }
}

/// Reads the header of a global account from the bytes from `at` on; `None` where they cannot be one.
pub fn get_global_header(data: &[u8], at: usize) -> (r: Option<GlobalFixed>)
    requires
        at + 75 <= data@.len(),
    ensures
        r.is_some() == global_header_readable(data@, at as int),
        r.is_some() ==> global_header_at(data@, at as int, r.unwrap()),
{
    let len = data.len();
    proof {
        reveal_with_fuel(le_at, 2);
    }
    let x0 = read_u64(data, at);
    let x1 = get_key(data, at + 8);
    let x2 = get_key(data, at + 40);
    let x3 = data[at + 72];
    let x4 = read_u16(data, at + 73);
    Some(
        GlobalFixed {
            discriminant: x0,
            mint: x1,
            vault: x2,
            vault_bump: x3,
            num_seats_claimed: x4,
        },
    )
}

/// The header of a global account has 75 bytes.
pub proof fn lemma_global_header_len(v: GlobalFixed)
    ensures
        global_header_bytes(v).len() == 75,
{
    lemma_le_seq_len(v.discriminant as nat, 8);
    lemma_le_seq_len(v.vault_bump as nat, 1);
    lemma_le_seq_len(v.num_seats_claimed as nat, 2);
}

/// The header of a global account is read back from its bytes.
pub proof fn lemma_global_header_read_back(s: Seq<u8>, at: int, v: GlobalFixed)
    requires
        holds_at(s, at, global_header_bytes(v)),
    ensures
        global_header_readable(s, at),
        global_header_at(s, at, v),
{
    let p0 = Seq::<u8>::empty();
    let p1 = p0 + le_seq(v.discriminant as nat, 8);
    lemma_le_seq_len(v.discriminant as nat, 8);
    assert(p1.len() == 8);
    let p2 = p1 + v.mint@;
    assert(p2.len() == 40);
    let p3 = p2 + v.vault@;
    assert(p3.len() == 72);
    let p4 = p3 + le_seq(v.vault_bump as nat, 1);
    lemma_le_seq_len(v.vault_bump as nat, 1);
    assert(p4.len() == 73);
    let p5 = p4 + le_seq(v.num_seats_claimed as nat, 2);
    lemma_le_seq_len(v.num_seats_claimed as nat, 2);
    assert(p5.len() == 75);
    assert(p5 =~= global_header_bytes(v));
    lemma_holds_both(s, at, p4, le_seq(v.num_seats_claimed as nat, 2));
    lemma_widths(v.num_seats_claimed as nat);
    lemma_number_read_back(s, at + 73, v.num_seats_claimed as nat, 2);
    lemma_holds_both(s, at, p3, le_seq(v.vault_bump as nat, 1));
    lemma_widths(v.vault_bump as nat);
    lemma_number_read_back(s, at + 72, v.vault_bump as nat, 1);
    assert(le_at(s, at + 72, 1) == s[at + 72]) by {
        reveal_with_fuel(le_at, 2);
    }
    lemma_holds_both(s, at, p2, v.vault@);
    lemma_holds_both(s, at, p1, v.mint@);
    lemma_holds_both(s, at, p0, le_seq(v.discriminant as nat, 8));
    lemma_widths(v.discriminant as nat);
    lemma_number_read_back(s, at, v.discriminant as nat, 8);
}

/// Bytes say no more than one header of a global account.
pub proof fn lemma_global_header_said_once(s: Seq<u8>, at: int, v: GlobalFixed, w: GlobalFixed)
    requires
        global_header_at(s, at, v),
        global_header_at(s, at, w),
    ensures
        v == w,
{
    assert(v.mint =~= w.mint);
    assert(v.vault =~= w.vault);
}

/// The 68 bytes of the header of a ledger.
pub open spec fn ledger_header_bytes(v: MarketLoansFixed) -> Seq<u8> {
    le_seq(v.discriminant as nat, 8)
        + v.market@
        + le_seq(v.loan_sequence_number as nat, 8)
        + le_seq(v.active_loans_root_index as nat, 4)
        + le_seq(v.free_list_head_index as nat, 4)
        + le_seq(v.num_bytes_allocated as nat, 4)
        + le_seq(v.num_active_loans as nat, 8)
}

/// Whether the bytes from `at` on can be those of the header of a ledger: any bytes can.
pub open spec fn ledger_header_readable(s: Seq<u8>, at: int) -> bool {
    true
}

/// Whether the bytes from `at` on say `v`.
pub open spec fn ledger_header_at(s: Seq<u8>, at: int, v: MarketLoansFixed) -> bool {
    &&& v.discriminant == le_at(s, at, 8)
    &&& v.market@ == s.subrange(at + 8, at + 40)
    &&& v.loan_sequence_number == le_at(s, at + 40, 8)
    &&& v.active_loans_root_index == le_at(s, at + 48, 4)
    &&& v.free_list_head_index == le_at(s, at + 52, 4)
    &&& v.num_bytes_allocated == le_at(s, at + 56, 4)
    &&& v.num_active_loans == le_at(s, at + 60, 8)
}

/// Appends the bytes of the header of a ledger.
pub fn put_ledger_header(out: &mut Vec<u8>, v: &MarketLoansFixed)
    ensures
        final(out)@ == old(out)@ + ledger_header_bytes(*v),
{
    let ghost p0 = Seq::<u8>::empty();
    proof {
        assert(out@ =~= old(out)@ + p0);
    }
    put_number(out, v.discriminant, 8);
    let ghost p1 = p0 + le_seq((*v).discriminant as nat, 8);
    proof {
        lemma_appended(old(out)@, p0, le_seq((*v).discriminant as nat, 8));
        assert(out@ == old(out)@ + p1);
    }
    put_key(out, &v.market);
    let ghost p2 = p1 + (*v).market@;
    proof {
        lemma_appended(old(out)@, p1, (*v).market@);
        assert(out@ == old(out)@ + p2);
    }
    put_number(out, v.loan_sequence_number, 8);
    let ghost p3 = p2 + le_seq((*v).loan_sequence_number as nat, 8);
    proof {
        lemma_appended(old(out)@, p2, le_seq((*v).loan_sequence_number as nat, 8));
        assert(out@ == old(out)@ + p3);
    }
    put_number(out, v.active_loans_root_index as u64, 4);
    let ghost p4 = p3 + le_seq((*v).active_loans_root_index as nat, 4);
    proof {
        lemma_appended(old(out)@, p3, le_seq((*v).active_loans_root_index as nat, 4));
        assert(out@ == old(out)@ + p4);
    }
    put_number(out, v.free_list_head_index as u64, 4);
    let ghost p5 = p4 + le_seq((*v).free_list_head_index as nat, 4);
    proof {
        lemma_appended(old(out)@, p4, le_seq((*v).free_list_head_index as nat, 4));
        assert(out@ == old(out)@ + p5);
    }
    put_number(out, v.num_bytes_allocated as u64, 4);
    let ghost p6 = p5 + le_seq((*v).num_bytes_allocated as nat, 4);
    proof {
        lemma_appended(old(out)@, p5, le_seq((*v).num_bytes_allocated as nat, 4));
        assert(out@ == old(out)@ + p6);
    }
    put_number(out, v.num_active_loans, 8);
    let ghost p7 = p6 + le_seq((*v).num_active_loans as nat, 8);
    proof {
        lemma_appended(old(out)@, p6, le_seq((*v).num_active_loans as nat, 8));
        assert(out@ == old(out)@ + p7);
    }
    proof {
        assert(p7 =~= ledger_header_bytes(*v));
    }
}

/// Reads the header of a ledger from the bytes from `at` on; `None` where they cannot be one.
pub fn get_ledger_header(data: &[u8], at: usize) -> (r: Option<MarketLoansFixed>)
    requires
        at + 68 <= data@.len(),
    ensures
        r.is_some() == ledger_header_readable(data@, at as int),
        r.is_some() ==> ledger_header_at(data@, at as int, r.unwrap()),
{
    let len = data.len();
    proof {
        reveal_with_fuel(le_at, 2);
    }
    let x0 = read_u64(data, at);
    let x1 = get_key(data, at + 8);
    let x2 = read_u64(data, at + 40);
    let x3 = read_u32(data, at + 48);
    let x4 = read_u32(data, at + 52);
    let x5 = read_u32(data, at + 56);
    let x6 = read_u64(data, at + 60);
    Some(
        MarketLoansFixed {
            discriminant: x0,
            market: x1,
            loan_sequence_number: x2,
            active_loans_root_index: x3,
            free_list_head_index: x4,
            num_bytes_allocated: x5,
            num_active_loans: x6,
        },
    )
}

/// The header of a ledger has 68 bytes.
pub proof fn lemma_ledger_header_len(v: MarketLoansFixed)
    ensures
        ledger_header_bytes(v).len() == 68,
{
    lemma_le_seq_len(v.discriminant as nat, 8);
    lemma_le_seq_len(v.loan_sequence_number as nat, 8);
    lemma_le_seq_len(v.active_loans_root_index as nat, 4);
    lemma_le_seq_len(v.free_list_head_index as nat, 4);
    lemma_le_seq_len(v.num_bytes_allocated as nat, 4);
    lemma_le_seq_len(v.num_active_loans as nat, 8);
}

/// The header of a ledger is read back from its bytes.
pub proof fn lemma_ledger_header_read_back(s: Seq<u8>, at: int, v: MarketLoansFixed)
    requires
        holds_at(s, at, ledger_header_bytes(v)),
    ensures
        ledger_header_readable(s, at),
        ledger_header_at(s, at, v),
{
    let p0 = Seq::<u8>::empty();
    let p1 = p0 + le_seq(v.discriminant as nat, 8);
    lemma_le_seq_len(v.discriminant as nat, 8);
    assert(p1.len() == 8);
    let p2 = p1 + v.market@;
    assert(p2.len() == 40);
    let p3 = p2 + le_seq(v.loan_sequence_number as nat, 8);
    lemma_le_seq_len(v.loan_sequence_number as nat, 8);
    assert(p3.len() == 48);
    let p4 = p3 + le_seq(v.active_loans_root_index as nat, 4);
    lemma_le_seq_len(v.active_loans_root_index as nat, 4);
    assert(p4.len() == 52);
    let p5 = p4 + le_seq(v.free_list_head_index as nat, 4);
    lemma_le_seq_len(v.free_list_head_index as nat, 4);
    assert(p5.len() == 56);
    let p6 = p5 + le_seq(v.num_bytes_allocated as nat, 4);
    lemma_le_seq_len(v.num_bytes_allocated as nat, 4);
    assert(p6.len() == 60);
    let p7 = p6 + le_seq(v.num_active_loans as nat, 8);
    lemma_le_seq_len(v.num_active_loans as nat, 8);
    assert(p7.len() == 68);
    assert(p7 =~= ledger_header_bytes(v));
    lemma_holds_both(s, at, p6, le_seq(v.num_active_loans as nat, 8));
    lemma_widths(v.num_active_loans as nat);
    lemma_number_read_back(s, at + 60, v.num_active_loans as nat, 8);
    lemma_holds_both(s, at, p5, le_seq(v.num_bytes_allocated as nat, 4));
    lemma_widths(v.num_bytes_allocated as nat);
    lemma_number_read_back(s, at + 56, v.num_bytes_allocated as nat, 4);
    lemma_holds_both(s, at, p4, le_seq(v.free_list_head_index as nat, 4));
    lemma_widths(v.free_list_head_index as nat);
    lemma_number_read_back(s, at + 52, v.free_list_head_index as nat, 4);
    lemma_holds_both(s, at, p3, le_seq(v.active_loans_root_index as nat, 4));
    lemma_widths(v.active_loans_root_index as nat);
    lemma_number_read_back(s, at + 48, v.active_loans_root_index as nat, 4);
    lemma_holds_both(s, at, p2, le_seq(v.loan_sequence_number as nat, 8));
    lemma_widths(v.loan_sequence_number as nat);
    lemma_number_read_back(s, at + 40, v.loan_sequence_number as nat, 8);
    lemma_holds_both(s, at, p1, v.market@);
    lemma_holds_both(s, at, p0, le_seq(v.discriminant as nat, 8));
    lemma_widths(v.discriminant as nat);
    lemma_number_read_back(s, at, v.discriminant as nat, 8);
}

/// Bytes say no more than one header of a ledger.
pub proof fn lemma_ledger_header_said_once(s: Seq<u8>, at: int, v: MarketLoansFixed, w: MarketLoansFixed)
    requires
        ledger_header_at(s, at, v),
        ledger_header_at(s, at, w),
    ensures
        v == w,
{
    assert(v.market =~= w.market);
}

/// The 600 bytes of the header of a market.
pub open spec fn market_header_bytes(v: MarketFixed) -> Seq<u8> {
    le_seq(v.discriminant as nat, 8)
        + le_seq(v.version as nat, 1)
        + le_seq(v.base_a_mint_decimals as nat, 1)
        + le_seq(v.base_b_mint_decimals as nat, 1)
        + le_seq(v.market_state as nat, 1)
        + v.base_a_mint@
        + v.base_b_mint@
        + v.base_a_vault@
        + v.base_b_vault@
        + le_seq(v.base_a_order_sequence_number as nat, 8)
        + le_seq(v.base_b_order_sequence_number as nat, 8)
        + le_seq(v.num_bytes_allocated as nat, 4)
        + le_seq(v.base_a_bids_root_index as nat, 4)
        + le_seq(v.base_a_bids_best_index as nat, 4)
        + le_seq(v.base_b_bids_root_index as nat, 4)
        + le_seq(v.base_b_bids_best_index as nat, 4)
        + le_seq(v.base_a_asks_root_index as nat, 4)
        + le_seq(v.base_a_asks_best_index as nat, 4)
        + le_seq(v.base_b_asks_root_index as nat, 4)
        + le_seq(v.base_b_asks_best_index as nat, 4)
        + le_seq(v.claimed_seats_root_index as nat, 4)
        + le_seq(v.free_list_head_index as nat, 4)
        + v.base_a_marginfi_group@
        + v.base_a_marginfi_bank@
        + v.base_a_marginfi_account@
        + v.base_b_marginfi_group@
        + v.base_b_marginfi_bank@
        + v.base_b_marginfi_account@
        + le_seq(v.fee_state.protocol_fee_rate_bps as nat, 8)
        + le_seq(v.fee_state.ltv_buffer_bps as nat, 8)
        + v.fee_state.base_a_fee_receiver@
        + v.fee_state.base_b_fee_receiver@
        + v.fee_state.admin@
        + quantity_bytes(v.base_a_match_volume.value)
        + quantity_bytes(v.base_b_match_volume.value)
        + quantity_bytes(v.base_a_marginfi_account_asset_shares.value)
        + quantity_bytes(v.base_a_marginfi_account_liability_shares.value)
        + quantity_bytes(v.base_b_marginfi_account_shares.value)
        + quantity_bytes(v.base_b_marginfi_account_liability_shares.value)
}

/// Whether the bytes from `at` on can be those of the header of a market: any bytes can.
pub open spec fn market_header_readable(s: Seq<u8>, at: int) -> bool {
    true
}

/// Whether the bytes from `at` on say `v`.
pub open spec fn market_header_at(s: Seq<u8>, at: int, v: MarketFixed) -> bool {
    &&& v.discriminant == le_at(s, at, 8)
    &&& v.version == le_at(s, at + 8, 1)
    &&& v.base_a_mint_decimals == le_at(s, at + 9, 1)
    &&& v.base_b_mint_decimals == le_at(s, at + 10, 1)
    &&& v.market_state == le_at(s, at + 11, 1)
    &&& v.base_a_mint@ == s.subrange(at + 12, at + 44)
    &&& v.base_b_mint@ == s.subrange(at + 44, at + 76)
    &&& v.base_a_vault@ == s.subrange(at + 76, at + 108)
    &&& v.base_b_vault@ == s.subrange(at + 108, at + 140)
    &&& v.base_a_order_sequence_number == le_at(s, at + 140, 8)
    &&& v.base_b_order_sequence_number == le_at(s, at + 148, 8)
    &&& v.num_bytes_allocated == le_at(s, at + 156, 4)
    &&& v.base_a_bids_root_index == le_at(s, at + 160, 4)
    &&& v.base_a_bids_best_index == le_at(s, at + 164, 4)
    &&& v.base_b_bids_root_index == le_at(s, at + 168, 4)
    &&& v.base_b_bids_best_index == le_at(s, at + 172, 4)
    &&& v.base_a_asks_root_index == le_at(s, at + 176, 4)
    &&& v.base_a_asks_best_index == le_at(s, at + 180, 4)
    &&& v.base_b_asks_root_index == le_at(s, at + 184, 4)
    &&& v.base_b_asks_best_index == le_at(s, at + 188, 4)
    &&& v.claimed_seats_root_index == le_at(s, at + 192, 4)
    &&& v.free_list_head_index == le_at(s, at + 196, 4)
    &&& v.base_a_marginfi_group@ == s.subrange(at + 200, at + 232)
    &&& v.base_a_marginfi_bank@ == s.subrange(at + 232, at + 264)
    &&& v.base_a_marginfi_account@ == s.subrange(at + 264, at + 296)
    &&& v.base_b_marginfi_group@ == s.subrange(at + 296, at + 328)
    &&& v.base_b_marginfi_bank@ == s.subrange(at + 328, at + 360)
    &&& v.base_b_marginfi_account@ == s.subrange(at + 360, at + 392)
    &&& v.fee_state.protocol_fee_rate_bps == le_at(s, at + 392, 8)
    &&& v.fee_state.ltv_buffer_bps == le_at(s, at + 400, 8)
    &&& v.fee_state.base_a_fee_receiver@ == s.subrange(at + 408, at + 440)
    &&& v.fee_state.base_b_fee_receiver@ == s.subrange(at + 440, at + 472)
    &&& v.fee_state.admin@ == s.subrange(at + 472, at + 504)
    &&& v.base_a_match_volume.value == quantity_of(le_at(s, at + 504, 8), le_at(s, at + 512, 8))
    &&& v.base_b_match_volume.value == quantity_of(le_at(s, at + 520, 8), le_at(s, at + 528, 8))
    &&& v.base_a_marginfi_account_asset_shares.value == quantity_of(le_at(s, at + 536, 8), le_at(s, at + 544, 8))
    &&& v.base_a_marginfi_account_liability_shares.value == quantity_of(le_at(s, at + 552, 8), le_at(s, at + 560, 8))
    &&& v.base_b_marginfi_account_shares.value == quantity_of(le_at(s, at + 568, 8), le_at(s, at + 576, 8))
    &&& v.base_b_marginfi_account_liability_shares.value == quantity_of(le_at(s, at + 584, 8), le_at(s, at + 592, 8))
}

/// Appends the bytes of the header of a market.
pub fn put_market_header(out: &mut Vec<u8>, v: &MarketFixed)
    ensures
        final(out)@ == old(out)@ + market_header_bytes(*v),
{
    let ghost p0 = Seq::<u8>::empty();
    proof {
        assert(out@ =~= old(out)@ + p0);
    }
    put_number(out, v.discriminant, 8);
    let ghost p1 = p0 + le_seq((*v).discriminant as nat, 8);
    proof {
        lemma_appended(old(out)@, p0, le_seq((*v).discriminant as nat, 8));
        assert(out@ == old(out)@ + p1);
    }
    put_number(out, v.version as u64, 1);
    let ghost p2 = p1 + le_seq((*v).version as nat, 1);
    proof {
        lemma_appended(old(out)@, p1, le_seq((*v).version as nat, 1));
        assert(out@ == old(out)@ + p2);
    }
    put_number(out, v.base_a_mint_decimals as u64, 1);
    let ghost p3 = p2 + le_seq((*v).base_a_mint_decimals as nat, 1);
    proof {
        lemma_appended(old(out)@, p2, le_seq((*v).base_a_mint_decimals as nat, 1));
        assert(out@ == old(out)@ + p3);
    }
    put_number(out, v.base_b_mint_decimals as u64, 1);
    let ghost p4 = p3 + le_seq((*v).base_b_mint_decimals as nat, 1);
    proof {
        lemma_appended(old(out)@, p3, le_seq((*v).base_b_mint_decimals as nat, 1));
        assert(out@ == old(out)@ + p4);
    }
    put_number(out, v.market_state as u64, 1);
    let ghost p5 = p4 + le_seq((*v).market_state as nat, 1);
    proof {
        lemma_appended(old(out)@, p4, le_seq((*v).market_state as nat, 1));
        assert(out@ == old(out)@ + p5);
    }
    put_key(out, &v.base_a_mint);
    let ghost p6 = p5 + (*v).base_a_mint@;
    proof {
        lemma_appended(old(out)@, p5, (*v).base_a_mint@);
        assert(out@ == old(out)@ + p6);
    }
    put_key(out, &v.base_b_mint);
    let ghost p7 = p6 + (*v).base_b_mint@;
    proof {
        lemma_appended(old(out)@, p6, (*v).base_b_mint@);
        assert(out@ == old(out)@ + p7);
    }
    put_key(out, &v.base_a_vault);
    let ghost p8 = p7 + (*v).base_a_vault@;
    proof {
        lemma_appended(old(out)@, p7, (*v).base_a_vault@);
        assert(out@ == old(out)@ + p8);
    }
    put_key(out, &v.base_b_vault);
    let ghost p9 = p8 + (*v).base_b_vault@;
    proof {
        lemma_appended(old(out)@, p8, (*v).base_b_vault@);
        assert(out@ == old(out)@ + p9);
    }
    put_number(out, v.base_a_order_sequence_number, 8);
    let ghost p10 = p9 + le_seq((*v).base_a_order_sequence_number as nat, 8);
    proof {
        lemma_appended(old(out)@, p9, le_seq((*v).base_a_order_sequence_number as nat, 8));
        assert(out@ == old(out)@ + p10);
    }
    put_number(out, v.base_b_order_sequence_number, 8);
    let ghost p11 = p10 + le_seq((*v).base_b_order_sequence_number as nat, 8);
    proof {
        lemma_appended(old(out)@, p10, le_seq((*v).base_b_order_sequence_number as nat, 8));
        assert(out@ == old(out)@ + p11);
    }
    put_number(out, v.num_bytes_allocated as u64, 4);
    let ghost p12 = p11 + le_seq((*v).num_bytes_allocated as nat, 4);
    proof {
        lemma_appended(old(out)@, p11, le_seq((*v).num_bytes_allocated as nat, 4));
        assert(out@ == old(out)@ + p12);
    }
    put_number(out, v.base_a_bids_root_index as u64, 4);
    let ghost p13 = p12 + le_seq((*v).base_a_bids_root_index as nat, 4);
    proof {
        lemma_appended(old(out)@, p12, le_seq((*v).base_a_bids_root_index as nat, 4));
        assert(out@ == old(out)@ + p13);
    }
    put_number(out, v.base_a_bids_best_index as u64, 4);
    let ghost p14 = p13 + le_seq((*v).base_a_bids_best_index as nat, 4);
    proof {
        lemma_appended(old(out)@, p13, le_seq((*v).base_a_bids_best_index as nat, 4));
        assert(out@ == old(out)@ + p14);
    }
    put_number(out, v.base_b_bids_root_index as u64, 4);
    let ghost p15 = p14 + le_seq((*v).base_b_bids_root_index as nat, 4);
    proof {
        lemma_appended(old(out)@, p14, le_seq((*v).base_b_bids_root_index as nat, 4));
        assert(out@ == old(out)@ + p15);
    }
    put_number(out, v.base_b_bids_best_index as u64, 4);
    let ghost p16 = p15 + le_seq((*v).base_b_bids_best_index as nat, 4);
    proof {
        lemma_appended(old(out)@, p15, le_seq((*v).base_b_bids_best_index as nat, 4));
        assert(out@ == old(out)@ + p16);
    }
    put_number(out, v.base_a_asks_root_index as u64, 4);
    let ghost p17 = p16 + le_seq((*v).base_a_asks_root_index as nat, 4);
    proof {
        lemma_appended(old(out)@, p16, le_seq((*v).base_a_asks_root_index as nat, 4));
        assert(out@ == old(out)@ + p17);
    }
    put_number(out, v.base_a_asks_best_index as u64, 4);
    let ghost p18 = p17 + le_seq((*v).base_a_asks_best_index as nat, 4);
    proof {
        lemma_appended(old(out)@, p17, le_seq((*v).base_a_asks_best_index as nat, 4));
        assert(out@ == old(out)@ + p18);
    }
    put_number(out, v.base_b_asks_root_index as u64, 4);
    let ghost p19 = p18 + le_seq((*v).base_b_asks_root_index as nat, 4);
    proof {
        lemma_appended(old(out)@, p18, le_seq((*v).base_b_asks_root_index as nat, 4));
        assert(out@ == old(out)@ + p19);
    }
    put_number(out, v.base_b_asks_best_index as u64, 4);
    let ghost p20 = p19 + le_seq((*v).base_b_asks_best_index as nat, 4);
    proof {
        lemma_appended(old(out)@, p19, le_seq((*v).base_b_asks_best_index as nat, 4));
        assert(out@ == old(out)@ + p20);
    }
    put_number(out, v.claimed_seats_root_index as u64, 4);
    let ghost p21 = p20 + le_seq((*v).claimed_seats_root_index as nat, 4);
    proof {
        lemma_appended(old(out)@, p20, le_seq((*v).claimed_seats_root_index as nat, 4));
        assert(out@ == old(out)@ + p21);
    }
    put_number(out, v.free_list_head_index as u64, 4);
    let ghost p22 = p21 + le_seq((*v).free_list_head_index as nat, 4);
    proof {
        lemma_appended(old(out)@, p21, le_seq((*v).free_list_head_index as nat, 4));
        assert(out@ == old(out)@ + p22);
    }
    put_key(out, &v.base_a_marginfi_group);
    let ghost p23 = p22 + (*v).base_a_marginfi_group@;
    proof {
        lemma_appended(old(out)@, p22, (*v).base_a_marginfi_group@);
        assert(out@ == old(out)@ + p23);
    }
    put_key(out, &v.base_a_marginfi_bank);
    let ghost p24 = p23 + (*v).base_a_marginfi_bank@;
    proof {
        lemma_appended(old(out)@, p23, (*v).base_a_marginfi_bank@);
        assert(out@ == old(out)@ + p24);
    }
    put_key(out, &v.base_a_marginfi_account);
    let ghost p25 = p24 + (*v).base_a_marginfi_account@;
    proof {
        lemma_appended(old(out)@, p24, (*v).base_a_marginfi_account@);
        assert(out@ == old(out)@ + p25);
    }
    put_key(out, &v.base_b_marginfi_group);
    let ghost p26 = p25 + (*v).base_b_marginfi_group@;
    proof {
        lemma_appended(old(out)@, p25, (*v).base_b_marginfi_group@);
        assert(out@ == old(out)@ + p26);
    }
    put_key(out, &v.base_b_marginfi_bank);
    let ghost p27 = p26 + (*v).base_b_marginfi_bank@;
    proof {
        lemma_appended(old(out)@, p26, (*v).base_b_marginfi_bank@);
        assert(out@ == old(out)@ + p27);
    }
    put_key(out, &v.base_b_marginfi_account);
    let ghost p28 = p27 + (*v).base_b_marginfi_account@;
    proof {
        lemma_appended(old(out)@, p27, (*v).base_b_marginfi_account@);
        assert(out@ == old(out)@ + p28);
    }
    put_number(out, v.fee_state.protocol_fee_rate_bps, 8);
    let ghost p29 = p28 + le_seq((*v).fee_state.protocol_fee_rate_bps as nat, 8);
    proof {
        lemma_appended(old(out)@, p28, le_seq((*v).fee_state.protocol_fee_rate_bps as nat, 8));
        assert(out@ == old(out)@ + p29);
    }
    put_number(out, v.fee_state.ltv_buffer_bps, 8);
    let ghost p30 = p29 + le_seq((*v).fee_state.ltv_buffer_bps as nat, 8);
    proof {
        lemma_appended(old(out)@, p29, le_seq((*v).fee_state.ltv_buffer_bps as nat, 8));
        assert(out@ == old(out)@ + p30);
    }
    put_key(out, &v.fee_state.base_a_fee_receiver);
    let ghost p31 = p30 + (*v).fee_state.base_a_fee_receiver@;
    proof {
        lemma_appended(old(out)@, p30, (*v).fee_state.base_a_fee_receiver@);
        assert(out@ == old(out)@ + p31);
    }
    put_key(out, &v.fee_state.base_b_fee_receiver);
    let ghost p32 = p31 + (*v).fee_state.base_b_fee_receiver@;
    proof {
        lemma_appended(old(out)@, p31, (*v).fee_state.base_b_fee_receiver@);
        assert(out@ == old(out)@ + p32);
    }
    put_key(out, &v.fee_state.admin);
    let ghost p33 = p32 + (*v).fee_state.admin@;
    proof {
        lemma_appended(old(out)@, p32, (*v).fee_state.admin@);
        assert(out@ == old(out)@ + p33);
    }
    put_quantity(out, &v.base_a_match_volume);
    let ghost p34 = p33 + quantity_bytes((*v).base_a_match_volume.value);
    proof {
        lemma_appended(old(out)@, p33, quantity_bytes((*v).base_a_match_volume.value));
        assert(out@ == old(out)@ + p34);
    }
    put_quantity(out, &v.base_b_match_volume);
    let ghost p35 = p34 + quantity_bytes((*v).base_b_match_volume.value);
    proof {
        lemma_appended(old(out)@, p34, quantity_bytes((*v).base_b_match_volume.value));
        assert(out@ == old(out)@ + p35);
    }
    put_quantity(out, &v.base_a_marginfi_account_asset_shares);
    let ghost p36 = p35 + quantity_bytes((*v).base_a_marginfi_account_asset_shares.value);
    proof {
        lemma_appended(old(out)@, p35, quantity_bytes((*v).base_a_marginfi_account_asset_shares.value));
        assert(out@ == old(out)@ + p36);
    }
    put_quantity(out, &v.base_a_marginfi_account_liability_shares);
    let ghost p37 = p36 + quantity_bytes((*v).base_a_marginfi_account_liability_shares.value);
    proof {
        lemma_appended(old(out)@, p36, quantity_bytes((*v).base_a_marginfi_account_liability_shares.value));
        assert(out@ == old(out)@ + p37);
    }
    put_quantity(out, &v.base_b_marginfi_account_shares);
    let ghost p38 = p37 + quantity_bytes((*v).base_b_marginfi_account_shares.value);
    proof {
        lemma_appended(old(out)@, p37, quantity_bytes((*v).base_b_marginfi_account_shares.value));
        assert(out@ == old(out)@ + p38);
    }
    put_quantity(out, &v.base_b_marginfi_account_liability_shares);
    let ghost p39 = p38 + quantity_bytes((*v).base_b_marginfi_account_liability_shares.value);
    proof {
        lemma_appended(old(out)@, p38, quantity_bytes((*v).base_b_marginfi_account_liability_shares.value));
        assert(out@ == old(out)@ + p39);
    }
    proof {
        assert(p39 =~= market_header_bytes(*v));
    }
}

/// Reads the header of a market from the bytes from `at` on; `None` where they cannot be one.
pub fn get_market_header(data: &[u8], at: usize) -> (r: Option<MarketFixed>)
    requires
        at + 600 <= data@.len(),
    ensures
        r.is_some() == market_header_readable(data@, at as int),
        r.is_some() ==> market_header_at(data@, at as int, r.unwrap()),
{
    let len = data.len();
    proof {
        reveal_with_fuel(le_at, 2);
    }
    let x0 = read_u64(data, at);
    let x1 = data[at + 8];
    let x2 = data[at + 9];
    let x3 = data[at + 10];
    let x4 = data[at + 11];
    let x5 = get_key(data, at + 12);
    let x6 = get_key(data, at + 44);
    let x7 = get_key(data, at + 76);
    let x8 = get_key(data, at + 108);
    let x9 = read_u64(data, at + 140);
    let x10 = read_u64(data, at + 148);
    let x11 = read_u32(data, at + 156);
    let x12 = read_u32(data, at + 160);
    let x13 = read_u32(data, at + 164);
    let x14 = read_u32(data, at + 168);
    let x15 = read_u32(data, at + 172);
    let x16 = read_u32(data, at + 176);
    let x17 = read_u32(data, at + 180);
    let x18 = read_u32(data, at + 184);
    let x19 = read_u32(data, at + 188);
    let x20 = read_u32(data, at + 192);
    let x21 = read_u32(data, at + 196);
    let x22 = get_key(data, at + 200);
    let x23 = get_key(data, at + 232);
    let x24 = get_key(data, at + 264);
    let x25 = get_key(data, at + 296);
    let x26 = get_key(data, at + 328);
    let x27 = get_key(data, at + 360);
    let x28 = read_u64(data, at + 392);
    let x29 = read_u64(data, at + 400);
    let x30 = get_key(data, at + 408);
    let x31 = get_key(data, at + 440);
    let x32 = get_key(data, at + 472);
    let x33 = get_quantity(data, at + 504);
    let x34 = get_quantity(data, at + 520);
    let x35 = get_quantity(data, at + 536);
    let x36 = get_quantity(data, at + 552);
    let x37 = get_quantity(data, at + 568);
    let x38 = get_quantity(data, at + 584);
    Some(
        MarketFixed {
            discriminant: x0,
            version: x1,
            base_a_mint_decimals: x2,
            base_b_mint_decimals: x3,
            market_state: x4,
            base_a_mint: x5,
            base_b_mint: x6,
            base_a_vault: x7,
            base_b_vault: x8,
            base_a_order_sequence_number: x9,
            base_b_order_sequence_number: x10,
            num_bytes_allocated: x11,
            base_a_bids_root_index: x12,
            base_a_bids_best_index: x13,
            base_b_bids_root_index: x14,
            base_b_bids_best_index: x15,
            base_a_asks_root_index: x16,
            base_a_asks_best_index: x17,
            base_b_asks_root_index: x18,
            base_b_asks_best_index: x19,
            claimed_seats_root_index: x20,
            free_list_head_index: x21,
            base_a_marginfi_group: x22,
            base_a_marginfi_bank: x23,
            base_a_marginfi_account: x24,
            base_b_marginfi_group: x25,
            base_b_marginfi_bank: x26,
            base_b_marginfi_account: x27,
            fee_state: FeeState {
                protocol_fee_rate_bps: x28,
                ltv_buffer_bps: x29,
                base_a_fee_receiver: x30,
                base_b_fee_receiver: x31,
                admin: x32,
            },
            base_a_match_volume: x33,
            base_b_match_volume: x34,
            base_a_marginfi_account_asset_shares: x35,
            base_a_marginfi_account_liability_shares: x36,
            base_b_marginfi_account_shares: x37,
            base_b_marginfi_account_liability_shares: x38,
        },
    )
}

/// The header of a market has 600 bytes.
pub proof fn lemma_market_header_len(v: MarketFixed)
    ensures
        market_header_bytes(v).len() == 600,
{
    lemma_le_seq_len(v.discriminant as nat, 8);
    lemma_le_seq_len(v.version as nat, 1);
    lemma_le_seq_len(v.base_a_mint_decimals as nat, 1);
    lemma_le_seq_len(v.base_b_mint_decimals as nat, 1);
    lemma_le_seq_len(v.market_state as nat, 1);
    lemma_le_seq_len(v.base_a_order_sequence_number as nat, 8);
    lemma_le_seq_len(v.base_b_order_sequence_number as nat, 8);
    lemma_le_seq_len(v.num_bytes_allocated as nat, 4);
    lemma_le_seq_len(v.base_a_bids_root_index as nat, 4);
    lemma_le_seq_len(v.base_a_bids_best_index as nat, 4);
    lemma_le_seq_len(v.base_b_bids_root_index as nat, 4);
    lemma_le_seq_len(v.base_b_bids_best_index as nat, 4);
    lemma_le_seq_len(v.base_a_asks_root_index as nat, 4);
    lemma_le_seq_len(v.base_a_asks_best_index as nat, 4);
    lemma_le_seq_len(v.base_b_asks_root_index as nat, 4);
    lemma_le_seq_len(v.base_b_asks_best_index as nat, 4);
    lemma_le_seq_len(v.claimed_seats_root_index as nat, 4);
    lemma_le_seq_len(v.free_list_head_index as nat, 4);
    lemma_le_seq_len(v.fee_state.protocol_fee_rate_bps as nat, 8);
    lemma_le_seq_len(v.fee_state.ltv_buffer_bps as nat, 8);
    lemma_quantity_len(v.base_a_match_volume.value);
    lemma_quantity_len(v.base_b_match_volume.value);
    lemma_quantity_len(v.base_a_marginfi_account_asset_shares.value);
    lemma_quantity_len(v.base_a_marginfi_account_liability_shares.value);
    lemma_quantity_len(v.base_b_marginfi_account_shares.value);
    lemma_quantity_len(v.base_b_marginfi_account_liability_shares.value);
}

/// The header of a market is read back from its bytes.
pub proof fn lemma_market_header_read_back(s: Seq<u8>, at: int, v: MarketFixed)
    requires
        holds_at(s, at, market_header_bytes(v)),
    ensures
        market_header_readable(s, at),
        market_header_at(s, at, v),
{
    let p0 = Seq::<u8>::empty();
    let p1 = p0 + le_seq(v.discriminant as nat, 8);
    lemma_le_seq_len(v.discriminant as nat, 8);
    assert(p1.len() == 8);
    let p2 = p1 + le_seq(v.version as nat, 1);
    lemma_le_seq_len(v.version as nat, 1);
    assert(p2.len() == 9);
    let p3 = p2 + le_seq(v.base_a_mint_decimals as nat, 1);
    lemma_le_seq_len(v.base_a_mint_decimals as nat, 1);
    assert(p3.len() == 10);
    let p4 = p3 + le_seq(v.base_b_mint_decimals as nat, 1);
    lemma_le_seq_len(v.base_b_mint_decimals as nat, 1);
    assert(p4.len() == 11);
    let p5 = p4 + le_seq(v.market_state as nat, 1);
    lemma_le_seq_len(v.market_state as nat, 1);
    assert(p5.len() == 12);
    let p6 = p5 + v.base_a_mint@;
    assert(p6.len() == 44);
    let p7 = p6 + v.base_b_mint@;
    assert(p7.len() == 76);
    let p8 = p7 + v.base_a_vault@;
    assert(p8.len() == 108);
    let p9 = p8 + v.base_b_vault@;
    assert(p9.len() == 140);
    let p10 = p9 + le_seq(v.base_a_order_sequence_number as nat, 8);
    lemma_le_seq_len(v.base_a_order_sequence_number as nat, 8);
    assert(p10.len() == 148);
    let p11 = p10 + le_seq(v.base_b_order_sequence_number as nat, 8);
    lemma_le_seq_len(v.base_b_order_sequence_number as nat, 8);
    assert(p11.len() == 156);
    let p12 = p11 + le_seq(v.num_bytes_allocated as nat, 4);
    lemma_le_seq_len(v.num_bytes_allocated as nat, 4);
    assert(p12.len() == 160);
    let p13 = p12 + le_seq(v.base_a_bids_root_index as nat, 4);
    lemma_le_seq_len(v.base_a_bids_root_index as nat, 4);
    assert(p13.len() == 164);
    let p14 = p13 + le_seq(v.base_a_bids_best_index as nat, 4);
    lemma_le_seq_len(v.base_a_bids_best_index as nat, 4);
    assert(p14.len() == 168);
    let p15 = p14 + le_seq(v.base_b_bids_root_index as nat, 4);
    lemma_le_seq_len(v.base_b_bids_root_index as nat, 4);
    assert(p15.len() == 172);
    let p16 = p15 + le_seq(v.base_b_bids_best_index as nat, 4);
    lemma_le_seq_len(v.base_b_bids_best_index as nat, 4);
    assert(p16.len() == 176);
    let p17 = p16 + le_seq(v.base_a_asks_root_index as nat, 4);
    lemma_le_seq_len(v.base_a_asks_root_index as nat, 4);
    assert(p17.len() == 180);
    let p18 = p17 + le_seq(v.base_a_asks_best_index as nat, 4);
    lemma_le_seq_len(v.base_a_asks_best_index as nat, 4);
    assert(p18.len() == 184);
    let p19 = p18 + le_seq(v.base_b_asks_root_index as nat, 4);
    lemma_le_seq_len(v.base_b_asks_root_index as nat, 4);
    assert(p19.len() == 188);
    let p20 = p19 + le_seq(v.base_b_asks_best_index as nat, 4);
    lemma_le_seq_len(v.base_b_asks_best_index as nat, 4);
    assert(p20.len() == 192);
    let p21 = p20 + le_seq(v.claimed_seats_root_index as nat, 4);
    lemma_le_seq_len(v.claimed_seats_root_index as nat, 4);
    assert(p21.len() == 196);
    let p22 = p21 + le_seq(v.free_list_head_index as nat, 4);
    lemma_le_seq_len(v.free_list_head_index as nat, 4);
    assert(p22.len() == 200);
    let p23 = p22 + v.base_a_marginfi_group@;
    assert(p23.len() == 232);
    let p24 = p23 + v.base_a_marginfi_bank@;
    assert(p24.len() == 264);
    let p25 = p24 + v.base_a_marginfi_account@;
    assert(p25.len() == 296);
    let p26 = p25 + v.base_b_marginfi_group@;
    assert(p26.len() == 328);
    let p27 = p26 + v.base_b_marginfi_bank@;
    assert(p27.len() == 360);
    let p28 = p27 + v.base_b_marginfi_account@;
    assert(p28.len() == 392);
    let p29 = p28 + le_seq(v.fee_state.protocol_fee_rate_bps as nat, 8);
    lemma_le_seq_len(v.fee_state.protocol_fee_rate_bps as nat, 8);
    assert(p29.len() == 400);
    let p30 = p29 + le_seq(v.fee_state.ltv_buffer_bps as nat, 8);
    lemma_le_seq_len(v.fee_state.ltv_buffer_bps as nat, 8);
    assert(p30.len() == 408);
    let p31 = p30 + v.fee_state.base_a_fee_receiver@;
    assert(p31.len() == 440);
    let p32 = p31 + v.fee_state.base_b_fee_receiver@;
    assert(p32.len() == 472);
    let p33 = p32 + v.fee_state.admin@;
    assert(p33.len() == 504);
    let p34 = p33 + quantity_bytes(v.base_a_match_volume.value);
    lemma_quantity_len(v.base_a_match_volume.value);
    assert(p34.len() == 520);
    let p35 = p34 + quantity_bytes(v.base_b_match_volume.value);
    lemma_quantity_len(v.base_b_match_volume.value);
    assert(p35.len() == 536);
    let p36 = p35 + quantity_bytes(v.base_a_marginfi_account_asset_shares.value);
    lemma_quantity_len(v.base_a_marginfi_account_asset_shares.value);
    assert(p36.len() == 552);
    let p37 = p36 + quantity_bytes(v.base_a_marginfi_account_liability_shares.value);
    lemma_quantity_len(v.base_a_marginfi_account_liability_shares.value);
    assert(p37.len() == 568);
    let p38 = p37 + quantity_bytes(v.base_b_marginfi_account_shares.value);
    lemma_quantity_len(v.base_b_marginfi_account_shares.value);
    assert(p38.len() == 584);
    let p39 = p38 + quantity_bytes(v.base_b_marginfi_account_liability_shares.value);
    lemma_quantity_len(v.base_b_marginfi_account_liability_shares.value);
    assert(p39.len() == 600);
    assert(p39 =~= market_header_bytes(v));
    lemma_holds_both(s, at, p38, quantity_bytes(v.base_b_marginfi_account_liability_shares.value));
    lemma_quantity_read_back(s, at + 584, v.base_b_marginfi_account_liability_shares.value);
    lemma_holds_both(s, at, p37, quantity_bytes(v.base_b_marginfi_account_shares.value));
    lemma_quantity_read_back(s, at + 568, v.base_b_marginfi_account_shares.value);
    lemma_holds_both(s, at, p36, quantity_bytes(v.base_a_marginfi_account_liability_shares.value));
    lemma_quantity_read_back(s, at + 552, v.base_a_marginfi_account_liability_shares.value);
    lemma_holds_both(s, at, p35, quantity_bytes(v.base_a_marginfi_account_asset_shares.value));
    lemma_quantity_read_back(s, at + 536, v.base_a_marginfi_account_asset_shares.value);
    lemma_holds_both(s, at, p34, quantity_bytes(v.base_b_match_volume.value));
    lemma_quantity_read_back(s, at + 520, v.base_b_match_volume.value);
    lemma_holds_both(s, at, p33, quantity_bytes(v.base_a_match_volume.value));
    lemma_quantity_read_back(s, at + 504, v.base_a_match_volume.value);
    lemma_holds_both(s, at, p32, v.fee_state.admin@);
    lemma_holds_both(s, at, p31, v.fee_state.base_b_fee_receiver@);
    lemma_holds_both(s, at, p30, v.fee_state.base_a_fee_receiver@);
    lemma_holds_both(s, at, p29, le_seq(v.fee_state.ltv_buffer_bps as nat, 8));
    lemma_widths(v.fee_state.ltv_buffer_bps as nat);
    lemma_number_read_back(s, at + 400, v.fee_state.ltv_buffer_bps as nat, 8);
    lemma_holds_both(s, at, p28, le_seq(v.fee_state.protocol_fee_rate_bps as nat, 8));
    lemma_widths(v.fee_state.protocol_fee_rate_bps as nat);
    lemma_number_read_back(s, at + 392, v.fee_state.protocol_fee_rate_bps as nat, 8);
    lemma_holds_both(s, at, p27, v.base_b_marginfi_account@);
    lemma_holds_both(s, at, p26, v.base_b_marginfi_bank@);
    lemma_holds_both(s, at, p25, v.base_b_marginfi_group@);
    lemma_holds_both(s, at, p24, v.base_a_marginfi_account@);
    lemma_holds_both(s, at, p23, v.base_a_marginfi_bank@);
    lemma_holds_both(s, at, p22, v.base_a_marginfi_group@);
    lemma_holds_both(s, at, p21, le_seq(v.free_list_head_index as nat, 4));
    lemma_widths(v.free_list_head_index as nat);
    lemma_number_read_back(s, at + 196, v.free_list_head_index as nat, 4);
    lemma_holds_both(s, at, p20, le_seq(v.claimed_seats_root_index as nat, 4));
    lemma_widths(v.claimed_seats_root_index as nat);
    lemma_number_read_back(s, at + 192, v.claimed_seats_root_index as nat, 4);
    lemma_holds_both(s, at, p19, le_seq(v.base_b_asks_best_index as nat, 4));
    lemma_widths(v.base_b_asks_best_index as nat);
    lemma_number_read_back(s, at + 188, v.base_b_asks_best_index as nat, 4);
    lemma_holds_both(s, at, p18, le_seq(v.base_b_asks_root_index as nat, 4));
    lemma_widths(v.base_b_asks_root_index as nat);
    lemma_number_read_back(s, at + 184, v.base_b_asks_root_index as nat, 4);
    lemma_holds_both(s, at, p17, le_seq(v.base_a_asks_best_index as nat, 4));
    lemma_widths(v.base_a_asks_best_index as nat);
    lemma_number_read_back(s, at + 180, v.base_a_asks_best_index as nat, 4);
    lemma_holds_both(s, at, p16, le_seq(v.base_a_asks_root_index as nat, 4));
    lemma_widths(v.base_a_asks_root_index as nat);
    lemma_number_read_back(s, at + 176, v.base_a_asks_root_index as nat, 4);
    lemma_holds_both(s, at, p15, le_seq(v.base_b_bids_best_index as nat, 4));
    lemma_widths(v.base_b_bids_best_index as nat);
    lemma_number_read_back(s, at + 172, v.base_b_bids_best_index as nat, 4);
    lemma_holds_both(s, at, p14, le_seq(v.base_b_bids_root_index as nat, 4));
    lemma_widths(v.base_b_bids_root_index as nat);
    lemma_number_read_back(s, at + 168, v.base_b_bids_root_index as nat, 4);
    lemma_holds_both(s, at, p13, le_seq(v.base_a_bids_best_index as nat, 4));
    lemma_widths(v.base_a_bids_best_index as nat);
    lemma_number_read_back(s, at + 164, v.base_a_bids_best_index as nat, 4);
    lemma_holds_both(s, at, p12, le_seq(v.base_a_bids_root_index as nat, 4));
    lemma_widths(v.base_a_bids_root_index as nat);
    lemma_number_read_back(s, at + 160, v.base_a_bids_root_index as nat, 4);
    lemma_holds_both(s, at, p11, le_seq(v.num_bytes_allocated as nat, 4));
    lemma_widths(v.num_bytes_allocated as nat);
    lemma_number_read_back(s, at + 156, v.num_bytes_allocated as nat, 4);
    lemma_holds_both(s, at, p10, le_seq(v.base_b_order_sequence_number as nat, 8));
    lemma_widths(v.base_b_order_sequence_number as nat);
    lemma_number_read_back(s, at + 148, v.base_b_order_sequence_number as nat, 8);
    lemma_holds_both(s, at, p9, le_seq(v.base_a_order_sequence_number as nat, 8));
    lemma_widths(v.base_a_order_sequence_number as nat);
    lemma_number_read_back(s, at + 140, v.base_a_order_sequence_number as nat, 8);
    lemma_holds_both(s, at, p8, v.base_b_vault@);
    lemma_holds_both(s, at, p7, v.base_a_vault@);
    lemma_holds_both(s, at, p6, v.base_b_mint@);
    lemma_holds_both(s, at, p5, v.base_a_mint@);
    lemma_holds_both(s, at, p4, le_seq(v.market_state as nat, 1));
    lemma_widths(v.market_state as nat);
    lemma_number_read_back(s, at + 11, v.market_state as nat, 1);
    assert(le_at(s, at + 11, 1) == s[at + 11]) by {
        reveal_with_fuel(le_at, 2);
    }
    lemma_holds_both(s, at, p3, le_seq(v.base_b_mint_decimals as nat, 1));
    lemma_widths(v.base_b_mint_decimals as nat);
    lemma_number_read_back(s, at + 10, v.base_b_mint_decimals as nat, 1);
    assert(le_at(s, at + 10, 1) == s[at + 10]) by {
        reveal_with_fuel(le_at, 2);
    }
    lemma_holds_both(s, at, p2, le_seq(v.base_a_mint_decimals as nat, 1));
    lemma_widths(v.base_a_mint_decimals as nat);
    lemma_number_read_back(s, at + 9, v.base_a_mint_decimals as nat, 1);
    assert(le_at(s, at + 9, 1) == s[at + 9]) by {
        reveal_with_fuel(le_at, 2);
    }
    lemma_holds_both(s, at, p1, le_seq(v.version as nat, 1));
    lemma_widths(v.version as nat);
    lemma_number_read_back(s, at + 8, v.version as nat, 1);
    assert(le_at(s, at + 8, 1) == s[at + 8]) by {
        reveal_with_fuel(le_at, 2);
    }
    lemma_holds_both(s, at, p0, le_seq(v.discriminant as nat, 8));
    lemma_widths(v.discriminant as nat);
    lemma_number_read_back(s, at, v.discriminant as nat, 8);
}

/// Bytes say no more than one header of a market.
pub proof fn lemma_market_header_said_once(s: Seq<u8>, at: int, v: MarketFixed, w: MarketFixed)
    requires
        market_header_at(s, at, v),
        market_header_at(s, at, w),
    ensures
        v == w,
{
    assert(v.base_a_mint =~= w.base_a_mint);
    assert(v.base_b_mint =~= w.base_b_mint);
    assert(v.base_a_vault =~= w.base_a_vault);
    assert(v.base_b_vault =~= w.base_b_vault);
    assert(v.base_a_marginfi_group =~= w.base_a_marginfi_group);
    assert(v.base_a_marginfi_bank =~= w.base_a_marginfi_bank);
    assert(v.base_a_marginfi_account =~= w.base_a_marginfi_account);
    assert(v.base_b_marginfi_group =~= w.base_b_marginfi_group);
    assert(v.base_b_marginfi_bank =~= w.base_b_marginfi_bank);
    assert(v.base_b_marginfi_account =~= w.base_b_marginfi_account);
    assert(v.fee_state.base_a_fee_receiver =~= w.fee_state.base_a_fee_receiver);
    assert(v.fee_state.base_b_fee_receiver =~= w.fee_state.base_b_fee_receiver);
    assert(v.fee_state.admin =~= w.fee_state.admin);
}

} // verus!
