//! A maker's offer that rests on the book.

use crate::constants::{DataIndex, NO_EXPIRATION_LAST_VALID_SLOT};
use crate::error::{EngineError, NixError};
use crate::marginfi_utils::{
    convert_asset_shares_to_tokens, convert_tokens_to_asset_shares,
    convert_tokens_to_liability_shares, get_token_amount_to_repay_liability_shares, or_overflow,
    spec_shares_to_tokens_ceil, spec_shares_to_tokens_floor, spec_tokens_to_shares, Bank,
};
use crate::quantities::{fits, WrappedI80F48};
use std::cmp::Ordering;
use vstd::prelude::*;
use vstd::std_specs::cmp::{PartialEqSpecImpl, PartialOrdSpecImpl};

verus! {

/// How an order behaves when it is placed.
#[derive(Debug, Clone, Copy, PartialEq, Eq, Structural)]
pub enum OrderType {
    /// Takes what crosses, rests with the remainder.
    Limit,
    /// Takes what crosses and never rests.
    ImmediateOrCancel,
    /// Fails if it would cross the book.
    PostOnly,
    /// Post only, backed by the funds of a global account.
    Global,
    /// When filled, places an order on the other side at a spread.
    Reverse,
    /// Like a reverse order, placed only when a peer-to-peer match is made.
    P2P2Pool,
}

impl Default for OrderType {
    fn default() -> (t: Self)
        ensures
            t == OrderType::Limit,
    {
        OrderType::Limit
    }
}

impl OrderType {
    /// The byte that stands for this type in an instruction.
    pub open spec fn spec_to_u8(self) -> u8 {
        match self {
            OrderType::Limit => 0u8,
            OrderType::ImmediateOrCancel => 1u8,
            OrderType::PostOnly => 2u8,
            OrderType::Global => 3u8,
            OrderType::Reverse => 4u8,
            OrderType::P2P2Pool => 5u8,
        }
    }

    /// The byte that stands for this type in an instruction.
    pub fn to_u8(self) -> (b: u8)
        ensures
            b == self.spec_to_u8(),
    {
        match self {
            OrderType::Limit => 0u8,
            OrderType::ImmediateOrCancel => 1u8,
            OrderType::PostOnly => 2u8,
            OrderType::Global => 3u8,
            OrderType::Reverse => 4u8,
            OrderType::P2P2Pool => 5u8,
        }
    }

    /// The type that the byte stands for, if it is one of 0 to 5.
    pub fn try_from_u8(b: u8) -> (t: Option<OrderType>)
        ensures
            t.is_some() == (b <= 5),
            t.is_some() ==> t.unwrap().spec_to_u8() == b,
    {
        match b {
            0u8 => Some(OrderType::Limit),
            1u8 => Some(OrderType::ImmediateOrCancel),
            2u8 => Some(OrderType::PostOnly),
            3u8 => Some(OrderType::Global),
            4u8 => Some(OrderType::Reverse),
            5u8 => Some(OrderType::P2P2Pool),
            _ => None,
        }
    }
}

/// Whether what is left of an order of this type may rest on the book.
pub open spec fn spec_order_type_can_rest(order_type: OrderType) -> bool {
    order_type != OrderType::ImmediateOrCancel
}

/// Whether an order of this type may take from the book.
pub open spec fn spec_order_type_can_take(order_type: OrderType) -> bool {
    order_type != OrderType::PostOnly && order_type != OrderType::Global
}

/// Whether what is left of an order of this type may rest on the book: all
/// but immediate-or-cancel.
pub fn order_type_can_rest(order_type: OrderType) -> (r: bool)
    ensures
        r == spec_order_type_can_rest(order_type),
{
    order_type != OrderType::ImmediateOrCancel
}

/// Whether an order of this type may take from the book: all but post-only
/// and global.
pub fn order_type_can_take(order_type: OrderType) -> (r: bool)
    ensures
        r == spec_order_type_can_take(order_type),
{
    order_type != OrderType::PostOnly && order_type != OrderType::Global
}

/// An offer resting on one side of a book.
///
/// For an ask `collateral_shares` is the liquidity it lends, in asset shares
/// of the base bank (in token atoms for a global ask). For a bid it is the
/// collateral posted, in asset shares of the quote bank, and
/// `liability_shares` is the debt it would owe, in liability shares of the
/// base bank.
#[derive(Debug, Clone, Copy)]
pub struct RestingOrder {
    pub collateral_shares: WrappedI80F48,
    pub liability_shares: WrappedI80F48,
    pub rate_bps: u16,
    pub sequence_number: u64,
    pub trader_index: DataIndex,
    pub last_valid_slot: u32,
    pub order_type: OrderType,
    pub is_bid: bool,
    pub is_a_tree: bool,
    pub reverse_spread: u16,
}

impl Default for RestingOrder {
    fn default() -> (o: Self)
        ensures
            o == (RestingOrder {
                collateral_shares: WrappedI80F48 { value: 0 },
                liability_shares: WrappedI80F48 { value: 0 },
                rate_bps: 0,
                sequence_number: 0,
                trader_index: 0,
                last_valid_slot: 0,
                order_type: OrderType::Limit,
                is_bid: false,
                is_a_tree: false,
                reverse_spread: 0,
            }),
    {
        RestingOrder {
            collateral_shares: WrappedI80F48::zero(),
            liability_shares: WrappedI80F48::zero(),
            rate_bps: 0,
            sequence_number: 0,
            trader_index: 0,
            last_valid_slot: 0,
            order_type: OrderType::Limit,
            is_bid: false,
            is_a_tree: false,
            reverse_spread: 0,
        }
    }
}

impl RestingOrder {
    /// A reverse order has no expiry.
    pub open spec fn wf(&self) -> bool {
        self.order_type == OrderType::Reverse ==> self.last_valid_slot
            == NO_EXPIRATION_LAST_VALID_SLOT
    }

    /// Whether the order is no longer valid at `current_slot`.
    pub open spec fn spec_is_expired(&self, current_slot: u32) -> bool {
        self.last_valid_slot != NO_EXPIRATION_LAST_VALID_SLOT && self.last_valid_slot
            < current_slot
    }

    /// The number by which the book orders this offer; the best offer of a
    /// side has the largest. For a bid it grows with the rate, for an ask it
    /// falls with it.
    pub open spec fn spec_priority(&self) -> u64 {
        if self.is_bid {
            self.rate_bps as u64
        } else {
            (u16::MAX - self.rate_bps) as u64
        }
    }

    /// The base atoms the order stands for, as `get_num_base_atoms` computes
    /// them.
    pub open spec fn spec_num_base_atoms(&self, base_bank: Bank) -> Option<u64> {
        if self.is_bid {
            spec_shares_to_tokens_ceil(self.liability_shares@, base_bank.liability_share_value@)
        } else {
            spec_shares_to_tokens_floor(self.collateral_shares@, base_bank.asset_share_value@)
        }
    }

    /// A new order. A reverse order must come without expiry.
    pub fn new(
        rate_bps: u16,
        sequence_number: u64,
        collateral_shares: WrappedI80F48,
        liability_shares: WrappedI80F48,
        is_a_tree: bool,
        trader_index: DataIndex,
        last_valid_slot: u32,
        order_type: OrderType,
        is_bid: bool,
        reverse_spread: u16,
    ) -> (r: Result<Self, EngineError>)
        requires
            !(order_type == OrderType::Reverse && last_valid_slot
                != NO_EXPIRATION_LAST_VALID_SLOT),
        ensures
            r == Ok::<Self, EngineError>(
                RestingOrder {
                    collateral_shares,
                    liability_shares,
                    rate_bps,
                    sequence_number,
                    trader_index,
                    last_valid_slot,
                    order_type,
                    is_bid,
                    is_a_tree,
                    reverse_spread,
                },
            ),
            r.unwrap().wf(),
    {
        Ok(
            RestingOrder {
                collateral_shares,
                liability_shares,
                rate_bps,
                sequence_number,
                trader_index,
                last_valid_slot,
                order_type,
                is_bid,
                is_a_tree,
                reverse_spread,
            },
        )
    }

    pub fn get_collateral_shares(&self) -> (r: WrappedI80F48)
        ensures
            r == self.collateral_shares,
    {
        self.collateral_shares
    }

    pub fn get_liability_shares(&self) -> (r: WrappedI80F48)
        ensures
            r == self.liability_shares,
    {
        self.liability_shares
    }

    /// Whether the order has an expiry and it lies before `current_slot`.
    pub fn is_expired(&self, current_slot: u32) -> (r: bool)
        ensures
            r == self.spec_is_expired(current_slot),
    {
        self.last_valid_slot != NO_EXPIRATION_LAST_VALID_SLOT && self.last_valid_slot
            < current_slot
    }

    pub fn get_is_bid(&self) -> (r: bool)
        ensures
            r == self.is_bid,
    {
        self.is_bid
    }

    pub fn get_rate_bps(&self) -> (r: u16)
        ensures
            r == self.rate_bps,
    {
        self.rate_bps
    }

    pub fn is_global(&self) -> (r: bool)
        ensures
            r == (self.order_type == OrderType::Global),
    {
        self.order_type == OrderType::Global
    }

    pub fn get_trader_index(&self) -> (r: DataIndex)
        ensures
            r == self.trader_index,
    {
        self.trader_index
    }

    pub fn get_sequence_number(&self) -> (r: u64)
        ensures
            r == self.sequence_number,
    {
        self.sequence_number
    }

    pub fn is_reverse(&self) -> (r: bool)
        ensures
            r == (self.order_type == OrderType::Reverse),
    {
        self.order_type == OrderType::Reverse
    }

    pub fn get_reverse_spread(self) -> (r: u16)
        ensures
            r == self.reverse_spread,
    {
        self.reverse_spread
    }

    /// The number by which the book orders this offer.
    pub fn priority(&self) -> (r: u64)
        ensures
            r == self.spec_priority(),
    {
        if self.is_bid {
            self.rate_bps as u64
        } else {
            (u16::MAX - self.rate_bps) as u64
        }
    }

    /// The base atoms the order stands for: for a bid the atoms that repay
    /// its liability shares, rounded up; for an ask the atoms its collateral
    /// shares are worth, rounded down.
    pub fn get_num_base_atoms(&self, base_bank: &Bank) -> (r: Result<u64, EngineError>)
        ensures
            r == or_overflow(self.spec_num_base_atoms(*base_bank)),
    {
        if self.get_is_bid() {
            get_token_amount_to_repay_liability_shares(self.liability_shares, base_bank)
        } else {
            convert_asset_shares_to_tokens(self.collateral_shares, base_bank)
        }
    }

    /// The atoms a global order stands for: its collateral, which a global
    /// order holds in atoms.
    pub fn get_num_base_atoms_global(&self) -> (r: WrappedI80F48)
        ensures
            r == self.collateral_shares,
    {
        self.collateral_shares
    }

    pub fn set_order_type(&mut self, order_type: OrderType)
        ensures
            *final(self) == (RestingOrder { order_type, ..*old(self) }),
    {
        self.order_type = order_type;
    }

    /// The bid after a fill of `base_atoms_traded` against
    /// `quote_atoms_traded` of collateral, where the deltas and the
    /// differences exist.
    pub open spec fn spec_reduce_bid(
        &self,
        base_bank: Bank,
        quote_bank: Bank,
        quote_atoms_traded: u64,
        base_atoms_traded: u64,
    ) -> Result<RestingOrder, EngineError> {
        if !self.is_bid {
            Err(EngineError::InvalidArgument)
        } else {
            let c = spec_tokens_to_shares(quote_atoms_traded, quote_bank.asset_share_value@);
            let l = spec_tokens_to_shares(base_atoms_traded, base_bank.liability_share_value@);
            if c.is_some() && l.is_some() && fits(self.collateral_shares@ - c.unwrap()) && fits(
                self.liability_shares@ - l.unwrap(),
            ) {
                Ok(
                    RestingOrder {
                        collateral_shares: WrappedI80F48 {
                            value: (self.collateral_shares@ - c.unwrap()) as i128,
                        },
                        liability_shares: WrappedI80F48 {
                            value: (self.liability_shares@ - l.unwrap()) as i128,
                        },
                        ..*self
                    },
                )
            } else {
                Err(EngineError::Nix(NixError::NumericalOverflow))
            }
        }
    }

    /// The ask after a fill of `base_atoms_traded`, where the delta and the
    /// difference exist.
    pub open spec fn spec_reduce_ask(&self, base_bank: Bank, base_atoms_traded: u64) -> Result<
        RestingOrder,
        EngineError,
    > {
        if self.is_bid {
            Err(EngineError::InvalidArgument)
        } else {
            let c = spec_tokens_to_shares(base_atoms_traded, base_bank.asset_share_value@);
            if c.is_some() && fits(self.collateral_shares@ - c.unwrap()) {
                Ok(
                    RestingOrder {
                        collateral_shares: WrappedI80F48 {
                            value: (self.collateral_shares@ - c.unwrap()) as i128,
                        },
                        liability_shares: WrappedI80F48 { value: 0 },
                        ..*self
                    },
                )
            } else {
                Err(EngineError::Nix(NixError::NumericalOverflow))
            }
        }
    }

    /// Takes a partial fill off a bid: the collateral shares that
    /// `quote_atoms_traded` stand for and the liability shares that
    /// `base_atoms_traded` stand for. Fails on an ask, and where a delta or a
    /// difference is no quantity; the order is then unchanged.
    pub fn reduce_bid(
        &mut self,
        base_bank: &Bank,
        quote_bank: &Bank,
        quote_atoms_traded: u64,
        base_atoms_traded: u64,
    ) -> (r: Result<(), EngineError>)
        ensures
            match old(self).spec_reduce_bid(
                *base_bank,
                *quote_bank,
                quote_atoms_traded,
                base_atoms_traded,
            ) {
                Ok(o) => r.is_ok() && *final(self) == o,
                Err(e) => r == Err::<(), _>(e) && *final(self) == *old(self),
            },
    {
        if !self.get_is_bid() {
            return Err(EngineError::InvalidArgument);
        }
        let collateral_shares_delta = convert_tokens_to_asset_shares(
            quote_atoms_traded,
            quote_bank,
        )?;
        let liability_shares_delta = convert_tokens_to_liability_shares(
            base_atoms_traded,
            base_bank,
        )?;
        let collateral = match self.collateral_shares.checked_sub(collateral_shares_delta) {
            Some(c) => c,
            None => { return Err(EngineError::Nix(NixError::NumericalOverflow)); },
        };
        let liability = match self.liability_shares.checked_sub(liability_shares_delta) {
            Some(l) => l,
            None => { return Err(EngineError::Nix(NixError::NumericalOverflow)); },
        };
        self.collateral_shares = collateral;
        self.liability_shares = liability;
        Ok(())
    }

    /// Takes a partial fill off an ask: the collateral shares that
    /// `base_atoms_traded` stand for; the liability shares become zero. Fails
    /// on a bid, and where the delta or the difference is no quantity; the
    /// order is then unchanged.
    pub fn reduce_ask(&mut self, base_bank: &Bank, base_atoms_traded: u64) -> (r: Result<
        (),
        EngineError,
    >)
        ensures
            match old(self).spec_reduce_ask(*base_bank, base_atoms_traded) {
                Ok(o) => r.is_ok() && *final(self) == o,
                Err(e) => r == Err::<(), _>(e) && *final(self) == *old(self),
            },
    {
        if self.get_is_bid() {
            return Err(EngineError::InvalidArgument);
        }
        let collateral_shares_delta = convert_tokens_to_asset_shares(base_atoms_traded, base_bank)?;
        let collateral = match self.collateral_shares.checked_sub(collateral_shares_delta) {
            Some(c) => c,
            None => { return Err(EngineError::Nix(NixError::NumericalOverflow)); },
        };
        self.collateral_shares = collateral;
        self.liability_shares = WrappedI80F48::zero();
        Ok(())
    }
}

/// Whether two rates are at most one basis point apart.
pub open spec fn rates_adjacent(a: u16, b: u16) -> bool {
    a as int <= b as int + 1 && b as int <= a as int + 1
}

/// Equality as lookups use it: the same trader and order type, and the same
/// rate, where for reverse orders a rate one basis point off still counts.
/// The rates do not wrap around: the highest rate and the rate zero are far
/// apart.
impl PartialEq for RestingOrder {
    fn eq(&self, other: &Self) -> (r: bool) {
        if self.trader_index != other.trader_index || self.order_type != other.order_type {
            return false;
        }
        if self.order_type == OrderType::Reverse {
            let mine: u32 = self.rate_bps as u32;
            let theirs: u32 = other.rate_bps as u32;
            mine <= theirs + 1 && theirs <= mine + 1
        } else {
            self.rate_bps == other.rate_bps
        }
    }
}

impl PartialEqSpecImpl for RestingOrder {
    open spec fn obeys_eq_spec() -> bool {
        true
    }

    open spec fn eq_spec(&self, other: &Self) -> bool {
        self.trader_index == other.trader_index && self.order_type == other.order_type && (
        if self.order_type == OrderType::Reverse {
            rates_adjacent(self.rate_bps, other.rate_bps)
        } else {
            self.rate_bps == other.rate_bps
        })
    }
}

/// The order of the book: an offer is less than another where its priority
/// is lower. Offers are compared with offers of their own side only.
impl PartialOrd for RestingOrder {
    fn partial_cmp(&self, other: &Self) -> (r: Option<Ordering>) {
        let mine = self.priority();
        let theirs = other.priority();
        if mine < theirs {
            Some(Ordering::Less)
        } else if mine == theirs {
            Some(Ordering::Equal)
        } else {
            Some(Ordering::Greater)
        }
    }
}

impl PartialOrdSpecImpl for RestingOrder {
    open spec fn obeys_partial_cmp_spec() -> bool {
        true
    }

    open spec fn partial_cmp_spec(&self, other: &Self) -> Option<Ordering> {
        if self.spec_priority() < other.spec_priority() {
            Some(Ordering::Less)
        } else if self.spec_priority() == other.spec_priority() {
            Some(Ordering::Equal)
        } else {
            Some(Ordering::Greater)
        }
    }
}

} // verus!
