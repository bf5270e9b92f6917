//! The events of the engine, and what it asks its caller to do outside.

use crate::constants::{DataIndex, Pubkey};
use crate::resting_order::OrderType;
use crate::utils::{get_discriminant, spec_discriminant};
use vstd::prelude::*;
use vstd::string::StringSliceAdditionalSpecFns;

verus! {

/// The eight little-endian bytes of `x`.
pub open spec fn le_bytes(x: u64) -> Seq<u8> {
    seq![
        (x % 0x100) as u8,
        (x / 0x100 % 0x100) as u8,
        (x / 0x1_0000 % 0x100) as u8,
        (x / 0x100_0000 % 0x100) as u8,
        (x / 0x1_0000_0000 % 0x100) as u8,
        (x / 0x100_0000_0000 % 0x100) as u8,
        (x / 0x1_0000_0000_0000 % 0x100) as u8,
        (x / 0x100_0000_0000_0000 % 0x100) as u8,
    ]
}

/// The eight little-endian bytes of `x`.
pub fn u64_to_le_bytes(x: u64) -> (b: [u8; 8])
    ensures
        b@ == le_bytes(x),
{
    let b = [
        (x % 0x100) as u8,
        (x / 0x100 % 0x100) as u8,
        (x / 0x1_0000 % 0x100) as u8,
        (x / 0x100_0000 % 0x100) as u8,
        (x / 0x1_0000_0000 % 0x100) as u8,
        (x / 0x100_0000_0000 % 0x100) as u8,
        (x / 0x1_0000_0000_0000 % 0x100) as u8,
        (x / 0x100_0000_0000_0000 % 0x100) as u8,
    ];
    assert(b@ =~= le_bytes(x));
    b
}

/// The eight bytes that precede an event of the type named `name` in the
/// log.
pub fn event_discriminant(name: &str) -> (b: [u8; 8])
    ensures
        b@ == le_bytes(spec_discriminant(name.spec_bytes())),
{
    match get_discriminant(name) {
        Ok(d) => u64_to_le_bytes(d),
        Err(_) => [0u8; 8],
    }
}

/// An event with a discriminant of its own.
pub trait Discriminant {
    /// The event's name, which is hashed into its discriminant.
    spec fn spec_name() -> Seq<u8>;

    /// The eight bytes that precede the event in the log.
    fn discriminant() -> (b: [u8; 8])
        ensures
            b@ == le_bytes(spec_discriminant(Self::spec_name())),
    ;
}

#[derive(Debug, Clone, Copy)]
pub struct CreateMarketLog {
    pub base_a_mint: Pubkey,
    pub base_b_mint: Pubkey,
    pub market_key: Pubkey,
    pub admin: Pubkey,
}

#[derive(Debug, Clone, Copy)]
pub struct CreateMarketLoanAccountLog {
    pub market: Pubkey,
    pub market_loan_account_key: Pubkey,
    pub admin: Pubkey,
}

#[derive(Debug, Clone, Copy)]
pub struct ClaimSeatLog {
    pub market: Pubkey,
    pub trader: Pubkey,
}

#[derive(Debug, Clone, Copy)]
pub struct GlobalCreateLog {
    pub global: Pubkey,
    pub creator: Pubkey,
}

#[derive(Debug, Clone, Copy)]
pub struct GlobalAddTraderLog {
    pub global: Pubkey,
    pub trader: Pubkey,
}

#[derive(Debug, Clone, Copy)]
pub struct GlobalDepositLog {
    pub global: Pubkey,
    pub trader: Pubkey,
    pub deposited_amount: u64,
}

/// A global order was found without backing and removed.
#[derive(Debug, Clone, Copy)]
pub struct GlobalCleanupLog {
    pub cleaner: Pubkey,
    pub maker: Pubkey,
    pub amount_desired: u64,
    pub amount_deposited: u64,
}

/// A taker was matched against a resting order.
#[derive(Debug, Clone, Copy)]
pub struct FillLog {
    pub market: Pubkey,
    pub maker: Pubkey,
    pub taker: Pubkey,
    pub base_mint: Pubkey,
    pub quote_mint: Pubkey,
    pub rate_bps: u16,
    pub base_atoms: u64,
    pub quote_atoms: u64,
    pub maker_sequence_number: u64,
    pub taker_sequence_number: u64,
    pub taker_is_buy: bool,
    pub is_maker_global: bool,
}

#[derive(Debug, Clone, Copy)]
pub struct PlaceOrderLog {
    pub market: Pubkey,
    pub trader: Pubkey,
    pub rate_bps: u16,
    pub base_atoms: u64,
    pub order_sequence_number: u64,
    pub order_index: DataIndex,
    pub last_valid_slot: u32,
    pub order_type: OrderType,
    pub is_bid: bool,
}

#[derive(Debug, Clone, Copy)]
pub struct CancelOrderLog {
    pub market: Pubkey,
    pub trader: Pubkey,
    pub order_sequence_number: u64,
}

impl Discriminant for CreateMarketLog {
    open spec fn spec_name() -> Seq<u8> {
        "nix::logs::CreateMarketLog".spec_bytes()
    }

    fn discriminant() -> (b: [u8; 8]) {
        event_discriminant("nix::logs::CreateMarketLog")
    }
}

impl Discriminant for CreateMarketLoanAccountLog {
    open spec fn spec_name() -> Seq<u8> {
        "nix::logs::CreateMarketLoanAccountLog".spec_bytes()
    }

    fn discriminant() -> (b: [u8; 8]) {
        event_discriminant("nix::logs::CreateMarketLoanAccountLog")
    }
}

impl Discriminant for ClaimSeatLog {
    open spec fn spec_name() -> Seq<u8> {
        "nix::logs::ClaimSeatLog".spec_bytes()
    }

    fn discriminant() -> (b: [u8; 8]) {
        event_discriminant("nix::logs::ClaimSeatLog")
    }
}

impl Discriminant for GlobalCreateLog {
    open spec fn spec_name() -> Seq<u8> {
        "nix::logs::GlobalCreateLog".spec_bytes()
    }

    fn discriminant() -> (b: [u8; 8]) {
        event_discriminant("nix::logs::GlobalCreateLog")
    }
}

impl Discriminant for GlobalAddTraderLog {
    open spec fn spec_name() -> Seq<u8> {
        "nix::logs::GlobalAddTraderLog".spec_bytes()
    }

    fn discriminant() -> (b: [u8; 8]) {
        event_discriminant("nix::logs::GlobalAddTraderLog")
    }
}

impl Discriminant for GlobalDepositLog {
    open spec fn spec_name() -> Seq<u8> {
        "nix::logs::GlobalDepositLog".spec_bytes()
    }

    fn discriminant() -> (b: [u8; 8]) {
        event_discriminant("nix::logs::GlobalDepositLog")
    }
}

impl Discriminant for GlobalCleanupLog {
    open spec fn spec_name() -> Seq<u8> {
        "nix::logs::GlobalCleanupLog".spec_bytes()
    }

    fn discriminant() -> (b: [u8; 8]) {
        event_discriminant("nix::logs::GlobalCleanupLog")
    }
}

impl Discriminant for FillLog {
    open spec fn spec_name() -> Seq<u8> {
        "nix::logs::FillLog".spec_bytes()
    }

    fn discriminant() -> (b: [u8; 8]) {
        event_discriminant("nix::logs::FillLog")
    }
}

impl Discriminant for PlaceOrderLog {
    open spec fn spec_name() -> Seq<u8> {
        "nix::logs::PlaceOrderLog".spec_bytes()
    }

    fn discriminant() -> (b: [u8; 8]) {
        event_discriminant("nix::logs::PlaceOrderLog")
    }
}

impl Discriminant for CancelOrderLog {
    open spec fn spec_name() -> Seq<u8> {
        "nix::logs::CancelOrderLog".spec_bytes()
    }

    fn discriminant() -> (b: [u8; 8]) {
        event_discriminant("nix::logs::CancelOrderLog")
    }
}

/// Something for the caller to do outside the engine, or to log, in the
/// order in which the engine decided it.
#[derive(Debug, Clone, Copy)]
pub enum Effect {
    /// Log a fill.
    Fill(FillLog),
    /// Log an order that was placed.
    PlaceOrder(PlaceOrderLog),
    /// Log an order that was cancelled.
    CancelOrder(CancelOrderLog),
    /// Log a seat that was claimed.
    ClaimSeat(ClaimSeatLog),
    /// Log a market that was created.
    CreateMarket(CreateMarketLog),
    /// Log a ledger of loans that was created.
    CreateMarketLoanAccount(CreateMarketLoanAccountLog),
    /// Log a trader who was seated on a global account.
    GlobalAddTrader(GlobalAddTraderLog),
    /// Log a deposit into a global account.
    GlobalDeposit(GlobalDepositLog),
    /// Log the removal of a global order without backing.
    GlobalCleanup(GlobalCleanupLog),
    /// Move `atoms` of the maker's deposit from the vault of the base global
    /// account to the market's vault.
    GlobalTransfer { maker: Pubkey, atoms: u64 },
    /// Pay the gas prepayment of a global order out of the global account to
    /// its gas receiver; `base` tells which global account.
    GasRefund { base: bool },
    /// Pay the gas prepayment of a new global order from the gas payer into
    /// the base global account.
    GasPrepayment,
    /// Borrow `atoms` of the base asset from the money market against the
    /// quote side's account, then deposit them into the base side's account.
    BorrowThenDeposit { atoms: u64 },
    /// Withdraw `atoms` of the base asset from the base side's account of the
    /// money market, then repay into the quote side's account.
    WithdrawThenRepay { atoms: u64 },
}

} // verus!
