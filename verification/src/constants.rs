//! Layout sizes and protocol limits.

use vstd::prelude::*;

verus! {

/// Index of a slot, counted in bytes from the start of the slot pool.
pub type DataIndex = u32;

/// The address of an account: a trader, a mint, a market.
pub type Pubkey = [u8; 32];

/// The index that stands for "no slot".
pub const NIL: DataIndex = 0xFFFF_FFFFu32;

/// `last_valid_slot` of an order that never expires.
pub const NO_EXPIRATION_LAST_VALID_SLOT: u32 = 0u32;

pub const MARKET_FIXED_SIZE: usize = 736usize;

pub const GLOBAL_FIXED_SIZE: usize = 96usize;

pub const MARKET_LOANS_FIXED_SIZE: usize = 72usize;

/// Bytes that link a node into its tree, before the payload.
pub const RBTREE_OVERHEAD_BYTES: usize = 16usize;

pub const GLOBAL_BLOCK_SIZE: usize = 64usize;

pub const MARKET_BLOCK_SIZE: usize = 112usize;

pub const MARKET_LOAN_BLOCK_SIZE: usize = 96usize;

pub const RESTING_ORDER_SIZE: usize = 96usize;

pub const CLAIMED_SEAT_SIZE: usize = 96usize;

pub const GLOBAL_TRADER_SIZE: usize = 48usize;

pub const GLOBAL_DEPOSIT_SIZE: usize = 48usize;

pub const ACTIVE_LOAN_SIZE: usize = 80usize;

pub const MARKET_FREE_LIST_BLOCK_SIZE: usize = 108usize;

pub const GLOBAL_FREE_LIST_BLOCK_SIZE: usize = 60usize;

pub const MARKET_LOAN_FREE_LIST_BLOCK_SIZE: usize = 92usize;

/// Lamports prepaid with every global order, paid out to whoever removes it.
pub const GAS_DEPOSIT_LAMPORTS: u64 = 5_000u64;

/// Most traders a global account seats.
pub const MAX_GLOBAL_SEATS: u16 = 3000u16;

/// Most loans a market's ledger holds at once.
pub const MAX_ACTIVE_LOANS: u64 = 5000u64;

} // verus!
