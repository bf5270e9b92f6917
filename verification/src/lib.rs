//! Matching and book-keeping engine of a lending order book: fixed-point
//! share arithmetic, resting orders, seats, the two-sided books of a market,
//! and the ledger of active loans.

pub mod addresses;
pub mod book_laws;
pub mod constants;
pub mod cancel_order;
pub mod claimed_seat;
pub mod dynamic_account;
pub mod error;
pub mod global;
pub mod instruction;
pub mod invariants;
pub mod logs;
pub mod marginfi_utils;
pub mod market;
pub mod matching;
pub mod market_helpers;
pub mod market_loan;
pub mod place_order;
pub mod processor;
pub mod quantities;
pub mod resting_order;
pub mod round_trip;
pub mod sequence_numbers;
pub mod slot_pool;
pub mod storage;
pub mod stored_accounts;
pub mod stored_records;
pub mod utils;
pub mod validation;
