//! Checks at the entry of an order, and the discriminants of accounts and
//! events.

use crate::constants::{DataIndex, Pubkey, NIL, NO_EXPIRATION_LAST_VALID_SLOT};
use crate::error::{EngineError, NixError};
use crate::resting_order::{order_type_can_take, spec_order_type_can_take, OrderType};
use vstd::prelude::*;
use vstd::string::StringSliceAdditionalSpecFns;

verus! {

/// The address of this program.
pub const ID: Pubkey = [
    5u8, 144u8, 164u8, 115u8, 248u8, 50u8, 232u8, 20u8, 164u8, 43u8, 209u8, 234u8, 211u8, 200u8,
    246u8, 164u8, 101u8, 98u8, 249u8, 204u8, 213u8, 121u8, 75u8, 107u8, 16u8, 125u8, 163u8, 61u8,
    233u8, 179u8, 220u8, 229u8,
];

/// The name under which the header of a market is hashed into its
/// discriminant.
pub const MARKET_FIXED_TYPE_NAME: &'static str = "nix::state::market::MarketFixed";

/// The name under which the header of a global account is hashed into its
/// discriminant.
pub const GLOBAL_FIXED_TYPE_NAME: &'static str = "nix::state::global::GlobalFixed";

/// The name under which the header of a ledger of loans is hashed into its
/// discriminant.
pub const MARKET_LOANS_FIXED_TYPE_NAME: &'static str = "nix::state::market_loan::MarketLoansFixed";

/// The Keccak-256 hash of `data`: 32 bytes.
pub uninterp spec fn keccak256(data: Seq<u8>) -> Seq<u8>;

/// `keccak::hashv` of `solana_program` on two slices: the Keccak-256 hash of
/// the first followed by the second.
#[verifier::external_body]
fn keccak_hashv(first: &[u8], second: &[u8]) -> (hash: [u8; 32])
    ensures
        hash@ == keccak256(first@ + second@),
{
    solana_program::keccak::hashv(&[first, second]).to_bytes()
}

/// The number whose little-endian bytes are the first eight of `bytes`.
pub open spec fn le_u64(bytes: Seq<u8>) -> u64
    recommends
        bytes.len() >= 8,
{
    (bytes[0] as int + bytes[1] as int * 0x100 + bytes[2] as int * 0x1_0000 + bytes[3] as int
        * 0x100_0000 + bytes[4] as int * 0x1_0000_0000 + bytes[5] as int * 0x100_0000_0000
        + bytes[6] as int * 0x1_0000_0000_0000 + bytes[7] as int * 0x100_0000_0000_0000) as u64
}

/// The discriminant of the type named `name`: the first eight bytes, as
/// a little-endian number, of the hash of this program's address followed by
/// the name.
pub open spec fn spec_discriminant(name: Seq<u8>) -> u64 {
    le_u64(keccak256(ID@ + name))
}

/// The canonical discriminant of the type named `name`.
pub fn get_discriminant(name: &str) -> (r: Result<u64, EngineError>)
    ensures
        r == Ok::<u64, EngineError>(spec_discriminant(name.spec_bytes())),
{
    let id = ID;
    let hash = keccak_hashv(id.as_slice(), name.as_bytes());
    let d: u64 = (hash[0] as u64) + (hash[1] as u64) * 0x100 + (hash[2] as u64) * 0x1_0000 + (
    hash[3] as u64) * 0x100_0000 + (hash[4] as u64) * 0x1_0000_0000 + (hash[5] as u64)
        * 0x100_0000_0000 + (hash[6] as u64) * 0x1_0000_0000_0000 + (hash[7] as u64)
        * 0x100_0000_0000_0000;
    Ok(d)
}

/// An order of a type that may not take fails when it would cross the book.
pub fn assert_can_take(order_type: OrderType) -> (r: Result<(), EngineError>)
    ensures
        r == if spec_order_type_can_take(order_type) {
            Ok::<(), EngineError>(())
        } else {
            Err(EngineError::Nix(NixError::PostOnlyCrosses))
        },
{
    if order_type_can_take(order_type) {
        Ok(())
    } else {
        Err(EngineError::Nix(NixError::PostOnlyCrosses))
    }
}

/// Whether an order with this expiry can still be placed at `now_slot`: it
/// has none, or its last valid slot lies in the future.
pub open spec fn spec_not_already_expired(last_valid_slot: u32, now_slot: u32) -> bool {
    last_valid_slot == NO_EXPIRATION_LAST_VALID_SLOT || last_valid_slot > now_slot
}

/// An order whose last valid slot is not in the future is already expired.
pub fn assert_not_already_expired(last_valid_slot: u32, now_slot: u32) -> (r: Result<
    (),
    EngineError,
>)
    ensures
        r == if spec_not_already_expired(last_valid_slot, now_slot) {
            Ok::<(), EngineError>(())
        } else {
            Err(EngineError::Nix(NixError::AlreadyExpired))
        },
{
    if last_valid_slot == NO_EXPIRATION_LAST_VALID_SLOT || last_valid_slot > now_slot {
        Ok(())
    } else {
        Err(EngineError::Nix(NixError::AlreadyExpired))
    }
}

/// What the check of order type against side returns: a global order must be
/// an ask, a reverse order a bid.
pub open spec fn spec_valid_order_type(order_type: OrderType, is_bid: bool) -> Result<
    (),
    EngineError,
> {
    if is_bid && order_type == OrderType::Global {
        Err(EngineError::Nix(NixError::InvalidGlobalBidOrder))
    } else if !is_bid && order_type == OrderType::Reverse {
        Err(EngineError::Nix(NixError::InvalidAskReverseOrder))
    } else {
        Ok(())
    }
}

/// A global order must be an ask, a reverse order a bid.
pub fn assert_valid_order_type(order_type: OrderType, is_bid: bool) -> (r: Result<
    (),
    EngineError,
>)
    ensures
        r == spec_valid_order_type(order_type, is_bid),
{
    if is_bid && order_type == OrderType::Global {
        return Err(EngineError::Nix(NixError::InvalidGlobalBidOrder));
    }
    if !is_bid && order_type == OrderType::Reverse {
        return Err(EngineError::Nix(NixError::InvalidAskReverseOrder));
    }
    Ok(())
}

/// A trader without a seat has to claim one first.
pub fn assert_already_has_seat(trader_index: DataIndex) -> (r: Result<(), EngineError>)
    ensures
        r == if trader_index != NIL {
            Ok::<(), EngineError>(())
        } else {
            Err(EngineError::Nix(NixError::AlreadyClaimedSeat))
        },
{
    if trader_index != NIL {
        Ok(())
    } else {
        Err(EngineError::Nix(NixError::AlreadyClaimedSeat))
    }
}

/// Whether two addresses are the same.
pub fn keys_equal(a: &Pubkey, b: &Pubkey) -> (r: bool)
    ensures
        r == (a@ == b@),
{
    let mut i: usize = 0;
    while i < 32
        invariant
            i <= 32,
            forall|k: int| 0 <= k < i ==> a@[k] == b@[k],
        decreases 32 - i,
    {
        if a[i] != b[i] {
            return false;
        }
        i = i + 1;
    }
    assert(a@ =~= b@);
    true
}

} // verus!
