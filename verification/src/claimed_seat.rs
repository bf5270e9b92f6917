//! The account of one trader on one market.

use crate::constants::Pubkey;
use crate::quantities::WrappedI80F48;
use vstd::prelude::*;

verus! {

/// A trader's seat: the shares the trader may withdraw, per asset, and the
/// volume the trader has traded, per asset.
///
/// The withdrawable shares do not include funds in open orders. The volumes
/// are for monitoring only: they wrap around and secure no value.
#[derive(Debug, Clone, Copy)]
pub struct ClaimedSeat {
    pub trader: Pubkey,
    pub base_a_withdrawable_asset_share: WrappedI80F48,
    pub base_b_withdrawable_asset_share: WrappedI80F48,
    pub base_a_volume: WrappedI80F48,
    pub base_b_volume: WrappedI80F48,
}

impl ClaimedSeat {
    /// The seat of `trader` with nothing on it.
    pub open spec fn spec_new_empty(trader: Pubkey) -> ClaimedSeat {
        ClaimedSeat {
            trader,
            base_a_withdrawable_asset_share: WrappedI80F48 { value: 0 },
            base_b_withdrawable_asset_share: WrappedI80F48 { value: 0 },
            base_a_volume: WrappedI80F48 { value: 0 },
            base_b_volume: WrappedI80F48 { value: 0 },
        }
    }

    /// A seat for `trader` with no balance and no volume.
    pub fn new_empty(trader: Pubkey) -> (s: Self)
        ensures
            s == Self::spec_new_empty(trader),
    {
        ClaimedSeat {
            trader,
            base_a_withdrawable_asset_share: WrappedI80F48::zero(),
            base_b_withdrawable_asset_share: WrappedI80F48::zero(),
            base_a_volume: WrappedI80F48::zero(),
            base_b_volume: WrappedI80F48::zero(),
        }
    }
}

} // verus!
