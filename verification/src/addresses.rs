//! The addresses that this program derives for the accounts it owns.

use crate::constants::Pubkey;
use crate::error::{EngineError, NixError};
use crate::utils::{keys_equal, ID};
use vstd::prelude::*;
use vstd::string::StringSliceAdditionalSpecFns;

verus! {

/// The address that a program derives from seeds, with its bump seed; `None`
/// where no bump seed yields an address.
pub uninterp spec fn program_address(seeds: Seq<Seq<u8>>, program_id: Seq<u8>) -> Option<
    (Seq<u8>, u8),
>;

/// The bytes of each seed.
pub open spec fn seed_bytes(seeds: Seq<Vec<u8>>) -> Seq<Seq<u8>> {
    Seq::new(seeds.len(), |i: int| seeds[i]@)
}

/// `Pubkey::try_find_program_address` of `solana_program`: the address
/// derived from the seeds for the program, with the bump seed that was
/// found, or `None` where there is none.
#[verifier::external_body]
fn try_find_program_address(seeds: &Vec<Vec<u8>>, program_id: &Pubkey) -> (r: Option<
    (Pubkey, u8),
>)
    ensures
        r.is_some() == program_address(seed_bytes(seeds@), program_id@).is_some(),
        r.is_some() ==> r.unwrap().0@ == program_address(seed_bytes(seeds@), program_id@).unwrap().0
            && r.unwrap().1 == program_address(seed_bytes(seeds@), program_id@).unwrap().1,
{
    let parts: Vec<&[u8]> = seeds.iter().map(|s| s.as_slice()).collect();
    let program = solana_program::pubkey::Pubkey::new_from_array(*program_id);
    match solana_program::pubkey::Pubkey::try_find_program_address(&parts, &program) {
        Some((address, bump)) => Some((address.to_bytes(), bump)),
        None => None,
    }
}

/// The seeds of an address: a label, then one address or two.
pub open spec fn spec_seeds(label: Seq<u8>, first: Pubkey, second: Option<Pubkey>) -> Seq<Seq<u8>> {
    match second {
        Some(s) => seq![label, first@, s@],
        None => seq![label, first@],
    }
}

/// The address that this program derives from a label and one address or
/// two.
pub open spec fn spec_derived(label: Seq<u8>, first: Pubkey, second: Option<Pubkey>) -> Option<
    (Seq<u8>, u8),
> {
    program_address(spec_seeds(label, first, second), ID@)
}

/// The address that this program derives from a label and one address or
/// two, with its bump seed.
pub fn derive_address(label: &str, first: &Pubkey, second: Option<&Pubkey>) -> (r: Option<
    (Pubkey, u8),
>)
    ensures
        r.is_some() == spec_derived(
            label.spec_bytes(),
            *first,
            match second {
                Some(s) => Some(*s),
                None => None,
            },
        ).is_some(),
        r.is_some() ==> ({
            let d = spec_derived(
                label.spec_bytes(),
                *first,
                match second {
                    Some(s) => Some(*s),
                    None => None,
                },
            ).unwrap();
            r.unwrap().0@ == d.0 && r.unwrap().1 == d.1
        }),
{
    let mut seeds: Vec<Vec<u8>> = Vec::new();
    let mut l: Vec<u8> = Vec::new();
    l.extend_from_slice(label.as_bytes());
    let mut f: Vec<u8> = Vec::new();
    f.extend_from_slice(first.as_slice());
    proof {
        assert(l@ =~= label.spec_bytes());
        assert(f@ =~= first@);
    }
    seeds.push(l);
    seeds.push(f);
    match second {
        Some(s) => {
            let mut t: Vec<u8> = Vec::new();
            t.extend_from_slice(s.as_slice());
            proof {
                assert(t@ =~= s@);
            }
            seeds.push(t);
            proof {
                assert(seed_bytes(seeds@) =~= seq![label.spec_bytes(), first@, s@]);
            }
        },
        None => {
            proof {
                assert(seed_bytes(seeds@) =~= seq![label.spec_bytes(), first@]);
            }
        },
    }
    let id = ID;
    try_find_program_address(&seeds, &id)
}

/// The address that signs for a market: derived from "market-signer" and the
/// market.
pub fn get_market_signer_address(market: &Pubkey) -> (r: Option<(Pubkey, u8)>)
    ensures
        r.is_some() == spec_derived("market-signer".spec_bytes(), *market, None).is_some(),
        r.is_some() ==> r.unwrap().0@ == spec_derived(
            "market-signer".spec_bytes(),
            *market,
            None,
        ).unwrap().0 && r.unwrap().1 == spec_derived(
            "market-signer".spec_bytes(),
            *market,
            None,
        ).unwrap().1,
{
    derive_address("market-signer", market, None)
}

/// The account that receives a market's fees in a mint: derived from
/// "fee-receiver", the market and the mint.
pub fn get_market_fee_receiver_address(market: &Pubkey, mint: &Pubkey) -> (r: Option<
    (Pubkey, u8),
>)
    ensures
        r.is_some() == spec_derived("fee-receiver".spec_bytes(), *market, Some(*mint)).is_some(),
        r.is_some() ==> r.unwrap().0@ == spec_derived(
            "fee-receiver".spec_bytes(),
            *market,
            Some(*mint),
        ).unwrap().0 && r.unwrap().1 == spec_derived(
            "fee-receiver".spec_bytes(),
            *market,
            Some(*mint),
        ).unwrap().1,
{
    derive_address("fee-receiver", market, Some(mint))
}

/// The vault of a market for a mint: derived from "vault", the market and
/// the mint.
pub fn get_vault_address(market: &Pubkey, mint: &Pubkey) -> (r: Option<(Pubkey, u8)>)
    ensures
        r.is_some() == spec_derived("vault".spec_bytes(), *market, Some(*mint)).is_some(),
        r.is_some() ==> r.unwrap().0@ == spec_derived(
            "vault".spec_bytes(),
            *market,
            Some(*mint),
        ).unwrap().0 && r.unwrap().1 == spec_derived(
            "vault".spec_bytes(),
            *market,
            Some(*mint),
        ).unwrap().1,
{
    derive_address("vault", market, Some(mint))
}

/// The account of a market with the money market for a mint: derived from
/// "nix_marginfi_account", the market and the mint.
pub fn get_nix_marginfi_account_address(market: &Pubkey, mint: &Pubkey) -> (r: Option<
    (Pubkey, u8),
>)
    ensures
        r.is_some() == spec_derived(
            "nix_marginfi_account".spec_bytes(),
            *market,
            Some(*mint),
        ).is_some(),
        r.is_some() ==> r.unwrap().0@ == spec_derived(
            "nix_marginfi_account".spec_bytes(),
            *market,
            Some(*mint),
        ).unwrap().0 && r.unwrap().1 == spec_derived(
            "nix_marginfi_account".spec_bytes(),
            *market,
            Some(*mint),
        ).unwrap().1,
{
    derive_address("nix_marginfi_account", market, Some(mint))
}

/// The global account of a mint: derived from "global" and the mint.
pub fn get_global_address(mint: &Pubkey) -> (r: Option<(Pubkey, u8)>)
    ensures
        r.is_some() == spec_derived("global".spec_bytes(), *mint, None).is_some(),
        r.is_some() ==> r.unwrap().0@ == spec_derived("global".spec_bytes(), *mint, None).unwrap().0
            && r.unwrap().1 == spec_derived("global".spec_bytes(), *mint, None).unwrap().1,
{
    derive_address("global", mint, None)
}

/// The vault of the global account of a mint: derived from "global-vault"
/// and the mint.
pub fn get_global_vault_address(mint: &Pubkey) -> (r: Option<(Pubkey, u8)>)
    ensures
        r.is_some() == spec_derived("global-vault".spec_bytes(), *mint, None).is_some(),
        r.is_some() ==> r.unwrap().0@ == spec_derived(
            "global-vault".spec_bytes(),
            *mint,
            None,
        ).unwrap().0 && r.unwrap().1 == spec_derived(
            "global-vault".spec_bytes(),
            *mint,
            None,
        ).unwrap().1,
{
    derive_address("global-vault", mint, None)
}

/// Checks that `account` is the account of the market with the money market
/// for the mint.
pub fn validate_marginfi_account_pda(account: &Pubkey, market: &Pubkey, mint: &Pubkey) -> (r:
    Result<(), EngineError>)
    ensures
        r.is_ok() == (spec_derived(
            "nix_marginfi_account".spec_bytes(),
            *market,
            Some(*mint),
        ).is_some() && spec_derived(
            "nix_marginfi_account".spec_bytes(),
            *market,
            Some(*mint),
        ).unwrap().0 == account@),
        r.is_err() ==> r == Err::<(), _>(EngineError::Nix(NixError::InvalidMarginfiAccount)),
{
    match get_nix_marginfi_account_address(market, mint) {
        Some((expected, _)) => if keys_equal(account, &expected) {
            Ok(())
        } else {
            Err(EngineError::Nix(NixError::InvalidMarginfiAccount))
        },
        None => Err(EngineError::Nix(NixError::InvalidMarginfiAccount)),
    }
}

/// Checks that `account` is the signer of the market and returns its bump
/// seed.
pub fn validate_market_signer(account: &Pubkey, market: &Pubkey) -> (r: Result<u8, EngineError>)
    ensures
        r.is_ok() == (spec_derived("market-signer".spec_bytes(), *market, None).is_some()
            && spec_derived("market-signer".spec_bytes(), *market, None).unwrap().0 == account@),
        r.is_ok() ==> r.unwrap() == spec_derived(
            "market-signer".spec_bytes(),
            *market,
            None,
        ).unwrap().1,
        r.is_err() ==> r == Err::<u8, _>(EngineError::Nix(NixError::IncorrectAccount)),
{
    match get_market_signer_address(market) {
        Some((expected, bump)) => if keys_equal(account, &expected) {
            Ok(bump)
        } else {
            Err(EngineError::Nix(NixError::IncorrectAccount))
        },
        None => Err(EngineError::Nix(NixError::IncorrectAccount)),
    }
}

} // verus!
