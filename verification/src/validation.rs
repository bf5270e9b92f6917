//! Which accounts an operation expects: decisions on the addresses and
//! leading bytes of the accounts that come with an instruction.

use crate::constants::{Pubkey, MAX_GLOBAL_SEATS};
use crate::error::{EngineError, NixError};
use crate::market::MarketFixed;
use crate::utils::{get_discriminant, keys_equal, spec_discriminant};
use vstd::prelude::*;
use vstd::string::StringSliceAdditionalSpecFns;

verus! {

/// The addresses that a market keeps for one of its two assets.
#[derive(Debug, Clone, Copy)]
pub struct SideKeys {
    pub mint: Pubkey,
    pub vault: Pubkey,
    pub marginfi_group: Pubkey,
    pub marginfi_bank: Pubkey,
    pub marginfi_account: Pubkey,
}

/// The addresses of asset A.
pub open spec fn spec_keys_a(fixed: MarketFixed) -> SideKeys {
    SideKeys {
        mint: fixed.base_a_mint,
        vault: fixed.base_a_vault,
        marginfi_group: fixed.base_a_marginfi_group,
        marginfi_bank: fixed.base_a_marginfi_bank,
        marginfi_account: fixed.base_a_marginfi_account,
    }
}

/// The addresses of asset B.
pub open spec fn spec_keys_b(fixed: MarketFixed) -> SideKeys {
    SideKeys {
        mint: fixed.base_b_mint,
        vault: fixed.base_b_vault,
        marginfi_group: fixed.base_b_marginfi_group,
        marginfi_bank: fixed.base_b_marginfi_bank,
        marginfi_account: fixed.base_b_marginfi_account,
    }
}

/// The addresses of the base and of the quote asset of a tree pair: on tree
/// pair A asset A is the base and asset B the quote; on tree pair B the
/// reverse.
pub fn side_keys(fixed: &MarketFixed, use_a_tree: bool) -> (r: (SideKeys, SideKeys))
    ensures
        r.0 == if use_a_tree {
            spec_keys_a(*fixed)
        } else {
            spec_keys_b(*fixed)
        },
        r.1 == if use_a_tree {
            spec_keys_b(*fixed)
        } else {
            spec_keys_a(*fixed)
        },
{
    let a = SideKeys {
        mint: fixed.base_a_mint,
        vault: fixed.base_a_vault,
        marginfi_group: fixed.base_a_marginfi_group,
        marginfi_bank: fixed.base_a_marginfi_bank,
        marginfi_account: fixed.base_a_marginfi_account,
    };
    let b = SideKeys {
        mint: fixed.base_b_mint,
        vault: fixed.base_b_vault,
        marginfi_group: fixed.base_b_marginfi_group,
        marginfi_bank: fixed.base_b_marginfi_bank,
        marginfi_account: fixed.base_b_marginfi_account,
    };
    if use_a_tree {
        (a, b)
    } else {
        (b, a)
    }
}

/// Tells which of two mint accounts is the base and which the quote: `false`
/// where they come base first, `true` where they come quote first. Fails
/// where they are not the market's two mints.
pub fn order_mints(base_mint: &Pubkey, quote_mint: &Pubkey, first: &Pubkey, second: &Pubkey) -> (r:
    Result<bool, EngineError>)
    ensures
        r == if base_mint@ == first@ && quote_mint@ == second@ {
            Ok::<bool, EngineError>(false)
        } else if base_mint@ == second@ && quote_mint@ == first@ {
            Ok(true)
        } else {
            Err(EngineError::Nix(NixError::InvalidMint))
        },
{
    if keys_equal(base_mint, first) && keys_equal(quote_mint, second) {
        Ok(false)
    } else if keys_equal(base_mint, second) && keys_equal(quote_mint, first) {
        Ok(true)
    } else {
        Err(EngineError::Nix(NixError::InvalidMint))
    }
}

/// Tells for which side a global account comes along: 0 for the base, 1 for
/// the quote. Fails where its mint is neither.
pub fn global_side(global_mint: &Pubkey, base_mint: &Pubkey, quote_mint: &Pubkey) -> (r: Result<
    u8,
    EngineError,
>)
    ensures
        r == if global_mint@ == base_mint@ {
            Ok::<u8, EngineError>(0)
        } else if global_mint@ == quote_mint@ {
            Ok(1)
        } else {
            Err(EngineError::Nix(NixError::MissingGlobal))
        },
{
    if keys_equal(global_mint, base_mint) {
        Ok(0)
    } else if keys_equal(global_mint, quote_mint) {
        Ok(1)
    } else {
        Err(EngineError::Nix(NixError::MissingGlobal))
    }
}

/// Tells for which side the accounts of the money market come along, by
/// their group: 0 for the base, 1 for the quote. Fails where the group is
/// neither side's.
pub fn marginfi_side(group: &Pubkey, base: &SideKeys, quote: &SideKeys) -> (r: Result<
    u8,
    EngineError,
>)
    ensures
        r == if group@ == base.marginfi_group@ {
            Ok::<u8, EngineError>(0)
        } else if group@ == quote.marginfi_group@ {
            Ok(1)
        } else {
            Err(EngineError::Nix(NixError::InvalidDepositAccounts))
        },
{
    if keys_equal(group, &base.marginfi_group) {
        Ok(0)
    } else if keys_equal(&quote.marginfi_group, group) {
        Ok(1)
    } else {
        Err(EngineError::Nix(NixError::InvalidDepositAccounts))
    }
}

/// Checks the accounts of the money market against those the market keeps
/// for a side: the group, then the bank, then the account.
pub fn check_marginfi_keys(expected: &SideKeys, group: &Pubkey, bank: &Pubkey, account: &Pubkey)
    -> (r: Result<(), EngineError>)
    ensures
        r == if expected.marginfi_group@ != group@ {
            Err::<(), EngineError>(EngineError::Nix(NixError::InvalidMarginfiGroup))
        } else if expected.marginfi_bank@ != bank@ {
            Err(EngineError::Nix(NixError::InvalidMarginfiBank))
        } else if expected.marginfi_account@ != account@ {
            Err(EngineError::Nix(NixError::InvalidMarginfiAccount))
        } else {
            Ok(())
        },
{
    if !keys_equal(&expected.marginfi_group, group) {
        return Err(EngineError::Nix(NixError::InvalidMarginfiGroup));
    }
    if !keys_equal(&expected.marginfi_bank, bank) {
        return Err(EngineError::Nix(NixError::InvalidMarginfiBank));
    }
    if !keys_equal(&expected.marginfi_account, account) {
        return Err(EngineError::Nix(NixError::InvalidMarginfiAccount));
    }
    Ok(())
}

/// Tells into which asset a deposit goes, by the mint of the trader's token
/// account: `true` for asset A, `false` for asset B. Fails where the mint is
/// neither.
pub fn deposit_side(fixed: &MarketFixed, token_account_mint: &Pubkey) -> (r: Result<
    bool,
    EngineError,
>)
    ensures
        r == if token_account_mint@ == fixed.base_a_mint@ {
            Ok::<bool, EngineError>(true)
        } else if token_account_mint@ == fixed.base_b_mint@ {
            Ok(false)
        } else {
            Err(EngineError::Nix(NixError::InvalidDepositAccounts))
        },
{
    if keys_equal(token_account_mint, &fixed.base_a_mint) {
        Ok(true)
    } else if keys_equal(token_account_mint, &fixed.base_b_mint) {
        Ok(false)
    } else {
        Err(EngineError::Nix(NixError::InvalidDepositAccounts))
    }
}

/// Checks that `admin` is the admin of the market.
pub fn check_admin(fixed: &MarketFixed, admin: &Pubkey) -> (r: Result<(), EngineError>)
    ensures
        r == if fixed.fee_state.admin@ == admin@ {
            Ok::<(), EngineError>(())
        } else {
            Err(EngineError::Nix(NixError::InvalidAdminKey))
        },
{
    if keys_equal(&fixed.fee_state.admin, admin) {
        Ok(())
    } else {
        Err(EngineError::Nix(NixError::InvalidAdminKey))
    }
}

/// Checks that a global account is that of the base mint of a tree pair.
pub fn check_global_mint(fixed: &MarketFixed, use_a_tree: bool, global_mint: &Pubkey) -> (r:
    Result<(), EngineError>)
    ensures
        r == if global_mint@ == (if use_a_tree {
            fixed.base_a_mint@
        } else {
            fixed.base_b_mint@
        }) {
            Ok::<(), EngineError>(())
        } else {
            Err(EngineError::Nix(NixError::InvalidGlobalMint))
        },
{
    let base_mint = if use_a_tree {
        &fixed.base_a_mint
    } else {
        &fixed.base_b_mint
    };
    if keys_equal(global_mint, base_mint) {
        Ok(())
    } else {
        Err(EngineError::Nix(NixError::InvalidGlobalMint))
    }
}

/// Whether the bytes start with the eight bytes of a discriminator.
pub open spec fn starts_with(data: Seq<u8>, discriminator: Seq<u8>) -> bool {
    data.len() >= 8 && data.subrange(0, 8) == discriminator
}

/// Checks that an account is one of the money market's: it is owned by the
/// money market's program and starts with the discriminator of its kind.
pub fn validate_marginfi_discriminator(
    owner: &Pubkey,
    marginfi_program: &Pubkey,
    data: &[u8],
    discriminator: &[u8; 8],
) -> (r: Result<(), EngineError>)
    ensures
        r == if owner@ == marginfi_program@ && starts_with(data@, discriminator@) {
            Ok::<(), EngineError>(())
        } else {
            Err(EngineError::Nix(NixError::InvalidMarginfiAccount))
        },
{
    if !keys_equal(owner, marginfi_program) {
        return Err(EngineError::Nix(NixError::InvalidMarginfiAccount));
    }
    if data.len() < 8 {
        return Err(EngineError::Nix(NixError::InvalidMarginfiAccount));
    }
    let mut i: usize = 0;
    while i < 8
        invariant
            i <= 8,
            data@.len() >= 8,
            forall|k: int| 0 <= k < i ==> data@[k] == discriminator@[k],
        decreases 8 - i,
    {
        if data[i] != discriminator[i] {
            proof {
                assert(data@.subrange(0, 8)[i as int] == data@[i as int]);
            }
            return Err(EngineError::Nix(NixError::InvalidMarginfiAccount));
        }
        i = i + 1;
    }
    assert(data@.subrange(0, 8) =~= discriminator@);
    Ok(())
}

/// Checks the discriminant of an account of this program against that of
/// the type named `name`.
pub fn verify_discriminant(discriminant: u64, name: &str) -> (r: Result<(), EngineError>)
    ensures
        r == if discriminant == spec_discriminant(name.spec_bytes()) {
            Ok::<(), EngineError>(())
        } else {
            Err(EngineError::InvalidAccountData)
        },
{
    match get_discriminant(name) {
        Ok(expected) => if discriminant == expected {
            Ok(())
        } else {
            Err(EngineError::InvalidAccountData)
        },
        Err(e) => Err(e),
    }
}

/// How many slots the pool of a stored account has: the bytes allocated
/// are whole blocks, and the account holds its header and, for each block,
/// the block's links and the block's record. `None` where the length does
/// not fit the bytes allocated.
pub open spec fn spec_stored_slots(len: int, header: int, block: int, allocated: int) -> Option<
    int,
> {
    if block > 0 && allocated % block == 0 && len == header + 2 * allocated {
        Some(allocated / block)
    } else {
        None
    }
}

/// Checks the length of a stored market or ledger against the bytes that its
/// header says are allocated, and returns the number of slots of its pool.
pub fn stored_slots(len: usize, header: usize, block: u32, num_bytes_allocated: u32) -> (r: Result<
    u32,
    EngineError,
>)
    ensures
        r == match spec_stored_slots(
            len as int,
            header as int,
            block as int,
            num_bytes_allocated as int,
        ) {
            Some(n) => Ok::<u32, EngineError>(n as u32),
            None => Err(EngineError::InvalidAccountData),
        },
{
    if block == 0 || num_bytes_allocated % block != 0 {
        return Err(EngineError::InvalidAccountData);
    }
    let expected: u128 = header as u128 + 2 * (num_bytes_allocated as u128);
    if len as u128 != expected {
        return Err(EngineError::InvalidAccountData);
    }
    Ok(num_bytes_allocated / block)
}

/// Checks the length of a stored global account against the seats that its
/// header counts, which are at most `MAX_GLOBAL_SEATS`.
pub fn stored_seats_fit(len: usize, header: usize, seat_size: usize, num_seats_claimed: u16) -> (r:
    Result<(), EngineError>)
    ensures
        r == if num_seats_claimed <= MAX_GLOBAL_SEATS && len == header + num_seats_claimed
            * seat_size {
            Ok::<(), EngineError>(())
        } else {
            Err(EngineError::InvalidAccountData)
        },
{
    if num_seats_claimed > MAX_GLOBAL_SEATS {
        return Err(EngineError::InvalidAccountData);
    }
    assert(num_seats_claimed as int * seat_size as int <= 0xFFFF * 0xFFFF_FFFF_FFFF_FFFF)
        by (nonlinear_arith)
        requires
            0 <= num_seats_claimed <= 0xFFFF,
            0 <= seat_size <= 0xFFFF_FFFF_FFFF_FFFF,
    ;
    let expected: u128 = header as u128 + (num_seats_claimed as u128) * (seat_size as u128);
    if len as u128 != expected {
        return Err(EngineError::InvalidAccountData);
    }
    Ok(())
}

} // verus!
