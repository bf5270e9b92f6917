//! Conversions between token atoms and the share balances of the money
//! market, and the collateral that backs a loan.

use crate::constants::Pubkey;
use crate::error::{EngineError, NixError};
use crate::quantities::{
    ceil_bits, div_bits, fits, floor_bits, mul_bits, one, spec_checked_ceil, spec_checked_div,
    spec_checked_mul, spec_to_u64, WrappedI80F48,
};
use vstd::arithmetic::div_mod::{
    lemma_div_by_multiple, lemma_div_is_ordered, lemma_fundamental_div_mod, lemma_mod_bound,
};
use sha2::{Digest, Sha256};
use vstd::prelude::*;
use vstd::string::StringSliceAdditionalSpecFns;

verus! {

pub const MARGINFI_GROUP_DISCRIMINATOR: [u8; 8] = [
    182u8, 23u8, 173u8, 240u8, 151u8, 206u8, 182u8, 67u8,
];

pub const MARGINFI_BANK_DISCRIMINATOR: [u8; 8] = [
    142u8, 49u8, 166u8, 242u8, 50u8, 66u8, 97u8, 188u8,
];

pub const MARGINFI_ACCOUNT_DISCRIMINATOR: [u8; 8] = [
    67u8, 178u8, 130u8, 109u8, 126u8, 114u8, 28u8, 42u8,
];

pub const MARGINFI_LENDING_ACCOUNT_DEPOSIT_DISCRIMINATOR: [u8; 8] = [
    171u8, 94u8, 235u8, 103u8, 82u8, 64u8, 212u8, 140u8,
];

pub const MARGINFI_LENDING_ACCOUNT_WITHDRAW_DISCRIMINATOR: [u8; 8] = [
    36u8, 72u8, 74u8, 19u8, 210u8, 210u8, 192u8, 192u8,
];

pub const MARGINFI_LENDING_ACCOUNT_BORROW_DISCRIMINATOR: [u8; 8] = [
    4u8, 126u8, 116u8, 53u8, 48u8, 5u8, 212u8, 31u8,
];

pub const MARGINFI_LENDING_ACCOUNT_REPAY_DISCRIMINATOR: [u8; 8] = [
    79u8, 209u8, 172u8, 177u8, 222u8, 51u8, 173u8, 151u8,
];

pub const MARGINFI_LENDING_ACCOUNT_WITHDRAW_EMISSION: [u8; 8] = [
    234u8, 22u8, 84u8, 214u8, 118u8, 176u8, 140u8, 170u8,
];

pub const MARGINFI_LENDING_ACCOUNT_SETTLE_EMISSION: [u8; 8] = [
    161u8, 58u8, 136u8, 174u8, 242u8, 223u8, 156u8, 176u8,
];

pub const MARGINFI_ACCOUNT_INITIALIZE_DISCRIMINATOR: [u8; 8] = [
    43u8, 78u8, 61u8, 255u8, 148u8, 52u8, 249u8, 154u8,
];

/// The value of a hexadecimal digit, in either case.
pub open spec fn hex_value(c: u8) -> Option<u8> {
    if 48 <= c <= 57 {
        Some((c - 48) as u8)
    } else if 97 <= c <= 102 {
        Some((c - 87) as u8)
    } else if 65 <= c <= 70 {
        Some((c - 55) as u8)
    } else {
        None
    }
}

/// Whether the bytes are hexadecimal digits, two for each byte.
pub open spec fn is_hex(s: Seq<u8>) -> bool {
    s.len() % 2 == 0 && forall|i: int| 0 <= i < s.len() ==> hex_value(#[trigger] s[i]).is_some()
}

/// The value of a hexadecimal digit.
pub fn hex_digit(c: u8) -> (r: Option<u8>)
    ensures
        r == hex_value(c),
{
    if 48 <= c && c <= 57 {
        Some(c - 48)
    } else if 97 <= c && c <= 102 {
        Some(c - 87)
    } else if 65 <= c && c <= 70 {
        Some(c - 55)
    } else {
        None
    }
}

/// Converts a string of hexadecimal digits, like "22f123", into the bytes
/// they spell, two digits for each byte, the high digit first.
pub fn hex_to_bytes(hex: &str) -> (out: Vec<u8>)
    requires
        is_hex(hex.spec_bytes()),
    ensures
        out@.len() == hex.spec_bytes().len() / 2,
        forall|i: int|
            0 <= i < out@.len() ==> #[trigger] out@[i] == hex_value(
                hex.spec_bytes()[2 * i],
            ).unwrap() * 16 + hex_value(hex.spec_bytes()[2 * i + 1]).unwrap(),
{
    let bytes = hex.as_bytes();
    let mut out: Vec<u8> = Vec::new();
    let mut i: usize = 0;
    while i + 1 < bytes.len()
        invariant
            bytes@ == hex.spec_bytes(),
            is_hex(bytes@),
            i % 2 == 0,
            i <= bytes@.len(),
            out@.len() == i / 2,
            forall|k: int|
                0 <= k < out@.len() ==> #[trigger] out@[k] == hex_value(bytes@[2 * k]).unwrap()
                    * 16 + hex_value(bytes@[2 * k + 1]).unwrap(),
        decreases bytes@.len() - i,
    {
        let high = match hex_digit(bytes[i]) {
            Some(h) => h,
            None => 0,
        };
        let low = match hex_digit(bytes[i + 1]) {
            Some(l) => l,
            None => 0,
        };
        assert(hex_value(bytes@[i as int]).is_some());
        assert(hex_value(bytes@[i + 1]).is_some());
        out.push(high * 16 + low);
        i = i + 2;
    }
    out
}

/// The SHA-256 hash of `data`: 32 bytes.
pub uninterp spec fn sha256(data: Seq<u8>) -> Seq<u8>;

/// `Sha256::digest` of the `sha2` crate: the SHA-256 hash of the bytes.
#[verifier::external_body]
fn sha256_digest(data: &[u8]) -> (hash: [u8; 32])
    ensures
        hash@ == sha256(data@),
{
    let digest = Sha256::digest(data);
    let mut hash = [0u8; 32];
    hash.copy_from_slice(&digest);
    hash
}

/// The bytes of "account:".
pub open spec fn account_prefix() -> Seq<u8> {
    seq![97u8, 99u8, 99u8, 111u8, 117u8, 110u8, 116u8, 58u8]
}

/// The bytes of "global:".
pub open spec fn global_prefix() -> Seq<u8> {
    seq![103u8, 108u8, 111u8, 98u8, 97u8, 108u8, 58u8]
}

/// The first eight bytes of a hash.
pub open spec fn first_eight(hash: Seq<u8>) -> Seq<u8> {
    Seq::new(8, |i: int| hash[i])
}

/// The first eight bytes of the hash of a prefix followed by a name.
fn discriminator_of(prefix: &[u8], name: &str) -> (d: [u8; 8])
    ensures
        d@ == first_eight(sha256(prefix@ + name.spec_bytes())),
{
    let mut preimage: Vec<u8> = Vec::new();
    preimage.extend_from_slice(prefix);
    assert(preimage@ =~= prefix@);
    preimage.extend_from_slice(name.as_bytes());
    assert(preimage@ =~= prefix@ + name.spec_bytes());
    let hash = sha256_digest(preimage.as_slice());
    let d = [hash[0], hash[1], hash[2], hash[3], hash[4], hash[5], hash[6], hash[7]];
    assert(d@ =~= first_eight(hash@));
    d
}

/// The discriminator of an account of the money market: the first eight
/// bytes of the hash of "account:" followed by the account's name.
pub fn compute_anchor_account_discriminator(struct_name: &str) -> (d: [u8; 8])
    ensures
        d@ == first_eight(sha256(account_prefix() + struct_name.spec_bytes())),
{
    let prefix: [u8; 8] = [97u8, 99u8, 99u8, 111u8, 117u8, 110u8, 116u8, 58u8];
    assert(prefix@ =~= account_prefix());
    discriminator_of(prefix.as_slice(), struct_name)
}

/// The discriminator of an instruction of the money market: the first eight
/// bytes of the hash of "global:" followed by the instruction's name.
pub fn compute_anchor_fn_discriminator(struct_name: &str) -> (d: [u8; 8])
    ensures
        d@ == first_eight(sha256(global_prefix() + struct_name.spec_bytes())),
{
    let prefix: [u8; 7] = [103u8, 108u8, 111u8, 98u8, 97u8, 108u8, 58u8];
    assert(prefix@ =~= global_prefix());
    discriminator_of(prefix.as_slice(), struct_name)
}

/// Data of the money market's instruction that initializes an account.
#[derive(Debug, Clone, Copy)]
pub struct MfiInitializeAccountData {}

/// Data of the money market's deposit.
#[derive(Debug, Clone, Copy)]
pub struct MfiLendingAccountDepositData {
    pub amount: u64,
    pub deposit_up_to_limit: Option<bool>,
}

/// Data of the money market's withdrawal.
#[derive(Debug, Clone, Copy)]
pub struct MfiLendingAccountWithdrawData {
    pub amount: u64,
    pub withdraw_all: Option<bool>,
}

/// Data of the money market's borrow.
#[derive(Debug, Clone, Copy)]
pub struct MfiLendingAccountBorrowData {
    pub amount: u64,
}

/// Data of the money market's repayment.
#[derive(Debug, Clone, Copy)]
pub struct MfiLendingAccountRepayData {
    pub amount: u64,
    pub repay_all: Option<bool>,
}

/// An account as an instruction names it.
#[derive(Debug, Clone, Copy)]
pub struct CpiAccount {
    pub key: Pubkey,
    pub is_signer: bool,
    pub is_writable: bool,
}

/// The accounts of one side with the money market.
#[derive(Debug, Clone, Copy)]
pub struct MarginfiCpiKeys {
    pub marginfi_group: Pubkey,
    pub marginfi_bank: Pubkey,
    pub marginfi_account: Pubkey,
    pub marginfi_liquidity_vault: Pubkey,
    pub marginfi_liquidity_vault_authority: Pubkey,
}

/// A writable account that does not sign.
pub open spec fn writable(key: Pubkey) -> CpiAccount {
    CpiAccount { key, is_signer: false, is_writable: true }
}

/// A read-only account that does not sign.
pub open spec fn readonly(key: Pubkey) -> CpiAccount {
    CpiAccount { key, is_signer: false, is_writable: false }
}

/// The authority: writable, and it signs.
pub open spec fn signing(key: Pubkey) -> CpiAccount {
    CpiAccount { key, is_signer: true, is_writable: true }
}

/// The mint of a token with extensions, which comes last where there is
/// one.
pub open spec fn mint_tail(mint: Option<Pubkey>) -> Seq<CpiAccount> {
    match mint {
        Some(m) => seq![readonly(m)],
        None => Seq::empty(),
    }
}

fn push_mint(accounts: &mut Vec<CpiAccount>, mint: Option<&Pubkey>)
    ensures
        final(accounts)@ == old(accounts)@ + mint_tail(
            match mint {
                Some(m) => Some(*m),
                None => None,
            },
        ),
{
    match mint {
        Some(m) => {
            accounts.push(CpiAccount { key: *m, is_signer: false, is_writable: false });
            assert(accounts@ =~= old(accounts)@ + seq![readonly(*m)]);
        },
        None => {
            assert(accounts@ =~= old(accounts)@ + Seq::<CpiAccount>::empty());
        },
    }
}

/// The accounts of a deposit into the money market, and of a repayment, in
/// order: group, account, authority, bank, source of the tokens, liquidity
/// vault, token program, and the mint where the token has extensions.
pub fn deposit_account_metas(
    keys: &MarginfiCpiKeys,
    authority: &Pubkey,
    source: &Pubkey,
    token_program: &Pubkey,
    mint: Option<&Pubkey>,
) -> (r: Vec<CpiAccount>)
    ensures
        r@ == seq![
            writable(keys.marginfi_group),
            writable(keys.marginfi_account),
            signing(*authority),
            writable(keys.marginfi_bank),
            writable(*source),
            writable(keys.marginfi_liquidity_vault),
            readonly(*token_program),
        ] + mint_tail(
            match mint {
                Some(m) => Some(*m),
                None => None,
            },
        ),
{
    let mut accounts: Vec<CpiAccount> = Vec::new();
    accounts.push(CpiAccount { key: keys.marginfi_group, is_signer: false, is_writable: true });
    accounts.push(CpiAccount { key: keys.marginfi_account, is_signer: false, is_writable: true });
    accounts.push(CpiAccount { key: *authority, is_signer: true, is_writable: true });
    accounts.push(CpiAccount { key: keys.marginfi_bank, is_signer: false, is_writable: true });
    accounts.push(CpiAccount { key: *source, is_signer: false, is_writable: true });
    accounts.push(
        CpiAccount { key: keys.marginfi_liquidity_vault, is_signer: false, is_writable: true },
    );
    accounts.push(CpiAccount { key: *token_program, is_signer: false, is_writable: false });
    proof {
        assert(accounts@ =~= seq![
            writable(keys.marginfi_group),
            writable(keys.marginfi_account),
            signing(*authority),
            writable(keys.marginfi_bank),
            writable(*source),
            writable(keys.marginfi_liquidity_vault),
            readonly(*token_program),
        ]);
    }
    push_mint(&mut accounts, mint);
    accounts
}

/// The accounts of a loan from the money market, and of a withdrawal, in
/// order: the group of the base side, the account that borrows or
/// withdraws, the authority, the bank of the base side, the destination of
/// the tokens, the authority of the liquidity vault, the liquidity vault,
/// the token program, and the mint where the token has extensions. A loan
/// is taken on the account of the quote side, a withdrawal is made from the
/// account of the base side.
pub fn borrow_account_metas(
    base: &MarginfiCpiKeys,
    marginfi_account: &Pubkey,
    authority: &Pubkey,
    destination: &Pubkey,
    token_program: &Pubkey,
    mint: Option<&Pubkey>,
) -> (r: Vec<CpiAccount>)
    ensures
        r@ == seq![
            writable(base.marginfi_group),
            writable(*marginfi_account),
            signing(*authority),
            writable(base.marginfi_bank),
            writable(*destination),
            writable(base.marginfi_liquidity_vault_authority),
            writable(base.marginfi_liquidity_vault),
            readonly(*token_program),
        ] + mint_tail(
            match mint {
                Some(m) => Some(*m),
                None => None,
            },
        ),
{
    let mut accounts: Vec<CpiAccount> = Vec::new();
    accounts.push(CpiAccount { key: base.marginfi_group, is_signer: false, is_writable: true });
    accounts.push(CpiAccount { key: *marginfi_account, is_signer: false, is_writable: true });
    accounts.push(CpiAccount { key: *authority, is_signer: true, is_writable: true });
    accounts.push(CpiAccount { key: base.marginfi_bank, is_signer: false, is_writable: true });
    accounts.push(CpiAccount { key: *destination, is_signer: false, is_writable: true });
    accounts.push(
        CpiAccount {
            key: base.marginfi_liquidity_vault_authority,
            is_signer: false,
            is_writable: true,
        },
    );
    accounts.push(
        CpiAccount { key: base.marginfi_liquidity_vault, is_signer: false, is_writable: true },
    );
    accounts.push(CpiAccount { key: *token_program, is_signer: false, is_writable: false });
    proof {
        assert(accounts@ =~= seq![
            writable(base.marginfi_group),
            writable(*marginfi_account),
            signing(*authority),
            writable(base.marginfi_bank),
            writable(*destination),
            writable(base.marginfi_liquidity_vault_authority),
            writable(base.marginfi_liquidity_vault),
            readonly(*token_program),
        ]);
    }
    push_mint(&mut accounts, mint);
    accounts
}

/// How many oracle accounts a bank takes: three where it is staked with a
/// pushed oracle, one otherwise.
pub fn oracle_account_count(staked_with_pyth_push: bool) -> (n: usize)
    ensures
        n == if staked_with_pyth_push {
            3usize
        } else {
            1usize
        },
{
    if staked_with_pyth_push {
        3
    } else {
        1
    }
}

/// Checks an oracle account against the one the bank expects.
pub fn check_oracle_key(expected: &Pubkey, actual: &Pubkey) -> (r: Result<(), EngineError>)
    ensures
        r == if expected@ == actual@ {
            Ok::<(), EngineError>(())
        } else {
            Err(EngineError::Nix(NixError::InvalidOracleAccount))
        },
{
    if crate::utils::keys_equal(expected, actual) {
        Ok(())
    } else {
        Err(EngineError::Nix(NixError::InvalidOracleAccount))
    }
}

impl MfiLendingAccountDepositData {
    /// The data of the deposit instruction.
    pub fn to_instruction_data(&self) -> (out: Vec<u8>)
        ensures
            out@ == MARGINFI_LENDING_ACCOUNT_DEPOSIT_DISCRIMINATOR@ + crate::logs::le_bytes(
                self.amount,
            ) + flag_bytes(self.deposit_up_to_limit),
    {
        let d = MARGINFI_LENDING_ACCOUNT_DEPOSIT_DISCRIMINATOR;
        instruction_data(&d, self.amount, Some(self.deposit_up_to_limit))
    }
}

impl MfiLendingAccountWithdrawData {
    /// The data of the withdraw instruction.
    pub fn to_instruction_data(&self) -> (out: Vec<u8>)
        ensures
            out@ == MARGINFI_LENDING_ACCOUNT_WITHDRAW_DISCRIMINATOR@ + crate::logs::le_bytes(
                self.amount,
            ) + flag_bytes(self.withdraw_all),
    {
        let d = MARGINFI_LENDING_ACCOUNT_WITHDRAW_DISCRIMINATOR;
        instruction_data(&d, self.amount, Some(self.withdraw_all))
    }
}

impl MfiLendingAccountBorrowData {
    /// The data of the borrow instruction.
    pub fn to_instruction_data(&self) -> (out: Vec<u8>)
        ensures
            out@ == MARGINFI_LENDING_ACCOUNT_BORROW_DISCRIMINATOR@ + crate::logs::le_bytes(
                self.amount,
            ),
    {
        let d = MARGINFI_LENDING_ACCOUNT_BORROW_DISCRIMINATOR;
        let out = instruction_data(&d, self.amount, None);
        assert(out@ =~= d@ + crate::logs::le_bytes(self.amount));
        out
    }
}

impl MfiLendingAccountRepayData {
    /// The data of the repay instruction.
    pub fn to_instruction_data(&self) -> (out: Vec<u8>)
        ensures
            out@ == MARGINFI_LENDING_ACCOUNT_REPAY_DISCRIMINATOR@ + crate::logs::le_bytes(
                self.amount,
            ) + flag_bytes(self.repay_all),
    {
        let d = MARGINFI_LENDING_ACCOUNT_REPAY_DISCRIMINATOR;
        instruction_data(&d, self.amount, Some(self.repay_all))
    }
}

impl MfiInitializeAccountData {
    /// The data of the instruction that initializes an account: its
    /// discriminator.
    pub fn to_instruction_data(&self) -> (out: Vec<u8>)
        ensures
            out@ == MARGINFI_ACCOUNT_INITIALIZE_DISCRIMINATOR@,
    {
        let d = MARGINFI_ACCOUNT_INITIALIZE_DISCRIMINATOR;
        let mut out: Vec<u8> = Vec::new();
        out.extend_from_slice(d.as_slice());
        assert(out@ =~= d@);
        out
    }
}

/// An optional flag in bytes: a byte 0 for none, or a byte 1 and the flag.
pub open spec fn flag_bytes(flag: Option<bool>) -> Seq<u8> {
    match flag {
        None => seq![0u8],
        Some(b) => seq![1u8, if b {
            1u8
        } else {
            0u8
        }],
    }
}

/// The data of an instruction of the money market: its discriminator, the
/// amount in little-endian bytes, and an optional flag where it has one.
pub fn instruction_data(discriminator: &[u8; 8], amount: u64, flag: Option<Option<bool>>) -> (out:
    Vec<u8>)
    ensures
        out@ == discriminator@ + crate::logs::le_bytes(amount) + match flag {
            Some(f) => flag_bytes(f),
            None => Seq::<u8>::empty(),
        },
{
    let mut out: Vec<u8> = Vec::new();
    out.extend_from_slice(discriminator.as_slice());
    let amount_bytes = crate::logs::u64_to_le_bytes(amount);
    out.extend_from_slice(amount_bytes.as_slice());
    match flag {
        Some(None) => {
            out.push(0u8);
            assert(out@ =~= discriminator@ + crate::logs::le_bytes(amount) + seq![0u8]);
        },
        Some(Some(b)) => {
            out.push(1u8);
            out.push(if b {
                1u8
            } else {
                0u8
            });
            assert(out@ =~= discriminator@ + crate::logs::le_bytes(amount) + seq![1u8, if b {
                1u8
            } else {
                0u8
            }]);
        },
        None => {
            assert(out@ =~= discriminator@ + crate::logs::le_bytes(amount) + Seq::<u8>::empty());
        },
    }
    out
}

/// One more than the largest number of decimals whose power of ten is a
/// quantity.
pub const MAX_EXP_10: u8 = 24u8;

/// The risk weights of a bank that the engine reads.
#[derive(Debug, Clone, Copy, PartialEq, Eq, Structural)]
pub struct BankConfig {
    /// Weight applied to an asset when a loan is opened.
    pub asset_weight_init: WrappedI80F48,
    /// Weight applied to a liability when a loan is opened.
    pub liability_weight_init: WrappedI80F48,
}

/// What the engine reads of a bank of the money market: a snapshot taken when
/// an operation starts.
#[derive(Debug, Clone, Copy, PartialEq, Eq, Structural)]
pub struct Bank {
    /// Decimals of the bank's mint.
    pub mint_decimals: u8,
    /// Token atoms that one asset share stands for.
    pub asset_share_value: WrappedI80F48,
    /// Token atoms that one liability share stands for.
    pub liability_share_value: WrappedI80F48,
    /// The bank's risk weights.
    pub config: BankConfig,
}

/// `10^n`.
pub open spec fn pow10(n: nat) -> int
    decreases n,
{
    if n == 0 {
        1
    } else {
        10 * pow10((n - 1) as nat)
    }
}

/// Up to `10^23` a power of ten is a quantity.
pub proof fn lemma_pow10_bounds(n: nat)
    requires
        n <= 23,
    ensures
        1 <= pow10(n) <= 100_000_000_000_000_000_000_000,
    decreases 23 - n,
{
    if n == 23 {
        reveal_with_fuel(pow10, 24);
    } else {
        lemma_pow10_bounds(n + 1);
        reveal_with_fuel(pow10, 2);
    }
}

/// The power of ten with `decimals` zeros as a quantity, or `None` where it is
/// none (from 24 decimals on).
pub fn exp10(decimals: u8) -> (r: Option<WrappedI80F48>)
    ensures
        r.is_some() == (decimals < MAX_EXP_10),
        r.is_some() ==> r.unwrap()@ == pow10(decimals as nat) * one(),
{
    if decimals >= MAX_EXP_10 {
        return None;
    }
    let mut p: i128 = 1;
    let mut i: u8 = 0;
    while i < decimals
        invariant
            i <= decimals < 24,
            p == pow10(i as nat),
        decreases decimals - i,
    {
        proof {
            lemma_pow10_bounds(i as nat);
            lemma_pow10_bounds((i + 1) as nat);
            reveal_with_fuel(pow10, 2);
        }
        p = p * 10;
        i = i + 1;
    }
    proof {
        lemma_pow10_bounds(decimals as nat);
        assert(p as int * one() <= 100_000_000_000_000_000_000_000 * one()) by (nonlinear_arith)
            requires
                p <= 100_000_000_000_000_000_000_000,
        ;
        assert(0 <= p as int * one()) by (nonlinear_arith)
            requires
                1 <= p,
        ;
    }
    Some(WrappedI80F48::from_bits(p * crate::quantities::ONE_BITS))
}

/// Asset shares that `token_amount` atoms buy at the share value `value`.
pub open spec fn spec_tokens_to_shares(token_amount: u64, value: int) -> Option<i128> {
    spec_checked_div(token_amount as int * one(), value)
}

/// Atoms that `shares` are worth at the share value `value`, rounded down.
pub open spec fn spec_shares_to_tokens_floor(shares: int, value: int) -> Option<u64> {
    match spec_checked_mul(shares, value) {
        Some(p) => spec_to_u64(floor_bits(p as int)),
        None => None,
    }
}

/// Atoms that repay `shares` at the share value `value`, rounded up.
pub open spec fn spec_shares_to_tokens_ceil(shares: int, value: int) -> Option<u64> {
    match spec_checked_mul(shares, value) {
        Some(p) => match spec_checked_ceil(p as int) {
            Some(c) => spec_to_u64(c as int),
            None => None,
        },
        None => None,
    }
}

/// A product of an earlier result, where there is one.
pub open spec fn then_mul(a: Option<i128>, b: int) -> Option<i128> {
    match a {
        Some(x) => spec_checked_mul(x as int, b),
        None => None,
    }
}

/// A quotient of an earlier result, where there is one.
pub open spec fn then_div(a: Option<i128>, b: int) -> Option<i128> {
    match a {
        Some(x) => spec_checked_div(x as int, b),
        None => None,
    }
}

/// The factor `1 - buffer_bps / 10000` by which the buffer lowers the weight
/// of collateral, where `buffer_bps` fits a signed 64-bit number.
pub open spec fn spec_buffer_factor(ltv_buffer_bps: u64) -> Option<i128> {
    if ltv_buffer_bps <= i64::MAX as u64 {
        spec_checked_div((10000 - ltv_buffer_bps as int) * one(), 10000 * one())
    } else {
        None
    }
}

/// Quote atoms that back a loan of `num_base_atoms` in the worst case:
///
/// ```text
/// effective_weight = quote.asset_weight_init * buffer
/// base_usd         = num_base_atoms * base_price / 10^base.decimals
/// required_usd     = base_usd * base.liability_weight_init / effective_weight
/// required (atoms) = ceil(required_usd * 10^quote.decimals / quote_price)
/// ```
///
/// every product rounded down and every quotient rounded toward zero to a
/// multiple of `2^-48`; `None` where a step leaves the range of quantities,
/// divides by zero, or a mint has 24 decimals or more.
pub open spec fn spec_required_quote_collateral(
    base: Bank,
    quote: Bank,
    base_price: int,
    quote_price: int,
    buffer: int,
    num_base_atoms: u64,
) -> Option<u64> {
    if base.mint_decimals >= MAX_EXP_10 || quote.mint_decimals >= MAX_EXP_10 {
        None
    } else {
        let weight = spec_checked_mul(quote.config.asset_weight_init@, buffer);
        let base_usd = then_div(
            spec_checked_mul(num_base_atoms as int * one(), base_price),
            pow10(base.mint_decimals as nat) * one(),
        );
        match weight {
            None => None,
            Some(w) => {
                let required_usd = then_div(
                    then_mul(base_usd, base.config.liability_weight_init@),
                    w as int,
                );
                let required = then_div(
                    then_mul(required_usd, pow10(quote.mint_decimals as nat) * one()),
                    quote_price,
                );
                match required {
                    None => None,
                    Some(r) => match spec_checked_ceil(r as int) {
                        Some(c) => spec_to_u64(c as int),
                        None => None,
                    },
                }
            },
        }
    }
}

/// What a conversion returns for the outcome `v` of its arithmetic: the value,
/// or a numerical overflow where there is none.
pub open spec fn or_overflow<T>(v: Option<T>) -> Result<T, EngineError> {
    match v {
        Some(x) => Ok(x),
        None => Err(EngineError::Nix(NixError::NumericalOverflow)),
    }
}

/// The factor by which a loan-to-value buffer in basis points lowers the
/// weight of collateral.
pub fn buffer_factor(ltv_buffer_bps: u64) -> (r: Result<WrappedI80F48, EngineError>)
    ensures
        r.is_ok() == spec_buffer_factor(ltv_buffer_bps).is_some(),
        r.is_ok() ==> r.unwrap().value == spec_buffer_factor(ltv_buffer_bps).unwrap(),
        r.is_err() ==> r == Err::<WrappedI80F48, _>(
            EngineError::Nix(NixError::NumericalOverflow),
        ),
{
    if ltv_buffer_bps > i64::MAX as u64 {
        return Err(EngineError::Nix(NixError::NumericalOverflow));
    }
    let rest: i64 = 10000i64 - (ltv_buffer_bps as i64);
    match WrappedI80F48::from_i64(rest).checked_div(WrappedI80F48::from_i64(10000)) {
        Some(f) => Ok(f),
        None => Err(EngineError::Nix(NixError::NumericalOverflow)),
    }
}

/// Converts a token amount to asset shares of `bank`.
pub fn convert_tokens_to_asset_shares(token_amount: u64, bank: &Bank) -> (r: Result<
    WrappedI80F48,
    EngineError,
>)
    ensures
        r.is_ok() == spec_tokens_to_shares(token_amount, bank.asset_share_value@).is_some(),
        r.is_ok() ==> r.unwrap().value == spec_tokens_to_shares(
            token_amount,
            bank.asset_share_value@,
        ).unwrap(),
        r.is_err() ==> r == Err::<WrappedI80F48, _>(
            EngineError::Nix(NixError::NumericalOverflow),
        ),
{
    match WrappedI80F48::from_u64(token_amount).checked_div(bank.asset_share_value) {
        Some(s) => Ok(s),
        None => Err(EngineError::Nix(NixError::NumericalOverflow)),
    }
}

/// Converts asset shares of `bank` to whole token atoms, rounding down.
pub fn convert_asset_shares_to_tokens(asset_shares: WrappedI80F48, bank: &Bank) -> (r: Result<
    u64,
    EngineError,
>)
    ensures
        r == or_overflow(spec_shares_to_tokens_floor(asset_shares@, bank.asset_share_value@)),
{
    match asset_shares.checked_mul(bank.asset_share_value) {
        Some(p) => match p.floor().checked_to_u64() {
            Some(t) => Ok(t),
            None => Err(EngineError::Nix(NixError::NumericalOverflow)),
        },
        None => Err(EngineError::Nix(NixError::NumericalOverflow)),
    }
}

/// The token atoms that repay `liability_shares` of `bank`, rounded up in
/// favour of the lender.
pub fn get_token_amount_to_repay_liability_shares(
    liability_shares: WrappedI80F48,
    bank: &Bank,
) -> (r: Result<u64, EngineError>)
    ensures
        r == or_overflow(
            spec_shares_to_tokens_ceil(liability_shares@, bank.liability_share_value@),
        ),
{
    match liability_shares.checked_mul(bank.liability_share_value) {
        Some(p) => match p.checked_ceil() {
            Some(c) => match c.checked_to_u64() {
                Some(t) => Ok(t),
                None => Err(EngineError::Nix(NixError::NumericalOverflow)),
            },
            None => Err(EngineError::Nix(NixError::NumericalOverflow)),
        },
        None => Err(EngineError::Nix(NixError::NumericalOverflow)),
    }
}

/// Converts a token amount to liability shares of `bank`.
pub fn convert_tokens_to_liability_shares(token_amount: u64, bank: &Bank) -> (r: Result<
    WrappedI80F48,
    EngineError,
>)
    ensures
        r.is_ok() == spec_tokens_to_shares(token_amount, bank.liability_share_value@).is_some(),
        r.is_ok() ==> r.unwrap().value == spec_tokens_to_shares(
            token_amount,
            bank.liability_share_value@,
        ).unwrap(),
        r.is_err() ==> r == Err::<WrappedI80F48, _>(
            EngineError::Nix(NixError::NumericalOverflow),
        ),
{
    match WrappedI80F48::from_u64(token_amount).checked_div(bank.liability_share_value) {
        Some(s) => Ok(s),
        None => Err(EngineError::Nix(NixError::NumericalOverflow)),
    }
}

/// The quote atoms that must stand as collateral for a loan of
/// `num_base_atoms`, at the given oracle prices and buffer factor, rounded up.
pub fn get_required_quote_collateral_to_back_loan(
    base_marginfi_bank: &Bank,
    quote_marginfi_bank: &Bank,
    base_oracle_price_usd: WrappedI80F48,
    quote_oracle_price_usd: WrappedI80F48,
    buffer_f: WrappedI80F48,
    num_base_atoms: u64,
) -> (r: Result<u64, EngineError>)
    ensures
        r == or_overflow(
            spec_required_quote_collateral(
                *base_marginfi_bank,
                *quote_marginfi_bank,
                base_oracle_price_usd@,
                quote_oracle_price_usd@,
                buffer_f@,
                num_base_atoms,
            ),
        ),
{
    let overflow = Err(EngineError::Nix(NixError::NumericalOverflow));
    let base_exp = match exp10(base_marginfi_bank.mint_decimals) {
        Some(e) => e,
        None => { return overflow; },
    };
    let quote_exp = match exp10(quote_marginfi_bank.mint_decimals) {
        Some(e) => e,
        None => { return overflow; },
    };
    let weight = quote_marginfi_bank.config.asset_weight_init.checked_mul(buffer_f);
    let base_usd = match WrappedI80F48::from_u64(num_base_atoms).checked_mul(
        base_oracle_price_usd,
    ) {
        Some(v) => v.checked_div(base_exp),
        None => None,
    };
    let weight = match weight {
        Some(w) => w,
        None => { return overflow; },
    };
    let base_usd = match base_usd {
        Some(v) => v,
        None => { return overflow; },
    };
    let weighted = match base_usd.checked_mul(base_marginfi_bank.config.liability_weight_init) {
        Some(v) => v,
        None => { return overflow; },
    };
    let required_usd = match weighted.checked_div(weight) {
        Some(v) => v,
        None => { return overflow; },
    };
    let scaled = match required_usd.checked_mul(quote_exp) {
        Some(v) => v,
        None => { return overflow; },
    };
    let required = match scaled.checked_div(quote_oracle_price_usd) {
        Some(v) => v,
        None => { return overflow; },
    };
    match required.checked_ceil() {
        Some(c) => match c.checked_to_u64() {
            Some(t) => Ok(t),
            None => overflow,
        },
        None => overflow,
    }
}

/// Tokens turned into asset shares and back lose at most one atom: where the
/// share value is positive and at most `2^48`, and the shares for `tokens`
/// atoms exist, they are worth `tokens` atoms or one atom less.
pub proof fn lemma_tokens_shares_tokens(tokens: u64, value: int)
    requires
        0 < value <= one() * one(),
        spec_tokens_to_shares(tokens, value).is_some(),
    ensures
        spec_shares_to_tokens_floor(
            spec_tokens_to_shares(tokens, value).unwrap() as int,
            value,
        ).is_some(),
        tokens - 1 <= spec_shares_to_tokens_floor(
            spec_tokens_to_shares(tokens, value).unwrap() as int,
            value,
        ).unwrap() <= tokens,
{
    let b = one();
    let t = tokens as int;
    let n = t * b * b;
    assert(n >= 0) by (nonlinear_arith)
        requires
            t >= 0,
            b > 0,
            n == t * b * b,
    ;
    assert((t * b) * b == n) by (nonlinear_arith)
        requires
            n == t * b * b,
    ;
    let s = n / value;
    assert(div_bits(t * b, value) == s);
    lemma_fundamental_div_mod(n, value);
    lemma_mod_bound(n, value);
    let sv = s * value;
    assert(sv == value * s) by (nonlinear_arith)
        requires
            sv == s * value,
    ;
    assert(n - value < sv <= n);
    // Whole part after the product is rounded down.
    let p = sv / b;
    lemma_div_is_ordered(sv, n, b);
    assert(n / b == t * b) by {
        lemma_div_by_multiple(t * b, b);
    }
    assert(p <= t * b);
    assert((t * b) / b == t) by {
        lemma_div_by_multiple(t, b);
    }
    lemma_div_is_ordered(p, t * b, b);
    assert(p / b <= t);
    if t >= 1 {
        let m = (t - 1) * b * b;
        assert(m == n - b * b) by (nonlinear_arith)
            requires
                m == (t - 1) * b * b,
                n == t * b * b,
        ;
        assert(m <= sv);
        assert(((t - 1) * b) * b == m) by (nonlinear_arith)
            requires
                m == (t - 1) * b * b,
        ;
        assert(0 <= (t - 1) * b) by (nonlinear_arith)
            requires
                t >= 1,
                b > 0,
        ;
        lemma_div_by_multiple((t - 1) * b, b);
        lemma_div_is_ordered(m, sv, b);
        assert((t - 1) * b <= p);
        lemma_div_by_multiple(t - 1, b);
        lemma_div_is_ordered((t - 1) * b, p, b);
        assert(t - 1 <= p / b);
    } else {
        assert(sv >= 0) by (nonlinear_arith)
            requires
                sv == s * value,
                s >= 0,
                value > 0,
        {
        }
        vstd::arithmetic::div_mod::lemma_div_pos_is_pos(sv, b);
        vstd::arithmetic::div_mod::lemma_div_pos_is_pos(p, b);
    }
    assert(0 <= s) by {
        vstd::arithmetic::div_mod::lemma_div_pos_is_pos(n, value);
    }
    assert(0 <= p <= t * b) by {
        assert(sv >= 0) by (nonlinear_arith)
            requires
                sv == s * value,
                s >= 0,
                value > 0,
        ;
        vstd::arithmetic::div_mod::lemma_div_pos_is_pos(sv, b);
    }
    assert(t * b <= 0xFFFF_FFFF_FFFF_FFFF * b) by (nonlinear_arith)
        requires
            t <= 0xFFFF_FFFF_FFFF_FFFF,
            b > 0,
    ;
    assert(mul_bits(s, value) == p);
    assert(fits(p));
    // Rounding a quantity down keeps its whole part.
    assert(floor_bits(p) / b == p / b) by {
        assert((p / b) * b == b * (p / b)) by (nonlinear_arith);
        vstd::arithmetic::div_mod::lemma_div_multiples_vanish(p / b, b);
    }
}

/// Asset shares turned into tokens and back never grow: where the share value
/// is positive, the shares are not negative and both conversions succeed, the
/// result is at most the shares that went in.
pub proof fn lemma_shares_tokens_shares_at_most(shares: int, value: int)
    requires
        0 < value,
        0 <= shares,
        fits(shares),
        spec_shares_to_tokens_floor(shares, value).is_some(),
        spec_tokens_to_shares(
            spec_shares_to_tokens_floor(shares, value).unwrap(),
            value,
        ).is_some(),
    ensures
        spec_tokens_to_shares(spec_shares_to_tokens_floor(shares, value).unwrap(), value).unwrap()
            <= shares,
{
    let b = one();
    let sv = shares * value;
    let p = sv / b;
    assert(sv >= 0) by (nonlinear_arith)
        requires
            sv == shares * value,
            shares >= 0,
            value > 0,
    ;
    assert(mul_bits(shares, value) == p);
    let t = floor_bits(p) / b;
    assert(t == p / b) by {
        assert((p / b) * b == b * (p / b)) by (nonlinear_arith);
        vstd::arithmetic::div_mod::lemma_div_multiples_vanish(p / b, b);
    }
    // t * b <= p  and  p * b <= sv
    lemma_fundamental_div_mod(p, b);
    lemma_mod_bound(p, b);
    lemma_fundamental_div_mod(sv, b);
    lemma_mod_bound(sv, b);
    assert(t * b <= p) by (nonlinear_arith)
        requires
            p == b * (p / b) + p % b,
            0 <= p % b,
            t == p / b,
    ;
    assert(p * b <= sv) by (nonlinear_arith)
        requires
            sv == b * (sv / b) + sv % b,
            0 <= sv % b,
            p == sv / b,
    ;
    assert(t * b * b <= sv) by (nonlinear_arith)
        requires
            t * b <= p,
            p * b <= sv,
            b > 0,
    ;
    vstd::arithmetic::div_mod::lemma_div_pos_is_pos(sv, b);
    vstd::arithmetic::div_mod::lemma_div_pos_is_pos(p, b);
    assert(0 <= t * b * b) by (nonlinear_arith)
        requires
            t >= 0,
            b > 0,
    ;
    assert((t * b) * b == t * b * b);
    lemma_div_is_ordered(t * b * b, sv, value);
    assert(sv / value == shares) by {
        lemma_div_by_multiple(shares, value);
    }
    assert(div_bits(t * b, value) == (t * b * b) / value);
}

/// Asset shares that stand for a whole number of atoms come back unchanged:
/// where the share value is positive, the shares are not negative and are
/// worth exactly a whole number of atoms, and both conversions succeed, shares
/// to tokens to shares is the identity.
pub proof fn lemma_shares_tokens_shares_exact(shares: int, value: int)
    requires
        0 < value,
        0 <= shares,
        fits(shares),
        (shares * value) % (one() * one()) == 0,
        spec_shares_to_tokens_floor(shares, value).is_some(),
        spec_tokens_to_shares(
            spec_shares_to_tokens_floor(shares, value).unwrap(),
            value,
        ).is_some(),
    ensures
        spec_tokens_to_shares(spec_shares_to_tokens_floor(shares, value).unwrap(), value).unwrap()
            >= shares,
        spec_tokens_to_shares(spec_shares_to_tokens_floor(shares, value).unwrap(), value).unwrap()
            == shares,
{
    let b = one();
    let bb = b * b;
    let sv = shares * value;
    assert(sv >= 0) by (nonlinear_arith)
        requires
            sv == shares * value,
            shares >= 0,
            value > 0,
    ;
    lemma_fundamental_div_mod(sv, bb);
    let k = sv / bb;
    assert(sv == bb * k);
    assert(sv == (k * b) * b) by (nonlinear_arith)
        requires
            sv == bb * k,
            bb == b * b,
    ;
    vstd::arithmetic::div_mod::lemma_div_pos_is_pos(sv, bb);
    assert(0 <= k * b) by (nonlinear_arith)
        requires
            k >= 0,
            b > 0,
    ;
    let p = sv / b;
    assert(p == k * b) by {
        lemma_div_by_multiple(k * b, b);
    }
    assert(mul_bits(shares, value) == p);
    assert(p / b == k) by {
        lemma_div_by_multiple(k, b);
    }
    assert(floor_bits(p) == p) by (nonlinear_arith)
        requires
            p == k * b,
            p / b == k,
            floor_bits(p) == (p / b) * b,
    ;
    let t = floor_bits(p) / b;
    assert(t == k);
    assert((t * b) * b == sv);
    assert(sv / value == shares) by {
        lemma_div_by_multiple(shares, value);
    }
    assert(div_bits(t * b, value) == sv / value);
}

/// The product of quantities that are not negative grows with its first
/// factor.
pub proof fn lemma_mul_is_monotone(a1: int, a2: int, b: int)
    requires
        0 <= a1 <= a2,
        0 <= b,
    ensures
        0 <= mul_bits(a1, b) <= mul_bits(a2, b),
{
    assert(0 <= a1 * b <= a2 * b) by (nonlinear_arith)
        requires
            0 <= a1 <= a2,
            0 <= b,
    ;
    lemma_div_is_ordered(a1 * b, a2 * b, one());
    vstd::arithmetic::div_mod::lemma_div_pos_is_pos(a1 * b, one());
}

/// The quotient of a quantity that is not negative by a positive one grows
/// with the dividend.
pub proof fn lemma_div_is_monotone(a1: int, a2: int, b: int)
    requires
        0 <= a1 <= a2,
        0 < b,
    ensures
        0 <= div_bits(a1, b) <= div_bits(a2, b),
{
    assert(0 <= a1 * one() <= a2 * one()) by (nonlinear_arith)
        requires
            0 <= a1 <= a2,
    ;
    lemma_div_is_ordered(a1 * one(), a2 * one(), b);
    vstd::arithmetic::div_mod::lemma_div_pos_is_pos(a1 * one(), b);
}

/// Rounding up to a whole number keeps the order of quantities, and never
/// lowers one.
pub proof fn lemma_ceil_is_monotone(a1: int, a2: int)
    requires
        0 <= a1 <= a2,
    ensures
        a1 <= ceil_bits(a1) <= ceil_bits(a2),
        a2 <= ceil_bits(a2),
        ceil_bits(a1) % one() == 0,
{
    let b = one();
    lemma_fundamental_div_mod(a1, b);
    lemma_fundamental_div_mod(a2, b);
    lemma_mod_bound(a1, b);
    lemma_mod_bound(a2, b);
    lemma_div_is_ordered(a1, a2, b);
    let q1 = a1 / b;
    let q2 = a2 / b;
    assert((q1 + 1) * b == q1 * b + b && (q2 + 1) * b == q2 * b + b && b * q1 == q1 * b && b * q2
        == q2 * b) by (nonlinear_arith);
    if q1 < q2 {
        assert((q1 + 1) * b <= q2 * b) by (nonlinear_arith)
            requires
                q1 + 1 <= q2,
                b > 0,
        ;
    }
    if a1 % b != 0 {
        vstd::arithmetic::div_mod::lemma_mod_multiples_basic(q1 + 1, b);
    }
}

/// The collateral that backs a loan grows with the loan: where prices and
/// weights are not negative and the collateral for `larger` atoms exists,
/// the collateral for fewer atoms exists and is no more.
pub proof fn lemma_required_collateral_is_monotone(
    base: Bank,
    quote: Bank,
    base_price: int,
    quote_price: int,
    buffer: int,
    smaller: u64,
    larger: u64,
)
    requires
        smaller <= larger,
        0 <= base_price,
        0 <= quote_price,
        0 <= base.config.liability_weight_init@,
        0 <= quote.config.asset_weight_init@,
        0 <= buffer,
        spec_required_quote_collateral(base, quote, base_price, quote_price, buffer, larger).is_some(),
    ensures
        spec_required_quote_collateral(
            base,
            quote,
            base_price,
            quote_price,
            buffer,
            smaller,
        ).is_some(),
        spec_required_quote_collateral(
            base,
            quote,
            base_price,
            quote_price,
            buffer,
            smaller,
        ).unwrap() <= spec_required_quote_collateral(
            base,
            quote,
            base_price,
            quote_price,
            buffer,
            larger,
        ).unwrap(),
{
    let b = one();
    let x = smaller as int * b;
    let y = larger as int * b;
    assert(0 <= x <= y) by (nonlinear_arith)
        requires
            0 <= smaller <= larger,
            x == smaller as int * b,
            y == larger as int * b,
            b > 0,
    ;
    let lw = base.config.liability_weight_init@;
    let w = mul_bits(quote.config.asset_weight_init@, buffer);
    assert(0 <= w) by {
        lemma_mul_is_monotone(0, quote.config.asset_weight_init@, buffer);
        assert(0 * buffer == 0) by (nonlinear_arith);
    }
    lemma_pow10_bounds(base.mint_decimals as nat);
    lemma_pow10_bounds(quote.mint_decimals as nat);
    let eb = pow10(base.mint_decimals as nat) * b;
    let eq = pow10(quote.mint_decimals as nat) * b;
    assert(0 < eb && 0 < eq) by (nonlinear_arith)
        requires
            1 <= pow10(base.mint_decimals as nat),
            1 <= pow10(quote.mint_decimals as nat),
            eb == pow10(base.mint_decimals as nat) * b,
            eq == pow10(quote.mint_decimals as nat) * b,
            b > 0,
    ;
    // Step by step, the smaller stays below the larger.
    lemma_mul_is_monotone(x, y, base_price);
    let x1 = mul_bits(x, base_price);
    let y1 = mul_bits(y, base_price);
    lemma_div_is_monotone(x1, y1, eb);
    let x2 = div_bits(x1, eb);
    let y2 = div_bits(y1, eb);
    lemma_mul_is_monotone(x2, y2, lw);
    let x3 = mul_bits(x2, lw);
    let y3 = mul_bits(y2, lw);
    assert(w > 0);
    lemma_div_is_monotone(x3, y3, w);
    let x4 = div_bits(x3, w);
    let y4 = div_bits(y3, w);
    lemma_mul_is_monotone(x4, y4, eq);
    let x5 = mul_bits(x4, eq);
    let y5 = mul_bits(y4, eq);
    assert(quote_price > 0);
    lemma_div_is_monotone(x5, y5, quote_price);
    let x6 = div_bits(x5, quote_price);
    let y6 = div_bits(y5, quote_price);
    lemma_ceil_is_monotone(x6, y6);
    lemma_div_is_ordered(ceil_bits(x6), ceil_bits(y6), b);
    vstd::arithmetic::div_mod::lemma_div_pos_is_pos(ceil_bits(x6), b);
}

/// The atoms that repay the liability shares of a number of atoms are no
/// more than those atoms: where the share value is positive and the shares
/// exist, turning atoms into liability shares and the shares back into the
/// atoms that repay them, rounded up, never asks for more than was lent.
pub proof fn lemma_repayment_is_at_most_the_loan(tokens: u64, value: int)
    requires
        0 < value,
        spec_tokens_to_shares(tokens, value).is_some(),
    ensures
        spec_shares_to_tokens_ceil(
            spec_tokens_to_shares(tokens, value).unwrap() as int,
            value,
        ).is_some(),
        spec_shares_to_tokens_ceil(
            spec_tokens_to_shares(tokens, value).unwrap() as int,
            value,
        ).unwrap() <= tokens,
{
    let b = one();
    let t = tokens as int;
    let n = t * b * b;
    assert(n >= 0 && (t * b) * b == n && t * b >= 0) by (nonlinear_arith)
        requires
            t >= 0,
            b > 0,
            n == t * b * b,
    ;
    let s = n / value;
    assert(div_bits(t * b, value) == s);
    lemma_fundamental_div_mod(n, value);
    lemma_mod_bound(n, value);
    vstd::arithmetic::div_mod::lemma_div_pos_is_pos(n, value);
    let sv = s * value;
    assert(sv == value * s && sv >= 0) by (nonlinear_arith)
        requires
            sv == s * value,
            s >= 0,
            value > 0,
    ;
    assert(sv <= n);
    let p = sv / b;
    lemma_div_is_ordered(sv, n, b);
    vstd::arithmetic::div_mod::lemma_div_pos_is_pos(sv, b);
    assert(n / b == t * b) by {
        lemma_div_by_multiple(t * b, b);
    }
    assert(mul_bits(s, value) == p);
    assert(0 <= p <= t * b);
    assert(t * b <= 0xFFFF_FFFF_FFFF_FFFF * b) by (nonlinear_arith)
        requires
            t <= 0xFFFF_FFFF_FFFF_FFFF,
            b > 0,
    ;
    lemma_ceil_is_monotone(p, t * b);
    assert(ceil_bits(t * b) == t * b) by {
        vstd::arithmetic::div_mod::lemma_mod_multiples_basic(t, b);
    }
    let c = ceil_bits(p);
    assert(0 <= c <= t * b);
    lemma_div_is_ordered(c, t * b, b);
    vstd::arithmetic::div_mod::lemma_div_pos_is_pos(c, b);
    assert((t * b) / b == t) by {
        lemma_div_by_multiple(t, b);
    }
}

} // verus!
