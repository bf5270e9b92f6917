//! The global account of a mint: deposits that back global orders on every
//! market of the mint.

use crate::constants::{Pubkey, MAX_GLOBAL_SEATS};
use crate::dynamic_account::DynamicAccount;
use crate::error::{EngineError, NixError};
use crate::logs::{Effect, GlobalCleanupLog};
use crate::quantities::spec_to_u64;
use crate::resting_order::RestingOrder;
use crate::utils::keys_equal;
use vstd::prelude::*;

verus! {

/// A trader's seat on a global account.
#[derive(Debug, Clone, Copy)]
pub struct GlobalTrader {
    pub trader: Pubkey,
    /// Token atoms the trader has on deposit.
    pub deposited_atoms: u64,
}

/// The header of a global account.
#[derive(Debug, Clone, Copy)]
pub struct GlobalFixed {
    /// Identifies the kind of account.
    pub discriminant: u64,
    pub mint: Pubkey,
    pub vault: Pubkey,
    pub vault_bump: u8,
    /// The number of traders seated.
    pub num_seats_claimed: u16,
}

/// The seats of a global account.
pub struct GlobalDynamic {
    pub traders: Vec<GlobalTrader>,
}

/// A global account that owns its data.
pub type GlobalValue = DynamicAccount<GlobalFixed, GlobalDynamic>;

/// The place of the first seat of the trader `key`, or the number of seats
/// where the trader has none.
pub open spec fn seat_place(traders: Seq<GlobalTrader>, key: Seq<u8>) -> int
    decreases traders.len(),
{
    if traders.len() == 0 || traders[0].trader@ == key {
        0
    } else {
        1 + seat_place(traders.drop_first(), key)
    }
}

/// The atoms the trader `key` has on deposit; zero without a seat.
pub open spec fn balance_of(traders: Seq<GlobalTrader>, key: Seq<u8>) -> u64 {
    if seat_place(traders, key) < traders.len() {
        traders[seat_place(traders, key)].deposited_atoms
    } else {
        0
    }
}

/// The place of a trader lies within the seats or just behind them; within,
/// it is the first seat of the trader.
pub proof fn lemma_seat_place(traders: Seq<GlobalTrader>, key: Seq<u8>)
    ensures
        0 <= seat_place(traders, key) <= traders.len(),
        seat_place(traders, key) < traders.len() ==> traders[seat_place(traders, key)].trader@
            == key,
        forall|k: int|
            0 <= k < seat_place(traders, key) ==> (#[trigger] traders[k]).trader@ != key,
    decreases traders.len(),
{
    if traders.len() > 0 && traders[0].trader@ != key {
        let rest = traders.drop_first();
        lemma_seat_place(rest, key);
        assert forall|k: int| 0 <= k < seat_place(traders, key) implies (
        #[trigger] traders[k]).trader@ != key by {
            if k > 0 {
                assert(traders[k] == rest[k - 1]);
            }
        }
        if seat_place(traders, key) < traders.len() {
            assert(rest[seat_place(rest, key)] == traders[seat_place(rest, key) + 1]);
        }
    }
}

/// The seats after `atoms` were added to the deposit of the trader `key`.
pub open spec fn spec_deposit(traders: Seq<GlobalTrader>, key: Seq<u8>, atoms: u64) -> Result<
    Seq<GlobalTrader>,
    EngineError,
> {
    let i = seat_place(traders, key);
    if i >= traders.len() {
        Err(EngineError::Nix(NixError::MissingGlobal))
    } else if traders[i].deposited_atoms + atoms > u64::MAX {
        Err(EngineError::Nix(NixError::NumericalOverflow))
    } else {
        Ok(
            traders.update(
                i,
                GlobalTrader {
                    deposited_atoms: (traders[i].deposited_atoms + atoms) as u64,
                    ..traders[i]
                },
            ),
        )
    }
}

/// The seats after `atoms` were taken from the deposit of the trader `key`.
pub open spec fn spec_reduce(traders: Seq<GlobalTrader>, key: Seq<u8>, atoms: u64) -> Result<
    Seq<GlobalTrader>,
    EngineError,
> {
    let i = seat_place(traders, key);
    if i >= traders.len() || traders[i].deposited_atoms < atoms {
        Err(EngineError::Nix(NixError::GlobalInsufficient))
    } else {
        Ok(
            traders.update(
                i,
                GlobalTrader {
                    deposited_atoms: (traders[i].deposited_atoms - atoms) as u64,
                    ..traders[i]
                },
            ),
        )
    }
}

/// The seats after the trader `key` was seated.
pub open spec fn spec_add_trader(traders: Seq<GlobalTrader>, key: Pubkey) -> Result<
    Seq<GlobalTrader>,
    EngineError,
> {
    if seat_place(traders, key@) < traders.len() {
        Err(EngineError::Nix(NixError::AlreadyClaimedSeat))
    } else if traders.len() >= MAX_GLOBAL_SEATS {
        Err(EngineError::Nix(NixError::TooManyGlobalSeats))
    } else {
        Ok(traders.push(GlobalTrader { trader: key, deposited_atoms: 0 }))
    }
}

/// What resting a global order of the trader `key` asks of the account: the
/// order's atoms, which a global order holds as its collateral, are whole,
/// fit 64 bits, and are on deposit.
pub open spec fn spec_add_order(traders: Seq<GlobalTrader>, order: RestingOrder, key: Seq<u8>)
    -> Result<(), EngineError> {
    match spec_to_u64(order.collateral_shares@) {
        None => Err(EngineError::Nix(NixError::NumericalOverflow)),
        Some(atoms) => if balance_of(traders, key) < atoms || seat_place(traders, key)
            >= traders.len() {
            Err(EngineError::Nix(NixError::GlobalInsufficient))
        } else {
            Ok(())
        },
    }
}

impl DynamicAccount<GlobalFixed, GlobalDynamic> {
    /// The header counts the seats, and they are at most `MAX_GLOBAL_SEATS`.
    pub open spec fn wf(&self) -> bool {
        self.dynamic.traders@.len() == self.fixed.num_seats_claimed
            && self.fixed.num_seats_claimed <= MAX_GLOBAL_SEATS
    }

    /// The seats of the account.
    pub open spec fn traders(&self) -> Seq<GlobalTrader> {
        self.dynamic.traders@
    }

    /// A copy of the account.
    pub fn snapshot(&self) -> (g: Self)
        ensures
            g.fixed == self.fixed,
            g.traders() == self.traders(),
            g.wf() == self.wf(),
    {
        let mut traders: Vec<GlobalTrader> = Vec::new();
        let mut i: usize = 0;
        while i < self.dynamic.traders.len()
            invariant
                i <= self.dynamic.traders@.len(),
                traders@ == self.dynamic.traders@.take(i as int),
            decreases self.dynamic.traders@.len() - i,
        {
            traders.push(self.dynamic.traders[i]);
            proof {
                assert(traders@ =~= self.dynamic.traders@.take(i + 1));
            }
            i = i + 1;
        }
        proof {
            assert(traders@ =~= self.dynamic.traders@);
        }
        DynamicAccount { fixed: self.fixed, dynamic: GlobalDynamic { traders } }
    }

    /// A global account without seats, with the mint and the vault of the
    /// given header.
    pub fn new(fixed: GlobalFixed) -> (g: Self)
        ensures
            g.wf(),
            g.fixed == (GlobalFixed { num_seats_claimed: 0, ..fixed }),
            g.traders().len() == 0,
    {
        let mut fixed = fixed;
        fixed.num_seats_claimed = 0;
        DynamicAccount { fixed, dynamic: GlobalDynamic { traders: Vec::new() } }
    }

    /// Whether the account is well formed: the header counts the seats, and
    /// they are within the limit.
    pub fn is_well_formed(&self) -> (r: bool)
        ensures
            r == self.wf(),
    {
        self.fixed.num_seats_claimed <= MAX_GLOBAL_SEATS && self.dynamic.traders.len()
            == self.fixed.num_seats_claimed as usize
    }

    /// The place of the seat of `trader`, or the number of seats where the
    /// trader has none.
    pub fn find_trader(&self, trader: &Pubkey) -> (i: usize)
        ensures
            i == seat_place(self.traders(), trader@),
            i <= self.traders().len(),
    {
        let mut i: usize = 0;
        proof {
            lemma_seat_place(self.traders(), trader@);
            assert(self.traders().skip(0) =~= self.traders());
        }
        while i < self.dynamic.traders.len()
            invariant
                i <= self.traders().len(),
                seat_place(self.traders(), trader@) == i + seat_place(
                    self.traders().skip(i as int),
                    trader@,
                ),
            decreases self.traders().len() - i,
        {
            let ghost rest = self.traders().skip(i as int);
            proof {
                assert(rest[0] == self.traders()[i as int]);
                assert(rest.drop_first() =~= self.traders().skip(i + 1));
            }
            if keys_equal(&self.dynamic.traders[i].trader, trader) {
                return i;
            }
            i = i + 1;
        }
        proof {
            assert(self.traders().skip(i as int).len() == 0);
        }
        i
    }

    pub fn get_mint(&self) -> (r: &Pubkey)
        ensures
            *r == self.fixed.mint,
    {
        &self.fixed.mint
    }

    pub fn get_vault_bump(&self) -> (r: u8)
        ensures
            r == self.fixed.vault_bump,
    {
        self.fixed.vault_bump
    }

    /// The atoms `trader` has on deposit; zero without a seat.
    pub fn get_balance_atoms(&self, trader: &Pubkey) -> (r: u64)
        ensures
            r == balance_of(self.traders(), trader@),
    {
        let i = self.find_trader(trader);
        if i < self.dynamic.traders.len() {
            self.dynamic.traders[i].deposited_atoms
        } else {
            0
        }
    }

    /// Seats `trader` with nothing on deposit. Fails, and changes nothing,
    /// where the trader is seated, and where all seats are taken.
    pub fn add_trader(&mut self, trader: &Pubkey) -> (r: Result<(), EngineError>)
        requires
            old(self).wf(),
        ensures
            final(self).wf(),
            final(self).fixed == (GlobalFixed {
                num_seats_claimed: final(self).fixed.num_seats_claimed,
                ..old(self).fixed
            }),
            match spec_add_trader(old(self).traders(), *trader) {
                Ok(t) => r.is_ok() && final(self).traders() == t,
                Err(e) => r == Err::<(), _>(e) && final(self).traders() == old(self).traders(),
            },
    {
        let i = self.find_trader(trader);
        if i < self.dynamic.traders.len() {
            return Err(EngineError::Nix(NixError::AlreadyClaimedSeat));
        }
        if self.fixed.num_seats_claimed >= MAX_GLOBAL_SEATS {
            return Err(EngineError::Nix(NixError::TooManyGlobalSeats));
        }
        self.dynamic.traders.push(GlobalTrader { trader: *trader, deposited_atoms: 0 });
        self.fixed.num_seats_claimed = self.fixed.num_seats_claimed + 1;
        Ok(())
    }

    /// Adds `atoms` to the deposit of `trader`. Fails, and changes nothing,
    /// where the trader has no seat, and where the deposit would leave 64
    /// bits.
    pub fn deposit_global(&mut self, trader: &Pubkey, atoms: u64) -> (r: Result<(), EngineError>)
        requires
            old(self).wf(),
        ensures
            final(self).wf(),
            final(self).fixed == old(self).fixed,
            match spec_deposit(old(self).traders(), trader@, atoms) {
                Ok(t) => r.is_ok() && final(self).traders() == t,
                Err(e) => r == Err::<(), _>(e) && final(self).traders() == old(self).traders(),
            },
    {
        let i = self.find_trader(trader);
        if i >= self.dynamic.traders.len() {
            return Err(EngineError::Nix(NixError::MissingGlobal));
        }
        let seat = self.dynamic.traders[i];
        if seat.deposited_atoms > u64::MAX - atoms {
            return Err(EngineError::Nix(NixError::NumericalOverflow));
        }
        self.dynamic.traders.set(
            i,
            GlobalTrader { trader: seat.trader, deposited_atoms: seat.deposited_atoms + atoms },
        );
        Ok(())
    }

    /// Takes `atoms` from the deposit of `trader`. Fails, and changes
    /// nothing, where the trader has no seat or less on deposit.
    pub fn reduce(&mut self, trader: &Pubkey, atoms: u64) -> (r: Result<(), EngineError>)
        requires
            old(self).wf(),
        ensures
            final(self).wf(),
            final(self).fixed == old(self).fixed,
            match spec_reduce(old(self).traders(), trader@, atoms) {
                Ok(t) => r.is_ok() && final(self).traders() == t,
                Err(e) => r == Err::<(), _>(e) && final(self).traders() == old(self).traders(),
            },
    {
        let i = self.find_trader(trader);
        if i >= self.dynamic.traders.len() {
            return Err(EngineError::Nix(NixError::GlobalInsufficient));
        }
        let seat = self.dynamic.traders[i];
        if seat.deposited_atoms < atoms {
            return Err(EngineError::Nix(NixError::GlobalInsufficient));
        }
        self.dynamic.traders.set(
            i,
            GlobalTrader { trader: seat.trader, deposited_atoms: seat.deposited_atoms - atoms },
        );
        Ok(())
    }

    /// Admits a global order of the trader `gas_payer` to the book: the
    /// trader must be seated and have the order's atoms on deposit. The
    /// deposit stays; it is drawn on when the order is filled.
    pub fn add_order(&self, resting_order: &RestingOrder, gas_payer: &Pubkey) -> (r: Result<
        (),
        EngineError,
    >)
        ensures
            r == spec_add_order(self.traders(), *resting_order, gas_payer@),
    {
        let atoms = match resting_order.get_num_base_atoms_global().checked_to_u64() {
            Some(a) => a,
            None => { return Err(EngineError::Nix(NixError::NumericalOverflow)); },
        };
        let i = self.find_trader(gas_payer);
        if i >= self.dynamic.traders.len() || self.dynamic.traders[i].deposited_atoms < atoms {
            return Err(EngineError::Nix(NixError::GlobalInsufficient));
        }
        Ok(())
    }
}

/// A global account as an order sees it, with who pays and who receives the
/// gas prepayment of global orders.
pub struct GlobalTradeAccounts {
    pub global: GlobalValue,
    /// Who prepays the gas of a global order that rests.
    pub gas_payer: Pubkey,
    /// Who is paid for removing a global order.
    pub gas_receiver: Pubkey,
    /// Whether the system program came along; without it no gas is refunded.
    pub has_system_program: bool,
    /// Whether the mint has a transfer fee or a transfer hook, so that no
    /// tokens are moved out of the global vault.
    pub mint_blocks_transfer: bool,
}

/// What an order sees of a global account: its header, its seats, and who
/// pays and receives the gas prepayment.
pub struct GlobalTradeView {
    pub fixed: GlobalFixed,
    pub traders: Seq<GlobalTrader>,
    pub gas_payer: Pubkey,
    pub gas_receiver: Pubkey,
    pub has_system_program: bool,
    pub mint_blocks_transfer: bool,
}

impl GlobalTradeAccounts {
    pub open spec fn wf(&self) -> bool {
        self.global.wf()
    }

    pub open spec fn view(&self) -> GlobalTradeView {
        GlobalTradeView {
            fixed: self.global.fixed,
            traders: self.global.traders(),
            gas_payer: self.gas_payer,
            gas_receiver: self.gas_receiver,
            has_system_program: self.has_system_program,
            mint_blocks_transfer: self.mint_blocks_transfer,
        }
    }
}

/// Whether a mint keeps tokens from moving out of a global vault: it takes a
/// transfer fee in the current epoch, or it has a transfer hook. A fee of
/// zero and a hook that names no program block nothing.
pub open spec fn spec_mint_blocks_transfer(
    transfer_fee_bps: Option<u16>,
    transfer_hook_program: Option<Pubkey>,
) -> bool {
    (transfer_fee_bps is Some && transfer_fee_bps.unwrap() != 0) || (transfer_hook_program is Some
        && transfer_hook_program.unwrap()@ != Seq::new(32, |i: int| 0u8))
}

/// Whether a mint keeps tokens from moving out of a global vault, given the
/// fee of its transfer-fee extension in the current epoch and the program of
/// its transfer-hook extension, each where the mint has that extension.
pub fn mint_blocks_transfer(
    transfer_fee_bps: Option<u16>,
    transfer_hook_program: Option<Pubkey>,
) -> (r: bool)
    ensures
        r == spec_mint_blocks_transfer(transfer_fee_bps, transfer_hook_program),
{
    let has_fee = match transfer_fee_bps {
        Some(fee) => fee != 0,
        None => false,
    };
    let has_hook = match transfer_hook_program {
        Some(program) => {
            let none = [0u8; 32];
            proof {
                assert(none@ =~= Seq::new(32, |i: int| 0u8));
            }
            !keys_equal(&program, &none)
        },
        None => false,
    };
    has_fee || has_hook
}

/// A copy of the global accounts that came along.
pub fn snapshot_global(g: &Option<GlobalTradeAccounts>) -> (r: Option<GlobalTradeAccounts>)
    ensures
        opt_view(r) == opt_view(*g),
        opt_wf(r) == opt_wf(*g),
{
    match g {
        None => None,
        Some(a) => Some(
            GlobalTradeAccounts {
                global: a.global.snapshot(),
                gas_payer: a.gas_payer,
                gas_receiver: a.gas_receiver,
                has_system_program: a.has_system_program,
                mint_blocks_transfer: a.mint_blocks_transfer,
            },
        ),
    }
}

/// Whether the global accounts that came along are well formed.
pub open spec fn opt_wf(g: Option<GlobalTradeAccounts>) -> bool {
    match g {
        Some(a) => a.wf(),
        None => true,
    }
}

/// What an order sees of the global accounts that came along.
pub open spec fn opt_view(g: Option<GlobalTradeAccounts>) -> Option<GlobalTradeView> {
    match g {
        Some(a) => Some(a.view()),
        None => None,
    }
}

/// What removing a global order yields: a refund of its gas prepayment,
/// where the global accounts and the system program came along.
pub open spec fn spec_remove_from_global(g: Option<GlobalTradeView>, base: bool) -> Seq<Effect> {
    match g {
        Some(a) => if a.has_system_program {
            seq![Effect::GasRefund { base }]
        } else {
            Seq::empty()
        },
        None => Seq::empty(),
    }
}

/// Asks for the refund of the gas prepayment of a global order that left the
/// book, where the system program came along.
pub fn remove_from_global_core(
    global: &GlobalTradeAccounts,
    base: bool,
    effects: &mut Vec<Effect>,
) -> (r: Result<(), EngineError>)
    ensures
        r.is_ok(),
        final(effects)@ == old(effects)@ + spec_remove_from_global(Some(global.view()), base),
{
    if global.has_system_program {
        effects.push(Effect::GasRefund { base });
        assert(effects@ == old(effects)@ + seq![Effect::GasRefund { base }]);
    } else {
        assert(effects@ == old(effects)@ + Seq::<Effect>::empty());
    }
    Ok(())
}

/// Asks for the refund of the gas prepayment of a global order that left the
/// book. Without global accounts the prepayment is forfeited.
pub fn remove_from_global(
    global_trade_accounts_opt: &Option<GlobalTradeAccounts>,
    base: bool,
    effects: &mut Vec<Effect>,
) -> (r: Result<(), EngineError>)
    ensures
        r.is_ok(),
        final(effects)@ == old(effects)@ + spec_remove_from_global(
            opt_view(*global_trade_accounts_opt),
            base,
        ),
{
    match global_trade_accounts_opt {
        None => {
            assert(effects@ == old(effects)@ + Seq::<Effect>::empty());
            Ok(())
        },
        Some(global) => remove_from_global_core(global, base, effects),
    }
}

/// What moving the tokens of a global order into the market does: without
/// global accounts it fails; where the maker has less on deposit than
/// desired, or the mint blocks transfers, the order is unbacked and the
/// deposit untouched; otherwise the deposit shrinks and the tokens move.
pub open spec fn spec_move_global_tokens(
    g: Option<GlobalTradeView>,
    maker: Pubkey,
    desired: u64,
) -> Result<(bool, Option<GlobalTradeView>, Seq<Effect>), EngineError> {
    match g {
        None => Err(EngineError::Nix(NixError::MissingGlobal)),
        Some(a) => {
            let deposited = balance_of(a.traders, maker@);
            if desired > deposited {
                Ok(
                    (
                        false,
                        g,
                        seq![
                            Effect::GlobalCleanup(
                                GlobalCleanupLog {
                                    cleaner: a.gas_receiver,
                                    maker,
                                    amount_desired: desired,
                                    amount_deposited: deposited,
                                },
                            ),
                        ],
                    ),
                )
            } else if a.mint_blocks_transfer {
                Ok((false, g, Seq::empty()))
            } else {
                match spec_reduce(a.traders, maker@, desired) {
                    Ok(t) => Ok(
                        (
                            true,
                            Some(GlobalTradeView { traders: t, ..a }),
                            seq![Effect::GlobalTransfer { maker, atoms: desired }],
                        ),
                    ),
                    Err(e) => Err(e),
                }
            }
        },
    }
}

/// Brings the tokens that back a global order into the market just in time:
/// returns whether the order is backed. A global order is never filled in
/// part: where the maker has less on deposit than `desired_global_atoms`,
/// nothing moves and a cleanup is logged.
pub fn try_to_move_global_tokens(
    global_trade_accounts_opt: &mut Option<GlobalTradeAccounts>,
    resting_order_trader: &Pubkey,
    desired_global_atoms: u64,
    effects: &mut Vec<Effect>,
) -> (r: Result<bool, EngineError>)
    requires
        opt_wf(*old(global_trade_accounts_opt)),
    ensures
        opt_wf(*final(global_trade_accounts_opt)),
        match spec_move_global_tokens(
            opt_view(*old(global_trade_accounts_opt)),
            *resting_order_trader,
            desired_global_atoms,
        ) {
            Ok((backed, g, e)) => r == Ok::<bool, EngineError>(backed) && opt_view(
                *final(global_trade_accounts_opt),
            ) == g && final(effects)@ == old(effects)@ + e,
            Err(e) => r == Err::<bool, _>(e) && opt_view(*final(global_trade_accounts_opt))
                == opt_view(*old(global_trade_accounts_opt)) && final(effects)@ == old(effects)@,
        },
{
    match global_trade_accounts_opt {
        None => Err(EngineError::Nix(NixError::MissingGlobal)),
        Some(accounts) => {
            let num_deposited_atoms = accounts.global.get_balance_atoms(resting_order_trader);
            if desired_global_atoms > num_deposited_atoms {
                effects.push(
                    Effect::GlobalCleanup(
                        GlobalCleanupLog {
                            cleaner: accounts.gas_receiver,
                            maker: *resting_order_trader,
                            amount_desired: desired_global_atoms,
                            amount_deposited: num_deposited_atoms,
                        },
                    ),
                );
                return Ok(false);
            }
            if accounts.mint_blocks_transfer {
                assert(effects@ == old(effects)@ + Seq::<Effect>::empty());
                return Ok(false);
            }
            proof {
                lemma_seat_place(accounts.global.traders(), resting_order_trader@);
            }
            match accounts.global.reduce(resting_order_trader, desired_global_atoms) {
                Ok(()) => {},
                Err(e) => { return Err(e); },
            }
            effects.push(
                Effect::GlobalTransfer {
                    maker: *resting_order_trader,
                    atoms: desired_global_atoms,
                },
            );
            Ok(true)
        },
    }
}

/// Admits a global order to the book and asks for its gas prepayment.
pub fn try_to_add_to_global(
    global_trade_accounts: &GlobalTradeAccounts,
    resting_order: &RestingOrder,
    effects: &mut Vec<Effect>,
) -> (r: Result<(), EngineError>)
    ensures
        r == spec_add_order(
            global_trade_accounts.view().traders,
            *resting_order,
            global_trade_accounts.gas_payer@,
        ),
        final(effects)@ == if r.is_ok() {
            old(effects)@.push(Effect::GasPrepayment)
        } else {
            old(effects)@
        },
{
    global_trade_accounts.global.add_order(resting_order, &global_trade_accounts.gas_payer)?;
    effects.push(Effect::GasPrepayment);
    Ok(())
}

} // verus!
