//! The ledger of a market's active loans.

use crate::constants::{DataIndex, Pubkey, MAX_ACTIVE_LOANS, NIL};
use crate::dynamic_account::DynamicAccount;
use crate::error::{EngineError, NixError};
use crate::quantities::WrappedI80F48;
use crate::slot_pool::{
    apart, free_add, free_add_grown, free_entries, free_of, free_remove, indices, kept,
    lemma_place, place, rank, seq_clear_of, tree_entries, tree_insert, tree_lookup, tree_of,
    tree_remove,
};
use vstd::prelude::*;
use vstd::string::StringSliceAdditionalSpecFns;

verus! {

/// Where a loan stands.
#[derive(Debug, Clone, Copy, PartialEq, Eq, Structural)]
pub enum LoanStatus {
    Active,
    Repaid,
    Defaulted,
    Liquidated,
}

impl Default for LoanStatus {
    fn default() -> (s: Self)
        ensures
            s == LoanStatus::Active,
    {
        LoanStatus::Active
    }
}

impl LoanStatus {
    /// The byte that stands for this status.
    pub fn to_u8(self) -> (b: u8)
        ensures
            b == match self {
                LoanStatus::Active => 0u8,
                LoanStatus::Repaid => 1u8,
                LoanStatus::Defaulted => 2u8,
                LoanStatus::Liquidated => 3u8,
            },
    {
        match self {
            LoanStatus::Active => 0u8,
            LoanStatus::Repaid => 1u8,
            LoanStatus::Defaulted => 2u8,
            LoanStatus::Liquidated => 3u8,
        }
    }

    /// The status that a byte stands for; `None` for a byte that is none.
    pub fn try_from_u8(b: u8) -> (s: Option<LoanStatus>)
        ensures
            s == match b {
                0u8 => Some(LoanStatus::Active),
                1u8 => Some(LoanStatus::Repaid),
                2u8 => Some(LoanStatus::Defaulted),
                3u8 => Some(LoanStatus::Liquidated),
                _ => None::<LoanStatus>,
            },
    {
        match b {
            0u8 => Some(LoanStatus::Active),
            1u8 => Some(LoanStatus::Repaid),
            2u8 => Some(LoanStatus::Defaulted),
            3u8 => Some(LoanStatus::Liquidated),
            _ => None,
        }
    }
}

/// The header of a ledger of loans.
#[derive(Debug, Copy, Clone)]
pub struct MarketLoansFixed {
    /// Identifies the kind of account.
    pub discriminant: u64,
    /// The market this ledger belongs to.
    pub market: Pubkey,
    /// The sequence number that the next loan gets.
    pub loan_sequence_number: u64,
    /// Root of the tree of loans, which is ordered by sequence number.
    pub active_loans_root_index: DataIndex,
    /// Head of the list of free slots.
    pub free_list_head_index: DataIndex,
    /// Bytes of the slot pool: the slot size times the slots ever added.
    pub num_bytes_allocated: u32,
    /// The number of loans in the ledger.
    pub num_active_loans: u64,
}

/// A loan: who lent, who borrowed, and on what terms.
#[derive(Debug, Copy, Clone, PartialEq, Eq, Structural)]
pub struct ActiveLoan {
    pub sequence_number: u64,
    /// Slot index of the lender; 0 where the money market itself lends.
    pub lender_index: DataIndex,
    pub borrower_index: DataIndex,
    pub is_lender_global: bool,
    pub status: LoanStatus,
    pub is_liability_base_a: bool,
    pub collateral_shares: WrappedI80F48,
    pub liability_shares: WrappedI80F48,
    pub rate_bps: u16,
    pub start_timestamp: i64,
    pub last_updated_slot: i64,
}

impl ActiveLoan {
    /// A new active loan, without a sequence number yet.
    pub open spec fn spec_new_empty(
        is_liability_base_a: bool,
        lender_index: DataIndex,
        borrower_index: DataIndex,
        is_lender_global: bool,
        collateral_shares: WrappedI80F48,
        liability_shares: WrappedI80F48,
        rate_bps: u16,
        start_timestamp: i64,
        last_updated_slot: i64,
    ) -> ActiveLoan {
        ActiveLoan {
            sequence_number: 0,
            lender_index,
            borrower_index,
            is_lender_global,
            is_liability_base_a,
            status: LoanStatus::Active,
            collateral_shares,
            liability_shares,
            rate_bps,
            start_timestamp,
            last_updated_slot,
        }
    }

    /// A new active loan with sequence number 0; the ledger numbers it when
    /// it is added.
    pub fn new_empty(
        is_liability_base_a: bool,
        lender_index: DataIndex,
        borrower_index: DataIndex,
        is_lender_global: bool,
        collateral_shares: WrappedI80F48,
        liability_shares: WrappedI80F48,
        rate_bps: u16,
        start_timestamp: i64,
        last_updated_slot: i64,
    ) -> (l: Self)
        ensures
            l == Self::spec_new_empty(
                is_liability_base_a,
                lender_index,
                borrower_index,
                is_lender_global,
                collateral_shares,
                liability_shares,
                rate_bps,
                start_timestamp,
                last_updated_slot,
            ),
    {
        ActiveLoan {
            sequence_number: 0,
            lender_index,
            borrower_index,
            is_lender_global,
            is_liability_base_a,
            status: LoanStatus::Active,
            collateral_shares,
            liability_shares,
            rate_bps,
            start_timestamp,
            last_updated_slot,
        }
    }

    pub fn set_sequence_number(&mut self, sequence_number: u64)
        ensures
            *final(self) == (ActiveLoan { sequence_number, ..*old(self) }),
    {
        self.sequence_number = sequence_number
    }
}

/// The record in one slot of a ledger's pool.
#[derive(Debug, Copy, Clone, PartialEq, Eq, Structural)]
pub enum LoanSlot {
    Empty,
    Loan(ActiveLoan),
}

/// The slot pool of a ledger: the links of its tree and free list, and the
/// record of each slot.
pub struct MarketLoansDynamic {
    /// The buffer in which the tree and the free list are linked.
    pub links: Vec<u64>,
    /// The record of each slot, by slot number.
    pub slots: Vec<LoanSlot>,
}

/// A ledger that owns its data.
pub type MarketLoansValue = DynamicAccount<MarketLoansFixed, MarketLoansDynamic>;

/// Bytes of one slot of a ledger's pool.
pub const LOAN_BLOCK: u32 = 96u32;

/// 64-bit words of one slot of a ledger's pool.
pub const LOAN_BLOCK_WORDS: usize = 12usize;

/// Whether `index` is the index of one of `n` slots.
pub open spec fn loan_slot_ok(index: u32, n: nat) -> bool {
    index % LOAN_BLOCK == 0 && index / LOAN_BLOCK < n
}

/// The record of the slot at `index`.
pub open spec fn loan_slot_at(slots: Seq<LoanSlot>, index: u32) -> LoanSlot {
    slots[index as int / LOAN_BLOCK as int]
}

/// The loan in a slot; an arbitrary loan where the slot holds none.
pub open spec fn loan_in(slot: LoanSlot) -> ActiveLoan {
    match slot {
        LoanSlot::Loan(l) => l,
        _ => arbitrary(),
    }
}

/// The loans of the ledger: slot index and sequence number of each, in the
/// order of their sequence numbers.
pub open spec fn loans(fixed: MarketLoansFixed, dynamic: MarketLoansDynamic) -> Seq<(u32, u64)> {
    tree_of(dynamic.links@, fixed.active_loans_root_index)
}

/// The free slots of the ledger, the next to be handed out first.
pub open spec fn loan_free_list(fixed: MarketLoansFixed, dynamic: MarketLoansDynamic) -> Seq<
    u32,
> {
    free_of(dynamic.links@, fixed.free_list_head_index)
}

/// The free list holds, once each, the empty slots that are not in
/// `detached`; its head is `NIL` exactly when it is empty.
pub open spec fn loan_free_inv(
    fixed: MarketLoansFixed,
    dynamic: MarketLoansDynamic,
    detached: Set<u32>,
) -> bool {
    let f = loan_free_list(fixed, dynamic);
    let slots = dynamic.slots@;
    &&& (fixed.free_list_head_index == NIL) == (f.len() == 0)
    &&& f.len() > 0 ==> f[0] == fixed.free_list_head_index
    &&& forall|k: int|
        0 <= k < f.len() ==> loan_slot_ok(#[trigger] f[k], slots.len()) && !detached.contains(f[k])
            && loan_slot_at(slots, f[k]) is Empty
    &&& forall|k: int, l: int| 0 <= k < l < f.len() ==> f[k] != f[l]
    &&& forall|i: u32|
        loan_slot_ok(i, slots.len()) && !detached.contains(i) && (#[trigger] loan_slot_at(
            slots,
            i,
        )) is Empty ==> f.contains(i)
}

/// The tree holds, once each, the slots with a loan that are not in
/// `detached`, each under the loan's sequence number; the sequence numbers
/// are below the next one to be given, and the root is `NIL` exactly when the
/// tree is empty.
pub open spec fn loan_tree_inv(
    fixed: MarketLoansFixed,
    dynamic: MarketLoansDynamic,
    detached: Set<u32>,
) -> bool {
    let e = loans(fixed, dynamic);
    let slots = dynamic.slots@;
    &&& (fixed.active_loans_root_index == NIL) == (e.len() == 0)
    &&& forall|k: int|
        0 <= k < e.len() ==> loan_slot_ok((#[trigger] e[k]).0, slots.len()) && !detached.contains(
            e[k].0,
        ) && loan_slot_at(slots, e[k].0) is Loan && loan_in(
            loan_slot_at(slots, e[k].0),
        ).sequence_number == e[k].1 && e[k].1 < fixed.loan_sequence_number
    &&& forall|k: int, l: int| 0 <= k < l < e.len() ==> e[k].0 != e[l].0 && e[k].1 != e[l].1
    &&& forall|i: u32|
        loan_slot_ok(i, slots.len()) && !detached.contains(i) && (#[trigger] loan_slot_at(
            slots,
            i,
        )) is Loan ==> indices(e).contains(i)
}

/// What holds of a ledger between the steps of an operation: every slot is
/// in the free list or in the tree, according to its record, but for the
/// slots in `detached`, which are in neither.
pub open spec fn loans_inv(
    fixed: MarketLoansFixed,
    dynamic: MarketLoansDynamic,
    detached: Set<u32>,
) -> bool {
    &&& dynamic.links@.len() == LOAN_BLOCK_WORDS * dynamic.slots@.len()
    &&& fixed.num_bytes_allocated == LOAN_BLOCK * dynamic.slots@.len()
    &&& loan_free_inv(fixed, dynamic, detached)
    &&& loan_tree_inv(fixed, dynamic, detached)
}

/// What can be tested of a ledger without walking its tree: the pool has
/// links and a record for each slot allocated, the head of the free list is
/// `NIL` or a slot of the pool, and the loans counted are within the limit.
pub open spec fn spec_ledger_shape_ok(fixed: MarketLoansFixed, dynamic: MarketLoansDynamic)
    -> bool {
    &&& dynamic.links@.len() == LOAN_BLOCK_WORDS * dynamic.slots@.len()
    &&& fixed.num_bytes_allocated == LOAN_BLOCK * dynamic.slots@.len()
    &&& (fixed.free_list_head_index == NIL || loan_slot_ok(
        fixed.free_list_head_index,
        dynamic.slots@.len(),
    ))
    &&& fixed.num_active_loans <= MAX_ACTIVE_LOANS
}

/// Two different slots share no byte.
proof fn lemma_loan_slots_apart(i: u32, j: u32, n: nat)
    requires
        loan_slot_ok(i, n),
        loan_slot_ok(j, n),
        i != j,
    ensures
        apart(i, j),
{
    if i < j {
        assert(j - i >= 96) by (nonlinear_arith)
            requires
                i % 96 == 0,
                j % 96 == 0,
                i < j,
        ;
    } else {
        assert(i - j >= 96) by (nonlinear_arith)
            requires
                i % 96 == 0,
                j % 96 == 0,
                j < i,
        ;
    }
}

/// A slot of a pool of `n` slots lies in a buffer of `12 n` words and is
/// aligned to a word.
proof fn lemma_loan_slot_fits(i: u32, n: nat)
    requires
        loan_slot_ok(i, n),
    ensures
        i % 8 == 0,
        i + 96 <= 8 * (12 * n),
        i != NIL,
{
    assert(i % 8 == 0 && i + 96 <= 96 * n) by (nonlinear_arith)
        requires
            i % 96 == 0,
            i / 96 < n,
    ;
}

/// The record of the slot at `index` after the record of the slot at `at`
/// was replaced.
proof fn lemma_loan_slot_update(slots: Seq<LoanSlot>, at: u32, value: LoanSlot, index: u32)
    requires
        loan_slot_ok(at, slots.len()),
        loan_slot_ok(index, slots.len()),
    ensures
        loan_slot_at(slots.update(at as int / LOAN_BLOCK as int, value), index) == if index
            == at {
            value
        } else {
            loan_slot_at(slots, index)
        },
{
    if index != at {
        assert(index as int / 96 != at as int / 96) by (nonlinear_arith)
            requires
                index % 96 == 0,
                at % 96 == 0,
                index != at,
        ;
    }
}

/// A tree whose slots an operation did not touch is what it was.
proof fn lemma_loan_tree_kept(
    fixed: MarketLoansFixed,
    dynamic: MarketLoansDynamic,
    after: Seq<u64>,
    detached: Set<u32>,
    touched: Set<u32>,
)
    requires
        loan_tree_inv(fixed, dynamic, detached),
        kept(dynamic.links@, after, touched),
        forall|t: u32| #[trigger]
            touched.contains(t) ==> loan_slot_ok(t, dynamic.slots@.len()) && (detached.contains(t)
                || !(loan_slot_at(dynamic.slots@, t) is Loan)),
    ensures
        tree_of(after, fixed.active_loans_root_index) == loans(fixed, dynamic),
{
    let root = fixed.active_loans_root_index;
    let e = loans(fixed, dynamic);
    if root != NIL {
        assert forall|k: int, t: u32|
            #![trigger indices(e)[k], touched.contains(t)]
            0 <= k < indices(e).len() && touched.contains(t) implies apart(indices(e)[k], t) by {
            assert(indices(e)[k] == e[k].0);
            lemma_loan_slots_apart(e[k].0, t, dynamic.slots@.len());
        }
        assert(seq_clear_of(indices(e), touched));
        assert(tree_entries(after, root) == tree_entries(dynamic.links@, root));
    }
}

/// A free list whose slots an operation did not touch is what it was.
proof fn lemma_loan_free_kept(
    fixed: MarketLoansFixed,
    dynamic: MarketLoansDynamic,
    after: Seq<u64>,
    detached: Set<u32>,
    touched: Set<u32>,
)
    requires
        loan_free_inv(fixed, dynamic, detached),
        kept(dynamic.links@, after, touched),
        forall|t: u32| #[trigger]
            touched.contains(t) ==> loan_slot_ok(t, dynamic.slots@.len()) && (detached.contains(t)
                || !(loan_slot_at(dynamic.slots@, t) is Empty)),
    ensures
        free_of(after, fixed.free_list_head_index) == loan_free_list(fixed, dynamic),
{
    let head = fixed.free_list_head_index;
    let f = loan_free_list(fixed, dynamic);
    if head != NIL {
        assert forall|k: int, t: u32|
            #![trigger f[k], touched.contains(t)]
            0 <= k < f.len() && touched.contains(t) implies apart(f[k], t) by {
            lemma_loan_slots_apart(f[k], t, dynamic.slots@.len());
        }
        assert(seq_clear_of(f, touched));
        assert(free_entries(after, head) == free_entries(dynamic.links@, head));
    }
}

/// A tree that is what it was still meets its invariant over other records
/// and other slots set aside, where the loans that count are the same before
/// and after and the next sequence number did not fall.
proof fn lemma_loan_tree_still(
    f0: MarketLoansFixed,
    d0: MarketLoansDynamic,
    f1: MarketLoansFixed,
    d1: MarketLoansDynamic,
    detached0: Set<u32>,
    detached1: Set<u32>,
)
    requires
        loan_tree_inv(f0, d0, detached0),
        loans(f1, d1) == loans(f0, d0),
        f1.active_loans_root_index == f0.active_loans_root_index,
        f1.loan_sequence_number >= f0.loan_sequence_number,
        forall|i: u32|
            loan_slot_ok(i, d0.slots@.len()) && !detached0.contains(i) && (#[trigger] loan_slot_at(
                d0.slots@,
                i,
            )) is Loan ==> loan_slot_ok(i, d1.slots@.len()) && !detached1.contains(i)
                && loan_slot_at(d1.slots@, i) == loan_slot_at(d0.slots@, i),
        forall|i: u32|
            loan_slot_ok(i, d1.slots@.len()) && !detached1.contains(i) && (#[trigger] loan_slot_at(
                d1.slots@,
                i,
            )) is Loan ==> loan_slot_ok(i, d0.slots@.len()) && !detached0.contains(i)
                && loan_slot_at(d1.slots@, i) == loan_slot_at(d0.slots@, i),
    ensures
        loan_tree_inv(f1, d1, detached1),
{
    let e = loans(f0, d0);
    assert forall|k: int| 0 <= k < e.len() implies loan_slot_ok(
        (#[trigger] e[k]).0,
        d1.slots@.len(),
    ) && !detached1.contains(e[k].0) && loan_slot_at(d1.slots@, e[k].0) is Loan && loan_in(
        loan_slot_at(d1.slots@, e[k].0),
    ).sequence_number == e[k].1 && e[k].1 < f1.loan_sequence_number by {
        assert(loan_slot_at(d0.slots@, e[k].0) is Loan);
    }
    assert forall|i: u32|
        loan_slot_ok(i, d1.slots@.len()) && !detached1.contains(i) && (#[trigger] loan_slot_at(
            d1.slots@,
            i,
        )) is Loan implies indices(e).contains(i) by {
        assert(loan_slot_at(d0.slots@, i) is Loan);
    }
}

/// A free list that is what it was still meets its invariant over other
/// records and other slots set aside, where the empty slots that count are
/// the same before and after.
proof fn lemma_loan_free_still(
    f0: MarketLoansFixed,
    d0: MarketLoansDynamic,
    f1: MarketLoansFixed,
    d1: MarketLoansDynamic,
    detached0: Set<u32>,
    detached1: Set<u32>,
)
    requires
        loan_free_inv(f0, d0, detached0),
        loan_free_list(f1, d1) == loan_free_list(f0, d0),
        f1.free_list_head_index == f0.free_list_head_index,
        forall|i: u32|
            loan_slot_ok(i, d0.slots@.len()) && !detached0.contains(i) && (#[trigger] loan_slot_at(
                d0.slots@,
                i,
            )) is Empty ==> loan_slot_ok(i, d1.slots@.len()) && !detached1.contains(i)
                && loan_slot_at(d1.slots@, i) is Empty,
        forall|i: u32|
            loan_slot_ok(i, d1.slots@.len()) && !detached1.contains(i) && (#[trigger] loan_slot_at(
                d1.slots@,
                i,
            )) is Empty ==> loan_slot_ok(i, d0.slots@.len()) && !detached0.contains(i)
                && loan_slot_at(d0.slots@, i) is Empty,
    ensures
        loan_free_inv(f1, d1, detached1),
{
    let f = loan_free_list(f0, d0);
    assert forall|k: int| 0 <= k < f.len() implies loan_slot_ok(
        #[trigger] f[k],
        d1.slots@.len(),
    ) && !detached1.contains(f[k]) && loan_slot_at(d1.slots@, f[k]) is Empty by {
        assert(loan_slot_at(d0.slots@, f[k]) is Empty);
    }
    assert forall|i: u32|
        loan_slot_ok(i, d1.slots@.len()) && !detached1.contains(i) && (#[trigger] loan_slot_at(
            d1.slots@,
            i,
        )) is Empty implies f.contains(i) by {
        assert(loan_slot_at(d0.slots@, i) is Empty);
    }
}

/// A free list to whose head a slot that was set aside has been added meets
/// its invariant with no slot set aside.
proof fn lemma_loan_free_after_push(
    f0: MarketLoansFixed,
    d0: MarketLoansDynamic,
    f1: MarketLoansFixed,
    d1: MarketLoansDynamic,
    index: u32,
)
    requires
        loan_free_inv(f0, d0, set![index]),
        loan_slot_ok(index, d0.slots@.len()),
        loan_slot_at(d0.slots@, index) is Empty,
        d1.slots@ == d0.slots@,
        loan_free_list(f1, d1) == seq![index] + loan_free_list(f0, d0),
        f1.free_list_head_index == index,
    ensures
        loan_free_inv(f1, d1, Set::empty()),
{
    let none = Set::<u32>::empty();
    let f = loan_free_list(f0, d0);
    let g = loan_free_list(f1, d1);
    lemma_loan_slot_fits(index, d0.slots@.len());
    assert(g[0] == index);
    assert forall|k: int| 1 <= k < g.len() implies #[trigger] g[k] == f[k - 1] by {}
    assert forall|k: int| 0 <= k < g.len() implies loan_slot_ok(
        #[trigger] g[k],
        d1.slots@.len(),
    ) && !none.contains(g[k]) && loan_slot_at(d1.slots@, g[k]) is Empty by {
        if k > 0 {
            assert(g[k] == f[k - 1]);
        }
    }
    assert forall|k: int, l: int| 0 <= k < l < g.len() implies g[k] != g[l] by {
        assert(g[l] == f[l - 1]);
        if k > 0 {
            assert(g[k] == f[k - 1]);
        }
    }
    assert forall|i: u32|
        loan_slot_ok(i, d1.slots@.len()) && !none.contains(i) && (#[trigger] loan_slot_at(
            d1.slots@,
            i,
        )) is Empty implies g.contains(i) by {
        if i == index {
            assert(g[0] == i);
        } else {
            assert(f.contains(i));
            let k = choose|k: int| 0 <= k < f.len() && f[k] == i;
            assert(g[k + 1] == i);
        }
    }
}

/// A free list whose head was taken off meets its invariant with that slot
/// set aside.
proof fn lemma_loan_free_after_pop(
    f0: MarketLoansFixed,
    d0: MarketLoansDynamic,
    f1: MarketLoansFixed,
    d1: MarketLoansDynamic,
)
    requires
        loan_free_inv(f0, d0, Set::empty()),
        loan_free_list(f0, d0).len() > 0,
        d1.slots@ == d0.slots@,
        loan_free_list(f1, d1) == loan_free_list(f0, d0).drop_first(),
        (f1.free_list_head_index == NIL) == (loan_free_list(f0, d0).len() == 1),
        loan_free_list(f0, d0).len() > 1 ==> f1.free_list_head_index == loan_free_list(f0, d0)[1],
    ensures
        loan_free_inv(f1, d1, set![loan_free_list(f0, d0)[0]]),
{
    let f = loan_free_list(f0, d0);
    let g = loan_free_list(f1, d1);
    let touched = set![f[0]];
    assert forall|k: int| 0 <= k < g.len() implies loan_slot_ok(
        #[trigger] g[k],
        d1.slots@.len(),
    ) && !touched.contains(g[k]) && loan_slot_at(d1.slots@, g[k]) is Empty by {
        assert(g[k] == f[k + 1]);
    }
    assert forall|k: int, l: int| 0 <= k < l < g.len() implies g[k] != g[l] by {
        assert(g[k] == f[k + 1] && g[l] == f[l + 1]);
    }
    assert forall|i: u32|
        loan_slot_ok(i, d1.slots@.len()) && !touched.contains(i) && (#[trigger] loan_slot_at(
            d1.slots@,
            i,
        )) is Empty implies g.contains(i) by {
        assert(f.contains(i));
        let k = choose|k: int| 0 <= k < f.len() && f[k] == i;
        assert(k != 0);
        assert(g[k - 1] == i);
    }
}

/// A key above every key of the entries is inserted behind them all.
pub proof fn lemma_rank_of_largest(entries: Seq<(u32, u64)>, key: u64)
    requires
        forall|k: int| 0 <= k < entries.len() ==> (#[trigger] entries[k]).1 < key,
    ensures
        rank(entries, key) == entries.len(),
    decreases entries.len(),
{
    if entries.len() > 0 {
        let rest = entries.drop_first();
        assert(entries[0].1 < key);
        assert forall|k: int| 0 <= k < rest.len() implies (#[trigger] rest[k]).1 < key by {
            assert(rest[k] == entries[k + 1]);
        }
        lemma_rank_of_largest(rest, key);
    }
}

/// A tree behind whose entries the loan of a slot that was set aside has
/// been inserted, under the next sequence number, meets its invariant with no
/// slot set aside.
proof fn lemma_loan_tree_after_insert(
    f0: MarketLoansFixed,
    d0: MarketLoansDynamic,
    f1: MarketLoansFixed,
    d1: MarketLoansDynamic,
    index: u32,
)
    requires
        loan_tree_inv(f0, d0, set![index]),
        loan_slot_ok(index, d0.slots@.len()),
        loan_slot_at(d0.slots@, index) is Loan,
        loan_in(loan_slot_at(d0.slots@, index)).sequence_number == f0.loan_sequence_number,
        f1.loan_sequence_number == f0.loan_sequence_number + 1,
        d1.slots@ == d0.slots@,
        loans(f1, d1) == loans(f0, d0).push((index, f0.loan_sequence_number)),
        f1.active_loans_root_index != NIL,
    ensures
        loan_tree_inv(f1, d1, Set::empty()),
{
    let none = Set::<u32>::empty();
    let e = loans(f0, d0);
    let e1 = loans(f1, d1);
    let p = e.len() as int;
    assert forall|k: int| 0 <= k < e1.len() implies loan_slot_ok(
        (#[trigger] e1[k]).0,
        d1.slots@.len(),
    ) && !none.contains(e1[k].0) && loan_slot_at(d1.slots@, e1[k].0) is Loan && loan_in(
        loan_slot_at(d1.slots@, e1[k].0),
    ).sequence_number == e1[k].1 && e1[k].1 < f1.loan_sequence_number by {
        if k < p {
            assert(e1[k] == e[k]);
        }
    }
    assert forall|k: int, l: int| 0 <= k < l < e1.len() implies e1[k].0 != e1[l].0 && e1[k].1
        != e1[l].1 by {
        assert(e1[k] == e[k]);
        if l < p {
            assert(e1[l] == e[l]);
        }
    }
    assert forall|i: u32|
        loan_slot_ok(i, d1.slots@.len()) && !none.contains(i) && (#[trigger] loan_slot_at(
            d1.slots@,
            i,
        )) is Loan implies indices(e1).contains(i) by {
        if i == index {
            assert(indices(e1)[p] == i);
        } else {
            assert(indices(e).contains(i));
            let k = choose|k: int| 0 <= k < indices(e).len() && indices(e)[k] == i;
            assert(e1[k] == e[k]);
            assert(indices(e1)[k] == i);
        }
    }
}

/// A tree from which the loan of a slot has been removed meets its invariant
/// with that slot set aside.
proof fn lemma_loan_tree_after_remove(
    f0: MarketLoansFixed,
    d0: MarketLoansDynamic,
    f1: MarketLoansFixed,
    d1: MarketLoansDynamic,
    index: u32,
)
    requires
        loan_tree_inv(f0, d0, Set::empty()),
        indices(loans(f0, d0)).contains(index),
        d1.slots@ == d0.slots@,
        f1.loan_sequence_number == f0.loan_sequence_number,
        loans(f1, d1) == loans(f0, d0).remove(place(loans(f0, d0), index)),
        (f1.active_loans_root_index == NIL) == (loans(f1, d1).len() == 0),
    ensures
        loan_tree_inv(f1, d1, set![index]),
{
    let det1 = set![index];
    let e = loans(f0, d0);
    let e1 = loans(f1, d1);
    let p = place(e, index);
    lemma_place(e, index);
    assert forall|k: int| 0 <= k < e1.len() implies loan_slot_ok(
        (#[trigger] e1[k]).0,
        d1.slots@.len(),
    ) && !det1.contains(e1[k].0) && loan_slot_at(d1.slots@, e1[k].0) is Loan && loan_in(
        loan_slot_at(d1.slots@, e1[k].0),
    ).sequence_number == e1[k].1 && e1[k].1 < f1.loan_sequence_number by {
        if k < p {
            assert(e1[k] == e[k]);
        } else {
            assert(e1[k] == e[k + 1]);
        }
    }
    assert forall|k: int, l: int| 0 <= k < l < e1.len() implies e1[k].0 != e1[l].0 && e1[k].1
        != e1[l].1 by {
        let ek = if k < p {
            k
        } else {
            k + 1
        };
        let el = if l < p {
            l
        } else {
            l + 1
        };
        assert(e1[k] == e[ek]);
        assert(e1[l] == e[el]);
    }
    assert forall|i: u32|
        loan_slot_ok(i, d1.slots@.len()) && !det1.contains(i) && (#[trigger] loan_slot_at(
            d1.slots@,
            i,
        )) is Loan implies indices(e1).contains(i) by {
        assert(indices(e).contains(i));
        let k = choose|k: int| 0 <= k < indices(e).len() && indices(e)[k] == i;
        assert(e[k].0 == i);
        assert(k != p);
        if k < p {
            assert(e1[k] == e[k]);
            assert(indices(e1)[k] == i);
        } else {
            assert(e1[k - 1] == e[k]);
            assert(indices(e1)[k - 1] == i);
        }
    }
}

/// What a ledger holds.
pub struct LoansView {
    /// The free slots, the next to be handed out first.
    pub free: Seq<u32>,
    /// Slot index and sequence number of each loan, by sequence number.
    pub loans: Seq<(u32, u64)>,
    /// The record of each slot.
    pub slots: Seq<LoanSlot>,
    /// The sequence number that the next loan gets.
    pub next_sequence_number: u64,
    /// The number of loans.
    pub num_active_loans: u64,
}

/// The slot of the first entry with `key`; `NIL` where there is none.
pub open spec fn slot_of_key(entries: Seq<(u32, u64)>, key: u64) -> u32
    decreases entries.len(),
{
    if entries.len() == 0 {
        NIL
    } else if entries[0].1 == key {
        entries[0].0
    } else {
        slot_of_key(entries.drop_first(), key)
    }
}

/// Whether an entry has `key`.
pub open spec fn has_key(entries: Seq<(u32, u64)>, key: u64) -> bool {
    exists|i: int| 0 <= i < entries.len() && (#[trigger] entries[i]).1 == key
}

/// Where keys are distinct, the slot of a key is the slot of every entry
/// with that key.
pub proof fn lemma_slot_of_key(entries: Seq<(u32, u64)>, i: int)
    requires
        0 <= i < entries.len(),
        forall|k: int, l: int| 0 <= k < l < entries.len() ==> entries[k].1 != entries[l].1,
    ensures
        slot_of_key(entries, entries[i].1) == entries[i].0,
    decreases entries.len(),
{
    if i > 0 {
        let rest = entries.drop_first();
        assert(entries[0].1 != entries[i].1);
        assert(rest[i - 1] == entries[i]);
        assert forall|k: int, l: int| 0 <= k < l < rest.len() implies rest[k].1 != rest[l].1 by {
            assert(rest[k] == entries[k + 1] && rest[l] == entries[l + 1]);
        }
        lemma_slot_of_key(rest, i - 1);
    }
}

impl LoansView {
    /// What growing the pool by one slot does: the new slot is empty and
    /// heads the free list.
    pub open spec fn expand(self) -> LoansView {
        LoansView {
            free: seq![(LOAN_BLOCK * self.slots.len()) as u32] + self.free,
            slots: self.slots.push(LoanSlot::Empty),
            ..self
        }
    }

    /// What growing the pool by `n` slots, one after the other, does.
    pub open spec fn expand_by(self, n: nat) -> LoansView
        decreases n,
    {
        if n == 0 {
            self
        } else {
            self.expand().expand_by((n - 1) as nat)
        }
    }

    /// What adding a loan does. It fails where the ledger is full, where no
    /// slot is free, and where the sequence numbers are used up. Otherwise
    /// the loan gets the next sequence number and the first free slot.
    pub open spec fn add_loan(self, loan: ActiveLoan) -> Result<LoansView, EngineError> {
        if self.num_active_loans >= MAX_ACTIVE_LOANS {
            Err(EngineError::Nix(NixError::MaxActiveLoansExceeded))
        } else if self.free.len() == 0 {
            Err(EngineError::Nix(NixError::InvalidFreeList))
        } else if self.next_sequence_number == u64::MAX {
            Err(EngineError::Nix(NixError::NumericalOverflow))
        } else {
            Ok(
                LoansView {
                    free: self.free.drop_first(),
                    loans: self.loans.push((self.free[0], self.next_sequence_number)),
                    slots: self.slots.update(
                        self.free[0] as int / LOAN_BLOCK as int,
                        LoanSlot::Loan(
                            ActiveLoan { sequence_number: self.next_sequence_number, ..loan },
                        ),
                    ),
                    next_sequence_number: (self.next_sequence_number + 1) as u64,
                    num_active_loans: (self.num_active_loans + 1) as u64,
                },
            )
        }
    }

    /// What adding the loans of `batch`, one after the other, does; it stops
    /// at the first that fails.
    pub open spec fn add_each(self, batch: Seq<ActiveLoan>) -> Result<LoansView, EngineError>
        decreases batch.len(),
    {
        if batch.len() == 0 {
            Ok(self)
        } else {
            match self.add_loan(batch[0]) {
                Ok(v) => v.add_each(batch.drop_first()),
                Err(e) => Err(e),
            }
        }
    }

    /// What adding a batch of loans does: it fails at once where the batch
    /// would take the ledger over its limit.
    pub open spec fn add_loans(self, batch: Seq<ActiveLoan>) -> Result<LoansView, EngineError> {
        if self.num_active_loans + batch.len() > MAX_ACTIVE_LOANS {
            Err(EngineError::Nix(NixError::MaxActiveLoansExceeded))
        } else {
            self.add_each(batch)
        }
    }

    /// What removing the loan with a sequence number does: it fails where
    /// the ledger has none; otherwise the loan leaves the tree and its slot
    /// becomes the head of the free list.
    pub open spec fn remove_loan(self, sequence_number: u64) -> Result<LoansView, EngineError> {
        if !has_key(self.loans, sequence_number) {
            Err(EngineError::Nix(NixError::InvalidFreeList))
        } else {
            let index = slot_of_key(self.loans, sequence_number);
            Ok(
                LoansView {
                    free: seq![index] + self.free,
                    loans: self.loans.remove(place(self.loans, index)),
                    slots: self.slots.update(index as int / LOAN_BLOCK as int, LoanSlot::Empty),
                    num_active_loans: (self.num_active_loans - 1) as u64,
                    ..self
                },
            )
        }
    }
}

/// A ledger never holds more than `MAX_ACTIVE_LOANS` loans: adding to a full
/// ledger fails, and an addition that succeeds stays within the limit.
pub proof fn lemma_loans_stay_within_limit(v: LoansView, loan: ActiveLoan)
    requires
        v.num_active_loans <= MAX_ACTIVE_LOANS,
    ensures
        v.num_active_loans == MAX_ACTIVE_LOANS ==> v.add_loan(loan) == Err::<LoansView, _>(
            EngineError::Nix(NixError::MaxActiveLoansExceeded),
        ),
        v.add_loan(loan).is_ok() ==> v.add_loan(loan).unwrap().num_active_loans
            <= MAX_ACTIVE_LOANS,
{
}

impl MarketLoansFixed {
    /// The header of an empty ledger of `market`.
    pub fn new_empty(market: Pubkey) -> (f: Self)
        ensures
            f == (MarketLoansFixed {
                discriminant: crate::utils::spec_discriminant(
                    crate::utils::MARKET_LOANS_FIXED_TYPE_NAME.spec_bytes(),
                ),
                market,
                loan_sequence_number: 0,
                active_loans_root_index: NIL,
                free_list_head_index: NIL,
                num_bytes_allocated: 0,
                num_active_loans: 0,
            }),
    {
        let discriminant = match crate::utils::get_discriminant(
            crate::utils::MARKET_LOANS_FIXED_TYPE_NAME,
        ) {
            Ok(d) => d,
            Err(_) => 0,
        };
        MarketLoansFixed {
            discriminant,
            market,
            loan_sequence_number: 0,
            active_loans_root_index: NIL,
            free_list_head_index: NIL,
            num_bytes_allocated: 0,
            num_active_loans: 0,
        }
    }

    /// Whether the free list has a slot.
    pub fn has_free_block(&self) -> (r: bool)
        ensures
            r == (self.free_list_head_index != NIL),
    {
        self.free_list_head_index != NIL
    }
}

impl DynamicAccount<MarketLoansFixed, MarketLoansDynamic> {
    /// Every slot of the pool is in the free list or in the tree, according
    /// to its record; the header counts the loans, and they are at most
    /// `MAX_ACTIVE_LOANS`.
    pub open spec fn wf(&self) -> bool {
        &&& loans_inv(self.fixed, self.dynamic, Set::empty())
        &&& self.fixed.num_active_loans == loans(self.fixed, self.dynamic).len()
        &&& self.fixed.num_active_loans <= MAX_ACTIVE_LOANS
    }

    /// What the ledger holds.
    pub open spec fn view(&self) -> LoansView {
        LoansView {
            free: loan_free_list(self.fixed, self.dynamic),
            loans: loans(self.fixed, self.dynamic),
            slots: self.dynamic.slots@,
            next_sequence_number: self.fixed.loan_sequence_number,
            num_active_loans: self.fixed.num_active_loans,
        }
    }

    /// Whether two ledgers have the same market and discriminant.
    pub open spec fn same_ledger(&self, other: &Self) -> bool {
        self.fixed.market == other.fixed.market && self.fixed.discriminant
            == other.fixed.discriminant
    }

    /// A copy of the ledger.
    pub fn snapshot(&self) -> (m: Self)
        ensures
            m.fixed == self.fixed,
            m.dynamic.links@ == self.dynamic.links@,
            m.dynamic.slots@ == self.dynamic.slots@,
            m.view() == self.view(),
            m.wf() == self.wf(),
    {
        let mut links: Vec<u64> = Vec::new();
        let mut i: usize = 0;
        while i < self.dynamic.links.len()
            invariant
                i <= self.dynamic.links@.len(),
                links@ == self.dynamic.links@.take(i as int),
            decreases self.dynamic.links@.len() - i,
        {
            links.push(self.dynamic.links[i]);
            proof {
                assert(links@ =~= self.dynamic.links@.take(i + 1));
            }
            i = i + 1;
        }
        let mut slots: Vec<LoanSlot> = Vec::new();
        let mut j: usize = 0;
        while j < self.dynamic.slots.len()
            invariant
                j <= self.dynamic.slots@.len(),
                slots@ == self.dynamic.slots@.take(j as int),
            decreases self.dynamic.slots@.len() - j,
        {
            slots.push(self.dynamic.slots[j]);
            proof {
                assert(slots@ =~= self.dynamic.slots@.take(j + 1));
            }
            j = j + 1;
        }
        proof {
            assert(links@ =~= self.dynamic.links@);
            assert(slots@ =~= self.dynamic.slots@);
        }
        DynamicAccount { fixed: self.fixed, dynamic: MarketLoansDynamic { links, slots } }
    }

    /// An empty ledger with the market and the discriminant of the given
    /// header.
    pub fn new(fixed: MarketLoansFixed) -> (m: Self)
        ensures
            m.wf(),
            m.fixed == (MarketLoansFixed {
                loan_sequence_number: fixed.loan_sequence_number,
                active_loans_root_index: NIL,
                free_list_head_index: NIL,
                num_bytes_allocated: 0,
                num_active_loans: 0,
                ..fixed
            }),
            m.view().free.len() == 0,
            m.view().loans.len() == 0,
            m.view().slots.len() == 0,
    {
        let mut fixed = fixed;
        fixed.active_loans_root_index = NIL;
        fixed.free_list_head_index = NIL;
        fixed.num_bytes_allocated = 0;
        fixed.num_active_loans = 0;
        let m = DynamicAccount {
            fixed,
            dynamic: MarketLoansDynamic { links: Vec::new(), slots: Vec::new() },
        };
        proof {
            assert(indices(Seq::<(u32, u64)>::empty()) =~= Seq::<u32>::empty());
        }
        m
    }

    /// Tests what can be tested of a ledger that comes from outside: that
    /// the pool has links and a record for each slot allocated, that the head
    /// of the free list is `NIL` or a slot of the pool, and that the loans
    /// counted are within the limit. A well-formed ledger passes.
    ///
    /// A ledger that passes need not be well formed: whether its links are
    /// those of the free list and the tree that its header and records name
    /// is not tested, and every operation on a ledger requires it. A caller
    /// who goes on with a ledger of unknown origin does so on trust.
    pub fn check_shape(&self) -> (r: Result<(), EngineError>)
        ensures
            r == if spec_ledger_shape_ok(self.fixed, self.dynamic) {
                Ok::<(), EngineError>(())
            } else {
                Err(EngineError::InvalidAccountData)
            },
    {
        let n = self.dynamic.slots.len();
        if n > 0x02AA_AAAA || self.dynamic.links.len() != LOAN_BLOCK_WORDS * n {
            return Err(EngineError::InvalidAccountData);
        }
        if self.fixed.num_bytes_allocated as usize != (LOAN_BLOCK as usize) * n {
            return Err(EngineError::InvalidAccountData);
        }
        let head = self.fixed.free_list_head_index;
        let head_ok = head == NIL || (head % LOAN_BLOCK == 0 && ((head / LOAN_BLOCK) as usize) < n);
        if head_ok && self.fixed.num_active_loans <= MAX_ACTIVE_LOANS {
            Ok(())
        } else {
            Err(EngineError::InvalidAccountData)
        }
    }

    /// The loan in the slot at `index`, if the slot holds one.
    pub fn get_loan(&self, index: DataIndex) -> (r: Option<ActiveLoan>)
        ensures
            r.is_some() == (loan_slot_ok(index, self.dynamic.slots@.len()) && loan_slot_at(
                self.dynamic.slots@,
                index,
            ) is Loan),
            r.is_some() ==> r.unwrap() == loan_in(loan_slot_at(self.dynamic.slots@, index)),
    {
        if index % LOAN_BLOCK != 0 {
            return None;
        }
        let at = (index / LOAN_BLOCK) as usize;
        if at >= self.dynamic.slots.len() {
            return None;
        }
        match self.dynamic.slots[at] {
            LoanSlot::Loan(l) => Some(l),
            LoanSlot::Empty => None,
        }
    }

    /// Grows the pool by one slot and puts it at the head of the free list.
    /// Fails, and changes nothing, where the pool's size would leave 32 bits.
    pub fn expand_one(&mut self) -> (r: Result<(), EngineError>)
        requires
            old(self).wf(),
        ensures
            final(self).wf(),
            final(self).same_ledger(old(self)),
            final(self).fixed.active_loans_root_index == old(self).fixed.active_loans_root_index,
            r.is_ok() == (old(self).fixed.num_bytes_allocated + LOAN_BLOCK <= u32::MAX),
            r.is_ok() ==> final(self).view() == old(self).view().expand()
                && final(self).fixed.num_bytes_allocated == old(self).fixed.num_bytes_allocated
                + LOAN_BLOCK,
            r.is_err() ==> r == Err::<(), _>(EngineError::Nix(NixError::NumericalOverflow))
                && final(self).view() == old(self).view() && final(self).fixed == old(self).fixed,
    {
        let index: DataIndex = self.fixed.num_bytes_allocated;
        if index > u32::MAX - LOAN_BLOCK {
            return Err(EngineError::Nix(NixError::NumericalOverflow));
        }
        let ghost f0 = self.fixed;
        let ghost d0 = self.dynamic;
        let ghost none = Set::<u32>::empty();
        let ghost det = set![index];
        let ghost n = d0.slots@.len();
        self.dynamic.slots.push(LoanSlot::Empty);
        let ghost dm = self.dynamic;
        proof {
            assert(index == 96 * n);
            assert(loan_slot_ok(index, n + 1)) by (nonlinear_arith)
                requires
                    index == 96 * n,
            ;
            assert forall|i: u32| loan_slot_ok(i, n + 1) && i != index implies loan_slot_ok(i, n)
                && #[trigger] loan_slot_at(dm.slots@, i) == loan_slot_at(d0.slots@, i) by {
                assert(i / 96 < n) by (nonlinear_arith)
                    requires
                        i % 96 == 0,
                        i / 96 < n + 1,
                        i != 96 * n,
                ;
            }
            assert forall|i: u32| loan_slot_ok(i, n) implies loan_slot_ok(i, n + 1) && i != index
                && #[trigger] loan_slot_at(d0.slots@, i) == loan_slot_at(dm.slots@, i) by {
                assert(i != 96 * n) by (nonlinear_arith)
                    requires
                        i % 96 == 0,
                        i / 96 < n,
                ;
            }
            assert(loan_slot_at(dm.slots@, index) is Empty) by {
                assert(index as int / 96 == n) by (nonlinear_arith)
                    requires
                        index == 96 * n,
                ;
            }
            lemma_loan_free_still(f0, d0, f0, dm, none, det);
            lemma_loan_tree_still(f0, d0, f0, dm, none, det);
            let f = loan_free_list(f0, dm);
            assert forall|k: int, t: u32|
                #![trigger f[k], det.contains(t)]
                0 <= k < f.len() && det.contains(t) implies apart(f[k], t) by {
                lemma_loan_slots_apart(f[k], t, dm.slots@.len());
            }
        }
        let head = self.fixed.free_list_head_index;
        let new_len = self.dynamic.links.len() + LOAN_BLOCK_WORDS;
        let new_head = free_add_grown(&mut self.dynamic.links, head, index, new_len);
        self.fixed.num_bytes_allocated = index + LOAN_BLOCK;
        self.fixed.free_list_head_index = new_head;
        proof {
            let f1 = self.fixed;
            let d1 = self.dynamic;
            assert forall|t: u32| #[trigger] det.contains(t) implies loan_slot_ok(
                t,
                dm.slots@.len(),
            ) && det.contains(t) by {}
            lemma_loan_tree_kept(f0, dm, d1.links@, det, det);
            lemma_loan_tree_still(f0, dm, f1, d1, det, none);
            lemma_loan_free_after_push(f0, dm, f1, d1, index);
        }
        Ok(())
    }

    /// Grows the pool by `n` slots where no slot is free.
    pub fn expand_market_loans_if_needed(&mut self, n: u32) -> (r: Result<(), EngineError>)
        requires
            old(self).wf(),
        ensures
            final(self).wf(),
            final(self).same_ledger(old(self)),
            final(self).fixed.active_loans_root_index == old(self).fixed.active_loans_root_index,
            old(self).view().free.len() > 0 ==> r.is_ok() && final(self).view() == old(self).view() && final(self).fixed == old(self).fixed,
            old(self).view().free.len() == 0 ==> r.is_ok() == (old(self).fixed.num_bytes_allocated + n * LOAN_BLOCK <= u32::MAX) && (r.is_ok() ==> final(self).view() == old(self).view().expand_by(n as nat)),
            r.is_err() ==> r == Err::<(), _>(EngineError::Nix(NixError::NumericalOverflow)),
    {
        if self.fixed.has_free_block() {
            return Ok(());
        }
        self.expand_loan_account(n)
    }

    /// Grows the pool by `n` slots, each put at the head of the free list in
    /// turn. Fails, and changes nothing, where the pool's size would leave
    /// 32 bits.
    pub fn expand_loan_account(&mut self, n: u32) -> (r: Result<(), EngineError>)
        requires
            old(self).wf(),
        ensures
            final(self).wf(),
            final(self).same_ledger(old(self)),
            final(self).fixed.active_loans_root_index == old(self).fixed.active_loans_root_index,
            r.is_ok() == (old(self).fixed.num_bytes_allocated + n * LOAN_BLOCK <= u32::MAX),
            r.is_ok() ==> final(self).view() == old(self).view().expand_by(n as nat),
            r.is_err() ==> r == Err::<(), _>(EngineError::Nix(NixError::NumericalOverflow))
                && final(self).view() == old(self).view() && final(self).fixed == old(self).fixed,
    {
        // What can fail is found out before the ledger is touched.
        let room: u32 = (u32::MAX - self.fixed.num_bytes_allocated) / LOAN_BLOCK;
        proof {
            let bytes = self.fixed.num_bytes_allocated as int;
            assert((bytes + n * 96 <= u32::MAX) == (n <= (u32::MAX - bytes) / 96)) by (
                nonlinear_arith)
                requires
                    0 <= bytes <= u32::MAX,
                    0 <= n,
            ;
        }
        if n > room {
            return Err(EngineError::Nix(NixError::NumericalOverflow));
        }
        let mut i: u32 = 0;
        while i < n
            invariant
                i <= n,
                self.wf(),
                self.same_ledger(old(self)),
                self.fixed.active_loans_root_index == old(self).fixed.active_loans_root_index,
                old(self).fixed.num_bytes_allocated + n * LOAN_BLOCK <= u32::MAX,
                self.fixed.num_bytes_allocated == old(self).fixed.num_bytes_allocated + i
                    * LOAN_BLOCK,
                self.view().expand_by((n - i) as nat) == old(self).view().expand_by(n as nat),
            decreases n - i,
        {
            proof {
                assert((i + 1) * LOAN_BLOCK == i * LOAN_BLOCK + LOAN_BLOCK) by (nonlinear_arith);
                assert((i + 1) * LOAN_BLOCK <= n * LOAN_BLOCK) by (nonlinear_arith)
                    requires
                        i < n,
                ;
            }
            let grown = self.expand_one();
            assert(grown.is_ok());
            i = i + 1;
        }
        Ok(())
    }

    /// Adds a loan under the next sequence number, in the first free slot.
    /// Fails, and changes nothing, where the ledger is full, where no slot is
    /// free, and where the sequence numbers are used up.
    pub fn add_loan(&mut self, loan_record: ActiveLoan) -> (r: Result<(), EngineError>)
        requires
            old(self).wf(),
        ensures
            final(self).wf(),
            final(self).same_ledger(old(self)),
            match old(self).view().add_loan(loan_record) {
                Ok(v) => r.is_ok() && final(self).view() == v,
                Err(e) => r == Err::<(), _>(e) && final(self).view() == old(self).view()
                    && final(self).fixed == old(self).fixed,
            },
    {
        if self.fixed.num_active_loans >= MAX_ACTIVE_LOANS {
            return Err(EngineError::Nix(NixError::MaxActiveLoansExceeded));
        }
        if self.fixed.free_list_head_index == NIL {
            return Err(EngineError::Nix(NixError::InvalidFreeList));
        }
        if self.fixed.loan_sequence_number == u64::MAX {
            return Err(EngineError::Nix(NixError::NumericalOverflow));
        }
        let ghost f0 = self.fixed;
        let ghost d0 = self.dynamic;
        let ghost none = Set::<u32>::empty();
        let free_address: DataIndex = get_free_address_on_market_loans_fixed(
            &mut self.fixed,
            &mut self.dynamic,
        );
        let ghost fa = self.fixed;
        let ghost da = self.dynamic;
        let ghost det = set![free_address];
        let sequence_number = self.fixed.loan_sequence_number;
        let mut loan = loan_record;
        loan.set_sequence_number(sequence_number);
        self.dynamic.slots.set((free_address / LOAN_BLOCK) as usize, LoanSlot::Loan(loan));
        let ghost dm = self.dynamic;
        proof {
            lemma_loan_slot_fits(free_address, da.slots@.len());
            assert forall|i: u32| loan_slot_ok(i, da.slots@.len()) implies #[trigger] loan_slot_at(
                dm.slots@,
                i,
            ) == if i == free_address {
                LoanSlot::Loan(loan)
            } else {
                loan_slot_at(da.slots@, i)
            } by {
                lemma_loan_slot_update(da.slots@, free_address, LoanSlot::Loan(loan), i);
            }
            lemma_loan_free_still(fa, da, fa, dm, det, det);
            lemma_loan_tree_still(fa, da, fa, dm, det, det);
            let e = loans(fa, dm);
            assert forall|k: int, t: u32|
                #![trigger indices(e)[k], det.contains(t)]
                0 <= k < indices(e).len() && det.contains(t) implies apart(indices(e)[k], t) by {
                assert(indices(e)[k] == e[k].0);
                lemma_loan_slots_apart(e[k].0, t, dm.slots@.len());
            }
        }
        let root = self.fixed.active_loans_root_index;
        let (new_root, _) = tree_insert(
            &mut self.dynamic.links,
            root,
            NIL,
            free_address,
            sequence_number,
        );
        self.fixed.active_loans_root_index = new_root;
        self.fixed.loan_sequence_number = sequence_number + 1;
        self.fixed.num_active_loans = self.fixed.num_active_loans + 1;
        proof {
            let f1 = self.fixed;
            let d1 = self.dynamic;
            let e = loans(fa, dm);
            let touched = indices(e).to_set().insert(free_address);
            assert forall|t: u32| #[trigger] touched.contains(t) implies loan_slot_ok(
                t,
                dm.slots@.len(),
            ) && (det.contains(t) || loan_slot_at(dm.slots@, t) is Loan) by {
                if t != free_address {
                    assert(indices(e).contains(t));
                    let k = choose|k: int| 0 <= k < indices(e).len() && indices(e)[k] == t;
                    assert(e[k].0 == t);
                }
            }
            lemma_loan_free_kept(fa, dm, d1.links@, det, touched);
            lemma_loan_free_still(fa, dm, f1, d1, det, none);
            lemma_rank_of_largest(e, sequence_number);
            assert(e.insert(e.len() as int, (free_address, sequence_number)) =~= e.push(
                (free_address, sequence_number),
            ));
            lemma_loan_tree_after_insert(fa, dm, f1, d1, free_address);
        }
        Ok(())
    }

    /// Adds the loans of `loan_records` in turn, each under the next
    /// sequence number. Fails where they would take the ledger over its
    /// limit, and where one of them cannot be added. A batch that fails adds
    /// no loan: the ledger is then as it was.
    pub fn add_loans(&mut self, loan_records: &Vec<ActiveLoan>) -> (r: Result<(), EngineError>)
        requires
            old(self).wf(),
        ensures
            final(self).wf(),
            final(self).same_ledger(old(self)),
            match old(self).view().add_loans(loan_records@) {
                Ok(v) => r.is_ok() && final(self).view() == v,
                Err(e) => r == Err::<(), _>(e) && final(self).view() == old(self).view()
                    && final(self).fixed == old(self).fixed,
            },
    {
        if loan_records.len() > MAX_ACTIVE_LOANS as usize || self.fixed.num_active_loans + (
        loan_records.len() as u64) > MAX_ACTIVE_LOANS {
            return Err(EngineError::Nix(NixError::MaxActiveLoansExceeded));
        }
        let saved = self.snapshot();
        match self.add_each(loan_records) {
            Ok(()) => Ok(()),
            Err(e) => {
                *self = saved;
                Err(e)
            },
        }
    }

    /// Adds the loans of `loan_records` in turn and stops at the first that
    /// cannot be added, with the loans before it added.
    pub fn add_each(&mut self, loan_records: &Vec<ActiveLoan>) -> (r: Result<(), EngineError>)
        requires
            old(self).wf(),
        ensures
            final(self).wf(),
            final(self).same_ledger(old(self)),
            match old(self).view().add_each(loan_records@) {
                Ok(v) => r.is_ok() && final(self).view() == v,
                Err(e) => r == Err::<(), _>(e),
            },
    {
        let mut i: usize = 0;
        proof {
            assert(loan_records@.skip(0) =~= loan_records@);
        }
        while i < loan_records.len()
            invariant
                i <= loan_records.len(),
                self.wf(),
                self.same_ledger(old(self)),
                self.view().add_each(loan_records@.skip(i as int)) == old(self).view().add_each(
                    loan_records@,
                ),
            decreases loan_records.len() - i,
        {
            proof {
                let rest = loan_records@.skip(i as int);
                assert(rest.len() > 0);
                assert(rest[0] == loan_records@[i as int]);
                assert(rest.drop_first() =~= loan_records@.skip(i + 1));
                assert(self.view().add_each(rest) == match self.view().add_loan(rest[0]) {
                    Ok(v) => v.add_each(rest.drop_first()),
                    Err(e) => Err(e),
                });
            }
            match self.add_loan(loan_records[i]) {
                Ok(()) => {},
                Err(e) => { return Err(e); },
            }
            i = i + 1;
        }
        proof {
            assert(loan_records@.skip(i as int).len() == 0);
        }
        Ok(())
    }

    /// Removes the loan with `sequence_number` and frees its slot. Fails,
    /// and changes nothing, where the ledger has no such loan.
    pub fn remove_loan(&mut self, sequence_number: u64) -> (r: Result<(), EngineError>)
        requires
            old(self).wf(),
        ensures
            final(self).wf(),
            final(self).same_ledger(old(self)),
            match old(self).view().remove_loan(sequence_number) {
                Ok(v) => r.is_ok() && final(self).view() == v,
                Err(e) => r == Err::<(), _>(e) && final(self).view() == old(self).view()
                    && final(self).fixed == old(self).fixed,
            },
    {
        let ghost f0 = self.fixed;
        let ghost d0 = self.dynamic;
        let ghost none = Set::<u32>::empty();
        let ghost e = loans(f0, d0);
        let root = self.fixed.active_loans_root_index;
        let loan_index = tree_lookup(&self.dynamic.links, root, sequence_number);
        if loan_index == NIL {
            return Err(EngineError::Nix(NixError::InvalidFreeList));
        }
        let ghost det = set![loan_index];
        let ghost p = place(e, loan_index);
        proof {
            let i = choose|i: int| 0 <= i < e.len() && #[trigger] e[i] == (
                loan_index,
                sequence_number,
            );
            assert(e[i].1 == sequence_number);
            lemma_slot_of_key(e, i);
            assert(indices(e)[i] == loan_index);
            lemma_place(e, loan_index);
            assert(loan_slot_ok(e[i].0, d0.slots@.len()));
            lemma_loan_slot_fits(loan_index, d0.slots@.len());
        }
        let (new_root, _) = tree_remove(&mut self.dynamic.links, root, NIL, loan_index);
        self.fixed.active_loans_root_index = new_root;
        let ghost fa = self.fixed;
        let ghost da = self.dynamic;
        proof {
            let touched = indices(e).to_set();
            assert forall|t: u32| #[trigger] touched.contains(t) implies loan_slot_ok(
                t,
                d0.slots@.len(),
            ) && loan_slot_at(d0.slots@, t) is Loan by {
                assert(indices(e).contains(t));
                let k = choose|k: int| 0 <= k < indices(e).len() && indices(e)[k] == t;
                assert(e[k].0 == t);
            }
            lemma_loan_free_kept(f0, d0, da.links@, none, touched);
            assert(loan_slot_at(d0.slots@, e[p].0) is Loan);
            lemma_loan_free_still(f0, d0, fa, da, none, det);
            lemma_loan_tree_after_remove(f0, d0, fa, da, loan_index);
        }
        self.dynamic.slots.set((loan_index / LOAN_BLOCK) as usize, LoanSlot::Empty);
        let ghost dm = self.dynamic;
        proof {
            assert forall|i: u32| loan_slot_ok(i, da.slots@.len()) implies #[trigger] loan_slot_at(
                dm.slots@,
                i,
            ) == if i == loan_index {
                LoanSlot::Empty
            } else {
                loan_slot_at(da.slots@, i)
            } by {
                lemma_loan_slot_update(da.slots@, loan_index, LoanSlot::Empty, i);
            }
            lemma_loan_free_still(fa, da, fa, dm, det, det);
            lemma_loan_tree_still(fa, da, fa, dm, det, det);
            let f = loan_free_list(fa, dm);
            assert forall|k: int, t: u32|
                #![trigger f[k], det.contains(t)]
                0 <= k < f.len() && det.contains(t) implies apart(f[k], t) by {
                lemma_loan_slots_apart(f[k], t, dm.slots@.len());
            }
        }
        let head = self.fixed.free_list_head_index;
        let new_head = free_add(&mut self.dynamic.links, head, loan_index);
        self.fixed.free_list_head_index = new_head;
        self.fixed.num_active_loans = self.fixed.num_active_loans - 1;
        proof {
            let f1 = self.fixed;
            let d1 = self.dynamic;
            assert forall|t: u32| #[trigger] det.contains(t) implies loan_slot_ok(
                t,
                dm.slots@.len(),
            ) && det.contains(t) by {}
            lemma_loan_tree_kept(fa, dm, d1.links@, det, det);
            lemma_loan_tree_still(fa, dm, f1, d1, det, none);
            lemma_loan_free_after_push(fa, dm, f1, d1, loan_index);
            assert(has_key(e, sequence_number));
        }
        Ok(())
    }
}

/// Takes the first free slot off the free list of a ledger and returns its
/// index, or `NIL` where no slot is free.
pub fn get_free_address_on_market_loans_fixed(
    fixed: &mut MarketLoansFixed,
    dynamic: &mut MarketLoansDynamic,
) -> (index: DataIndex)
    requires
        loans_inv(*old(fixed), *old(dynamic), Set::empty()),
    ensures
        index == old(fixed).free_list_head_index,
        (index == NIL) == (loan_free_list(*old(fixed), *old(dynamic)).len() == 0),
        *final(fixed) == (MarketLoansFixed {
            free_list_head_index: final(fixed).free_list_head_index,
            ..*old(fixed)
        }),
        final(dynamic).slots@ == old(dynamic).slots@,
        index == NIL ==> *final(fixed) == *old(fixed) && final(dynamic).links@
            == old(dynamic).links@,
        index != NIL ==> {
            &&& loans_inv(*final(fixed), *final(dynamic), set![index])
            &&& loan_slot_ok(index, old(dynamic).slots@.len())
            &&& loan_slot_at(old(dynamic).slots@, index) is Empty
            &&& loan_free_list(*old(fixed), *old(dynamic))[0] == index
            &&& loan_free_list(*final(fixed), *final(dynamic)) == loan_free_list(
                *old(fixed),
                *old(dynamic),
            ).drop_first()
            &&& loans(*final(fixed), *final(dynamic)) == loans(*old(fixed), *old(dynamic))
        },
{
    let ghost f0 = *fixed;
    let ghost d0 = *dynamic;
    let head = fixed.free_list_head_index;
    let (index, new_head) = free_remove(&mut dynamic.links, head);
    fixed.free_list_head_index = new_head;
    proof {
        let f1 = *fixed;
        let d1 = *dynamic;
        if index != NIL {
            let touched = set![index];
            let f = loan_free_list(f0, d0);
            assert(f[0] == index);
            assert(loan_slot_at(d0.slots@, f[0]) is Empty);
            assert forall|t: u32| #[trigger] touched.contains(t) implies loan_slot_ok(
                t,
                d0.slots@.len(),
            ) && !(loan_slot_at(d0.slots@, t) is Loan) by {}
            lemma_loan_tree_kept(f0, d0, d1.links@, Set::empty(), touched);
            lemma_loan_tree_still(f0, d0, f1, d1, Set::empty(), touched);
            lemma_loan_free_after_pop(f0, d0, f1, d1);
        }
    }
    index
}

} // verus!
