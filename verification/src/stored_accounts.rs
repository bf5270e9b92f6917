//! The bytes of the accounts: a market, a ledger of loans and a global
//! account, as they are stored and read back.
//!
//! A market and a ledger are stored as their header, filled up to its size,
//! then the links of the slot pool, word after word, then the record of each
//! slot, each in a block of its own that starts with the kind of the record.
//! A global account is stored as its header and its seats.

use crate::dynamic_account::DynamicAccount;
use crate::error::EngineError;
use crate::global::{GlobalDynamic, GlobalFixed, GlobalTrader};
use crate::instruction::{le_at, read_u64};
use crate::market::{MarketDataTreeNodeType, MarketDynamic, MarketFixed, MarketSlot};
use crate::market_loan::{LoanSlot, MarketLoansDynamic, MarketLoansFixed};
use crate::storage::{
    holds_at, le_seq, lemma_appended, lemma_holds_both, lemma_le_seq_len, lemma_number_read_back,
    lemma_widths, put_number, put_zeros, zeros,
};
use crate::stored_records::{
    get_global_header, get_ledger_header, get_loan, get_market_header, get_order, get_seat,
    get_trader, global_header_at, global_header_bytes, ledger_header_at, ledger_header_bytes,
    lemma_global_header_read_back, lemma_ledger_header_read_back, lemma_loan_read_back,
    lemma_market_header_read_back, lemma_order_read_back, lemma_seat_read_back,
    lemma_trader_read_back, loan_at, loan_bytes, loan_readable, market_header_at,
    market_header_bytes, order_at, order_bytes, order_readable, put_global_header,
    put_ledger_header, put_loan, put_market_header, put_order, put_seat, put_trader, seat_at,
    seat_bytes, trader_at, trader_bytes,
};
use crate::utils::{
    spec_discriminant, GLOBAL_FIXED_TYPE_NAME, MARKET_FIXED_TYPE_NAME,
    MARKET_LOANS_FIXED_TYPE_NAME,
};
use crate::validation::{spec_stored_slots, stored_seats_fit, stored_slots, verify_discriminant};
use vstd::prelude::*;
use vstd::string::StringSliceAdditionalSpecFns;

verus! {

/// Bytes of the stored header of a market.
pub const MARKET_HEADER_SIZE: usize = 736;

/// Bytes of the stored header of a ledger.
pub const LEDGER_HEADER_SIZE: usize = 72;

/// Bytes of the stored header of a global account.
pub const GLOBAL_HEADER_SIZE: usize = 96;

/// Bytes of a stored seat of a global account.
pub const GLOBAL_SEAT_SIZE: usize = 40;

/// What is held in a sequence is held where more was appended.
pub proof fn lemma_still_held(s: Seq<u8>, more: Seq<u8>, at: int, piece: Seq<u8>)
    requires
        holds_at(s, at, piece),
    ensures
        holds_at(s + more, at, piece),
{
    assert((s + more).subrange(at, at + piece.len()) =~= s.subrange(at, at + piece.len()));
}

/// What was appended is held where the sequence ended.
pub proof fn lemma_held_at_the_end(s: Seq<u8>, piece: Seq<u8>)
    ensures
        holds_at(s + piece, s.len() as int, piece),
{
    assert((s + piece).subrange(s.len() as int, (s.len() + piece.len()) as int) =~= piece);
}

/// The 112 bytes of the record of a slot of a market: the kind of the
/// record, the record, and zeros.
pub open spec fn market_slot_bytes(slot: MarketSlot) -> Seq<u8> {
    match slot {
        MarketSlot::Empty => le_seq(0, 1) + zeros(111),
        MarketSlot::Seat(s) => le_seq(1, 1) + seat_bytes(s) + zeros(15),
        MarketSlot::Order(o) => le_seq(2, 1) + order_bytes(o) + zeros(56),
    }
}

/// Whether the bytes from `at` on can be the record of a slot of a market.
pub open spec fn market_slot_readable(s: Seq<u8>, at: int) -> bool {
    s[at] == 0 || s[at] == 1 || (s[at] == 2 && order_readable(s, at + 1))
}

/// Whether the bytes from `at` on say the record `slot`.
pub open spec fn market_slot_at(s: Seq<u8>, at: int, slot: MarketSlot) -> bool {
    match slot {
        MarketSlot::Empty => s[at] == 0,
        MarketSlot::Seat(x) => s[at] == 1 && seat_at(s, at + 1, x),
        MarketSlot::Order(o) => s[at] == 2 && order_at(s, at + 1, o),
    }
}

/// Whether the bytes from `at` on can be the record of a slot of a market,
/// and say the record `slot`.
#[verifier::opaque]
pub open spec fn market_slot_said(s: Seq<u8>, at: int, slot: MarketSlot) -> bool {
    market_slot_readable(s, at) && market_slot_at(s, at, slot)
}

/// What it is for bytes to say the record of a slot.
pub proof fn lemma_market_slot_said(s: Seq<u8>, at: int, slot: MarketSlot)
    ensures
        market_slot_said(s, at, slot) == (market_slot_readable(s, at) && market_slot_at(
            s,
            at,
            slot,
        )),
{
    reveal(market_slot_said);
}

/// Where the record of slot number `i` of a pool of `count` slots starts in
/// the bytes of a market.
pub open spec fn market_slot_place(count: int, i: int) -> int {
    MARKET_HEADER_SIZE + 112 * count + 112 * i
}

/// Appends the record of a slot of a market.
pub fn put_market_slot(out: &mut Vec<u8>, slot: &MarketSlot)
    ensures
        final(out)@ == old(out)@ + market_slot_bytes(*slot),
{
    match slot {
        MarketSlot::Empty => {
            put_number(out, MarketDataTreeNodeType::Empty.to_u8() as u64, 1);
            put_zeros(out, 111);
            proof {
                lemma_appended(old(out)@, le_seq(0, 1), zeros(111));
            }
        },
        MarketSlot::Seat(s) => {
            put_number(out, MarketDataTreeNodeType::ClaimedSeat.to_u8() as u64, 1);
            put_seat(out, s);
            put_zeros(out, 15);
            proof {
                lemma_appended(old(out)@, le_seq(1, 1), seat_bytes(*s));
                lemma_appended(old(out)@, le_seq(1, 1) + seat_bytes(*s), zeros(15));
            }
        },
        MarketSlot::Order(o) => {
            put_number(out, MarketDataTreeNodeType::RestingOrder.to_u8() as u64, 1);
            put_order(out, o);
            put_zeros(out, 56);
            proof {
                lemma_appended(old(out)@, le_seq(2, 1), order_bytes(*o));
                lemma_appended(old(out)@, le_seq(2, 1) + order_bytes(*o), zeros(56));
            }
        },
    }
}

/// Reads the record of a slot of a market; `None` where the bytes cannot be
/// one.
pub fn get_market_slot(data: &[u8], at: usize) -> (r: Option<MarketSlot>)
    requires
        at + 112 <= data@.len(),
    ensures
        r.is_some() == market_slot_readable(data@, at as int),
        r.is_some() ==> market_slot_at(data@, at as int, r.unwrap()),
{
    let len = data.len();
    match MarketDataTreeNodeType::try_from_u8(data[at]) {
        Some(MarketDataTreeNodeType::Empty) => Some(MarketSlot::Empty),
        Some(MarketDataTreeNodeType::ClaimedSeat) => match get_seat(data, at + 1) {
            Some(s) => Some(MarketSlot::Seat(s)),
            None => None,
        },
        Some(MarketDataTreeNodeType::RestingOrder) => match get_order(data, at + 1) {
            Some(o) => Some(MarketSlot::Order(o)),
            None => None,
        },
        None => None,
    }
}

/// The record of a slot of a market is read back from its bytes.
pub proof fn lemma_market_slot_read_back(s: Seq<u8>, at: int, slot: MarketSlot)
    requires
        holds_at(s, at, market_slot_bytes(slot)),
    ensures
        market_slot_readable(s, at),
        market_slot_at(s, at, slot),
        market_slot_bytes(slot).len() == 112,
{
    lemma_le_seq_len(0, 1);
    lemma_le_seq_len(1, 1);
    lemma_le_seq_len(2, 1);
    lemma_widths(0);
    lemma_widths(1);
    lemma_widths(2);
    match slot {
        MarketSlot::Empty => {
            lemma_holds_both(s, at, le_seq(0, 1), zeros(111));
            lemma_number_read_back(s, at, 0, 1);
        },
        MarketSlot::Seat(x) => {
            crate::stored_records::lemma_seat_len(x);
            lemma_holds_both(s, at, le_seq(1, 1) + seat_bytes(x), zeros(15));
            lemma_holds_both(s, at, le_seq(1, 1), seat_bytes(x));
            lemma_number_read_back(s, at, 1, 1);
            lemma_seat_read_back(s, at + 1, x);
        },
        MarketSlot::Order(o) => {
            crate::stored_records::lemma_order_len(o);
            lemma_holds_both(s, at, le_seq(2, 1) + order_bytes(o), zeros(56));
            lemma_holds_both(s, at, le_seq(2, 1), order_bytes(o));
            lemma_number_read_back(s, at, 2, 1);
            lemma_order_read_back(s, at + 1, o);
        },
    }
    assert(le_at(s, at, 1) == s[at]) by {
        reveal_with_fuel(le_at, 2);
    }
}

/// Whether `b` is a market as it is stored: its header at the start, the
/// links of its pool behind the header, and the record of each slot behind
/// the links.
pub open spec fn market_held(
    b: Seq<u8>,
    fixed: MarketFixed,
    links: Seq<u64>,
    slots: Seq<MarketSlot>,
) -> bool {
    &&& b.len() == MARKET_HEADER_SIZE + 8 * links.len() + 112 * slots.len()
    &&& holds_at(b, 0, market_header_bytes(fixed))
    &&& forall|i: int|
        0 <= i < links.len() ==> holds_at(
            b,
            MARKET_HEADER_SIZE + 8 * i,
            #[trigger] le_seq(links[i] as nat, 8),
        )
    &&& forall|i: int|
        0 <= i < slots.len() ==> holds_at(
            b,
            MARKET_HEADER_SIZE + 8 * links.len() + 112 * i,
            #[trigger] market_slot_bytes(slots[i]),
        )
}

/// The bytes of a market.
pub fn encode_market(m: &DynamicAccount<MarketFixed, MarketDynamic>) -> (b: Vec<u8>)
    ensures
        market_held(b@, m.fixed, m.dynamic.links@, m.dynamic.slots@),
{
    let mut out: Vec<u8> = Vec::new();
    put_market_header(&mut out, &m.fixed);
    let ghost head = out@;
    proof {
        crate::stored_records::lemma_market_header_len(m.fixed);
        assert(head =~= market_header_bytes(m.fixed));
        assert(head.subrange(0, head.len() as int) =~= head);
    }
    put_zeros(&mut out, 136);
    proof {
        lemma_still_held(head, zeros(136), 0, market_header_bytes(m.fixed));
    }
    let n = m.dynamic.links.len();
    let mut i: usize = 0;
    while i < n
        invariant
            i <= n,
            n == m.dynamic.links@.len(),
            out@.len() == MARKET_HEADER_SIZE + 8 * i,
            holds_at(out@, 0, market_header_bytes(m.fixed)),
            forall|j: int|
                0 <= j < i ==> holds_at(
                    out@,
                    MARKET_HEADER_SIZE + 8 * j,
                    #[trigger] le_seq(m.dynamic.links@[j] as nat, 8),
                ),
        decreases n - i,
    {
        let ghost before = out@;
        let ghost piece = le_seq(m.dynamic.links@[i as int] as nat, 8);
        put_number(&mut out, m.dynamic.links[i], 8);
        proof {
            lemma_le_seq_len(m.dynamic.links@[i as int] as nat, 8);
            lemma_still_held(before, piece, 0, market_header_bytes(m.fixed));
            lemma_held_at_the_end(before, piece);
            assert forall|j: int| 0 <= j < i + 1 implies holds_at(
                out@,
                MARKET_HEADER_SIZE + 8 * j,
                #[trigger] le_seq(m.dynamic.links@[j] as nat, 8),
            ) by {
                if j < i {
                    lemma_still_held(
                        before,
                        piece,
                        MARKET_HEADER_SIZE + 8 * j,
                        le_seq(m.dynamic.links@[j] as nat, 8),
                    );
                }
            }
        }
        i = i + 1;
    }
    let k = m.dynamic.slots.len();
    let mut i: usize = 0;
    while i < k
        invariant
            i <= k,
            k == m.dynamic.slots@.len(),
            n == m.dynamic.links@.len(),
            out@.len() == MARKET_HEADER_SIZE + 8 * n + 112 * i,
            holds_at(out@, 0, market_header_bytes(m.fixed)),
            forall|j: int|
                0 <= j < n ==> holds_at(
                    out@,
                    MARKET_HEADER_SIZE + 8 * j,
                    #[trigger] le_seq(m.dynamic.links@[j] as nat, 8),
                ),
            forall|j: int|
                0 <= j < i ==> holds_at(
                    out@,
                    MARKET_HEADER_SIZE + 8 * n + 112 * j,
                    #[trigger] market_slot_bytes(m.dynamic.slots@[j]),
                ),
        decreases k - i,
    {
        let ghost before = out@;
        let ghost piece = market_slot_bytes(m.dynamic.slots@[i as int]);
        put_market_slot(&mut out, &m.dynamic.slots[i]);
        proof {
            lemma_market_slot_len(m.dynamic.slots@[i as int]);
            lemma_still_held(before, piece, 0, market_header_bytes(m.fixed));
            lemma_held_at_the_end(before, piece);
            assert forall|j: int| 0 <= j < n implies holds_at(
                out@,
                MARKET_HEADER_SIZE + 8 * j,
                #[trigger] le_seq(m.dynamic.links@[j] as nat, 8),
            ) by {
                lemma_still_held(
                    before,
                    piece,
                    MARKET_HEADER_SIZE + 8 * j,
                    le_seq(m.dynamic.links@[j] as nat, 8),
                );
            }
            assert forall|j: int| 0 <= j < i + 1 implies holds_at(
                out@,
                MARKET_HEADER_SIZE + 8 * n + 112 * j,
                #[trigger] market_slot_bytes(m.dynamic.slots@[j]),
            ) by {
                if j < i {
                    lemma_still_held(
                        before,
                        piece,
                        MARKET_HEADER_SIZE + 8 * n + 112 * j,
                        market_slot_bytes(m.dynamic.slots@[j]),
                    );
                }
            }
        }
        i = i + 1;
    }
    out
}

/// The record of a slot of a market has 112 bytes.
pub proof fn lemma_market_slot_len(slot: MarketSlot)
    ensures
        market_slot_bytes(slot).len() == 112,
{
    lemma_le_seq_len(0, 1);
    lemma_le_seq_len(1, 1);
    lemma_le_seq_len(2, 1);
    match slot {
        MarketSlot::Empty => {},
        MarketSlot::Seat(x) => {
            crate::stored_records::lemma_seat_len(x);
        },
        MarketSlot::Order(o) => {
            crate::stored_records::lemma_order_len(o);
        },
    }
}

/// How many slots the bytes of a market say that its pool has; `None` where
/// the length of the bytes does not fit.
pub open spec fn market_slots_said(b: Seq<u8>) -> Option<int> {
    if b.len() < MARKET_HEADER_SIZE {
        None
    } else {
        spec_stored_slots(b.len() as int, MARKET_HEADER_SIZE as int, 112, le_at(b, 156, 4) as int)
    }
}

/// Whether bytes can be a market: they hold a header with the discriminant
/// of markets, their length fits the bytes that the header says are
/// allocated, and the record of each slot can be one.
pub open spec fn market_readable(b: Seq<u8>) -> bool {
    &&& market_slots_said(b) is Some
    &&& le_at(b, 0, 8) == spec_discriminant(MARKET_FIXED_TYPE_NAME.spec_bytes())
    &&& forall|i: int|
        0 <= i < market_slots_said(b).unwrap() ==> market_slot_readable(
            b,
            #[trigger] market_slot_place(market_slots_said(b).unwrap(), i),
        )
}

/// Whether the bytes say the market with the header, the links and the
/// records given.
pub open spec fn market_said(
    b: Seq<u8>,
    fixed: MarketFixed,
    links: Seq<u64>,
    slots: Seq<MarketSlot>,
) -> bool {
    &&& market_slots_said(b) == Some(slots.len() as int)
    &&& links.len() == 14 * slots.len()
    &&& market_header_at(b, 0, fixed)
    &&& forall|i: int|
        0 <= i < links.len() ==> #[trigger] links[i] == le_at(b, MARKET_HEADER_SIZE + 8 * i, 8)
    &&& forall|i: int|
        0 <= i < slots.len() ==> #[trigger] market_slot_said(
            b,
            market_slot_place(slots.len() as int, i),
            slots[i],
        )
}

/// The market that the bytes of an account hold. It fails where the bytes
/// cannot be a market.
///
/// What is returned has the header, the links and the records that the
/// bytes say, and no more is promised of it: that the links are those of
/// the free list and the trees that the header and the records name, which
/// is what the operations on a market require, is not tested here and
/// cannot be read off the bytes. It holds of bytes that `encode_market`
/// wrote of a well-formed market: see `lemma_stored_market_is_read` and
/// `lemma_read_market_is_well_formed`. Of bytes of another origin the caller
/// has `check_shape` and nothing beyond it.
#[verifier::loop_isolation(false)]
pub fn decode_market(data: &[u8]) -> (r: Result<
    DynamicAccount<MarketFixed, MarketDynamic>,
    EngineError,
>)
    ensures
        match r {
            Ok(m) => market_readable(data@) && market_said(
                data@,
                m.fixed,
                m.dynamic.links@,
                m.dynamic.slots@,
            ),
            Err(e) => e == EngineError::InvalidAccountData && !market_readable(data@),
        },
{
    let len = data.len();
    if len < MARKET_HEADER_SIZE {
        return Err(EngineError::InvalidAccountData);
    }
    let fixed = match get_market_header(data, 0) {
        Some(f) => f,
        None => { return Err(EngineError::InvalidAccountData); },
    };
    match verify_discriminant(fixed.discriminant, MARKET_FIXED_TYPE_NAME) {
        Ok(()) => {},
        Err(_) => { return Err(EngineError::InvalidAccountData); },
    }
    let count = match stored_slots(len, MARKET_HEADER_SIZE, 112, fixed.num_bytes_allocated) {
        Ok(c) => c as usize,
        Err(_) => { return Err(EngineError::InvalidAccountData); },
    };
    proof {
        assert(market_slots_said(data@) == Some(count as int));
        assert(fixed.num_bytes_allocated == 112 * count) by (nonlinear_arith)
            requires
                fixed.num_bytes_allocated % 112 == 0,
                count == fixed.num_bytes_allocated / 112,
        ;
    }
    let words = 14 * count;
    let mut links: Vec<u64> = Vec::new();
    let mut i: usize = 0;
    while i < words
        invariant
            i <= words,
            words == 14 * count,
            len == data@.len(),
            len == MARKET_HEADER_SIZE + 224 * count,
            links@.len() == i,
            forall|j: int|
                0 <= j < i ==> #[trigger] links@[j] == le_at(data@, MARKET_HEADER_SIZE + 8 * j, 8),
        decreases words - i,
    {
        let word = read_u64(data, MARKET_HEADER_SIZE + 8 * i);
        links.push(word);
        i = i + 1;
    }
    let mut slots: Vec<MarketSlot> = Vec::new();
    let mut i: usize = 0;
    while i < count
        invariant
            i <= count,
            len == data@.len(),
            len == MARKET_HEADER_SIZE + 224 * count,
            slots@.len() == i,
            market_slots_said(data@) == Some(count as int),
            forall|j: int|
                0 <= j < i ==> #[trigger] market_slot_said(
                    data@,
                    market_slot_place(count as int, j),
                    slots@[j],
                ),
        decreases count - i,
    {
        let ghost so_far = slots@;
        let slot = match get_market_slot(data, MARKET_HEADER_SIZE + 112 * count + 112 * i) {
            Some(slot) => slot,
            None => {
                proof {
                    assert(!market_slot_readable(
                        data@,
                        market_slot_place(market_slots_said(data@).unwrap(), i as int),
                    ));
                }
                return Err(EngineError::InvalidAccountData);
            },
        };
        slots.push(slot);
        proof {
            lemma_market_slot_said(data@, market_slot_place(count as int, i as int), slot);
            assert forall|j: int| 0 <= j < i + 1 implies #[trigger] market_slot_said(
                data@,
                market_slot_place(count as int, j),
                slots@[j],
            ) by {
                if j < i {
                    assert(slots@[j] == so_far[j]);
                    assert(market_slot_said(data@, market_slot_place(count as int, j), so_far[j]));
                } else {
                    assert(slots@[j] == slot);
                }
            }
        }
        i = i + 1;
    }
    proof {
        assert forall|j: int| 0 <= j < count implies market_slot_readable(
            data@,
            #[trigger] market_slot_place(market_slots_said(data@).unwrap(), j),
        ) by {
            assert(market_slot_said(data@, market_slot_place(count as int, j), slots@[j]));
            lemma_market_slot_said(data@, market_slot_place(count as int, j), slots@[j]);
        }
    }
    Ok(DynamicAccount { fixed, dynamic: MarketDynamic { links, slots } })
}

/// A market is read back from its bytes: where the bytes are those of a
/// market with the discriminant of markets, whose pool has links and a
/// record for each slot allocated, they can be read as a market, and what
/// they say is that market.
pub proof fn lemma_market_read_back(
    b: Seq<u8>,
    fixed: MarketFixed,
    links: Seq<u64>,
    slots: Seq<MarketSlot>,
)
    requires
        market_held(b, fixed, links, slots),
        fixed.discriminant == spec_discriminant(MARKET_FIXED_TYPE_NAME.spec_bytes()),
        links.len() == 14 * slots.len(),
        fixed.num_bytes_allocated == 112 * slots.len(),
    ensures
        market_readable(b),
        market_said(b, fixed, links, slots),
{
    lemma_market_header_read_back(b, 0, fixed);
    let n = slots.len() as int;
    assert(fixed.num_bytes_allocated as int / 112 == n && fixed.num_bytes_allocated as int % 112
        == 0) by (nonlinear_arith)
        requires
            fixed.num_bytes_allocated == 112 * n,
    ;
    assert(market_slots_said(b) == Some(n));
    assert forall|i: int| 0 <= i < links.len() implies #[trigger] links[i] == le_at(
        b,
        MARKET_HEADER_SIZE + 8 * i,
        8,
    ) by {
        assert(holds_at(b, MARKET_HEADER_SIZE + 8 * i, le_seq(links[i] as nat, 8)));
        lemma_widths(links[i] as nat);
        lemma_number_read_back(b, MARKET_HEADER_SIZE + 8 * i, links[i] as nat, 8);
    }
    assert forall|i: int| 0 <= i < slots.len() implies #[trigger] market_slot_said(
        b,
        market_slot_place(n, i),
        slots[i],
    ) by {
        assert(holds_at(
            b,
            MARKET_HEADER_SIZE + 8 * links.len() + 112 * i,
            market_slot_bytes(slots[i]),
        ));
        lemma_market_slot_read_back(b, market_slot_place(n, i), slots[i]);
        lemma_market_slot_said(b, market_slot_place(n, i), slots[i]);
    }
    assert forall|i: int| 0 <= i < n implies market_slot_readable(
        b,
        #[trigger] market_slot_place(n, i),
    ) by {
        assert(market_slot_said(b, market_slot_place(n, i), slots[i]));
        lemma_market_slot_said(b, market_slot_place(n, i), slots[i]);
    }
}

/// The 96 bytes of the record of a slot of a ledger: the kind of the record,
/// the record, and zeros.
pub open spec fn loan_slot_bytes(slot: LoanSlot) -> Seq<u8> {
    match slot {
        LoanSlot::Empty => le_seq(0, 1) + zeros(95),
        LoanSlot::Loan(l) => le_seq(1, 1) + loan_bytes(l) + zeros(26),
    }
}

/// Whether the bytes from `at` on can be the record of a slot of a ledger.
pub open spec fn loan_slot_readable(s: Seq<u8>, at: int) -> bool {
    s[at] == 0 || (s[at] == 1 && loan_readable(s, at + 1))
}

/// Whether the bytes from `at` on say the record `slot`.
pub open spec fn loan_slot_at(s: Seq<u8>, at: int, slot: LoanSlot) -> bool {
    match slot {
        LoanSlot::Empty => s[at] == 0,
        LoanSlot::Loan(l) => s[at] == 1 && loan_at(s, at + 1, l),
    }
}

/// Whether the bytes from `at` on can be the record of a slot of a ledger,
/// and say the record `slot`.
#[verifier::opaque]
pub open spec fn loan_slot_said(s: Seq<u8>, at: int, slot: LoanSlot) -> bool {
    loan_slot_readable(s, at) && loan_slot_at(s, at, slot)
}

/// What it is for bytes to say the record of a slot.
pub proof fn lemma_loan_slot_said(s: Seq<u8>, at: int, slot: LoanSlot)
    ensures
        loan_slot_said(s, at, slot) == (loan_slot_readable(s, at) && loan_slot_at(s, at, slot)),
{
    reveal(loan_slot_said);
}

/// Where the record of slot number `i` of a pool of `count` slots starts in
/// the bytes of a ledger.
pub open spec fn loan_slot_place(count: int, i: int) -> int {
    LEDGER_HEADER_SIZE + 96 * count + 96 * i
}

/// Appends the record of a slot of a ledger.
pub fn put_loan_slot(out: &mut Vec<u8>, slot: &LoanSlot)
    ensures
        final(out)@ == old(out)@ + loan_slot_bytes(*slot),
{
    match slot {
        LoanSlot::Empty => {
            put_number(out, 0, 1);
            put_zeros(out, 95);
            proof {
                lemma_appended(old(out)@, le_seq(0, 1), zeros(95));
            }
        },
        LoanSlot::Loan(l) => {
            put_number(out, 1, 1);
            put_loan(out, l);
            put_zeros(out, 26);
            proof {
                lemma_appended(old(out)@, le_seq(1, 1), loan_bytes(*l));
                lemma_appended(old(out)@, le_seq(1, 1) + loan_bytes(*l), zeros(26));
            }
        },
    }
}

/// Reads the record of a slot of a ledger; `None` where the bytes cannot be
/// one.
pub fn get_loan_slot(data: &[u8], at: usize) -> (r: Option<LoanSlot>)
    requires
        at + 96 <= data@.len(),
    ensures
        r.is_some() == loan_slot_readable(data@, at as int),
        r.is_some() ==> loan_slot_at(data@, at as int, r.unwrap()),
{
    let len = data.len();
    let kind = data[at];
    if kind == 0 {
        Some(LoanSlot::Empty)
    } else if kind == 1 {
        match get_loan(data, at + 1) {
            Some(l) => Some(LoanSlot::Loan(l)),
            None => None,
        }
    } else {
        None
    }
}

/// The record of a slot of a ledger is read back from its bytes.
pub proof fn lemma_loan_slot_read_back(s: Seq<u8>, at: int, slot: LoanSlot)
    requires
        holds_at(s, at, loan_slot_bytes(slot)),
    ensures
        loan_slot_readable(s, at),
        loan_slot_at(s, at, slot),
        loan_slot_bytes(slot).len() == 96,
{
    lemma_le_seq_len(0, 1);
    lemma_le_seq_len(1, 1);
    lemma_widths(0);
    lemma_widths(1);
    match slot {
        LoanSlot::Empty => {
            lemma_holds_both(s, at, le_seq(0, 1), zeros(95));
            lemma_number_read_back(s, at, 0, 1);
        },
        LoanSlot::Loan(l) => {
            crate::stored_records::lemma_loan_len(l);
            lemma_holds_both(s, at, le_seq(1, 1) + loan_bytes(l), zeros(26));
            lemma_holds_both(s, at, le_seq(1, 1), loan_bytes(l));
            lemma_number_read_back(s, at, 1, 1);
            lemma_loan_read_back(s, at + 1, l);
        },
    }
    assert(le_at(s, at, 1) == s[at]) by {
        reveal_with_fuel(le_at, 2);
    }
}

/// Whether `b` is a ledger as it is stored: its header at the start, the
/// links of its pool behind the header, and the record of each slot behind
/// the links.
pub open spec fn ledger_held(
    b: Seq<u8>,
    fixed: MarketLoansFixed,
    links: Seq<u64>,
    slots: Seq<LoanSlot>,
) -> bool {
    &&& b.len() == LEDGER_HEADER_SIZE + 8 * links.len() + 96 * slots.len()
    &&& holds_at(b, 0, ledger_header_bytes(fixed))
    &&& forall|i: int|
        0 <= i < links.len() ==> holds_at(
            b,
            LEDGER_HEADER_SIZE + 8 * i,
            #[trigger] le_seq(links[i] as nat, 8),
        )
    &&& forall|i: int|
        0 <= i < slots.len() ==> holds_at(
            b,
            LEDGER_HEADER_SIZE + 8 * links.len() + 96 * i,
            #[trigger] loan_slot_bytes(slots[i]),
        )
}

/// The bytes of a ledger.
pub fn encode_market_loans(m: &DynamicAccount<MarketLoansFixed, MarketLoansDynamic>) -> (b: Vec<u8>)
    ensures
        ledger_held(b@, m.fixed, m.dynamic.links@, m.dynamic.slots@),
{
    let mut out: Vec<u8> = Vec::new();
    put_ledger_header(&mut out, &m.fixed);
    let ghost head = out@;
    proof {
        crate::stored_records::lemma_ledger_header_len(m.fixed);
        assert(head =~= ledger_header_bytes(m.fixed));
        assert(head.subrange(0, head.len() as int) =~= head);
    }
    put_zeros(&mut out, 4);
    proof {
        lemma_still_held(head, zeros(4), 0, ledger_header_bytes(m.fixed));
    }
    let n = m.dynamic.links.len();
    let mut i: usize = 0;
    while i < n
        invariant
            i <= n,
            n == m.dynamic.links@.len(),
            out@.len() == LEDGER_HEADER_SIZE + 8 * i,
            holds_at(out@, 0, ledger_header_bytes(m.fixed)),
            forall|j: int|
                0 <= j < i ==> holds_at(
                    out@,
                    LEDGER_HEADER_SIZE + 8 * j,
                    #[trigger] le_seq(m.dynamic.links@[j] as nat, 8),
                ),
        decreases n - i,
    {
        let ghost before = out@;
        let ghost piece = le_seq(m.dynamic.links@[i as int] as nat, 8);
        put_number(&mut out, m.dynamic.links[i], 8);
        proof {
            lemma_le_seq_len(m.dynamic.links@[i as int] as nat, 8);
            lemma_still_held(before, piece, 0, ledger_header_bytes(m.fixed));
            lemma_held_at_the_end(before, piece);
            assert forall|j: int| 0 <= j < i + 1 implies holds_at(
                out@,
                LEDGER_HEADER_SIZE + 8 * j,
                #[trigger] le_seq(m.dynamic.links@[j] as nat, 8),
            ) by {
                if j < i {
                    lemma_still_held(
                        before,
                        piece,
                        LEDGER_HEADER_SIZE + 8 * j,
                        le_seq(m.dynamic.links@[j] as nat, 8),
                    );
                }
            }
        }
        i = i + 1;
    }
    let k = m.dynamic.slots.len();
    let mut i: usize = 0;
    while i < k
        invariant
            i <= k,
            k == m.dynamic.slots@.len(),
            n == m.dynamic.links@.len(),
            out@.len() == LEDGER_HEADER_SIZE + 8 * n + 96 * i,
            holds_at(out@, 0, ledger_header_bytes(m.fixed)),
            forall|j: int|
                0 <= j < n ==> holds_at(
                    out@,
                    LEDGER_HEADER_SIZE + 8 * j,
                    #[trigger] le_seq(m.dynamic.links@[j] as nat, 8),
                ),
            forall|j: int|
                0 <= j < i ==> holds_at(
                    out@,
                    LEDGER_HEADER_SIZE + 8 * n + 96 * j,
                    #[trigger] loan_slot_bytes(m.dynamic.slots@[j]),
                ),
        decreases k - i,
    {
        let ghost before = out@;
        let ghost piece = loan_slot_bytes(m.dynamic.slots@[i as int]);
        put_loan_slot(&mut out, &m.dynamic.slots[i]);
        proof {
            lemma_loan_slot_len(m.dynamic.slots@[i as int]);
            lemma_still_held(before, piece, 0, ledger_header_bytes(m.fixed));
            lemma_held_at_the_end(before, piece);
            assert forall|j: int| 0 <= j < n implies holds_at(
                out@,
                LEDGER_HEADER_SIZE + 8 * j,
                #[trigger] le_seq(m.dynamic.links@[j] as nat, 8),
            ) by {
                lemma_still_held(
                    before,
                    piece,
                    LEDGER_HEADER_SIZE + 8 * j,
                    le_seq(m.dynamic.links@[j] as nat, 8),
                );
            }
            assert forall|j: int| 0 <= j < i + 1 implies holds_at(
                out@,
                LEDGER_HEADER_SIZE + 8 * n + 96 * j,
                #[trigger] loan_slot_bytes(m.dynamic.slots@[j]),
            ) by {
                if j < i {
                    lemma_still_held(
                        before,
                        piece,
                        LEDGER_HEADER_SIZE + 8 * n + 96 * j,
                        loan_slot_bytes(m.dynamic.slots@[j]),
                    );
                }
            }
        }
        i = i + 1;
    }
    out
}

/// The record of a slot of a ledger has 96 bytes.
pub proof fn lemma_loan_slot_len(slot: LoanSlot)
    ensures
        loan_slot_bytes(slot).len() == 96,
{
    lemma_le_seq_len(0, 1);
    lemma_le_seq_len(1, 1);
    match slot {
        LoanSlot::Empty => {},
        LoanSlot::Loan(l) => {
            crate::stored_records::lemma_loan_len(l);
        },
    }
}

/// How many slots the bytes of a ledger say that its pool has; `None` where
/// the length of the bytes does not fit.
pub open spec fn ledger_slots_said(b: Seq<u8>) -> Option<int> {
    if b.len() < LEDGER_HEADER_SIZE {
        None
    } else {
        spec_stored_slots(b.len() as int, LEDGER_HEADER_SIZE as int, 96, le_at(b, 56, 4) as int)
    }
}

/// Whether bytes can be a ledger: they hold a header with the discriminant
/// of ledgers, their length fits the bytes that the header says are
/// allocated, and the record of each slot can be one.
pub open spec fn ledger_readable(b: Seq<u8>) -> bool {
    &&& ledger_slots_said(b) is Some
    &&& le_at(b, 0, 8) == spec_discriminant(MARKET_LOANS_FIXED_TYPE_NAME.spec_bytes())
    &&& forall|i: int|
        0 <= i < ledger_slots_said(b).unwrap() ==> loan_slot_readable(
            b,
            #[trigger] loan_slot_place(ledger_slots_said(b).unwrap(), i),
        )
}

/// Whether the bytes say the ledger with the header, the links and the
/// records given.
pub open spec fn ledger_said(
    b: Seq<u8>,
    fixed: MarketLoansFixed,
    links: Seq<u64>,
    slots: Seq<LoanSlot>,
) -> bool {
    &&& ledger_slots_said(b) == Some(slots.len() as int)
    &&& links.len() == 12 * slots.len()
    &&& ledger_header_at(b, 0, fixed)
    &&& forall|i: int|
        0 <= i < links.len() ==> #[trigger] links[i] == le_at(b, LEDGER_HEADER_SIZE + 8 * i, 8)
    &&& forall|i: int|
        0 <= i < slots.len() ==> #[trigger] loan_slot_said(
            b,
            loan_slot_place(slots.len() as int, i),
            slots[i],
        )
}

/// The ledger that the bytes of an account hold. It fails where the bytes
/// cannot be a ledger.
///
/// What is returned has the header, the links and the records that the
/// bytes say, and no more is promised of it: that the links are those of
/// the free list and the tree that the header and the records name, which
/// is what the operations on a ledger require, is not tested here and cannot
/// be read off the bytes. It holds of bytes that `encode_market_loans` wrote
/// of a well-formed ledger: see `lemma_stored_ledger_is_read` and
/// `lemma_read_ledger_is_well_formed`. Of bytes of another origin the caller
/// has `check_shape` and nothing beyond it.
#[verifier::loop_isolation(false)]
pub fn decode_market_loans(data: &[u8]) -> (r: Result<
    DynamicAccount<MarketLoansFixed, MarketLoansDynamic>,
    EngineError,
>)
    ensures
        match r {
            Ok(m) => ledger_readable(data@) && ledger_said(
                data@,
                m.fixed,
                m.dynamic.links@,
                m.dynamic.slots@,
            ),
            Err(e) => e == EngineError::InvalidAccountData && !ledger_readable(data@),
        },
{
    let len = data.len();
    if len < LEDGER_HEADER_SIZE {
        return Err(EngineError::InvalidAccountData);
    }
    let fixed = match get_ledger_header(data, 0) {
        Some(f) => f,
        None => { return Err(EngineError::InvalidAccountData); },
    };
    match verify_discriminant(fixed.discriminant, MARKET_LOANS_FIXED_TYPE_NAME) {
        Ok(()) => {},
        Err(_) => { return Err(EngineError::InvalidAccountData); },
    }
    let count = match stored_slots(len, LEDGER_HEADER_SIZE, 96, fixed.num_bytes_allocated) {
        Ok(c) => c as usize,
        Err(_) => { return Err(EngineError::InvalidAccountData); },
    };
    proof {
        assert(ledger_slots_said(data@) == Some(count as int));
        assert(fixed.num_bytes_allocated == 96 * count) by (nonlinear_arith)
            requires
                fixed.num_bytes_allocated % 96 == 0,
                count == fixed.num_bytes_allocated / 96,
        ;
    }
    let words = 12 * count;
    let mut links: Vec<u64> = Vec::new();
    let mut i: usize = 0;
    while i < words
        invariant
            i <= words,
            words == 12 * count,
            len == data@.len(),
            len == LEDGER_HEADER_SIZE + 192 * count,
            links@.len() == i,
            forall|j: int|
                0 <= j < i ==> #[trigger] links@[j] == le_at(data@, LEDGER_HEADER_SIZE + 8 * j, 8),
        decreases words - i,
    {
        let word = read_u64(data, LEDGER_HEADER_SIZE + 8 * i);
        links.push(word);
        i = i + 1;
    }
    let mut slots: Vec<LoanSlot> = Vec::new();
    let mut i: usize = 0;
    while i < count
        invariant
            i <= count,
            len == data@.len(),
            len == LEDGER_HEADER_SIZE + 192 * count,
            slots@.len() == i,
            ledger_slots_said(data@) == Some(count as int),
            forall|j: int|
                0 <= j < i ==> #[trigger] loan_slot_said(
                    data@,
                    loan_slot_place(count as int, j),
                    slots@[j],
                ),
        decreases count - i,
    {
        let ghost so_far = slots@;
        let slot = match get_loan_slot(data, LEDGER_HEADER_SIZE + 96 * count + 96 * i) {
            Some(slot) => slot,
            None => {
                proof {
                    assert(!loan_slot_readable(
                        data@,
                        loan_slot_place(ledger_slots_said(data@).unwrap(), i as int),
                    ));
                }
                return Err(EngineError::InvalidAccountData);
            },
        };
        slots.push(slot);
        proof {
            lemma_loan_slot_said(data@, loan_slot_place(count as int, i as int), slot);
            assert forall|j: int| 0 <= j < i + 1 implies #[trigger] loan_slot_said(
                data@,
                loan_slot_place(count as int, j),
                slots@[j],
            ) by {
                if j < i {
                    assert(slots@[j] == so_far[j]);
                    assert(loan_slot_said(data@, loan_slot_place(count as int, j), so_far[j]));
                } else {
                    assert(slots@[j] == slot);
                }
            }
        }
        i = i + 1;
    }
    proof {
        assert forall|j: int| 0 <= j < count implies loan_slot_readable(
            data@,
            #[trigger] loan_slot_place(ledger_slots_said(data@).unwrap(), j),
        ) by {
            assert(loan_slot_said(data@, loan_slot_place(count as int, j), slots@[j]));
            lemma_loan_slot_said(data@, loan_slot_place(count as int, j), slots@[j]);
        }
    }
    Ok(DynamicAccount { fixed, dynamic: MarketLoansDynamic { links, slots } })
}

/// A ledger is read back from its bytes: where the bytes are those of a
/// ledger with the discriminant of ledgers, whose pool has links and a
/// record for each slot allocated, they can be read as a ledger, and what
/// they say is that ledger.
pub proof fn lemma_ledger_read_back(
    b: Seq<u8>,
    fixed: MarketLoansFixed,
    links: Seq<u64>,
    slots: Seq<LoanSlot>,
)
    requires
        ledger_held(b, fixed, links, slots),
        fixed.discriminant == spec_discriminant(MARKET_LOANS_FIXED_TYPE_NAME.spec_bytes()),
        links.len() == 12 * slots.len(),
        fixed.num_bytes_allocated == 96 * slots.len(),
    ensures
        ledger_readable(b),
        ledger_said(b, fixed, links, slots),
{
    lemma_ledger_header_read_back(b, 0, fixed);
    let n = slots.len() as int;
    assert(fixed.num_bytes_allocated as int / 96 == n && fixed.num_bytes_allocated as int % 96
        == 0) by (nonlinear_arith)
        requires
            fixed.num_bytes_allocated == 96 * n,
    ;
    assert(ledger_slots_said(b) == Some(n));
    assert forall|i: int| 0 <= i < links.len() implies #[trigger] links[i] == le_at(
        b,
        LEDGER_HEADER_SIZE + 8 * i,
        8,
    ) by {
        assert(holds_at(b, LEDGER_HEADER_SIZE + 8 * i, le_seq(links[i] as nat, 8)));
        lemma_widths(links[i] as nat);
        lemma_number_read_back(b, LEDGER_HEADER_SIZE + 8 * i, links[i] as nat, 8);
    }
    assert forall|i: int| 0 <= i < slots.len() implies #[trigger] loan_slot_said(
        b,
        loan_slot_place(n, i),
        slots[i],
    ) by {
        assert(holds_at(
            b,
            LEDGER_HEADER_SIZE + 8 * links.len() + 96 * i,
            loan_slot_bytes(slots[i]),
        ));
        lemma_loan_slot_read_back(b, loan_slot_place(n, i), slots[i]);
        lemma_loan_slot_said(b, loan_slot_place(n, i), slots[i]);
    }
    assert forall|i: int| 0 <= i < n implies loan_slot_readable(
        b,
        #[trigger] loan_slot_place(n, i),
    ) by {
        assert(loan_slot_said(b, loan_slot_place(n, i), slots[i]));
        lemma_loan_slot_said(b, loan_slot_place(n, i), slots[i]);
    }
}

/// Whether the bytes from `at` on say the seat `t` of a global account.
#[verifier::opaque]
pub open spec fn trader_said(s: Seq<u8>, at: int, t: GlobalTrader) -> bool {
    trader_at(s, at, t)
}

/// What it is for bytes to say a seat of a global account.
pub proof fn lemma_trader_said(s: Seq<u8>, at: int, t: GlobalTrader)
    ensures
        trader_said(s, at, t) == trader_at(s, at, t),
{
    reveal(trader_said);
}

/// Where seat number `i` starts in the bytes of a global account.
pub open spec fn trader_place(i: int) -> int {
    GLOBAL_HEADER_SIZE + GLOBAL_SEAT_SIZE * i
}

/// Whether `b` is a global account as it is stored: its header at the start
/// and its seats behind the header.
pub open spec fn global_held(b: Seq<u8>, fixed: GlobalFixed, traders: Seq<GlobalTrader>) -> bool {
    &&& b.len() == GLOBAL_HEADER_SIZE + GLOBAL_SEAT_SIZE * traders.len()
    &&& holds_at(b, 0, global_header_bytes(fixed))
    &&& forall|i: int|
        0 <= i < traders.len() ==> holds_at(
            b,
            GLOBAL_HEADER_SIZE + GLOBAL_SEAT_SIZE * i,
            #[trigger] trader_bytes(traders[i]),
        )
}

/// The bytes of a global account.
pub fn encode_global(g: &DynamicAccount<GlobalFixed, GlobalDynamic>) -> (b: Vec<u8>)
    ensures
        global_held(b@, g.fixed, g.dynamic.traders@),
{
    let mut out: Vec<u8> = Vec::new();
    put_global_header(&mut out, &g.fixed);
    let ghost head = out@;
    proof {
        crate::stored_records::lemma_global_header_len(g.fixed);
        assert(head =~= global_header_bytes(g.fixed));
        assert(head.subrange(0, head.len() as int) =~= head);
    }
    put_zeros(&mut out, 21);
    proof {
        lemma_still_held(head, zeros(21), 0, global_header_bytes(g.fixed));
    }
    let n = g.dynamic.traders.len();
    let mut i: usize = 0;
    while i < n
        invariant
            i <= n,
            n == g.dynamic.traders@.len(),
            out@.len() == GLOBAL_HEADER_SIZE + GLOBAL_SEAT_SIZE * i,
            holds_at(out@, 0, global_header_bytes(g.fixed)),
            forall|j: int|
                0 <= j < i ==> holds_at(
                    out@,
                    GLOBAL_HEADER_SIZE + GLOBAL_SEAT_SIZE * j,
                    #[trigger] trader_bytes(g.dynamic.traders@[j]),
                ),
        decreases n - i,
    {
        let ghost before = out@;
        let ghost piece = trader_bytes(g.dynamic.traders@[i as int]);
        put_trader(&mut out, &g.dynamic.traders[i]);
        proof {
            crate::stored_records::lemma_trader_len(g.dynamic.traders@[i as int]);
            lemma_still_held(before, piece, 0, global_header_bytes(g.fixed));
            lemma_held_at_the_end(before, piece);
            assert forall|j: int| 0 <= j < i + 1 implies holds_at(
                out@,
                GLOBAL_HEADER_SIZE + GLOBAL_SEAT_SIZE * j,
                #[trigger] trader_bytes(g.dynamic.traders@[j]),
            ) by {
                if j < i {
                    lemma_still_held(
                        before,
                        piece,
                        GLOBAL_HEADER_SIZE + GLOBAL_SEAT_SIZE * j,
                        trader_bytes(g.dynamic.traders@[j]),
                    );
                }
            }
        }
        i = i + 1;
    }
    out
}

/// Whether bytes can be a global account: they hold a header with the
/// discriminant of global accounts, and their length fits the seats that the
/// header counts, which are within the limit.
pub open spec fn global_readable(b: Seq<u8>) -> bool {
    &&& b.len() >= GLOBAL_HEADER_SIZE
    &&& le_at(b, 0, 8) == spec_discriminant(GLOBAL_FIXED_TYPE_NAME.spec_bytes())
    &&& le_at(b, 73, 2) <= crate::constants::MAX_GLOBAL_SEATS
    &&& b.len() == GLOBAL_HEADER_SIZE + le_at(b, 73, 2) * GLOBAL_SEAT_SIZE
}

/// Whether the bytes say the global account with the header and the seats
/// given.
pub open spec fn global_said(b: Seq<u8>, fixed: GlobalFixed, traders: Seq<GlobalTrader>) -> bool {
    &&& global_header_at(b, 0, fixed)
    &&& traders.len() == fixed.num_seats_claimed
    &&& forall|i: int|
        0 <= i < traders.len() ==> #[trigger] trader_said(b, trader_place(i), traders[i])
}

/// The global account that the bytes of an account hold. It fails where the
/// bytes cannot be a global account. What is returned is well formed: the
/// header counts the seats, and they are within the limit.
#[verifier::loop_isolation(false)]
pub fn decode_global(data: &[u8]) -> (r: Result<
    DynamicAccount<GlobalFixed, GlobalDynamic>,
    EngineError,
>)
    ensures
        match r {
            Ok(g) => global_readable(data@) && global_said(data@, g.fixed, g.dynamic.traders@)
                && g.wf(),
            Err(e) => e == EngineError::InvalidAccountData && !global_readable(data@),
        },
{
    let len = data.len();
    if len < GLOBAL_HEADER_SIZE {
        return Err(EngineError::InvalidAccountData);
    }
    let fixed = match get_global_header(data, 0) {
        Some(f) => f,
        None => { return Err(EngineError::InvalidAccountData); },
    };
    match verify_discriminant(fixed.discriminant, GLOBAL_FIXED_TYPE_NAME) {
        Ok(()) => {},
        Err(_) => { return Err(EngineError::InvalidAccountData); },
    }
    match stored_seats_fit(len, GLOBAL_HEADER_SIZE, GLOBAL_SEAT_SIZE, fixed.num_seats_claimed) {
        Ok(()) => {},
        Err(_) => { return Err(EngineError::InvalidAccountData); },
    }
    let count = fixed.num_seats_claimed as usize;
    let mut traders: Vec<GlobalTrader> = Vec::new();
    let mut i: usize = 0;
    while i < count
        invariant
            i <= count,
            len == data@.len(),
            len == GLOBAL_HEADER_SIZE + count * GLOBAL_SEAT_SIZE,
            traders@.len() == i,
            forall|j: int|
                0 <= j < i ==> #[trigger] trader_said(data@, trader_place(j), traders@[j]),
        decreases count - i,
    {
        let ghost so_far = traders@;
        assert(GLOBAL_HEADER_SIZE + GLOBAL_SEAT_SIZE * i + 40 <= len) by (nonlinear_arith)
            requires
                i < count,
                len == 96 + count * 40,
                GLOBAL_HEADER_SIZE == 96,
                GLOBAL_SEAT_SIZE == 40,
        ;
        let t = match get_trader(data, GLOBAL_HEADER_SIZE + GLOBAL_SEAT_SIZE * i) {
            Some(t) => t,
            None => { return Err(EngineError::InvalidAccountData); },
        };
        traders.push(t);
        proof {
            lemma_trader_said(data@, trader_place(i as int), t);
            assert forall|j: int| 0 <= j < i + 1 implies #[trigger] trader_said(
                data@,
                trader_place(j),
                traders@[j],
            ) by {
                if j < i {
                    assert(traders@[j] == so_far[j]);
                    assert(trader_said(data@, trader_place(j), so_far[j]));
                } else {
                    assert(traders@[j] == t);
                }
            }
        }
        i = i + 1;
    }
    Ok(DynamicAccount { fixed, dynamic: GlobalDynamic { traders } })
}

/// A global account is read back from its bytes: where the bytes are those
/// of a well-formed global account with the discriminant of global accounts,
/// they can be read as a global account, and what they say is that account.
pub proof fn lemma_global_read_back(b: Seq<u8>, fixed: GlobalFixed, traders: Seq<GlobalTrader>)
    requires
        global_held(b, fixed, traders),
        fixed.discriminant == spec_discriminant(GLOBAL_FIXED_TYPE_NAME.spec_bytes()),
        traders.len() == fixed.num_seats_claimed,
        fixed.num_seats_claimed <= crate::constants::MAX_GLOBAL_SEATS,
    ensures
        global_readable(b),
        global_said(b, fixed, traders),
{
    lemma_global_header_read_back(b, 0, fixed);
    assert forall|i: int| 0 <= i < traders.len() implies #[trigger] trader_said(
        b,
        trader_place(i),
        traders[i],
    ) by {
        assert(holds_at(b, GLOBAL_HEADER_SIZE + GLOBAL_SEAT_SIZE * i, trader_bytes(traders[i])));
        lemma_trader_read_back(b, trader_place(i), traders[i]);
        lemma_trader_said(b, trader_place(i), traders[i]);
    }
}

/// Bytes say no more than one record of a slot of a market.
pub proof fn lemma_market_slot_said_once(s: Seq<u8>, at: int, v: MarketSlot, w: MarketSlot)
    requires
        market_slot_at(s, at, v),
        market_slot_at(s, at, w),
    ensures
        v == w,
{
    match (v, w) {
        (MarketSlot::Seat(x), MarketSlot::Seat(y)) => {
            crate::stored_records::lemma_seat_said_once(s, at + 1, x, y);
        },
        (MarketSlot::Order(x), MarketSlot::Order(y)) => {
            crate::stored_records::lemma_order_said_once(s, at + 1, x, y);
        },
        _ => {},
    }
}

/// Bytes say no more than one record of a slot of a ledger.
pub proof fn lemma_loan_slot_said_once(s: Seq<u8>, at: int, v: LoanSlot, w: LoanSlot)
    requires
        loan_slot_at(s, at, v),
        loan_slot_at(s, at, w),
    ensures
        v == w,
{
    match (v, w) {
        (LoanSlot::Loan(x), LoanSlot::Loan(y)) => {
            crate::stored_records::lemma_loan_said_once(s, at + 1, x, y);
        },
        _ => {},
    }
}

/// A market that was stored is the market that is read: where the bytes
/// are those of a market with the discriminant of markets, whose pool has
/// links and a record for each slot allocated, whatever the bytes say has
/// the header, the links and the records of that market.
pub proof fn lemma_stored_market_is_read(
    b: Seq<u8>,
    fixed: MarketFixed,
    links: Seq<u64>,
    slots: Seq<MarketSlot>,
    read_fixed: MarketFixed,
    read_links: Seq<u64>,
    read_slots: Seq<MarketSlot>,
)
    requires
        market_held(b, fixed, links, slots),
        fixed.discriminant == spec_discriminant(MARKET_FIXED_TYPE_NAME.spec_bytes()),
        links.len() == 14 * slots.len(),
        fixed.num_bytes_allocated == 112 * slots.len(),
        market_said(b, read_fixed, read_links, read_slots),
    ensures
        market_readable(b),
        read_fixed == fixed,
        read_links == links,
        read_slots == slots,
{
    lemma_market_read_back(b, fixed, links, slots);
    crate::stored_records::lemma_market_header_said_once(b, 0, fixed, read_fixed);
    assert(read_links =~= links);
    assert(read_slots =~= slots) by {
        assert forall|i: int| 0 <= i < slots.len() implies read_slots[i] == slots[i] by {
            let at = market_slot_place(slots.len() as int, i);
            assert(market_slot_said(b, at, slots[i]));
            assert(market_slot_said(b, at, read_slots[i]));
            lemma_market_slot_said(b, at, slots[i]);
            lemma_market_slot_said(b, at, read_slots[i]);
            lemma_market_slot_said_once(b, at, slots[i], read_slots[i]);
        }
    }
}

/// A ledger that was stored is the ledger that is read.
pub proof fn lemma_stored_ledger_is_read(
    b: Seq<u8>,
    fixed: MarketLoansFixed,
    links: Seq<u64>,
    slots: Seq<LoanSlot>,
    read_fixed: MarketLoansFixed,
    read_links: Seq<u64>,
    read_slots: Seq<LoanSlot>,
)
    requires
        ledger_held(b, fixed, links, slots),
        fixed.discriminant == spec_discriminant(MARKET_LOANS_FIXED_TYPE_NAME.spec_bytes()),
        links.len() == 12 * slots.len(),
        fixed.num_bytes_allocated == 96 * slots.len(),
        ledger_said(b, read_fixed, read_links, read_slots),
    ensures
        ledger_readable(b),
        read_fixed == fixed,
        read_links == links,
        read_slots == slots,
{
    lemma_ledger_read_back(b, fixed, links, slots);
    crate::stored_records::lemma_ledger_header_said_once(b, 0, fixed, read_fixed);
    assert(read_links =~= links);
    assert(read_slots =~= slots) by {
        assert forall|i: int| 0 <= i < slots.len() implies read_slots[i] == slots[i] by {
            let at = loan_slot_place(slots.len() as int, i);
            assert(loan_slot_said(b, at, slots[i]));
            assert(loan_slot_said(b, at, read_slots[i]));
            lemma_loan_slot_said(b, at, slots[i]);
            lemma_loan_slot_said(b, at, read_slots[i]);
            lemma_loan_slot_said_once(b, at, slots[i], read_slots[i]);
        }
    }
}

/// A global account that was stored is the global account that is read.
pub proof fn lemma_stored_global_is_read(
    b: Seq<u8>,
    fixed: GlobalFixed,
    traders: Seq<GlobalTrader>,
    read_fixed: GlobalFixed,
    read_traders: Seq<GlobalTrader>,
)
    requires
        global_held(b, fixed, traders),
        fixed.discriminant == spec_discriminant(GLOBAL_FIXED_TYPE_NAME.spec_bytes()),
        traders.len() == fixed.num_seats_claimed,
        fixed.num_seats_claimed <= crate::constants::MAX_GLOBAL_SEATS,
        global_said(b, read_fixed, read_traders),
    ensures
        global_readable(b),
        read_fixed == fixed,
        read_traders == traders,
{
    lemma_global_read_back(b, fixed, traders);
    crate::stored_records::lemma_global_header_said_once(b, 0, fixed, read_fixed);
    assert(read_traders =~= traders) by {
        assert forall|i: int| 0 <= i < traders.len() implies read_traders[i] == traders[i] by {
            assert(trader_said(b, trader_place(i), traders[i]));
            assert(trader_said(b, trader_place(i), read_traders[i]));
            lemma_trader_said(b, trader_place(i), traders[i]);
            lemma_trader_said(b, trader_place(i), read_traders[i]);
            crate::stored_records::lemma_trader_said_once(
                b,
                trader_place(i),
                traders[i],
                read_traders[i],
            );
        }
    }
}

/// A market that has the header, the links and the records of a well-formed
/// market is well formed: what was stored of a well-formed market and read
/// back is a well-formed market again.
pub proof fn lemma_read_market_is_well_formed(
    m: DynamicAccount<MarketFixed, MarketDynamic>,
    read: DynamicAccount<MarketFixed, MarketDynamic>,
)
    requires
        m.wf(),
        read.fixed == m.fixed,
        read.dynamic.links@ == m.dynamic.links@,
        read.dynamic.slots@ == m.dynamic.slots@,
    ensures
        read.wf(),
        read.pool() == m.pool(),
{
    reveal(crate::market::market_inv);
    let none = Set::<u32>::empty();
    assert(crate::market::book_inv(m.fixed, m.dynamic, none, true, true));
    assert(crate::market::book_inv(m.fixed, m.dynamic, none, true, false));
    assert(crate::market::book_inv(m.fixed, m.dynamic, none, false, true));
    assert(crate::market::book_inv(m.fixed, m.dynamic, none, false, false));
    assert(crate::market::book_inv(read.fixed, read.dynamic, none, true, true));
    assert(crate::market::book_inv(read.fixed, read.dynamic, none, true, false));
    assert(crate::market::book_inv(read.fixed, read.dynamic, none, false, true));
    assert(crate::market::book_inv(read.fixed, read.dynamic, none, false, false));
}

/// A ledger that has the header, the links and the records of a well-formed
/// ledger is well formed.
pub proof fn lemma_read_ledger_is_well_formed(
    m: DynamicAccount<MarketLoansFixed, MarketLoansDynamic>,
    read: DynamicAccount<MarketLoansFixed, MarketLoansDynamic>,
)
    requires
        m.wf(),
        read.fixed == m.fixed,
        read.dynamic.links@ == m.dynamic.links@,
        read.dynamic.slots@ == m.dynamic.slots@,
    ensures
        read.wf(),
        read.view() == m.view(),
{
}

/// A global account that has the header and the seats of a well-formed
/// global account is well formed.
pub proof fn lemma_read_global_is_well_formed(
    g: DynamicAccount<GlobalFixed, GlobalDynamic>,
    read: DynamicAccount<GlobalFixed, GlobalDynamic>,
)
    requires
        g.wf(),
        read.fixed == g.fixed,
        read.dynamic.traders@ == g.dynamic.traders@,
    ensures
        read.wf(),
        read.traders() == g.traders(),
{
}

} // verus!
