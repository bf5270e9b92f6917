//! The instructions of the program and the records of their parameters, as
//! they come in bytes.

use crate::constants::DataIndex;
use crate::error::EngineError;
use crate::resting_order::OrderType;
use vstd::prelude::*;

verus! {

/// The operations of the program. An instruction is the operation's tag in
/// one byte, followed by the record of its parameters.
#[derive(Debug, Copy, Clone, PartialEq, Eq, Structural)]
pub enum NixInstruction {
    /// Create a market.
    CreateMarket,
    /// Create the ledger of a market's loans.
    CreateMarketLoanAccount,
    /// Allocate a seat.
    ClaimSeat,
    /// Deposit into a seat.
    Deposit,
    /// Create the global account of a mint.
    GlobalCreate,
    /// Seat a trader on a global account.
    GlobalAddTrader,
    /// Deposit into a global account.
    GlobalDeposit,
    /// Place an order on a market.
    PlaceOrder,
    /// Cancel an order.
    CancelOrder,
}

impl NixInstruction {
    /// The tag of the instruction.
    pub open spec fn spec_tag(self) -> u8 {
        match self {
            NixInstruction::CreateMarket => 0u8,
            NixInstruction::CreateMarketLoanAccount => 1u8,
            NixInstruction::ClaimSeat => 2u8,
            NixInstruction::Deposit => 3u8,
            NixInstruction::GlobalCreate => 4u8,
            NixInstruction::GlobalAddTrader => 5u8,
            NixInstruction::GlobalDeposit => 6u8,
            NixInstruction::PlaceOrder => 7u8,
            NixInstruction::CancelOrder => 8u8,
        }
    }

    /// The tag of the instruction.
    pub fn tag(self) -> (t: u8)
        ensures
            t == self.spec_tag(),
    {
        match self {
            NixInstruction::CreateMarket => 0u8,
            NixInstruction::CreateMarketLoanAccount => 1u8,
            NixInstruction::ClaimSeat => 2u8,
            NixInstruction::Deposit => 3u8,
            NixInstruction::GlobalCreate => 4u8,
            NixInstruction::GlobalAddTrader => 5u8,
            NixInstruction::GlobalDeposit => 6u8,
            NixInstruction::PlaceOrder => 7u8,
            NixInstruction::CancelOrder => 8u8,
        }
    }

    /// The instruction with the given tag, if there is one.
    pub fn try_from_tag(t: u8) -> (r: Option<NixInstruction>)
        ensures
            r.is_some() == (t <= 8),
            r.is_some() ==> r.unwrap().spec_tag() == t,
    {
        match t {
            0u8 => Some(NixInstruction::CreateMarket),
            1u8 => Some(NixInstruction::CreateMarketLoanAccount),
            2u8 => Some(NixInstruction::ClaimSeat),
            3u8 => Some(NixInstruction::Deposit),
            4u8 => Some(NixInstruction::GlobalCreate),
            5u8 => Some(NixInstruction::GlobalAddTrader),
            6u8 => Some(NixInstruction::GlobalDeposit),
            7u8 => Some(NixInstruction::PlaceOrder),
            8u8 => Some(NixInstruction::CancelOrder),
            _ => None,
        }
    }

    /// The instruction as bytes: its tag.
    pub fn to_vec(&self) -> (v: Vec<u8>)
        ensures
            v@ == seq![self.spec_tag()],
    {
        let mut v = Vec::new();
        v.push(self.tag());
        assert(v@ =~= seq![self.spec_tag()]);
        v
    }
}

/// Reads the operation from the leading byte of an instruction; its
/// parameters are the bytes behind it. Without a byte the instruction data
/// is invalid; with an unknown tag the account data is.
pub fn decode_instruction(instruction_data: &[u8]) -> (r: Result<NixInstruction, EngineError>)
    ensures
        instruction_data@.len() == 0 ==> r == Err::<NixInstruction, _>(
            EngineError::InvalidInstructionData,
        ),
        instruction_data@.len() > 0 && instruction_data@[0] > 8 ==> r == Err::<
            NixInstruction,
            _,
        >(EngineError::InvalidAccountData),
        instruction_data@.len() > 0 && instruction_data@[0] <= 8 ==> r.is_ok()
            && r.unwrap().spec_tag() == instruction_data@[0],
{
    if instruction_data.len() == 0 {
        return Err(EngineError::InvalidInstructionData);
    }
    match NixInstruction::try_from_tag(instruction_data[0]) {
        Some(i) => Ok(i),
        None => Err(EngineError::InvalidAccountData),
    }
}

/// The number whose little-endian bytes are the `n` bytes of `data` from
/// `at` on.
pub open spec fn le_at(data: Seq<u8>, at: int, n: nat) -> nat
    decreases n,
{
    if n == 0 {
        0
    } else {
        data[at] as nat + 256 * le_at(data, at + 1, (n - 1) as nat)
    }
}

/// A number of `n` bytes is below `256^n`.
pub proof fn lemma_le_at_bound(data: Seq<u8>, at: int, n: nat)
    requires
        0 <= at,
        at + n <= data.len(),
        n <= 8,
    ensures
        n == 2 ==> le_at(data, at, n) <= 0xFFFF,
        n == 4 ==> le_at(data, at, n) <= 0xFFFF_FFFF,
        n == 8 ==> le_at(data, at, n) <= 0xFFFF_FFFF_FFFF_FFFF,
{
    reveal_with_fuel(le_at, 9);
}

/// Reads a number of two little-endian bytes.
pub fn read_u16(data: &[u8], at: usize) -> (r: u16)
    requires
        at + 2 <= data@.len(),
    ensures
        r == le_at(data@, at as int, 2),
{
    reveal_with_fuel(le_at, 3);
    (data[at] as u16) + 256 * (data[at + 1] as u16)
}

/// Reads a number of four little-endian bytes.
pub fn read_u32(data: &[u8], at: usize) -> (r: u32)
    requires
        at + 4 <= data@.len(),
    ensures
        r == le_at(data@, at as int, 4),
{
    reveal_with_fuel(le_at, 5);
    (data[at] as u32) + 256 * ((data[at + 1] as u32) + 256 * ((data[at + 2] as u32) + 256 * (
    data[at + 3] as u32)))
}

/// Reads a number of eight little-endian bytes.
pub fn read_u64(data: &[u8], at: usize) -> (r: u64)
    requires
        at + 8 <= data@.len(),
    ensures
        r == le_at(data@, at as int, 8),
{
    reveal_with_fuel(le_at, 9);
    (data[at] as u64) + 256 * ((data[at + 1] as u64) + 256 * ((data[at + 2] as u64) + 256 * ((
    data[at + 3] as u64) + 256 * ((data[at + 4] as u64) + 256 * ((data[at + 5] as u64) + 256 * ((
    data[at + 6] as u64) + 256 * (data[at + 7] as u64)))))))
}

/// An optional slot index as it comes in bytes: a byte 0 for none, or a byte
/// 1 and four little-endian bytes. Returns the index and where the next
/// field starts; `None` where the bytes are no such field.
pub open spec fn spec_read_hint(data: Seq<u8>, at: int) -> Option<(Option<u32>, int)> {
    if at < 0 || at >= data.len() {
        None
    } else if data[at] == 0 {
        Some((None, at + 1))
    } else if data[at] == 1 && at + 5 <= data.len() {
        Some((Some(le_at(data, at + 1, 4) as u32), at + 5))
    } else {
        None
    }
}

/// Reads an optional slot index.
pub fn read_hint(data: &[u8], at: usize) -> (r: Option<(Option<DataIndex>, usize)>)
    ensures
        match spec_read_hint(data@, at as int) {
            Some((h, next)) => r.is_some() && r.unwrap().0 == h && r.unwrap().1 == next,
            None => r.is_none(),
        },
{
    if at >= data.len() {
        return None;
    }
    if data[at] == 0 {
        Some((None, at + 1))
    } else if data[at] == 1 && data.len() - at >= 5 {
        proof {
            lemma_le_at_bound(data@, at + 1, 4);
        }
        Some((Some(read_u32(data, at + 1)), at + 5))
    } else {
        None
    }
}

/// A flag as it comes in a byte: 0 or 1.
pub open spec fn spec_flag(b: u8) -> Option<bool> {
    if b == 0 {
        Some(false)
    } else if b == 1 {
        Some(true)
    } else {
        None
    }
}

/// Reads a flag from a byte.
pub fn read_flag(b: u8) -> (r: Option<bool>)
    ensures
        r == spec_flag(b),
{
    if b == 0 {
        Some(false)
    } else if b == 1 {
        Some(true)
    } else {
        None
    }
}

/// Parameters of `CreateMarket`.
#[derive(Debug, Copy, Clone, PartialEq, Eq, Structural)]
pub struct CreateMarketParams {
    pub protocol_fee_rate_bps: u64,
    pub marginfi_market_buffer_bps: u64,
}

/// Parameters of `Deposit`.
#[derive(Debug, Copy, Clone, PartialEq, Eq, Structural)]
pub struct DepositParams {
    pub amount: u64,
    pub trader_index_hint: Option<DataIndex>,
}

/// Parameters of `GlobalDeposit`.
#[derive(Debug, Copy, Clone, PartialEq, Eq, Structural)]
pub struct GlobalDepositParams {
    pub amount: u64,
}

/// Parameters of `PlaceOrder`.
#[derive(Debug, Copy, Clone, PartialEq, Eq, Structural)]
pub struct PlaceOrderParams {
    pub trader_index_hint: Option<DataIndex>,
    pub num_base_atoms: u64,
    pub rate_bps: u16,
    pub reverse_spread_bps: u16,
    pub is_bid: bool,
    pub use_a_tree: bool,
    pub last_valid_slot: u32,
    pub order_type: OrderType,
}

/// Parameters of `CancelOrder`.
#[derive(Debug, Copy, Clone, PartialEq, Eq, Structural)]
pub struct CancelOrderParams {
    pub trader_index_hint: Option<DataIndex>,
    pub order_sequence_number: u64,
    pub order_index_hint: Option<DataIndex>,
    pub use_a_tree: bool,
}

impl CreateMarketParams {
    /// The record that the bytes hold: two numbers of eight bytes and
    /// nothing else.
    pub open spec fn spec_parse(data: Seq<u8>) -> Option<CreateMarketParams> {
        if data.len() != 16 {
            None
        } else {
            Some(
                CreateMarketParams {
                    protocol_fee_rate_bps: le_at(data, 0, 8) as u64,
                    marginfi_market_buffer_bps: le_at(data, 8, 8) as u64,
                },
            )
        }
    }

    /// Reads the record from the bytes behind the tag.
    pub fn try_from_slice(data: &[u8]) -> (r: Result<Self, EngineError>)
        ensures
            match Self::spec_parse(data@) {
                Some(p) => r == Ok::<Self, EngineError>(p),
                None => r == Err::<Self, _>(EngineError::InvalidInstructionData),
            },
    {
        if data.len() != 16 {
            return Err(EngineError::InvalidInstructionData);
        }
        proof {
            lemma_le_at_bound(data@, 0, 8);
            lemma_le_at_bound(data@, 8, 8);
        }
        Ok(
            CreateMarketParams {
                protocol_fee_rate_bps: read_u64(data, 0),
                marginfi_market_buffer_bps: read_u64(data, 8),
            },
        )
    }
}

impl DepositParams {
    pub fn new(amount: u64, trader_index_hint: Option<DataIndex>) -> (p: Self)
        ensures
            p == (DepositParams { amount, trader_index_hint }),
    {
        DepositParams { amount, trader_index_hint }
    }

    /// The record that the bytes hold: the amount, the optional hint, and
    /// nothing else.
    pub open spec fn spec_parse(data: Seq<u8>) -> Option<DepositParams> {
        if data.len() < 8 {
            None
        } else {
            match spec_read_hint(data, 8) {
                Some((hint, next)) => if next == data.len() {
                    Some(DepositParams { amount: le_at(data, 0, 8) as u64, trader_index_hint: hint })
                } else {
                    None
                },
                None => None,
            }
        }
    }

    /// Reads the record from the bytes behind the tag.
    pub fn try_from_slice(data: &[u8]) -> (r: Result<Self, EngineError>)
        ensures
            match Self::spec_parse(data@) {
                Some(p) => r == Ok::<Self, EngineError>(p),
                None => r == Err::<Self, _>(EngineError::InvalidInstructionData),
            },
    {
        if data.len() < 8 {
            return Err(EngineError::InvalidInstructionData);
        }
        proof {
            lemma_le_at_bound(data@, 0, 8);
        }
        let amount = read_u64(data, 0);
        match read_hint(data, 8) {
            Some((hint, next)) => {
                if next != data.len() {
                    return Err(EngineError::InvalidInstructionData);
                }
                Ok(DepositParams { amount, trader_index_hint: hint })
            },
            None => Err(EngineError::InvalidInstructionData),
        }
    }
}

impl GlobalDepositParams {
    pub fn new(amount: u64) -> (p: Self)
        ensures
            p == (GlobalDepositParams { amount }),
    {
        GlobalDepositParams { amount }
    }

    /// The record that the bytes hold: the amount and nothing else.
    pub open spec fn spec_parse(data: Seq<u8>) -> Option<GlobalDepositParams> {
        if data.len() != 8 {
            None
        } else {
            Some(GlobalDepositParams { amount: le_at(data, 0, 8) as u64 })
        }
    }

    /// Reads the record from the bytes behind the tag.
    pub fn try_from_slice(data: &[u8]) -> (r: Result<Self, EngineError>)
        ensures
            match Self::spec_parse(data@) {
                Some(p) => r == Ok::<Self, EngineError>(p),
                None => r == Err::<Self, _>(EngineError::InvalidInstructionData),
            },
    {
        if data.len() != 8 {
            return Err(EngineError::InvalidInstructionData);
        }
        proof {
            lemma_le_at_bound(data@, 0, 8);
        }
        Ok(GlobalDepositParams { amount: read_u64(data, 0) })
    }
}

/// The type of order that a byte stands for.
pub open spec fn spec_order_type(b: u8) -> Option<OrderType> {
    if b == 0 {
        Some(OrderType::Limit)
    } else if b == 1 {
        Some(OrderType::ImmediateOrCancel)
    } else if b == 2 {
        Some(OrderType::PostOnly)
    } else if b == 3 {
        Some(OrderType::Global)
    } else if b == 4 {
        Some(OrderType::Reverse)
    } else if b == 5 {
        Some(OrderType::P2P2Pool)
    } else {
        None
    }
}

impl PlaceOrderParams {
    /// The record that the bytes hold, in order: the optional hint of the
    /// trader's slot, the base atoms, the rate, the reverse spread, whether
    /// it is a bid, the tree pair, the last valid slot, the order type; and
    /// nothing else.
    pub open spec fn spec_parse(data: Seq<u8>) -> Option<PlaceOrderParams> {
        match spec_read_hint(data, 0) {
            None => None,
            Some((hint, at)) => if at + 19 != data.len() {
                None
            } else {
                let is_bid = spec_flag(data[at + 12]);
                let use_a_tree = spec_flag(data[at + 13]);
                let order_type = spec_order_type(data[at + 18]);
                if is_bid.is_none() || use_a_tree.is_none() || order_type.is_none() {
                    None
                } else {
                    Some(
                        PlaceOrderParams {
                            trader_index_hint: hint,
                            num_base_atoms: le_at(data, at, 8) as u64,
                            rate_bps: le_at(data, at + 8, 2) as u16,
                            reverse_spread_bps: le_at(data, at + 10, 2) as u16,
                            is_bid: is_bid.unwrap(),
                            use_a_tree: use_a_tree.unwrap(),
                            last_valid_slot: le_at(data, at + 14, 4) as u32,
                            order_type: order_type.unwrap(),
                        },
                    )
                }
            },
        }
    }

    /// Reads the record from the bytes behind the tag.
    pub fn try_from_slice(data: &[u8]) -> (r: Result<Self, EngineError>)
        ensures
            match Self::spec_parse(data@) {
                Some(p) => r == Ok::<Self, EngineError>(p),
                None => r == Err::<Self, _>(EngineError::InvalidInstructionData),
            },
    {
        let bad = Err(EngineError::InvalidInstructionData);
        let (hint, at) = match read_hint(data, 0) {
            Some(h) => h,
            None => { return bad; },
        };
        if data.len() - at != 19 {
            return bad;
        }
        proof {
            lemma_le_at_bound(data@, at as int, 8);
            lemma_le_at_bound(data@, at + 8, 2);
            lemma_le_at_bound(data@, at + 10, 2);
            lemma_le_at_bound(data@, at + 14, 4);
        }
        let is_bid = match read_flag(data[at + 12]) {
            Some(b) => b,
            None => { return bad; },
        };
        let use_a_tree = match read_flag(data[at + 13]) {
            Some(b) => b,
            None => { return bad; },
        };
        let order_type = match OrderType::try_from_u8(data[at + 18]) {
            Some(t) => t,
            None => { return bad; },
        };
        Ok(
            PlaceOrderParams {
                trader_index_hint: hint,
                num_base_atoms: read_u64(data, at),
                rate_bps: read_u16(data, at + 8),
                reverse_spread_bps: read_u16(data, at + 10),
                is_bid,
                use_a_tree,
                last_valid_slot: read_u32(data, at + 14),
                order_type,
            },
        )
    }
}

impl CancelOrderParams {
    /// The record that the bytes hold, in order: the optional hint of the
    /// trader's slot, the sequence number, the optional hint of the order's
    /// slot, the tree pair; and nothing else.
    pub open spec fn spec_parse(data: Seq<u8>) -> Option<CancelOrderParams> {
        match spec_read_hint(data, 0) {
            None => None,
            Some((trader_hint, at)) => if at + 8 > data.len() {
                None
            } else {
                match spec_read_hint(data, at + 8) {
                    None => None,
                    Some((order_hint, last)) => if last + 1 != data.len() || spec_flag(
                        data[last],
                    ).is_none() {
                        None
                    } else {
                        Some(
                            CancelOrderParams {
                                trader_index_hint: trader_hint,
                                order_sequence_number: le_at(data, at, 8) as u64,
                                order_index_hint: order_hint,
                                use_a_tree: spec_flag(data[last]).unwrap(),
                            },
                        )
                    },
                }
            },
        }
    }

    /// Reads the record from the bytes behind the tag.
    pub fn try_from_slice(data: &[u8]) -> (r: Result<Self, EngineError>)
        ensures
            match Self::spec_parse(data@) {
                Some(p) => r == Ok::<Self, EngineError>(p),
                None => r == Err::<Self, _>(EngineError::InvalidInstructionData),
            },
    {
        let bad = Err(EngineError::InvalidInstructionData);
        let (trader_hint, at) = match read_hint(data, 0) {
            Some(h) => h,
            None => { return bad; },
        };
        if data.len() - at < 8 {
            return bad;
        }
        proof {
            lemma_le_at_bound(data@, at as int, 8);
        }
        let order_sequence_number = read_u64(data, at);
        let (order_hint, last) = match read_hint(data, at + 8) {
            Some(h) => h,
            None => { return bad; },
        };
        if data.len() - last != 1 {
            return bad;
        }
        let use_a_tree = match read_flag(data[last]) {
            Some(b) => b,
            None => { return bad; },
        };
        Ok(
            CancelOrderParams {
                trader_index_hint: trader_hint,
                order_sequence_number,
                order_index_hint: order_hint,
                use_a_tree,
            },
        )
    }
}

} // verus!
