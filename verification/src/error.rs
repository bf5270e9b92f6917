//! Failures of the engine and their stable numeric codes.

use vstd::prelude::*;

verus! {

/// A failure specific to this order book. `code` gives its stable number.
#[derive(Debug, Clone, Copy, PartialEq, Eq, Structural)]
pub enum NixError {
    InvalidMarketParameters,
    InvalidDepositAccounts,
    InvalidWithdrawAccounts,
    InvalidCancel,
    InvalidFreeList,
    AlreadyClaimedSeat,
    PostOnlyCrosses,
    AlreadyExpired,
    InsufficientOut,
    InvalidPlaceOrderFromWalletParams,
    WrongIndexHintParams,
    PriceNotPositive,
    OrderWouldOverflow,
    OrderTooSmall,
    NumericalOverflow,
    MissingGlobal,
    GlobalInsufficient,
    IncorrectAccount,
    InvalidMint,
    TooManyGlobalSeats,
    InvalidGlobalBidOrder,
    InvalidEvict,
    InvalidClean,
    InvalidMarginfiAccount,
    OracleNotSetup,
    IncorrectOracleAccount,
    MarginfiAccountInitializationFailed,
    InvalidOracleAccount,
    PriceOracleMathError,
    StaleOracle,
    InvalidPrice,
    InvalidSwitchboardDecimalConversion,
    PythPushWrongAccountOwner,
    InvalidFeeReceiver,
    InvalidVault,
    InvalidMarginfiGroup,
    InvalidMarginfiBank,
    InvalidMarginfiLiquidityVault,
    MarginfiCpiFailed,
    InvalidMarginfiState,
    MaxActiveLoansExceeded,
    InvalidActiveLoan,
    InvalidAskReverseOrder,
    InvalidAdminKey,
    InvalidGlobalMint,
}

impl NixError {
    /// The stable number of this failure.
    pub open spec fn spec_code(self) -> u32 {
        match self {
            NixError::InvalidMarketParameters => 0u32,
            NixError::InvalidDepositAccounts => 1u32,
            NixError::InvalidWithdrawAccounts => 2u32,
            NixError::InvalidCancel => 3u32,
            NixError::InvalidFreeList => 4u32,
            NixError::AlreadyClaimedSeat => 5u32,
            NixError::PostOnlyCrosses => 6u32,
            NixError::AlreadyExpired => 7u32,
            NixError::InsufficientOut => 8u32,
            NixError::InvalidPlaceOrderFromWalletParams => 9u32,
            NixError::WrongIndexHintParams => 10u32,
            NixError::PriceNotPositive => 11u32,
            NixError::OrderWouldOverflow => 12u32,
            NixError::OrderTooSmall => 13u32,
            NixError::NumericalOverflow => 14u32,
            NixError::MissingGlobal => 15u32,
            NixError::GlobalInsufficient => 16u32,
            NixError::IncorrectAccount => 17u32,
            NixError::InvalidMint => 18u32,
            NixError::TooManyGlobalSeats => 19u32,
            NixError::InvalidGlobalBidOrder => 20u32,
            NixError::InvalidEvict => 21u32,
            NixError::InvalidClean => 22u32,
            NixError::InvalidMarginfiAccount => 23u32,
            NixError::OracleNotSetup => 24u32,
            NixError::IncorrectOracleAccount => 25u32,
            NixError::MarginfiAccountInitializationFailed => 26u32,
            NixError::InvalidOracleAccount => 27u32,
            NixError::PriceOracleMathError => 28u32,
            NixError::StaleOracle => 29u32,
            NixError::InvalidPrice => 30u32,
            NixError::InvalidSwitchboardDecimalConversion => 31u32,
            NixError::PythPushWrongAccountOwner => 32u32,
            NixError::InvalidFeeReceiver => 33u32,
            NixError::InvalidVault => 34u32,
            NixError::InvalidMarginfiGroup => 35u32,
            NixError::InvalidMarginfiBank => 36u32,
            NixError::InvalidMarginfiLiquidityVault => 37u32,
            NixError::MarginfiCpiFailed => 38u32,
            NixError::InvalidMarginfiState => 39u32,
            NixError::MaxActiveLoansExceeded => 40u32,
            NixError::InvalidActiveLoan => 41u32,
            NixError::InvalidAskReverseOrder => 42u32,
            NixError::InvalidAdminKey => 43u32,
            NixError::InvalidGlobalMint => 44u32,
        }
    }

    /// The stable number of this failure, as callers outside see it.
    pub fn code(self) -> (c: u32)
        ensures
            c == self.spec_code(),
            c <= 44,
    {
        match self {
            NixError::InvalidMarketParameters => 0u32,
            NixError::InvalidDepositAccounts => 1u32,
            NixError::InvalidWithdrawAccounts => 2u32,
            NixError::InvalidCancel => 3u32,
            NixError::InvalidFreeList => 4u32,
            NixError::AlreadyClaimedSeat => 5u32,
            NixError::PostOnlyCrosses => 6u32,
            NixError::AlreadyExpired => 7u32,
            NixError::InsufficientOut => 8u32,
            NixError::InvalidPlaceOrderFromWalletParams => 9u32,
            NixError::WrongIndexHintParams => 10u32,
            NixError::PriceNotPositive => 11u32,
            NixError::OrderWouldOverflow => 12u32,
            NixError::OrderTooSmall => 13u32,
            NixError::NumericalOverflow => 14u32,
            NixError::MissingGlobal => 15u32,
            NixError::GlobalInsufficient => 16u32,
            NixError::IncorrectAccount => 17u32,
            NixError::InvalidMint => 18u32,
            NixError::TooManyGlobalSeats => 19u32,
            NixError::InvalidGlobalBidOrder => 20u32,
            NixError::InvalidEvict => 21u32,
            NixError::InvalidClean => 22u32,
            NixError::InvalidMarginfiAccount => 23u32,
            NixError::OracleNotSetup => 24u32,
            NixError::IncorrectOracleAccount => 25u32,
            NixError::MarginfiAccountInitializationFailed => 26u32,
            NixError::InvalidOracleAccount => 27u32,
            NixError::PriceOracleMathError => 28u32,
            NixError::StaleOracle => 29u32,
            NixError::InvalidPrice => 30u32,
            NixError::InvalidSwitchboardDecimalConversion => 31u32,
            NixError::PythPushWrongAccountOwner => 32u32,
            NixError::InvalidFeeReceiver => 33u32,
            NixError::InvalidVault => 34u32,
            NixError::InvalidMarginfiGroup => 35u32,
            NixError::InvalidMarginfiBank => 36u32,
            NixError::InvalidMarginfiLiquidityVault => 37u32,
            NixError::MarginfiCpiFailed => 38u32,
            NixError::InvalidMarginfiState => 39u32,
            NixError::MaxActiveLoansExceeded => 40u32,
            NixError::InvalidActiveLoan => 41u32,
            NixError::InvalidAskReverseOrder => 42u32,
            NixError::InvalidAdminKey => 43u32,
            NixError::InvalidGlobalMint => 44u32,
        }
    }

    /// The failure with the given number, if there is one.
    pub fn from_code(c: u32) -> (e: Option<NixError>)
        ensures
            c <= 44 <==> e.is_some(),
            e.is_some() ==> e.unwrap().spec_code() == c,
    {
        match c {
            0u32 => Some(NixError::InvalidMarketParameters),
            1u32 => Some(NixError::InvalidDepositAccounts),
            2u32 => Some(NixError::InvalidWithdrawAccounts),
            3u32 => Some(NixError::InvalidCancel),
            4u32 => Some(NixError::InvalidFreeList),
            5u32 => Some(NixError::AlreadyClaimedSeat),
            6u32 => Some(NixError::PostOnlyCrosses),
            7u32 => Some(NixError::AlreadyExpired),
            8u32 => Some(NixError::InsufficientOut),
            9u32 => Some(NixError::InvalidPlaceOrderFromWalletParams),
            10u32 => Some(NixError::WrongIndexHintParams),
            11u32 => Some(NixError::PriceNotPositive),
            12u32 => Some(NixError::OrderWouldOverflow),
            13u32 => Some(NixError::OrderTooSmall),
            14u32 => Some(NixError::NumericalOverflow),
            15u32 => Some(NixError::MissingGlobal),
            16u32 => Some(NixError::GlobalInsufficient),
            17u32 => Some(NixError::IncorrectAccount),
            18u32 => Some(NixError::InvalidMint),
            19u32 => Some(NixError::TooManyGlobalSeats),
            20u32 => Some(NixError::InvalidGlobalBidOrder),
            21u32 => Some(NixError::InvalidEvict),
            22u32 => Some(NixError::InvalidClean),
            23u32 => Some(NixError::InvalidMarginfiAccount),
            24u32 => Some(NixError::OracleNotSetup),
            25u32 => Some(NixError::IncorrectOracleAccount),
            26u32 => Some(NixError::MarginfiAccountInitializationFailed),
            27u32 => Some(NixError::InvalidOracleAccount),
            28u32 => Some(NixError::PriceOracleMathError),
            29u32 => Some(NixError::StaleOracle),
            30u32 => Some(NixError::InvalidPrice),
            31u32 => Some(NixError::InvalidSwitchboardDecimalConversion),
            32u32 => Some(NixError::PythPushWrongAccountOwner),
            33u32 => Some(NixError::InvalidFeeReceiver),
            34u32 => Some(NixError::InvalidVault),
            35u32 => Some(NixError::InvalidMarginfiGroup),
            36u32 => Some(NixError::InvalidMarginfiBank),
            37u32 => Some(NixError::InvalidMarginfiLiquidityVault),
            38u32 => Some(NixError::MarginfiCpiFailed),
            39u32 => Some(NixError::InvalidMarginfiState),
            40u32 => Some(NixError::MaxActiveLoansExceeded),
            41u32 => Some(NixError::InvalidActiveLoan),
            42u32 => Some(NixError::InvalidAskReverseOrder),
            43u32 => Some(NixError::InvalidAdminKey),
            44u32 => Some(NixError::InvalidGlobalMint),
            _ => None,
        }
    }

    /// A sentence that describes this failure.
    pub fn message(self) -> (s: &'static str)
        ensures
            s@ == self.spec_message(),
    {
        match self {
            NixError::InvalidMarketParameters => "Invalid market parameters error",
            NixError::InvalidDepositAccounts => "Invalid deposit accounts error",
            NixError::InvalidWithdrawAccounts => "Invalid withdraw accounts error",
            NixError::InvalidCancel => "Invalid cancel error",
            NixError::InvalidFreeList => "Internal free list corruption error",
            NixError::AlreadyClaimedSeat => "Cannot claim a second seat for the same trader",
            NixError::PostOnlyCrosses => "Matched on a post only order",
            NixError::AlreadyExpired => "New order is already expired",
            NixError::InsufficientOut => "Less than minimum out amount",
            NixError::InvalidPlaceOrderFromWalletParams => "Invalid place order from wallet params",
            NixError::WrongIndexHintParams => "Index hint did not match actual index",
            NixError::PriceNotPositive => "Price is not positive",
            NixError::OrderWouldOverflow => "Order settlement would overflow",
            NixError::OrderTooSmall => "Order is too small to settle any value",
            NixError::NumericalOverflow => "Numerical overflow in token calculation",
            NixError::MissingGlobal => "Missing Global account",
            NixError::GlobalInsufficient => "Insufficient funds on global account to rest an order",
            NixError::IncorrectAccount => "Account key did not match expected",
            NixError::InvalidMint => "Mint not allowed for market",
            NixError::TooManyGlobalSeats => "Cannot claim a new global seat, use evict",
            NixError::InvalidGlobalBidOrder => "Global order cannot be bid",
            NixError::InvalidEvict => "Can only evict the lowest depositor",
            NixError::InvalidClean => "Tried to clean order that was not eligible to be cleaned",
            NixError::InvalidMarginfiAccount => "Invalid Marginfi Account",
            NixError::OracleNotSetup => "Marginfi bank does not have an oracle configured",
            NixError::IncorrectOracleAccount => "Incorrect oracle account",
            NixError::MarginfiAccountInitializationFailed => "Marginfi account initialization failed",
            NixError::InvalidOracleAccount => "Invalid oracle Account",
            NixError::PriceOracleMathError => "Pricing math error",
            NixError::StaleOracle => "Oracle price is stale",
            NixError::InvalidPrice => "Invalid Price",
            NixError::InvalidSwitchboardDecimalConversion => "Invalid switchboard decimal conversion",
            NixError::PythPushWrongAccountOwner => "PushPush Oracle: wrong account owner",
            NixError::InvalidFeeReceiver => "Invalid Fee Receiver PDA",
            NixError::InvalidVault => "Invalid Vault PDA",
            NixError::InvalidMarginfiGroup => "Invalid Marginfi Group",
            NixError::InvalidMarginfiBank => "Invalid Marginfi Bank",
            NixError::InvalidMarginfiLiquidityVault => "Invalid Marginfi Vault",
            NixError::MarginfiCpiFailed => "Marginfi CPI failed",
            NixError::InvalidMarginfiState => "Invalid Marginfi state",
            NixError::MaxActiveLoansExceeded => "Maximum number of active loans exceeded",
            NixError::InvalidActiveLoan => "Invalid Active Loan",
            NixError::InvalidAskReverseOrder => "Invalid ReverseOrder ",
            NixError::InvalidAdminKey => "Invalid Admin Key",
            NixError::InvalidGlobalMint => "Invalid Global Mint",
        }
    }

    /// The sentence that describes this failure.
    pub open spec fn spec_message(self) -> Seq<char> {
        match self {
            NixError::InvalidMarketParameters => "Invalid market parameters error"@,
            NixError::InvalidDepositAccounts => "Invalid deposit accounts error"@,
            NixError::InvalidWithdrawAccounts => "Invalid withdraw accounts error"@,
            NixError::InvalidCancel => "Invalid cancel error"@,
            NixError::InvalidFreeList => "Internal free list corruption error"@,
            NixError::AlreadyClaimedSeat => "Cannot claim a second seat for the same trader"@,
            NixError::PostOnlyCrosses => "Matched on a post only order"@,
            NixError::AlreadyExpired => "New order is already expired"@,
            NixError::InsufficientOut => "Less than minimum out amount"@,
            NixError::InvalidPlaceOrderFromWalletParams => "Invalid place order from wallet params"@,
            NixError::WrongIndexHintParams => "Index hint did not match actual index"@,
            NixError::PriceNotPositive => "Price is not positive"@,
            NixError::OrderWouldOverflow => "Order settlement would overflow"@,
            NixError::OrderTooSmall => "Order is too small to settle any value"@,
            NixError::NumericalOverflow => "Numerical overflow in token calculation"@,
            NixError::MissingGlobal => "Missing Global account"@,
            NixError::GlobalInsufficient => "Insufficient funds on global account to rest an order"@,
            NixError::IncorrectAccount => "Account key did not match expected"@,
            NixError::InvalidMint => "Mint not allowed for market"@,
            NixError::TooManyGlobalSeats => "Cannot claim a new global seat, use evict"@,
            NixError::InvalidGlobalBidOrder => "Global order cannot be bid"@,
            NixError::InvalidEvict => "Can only evict the lowest depositor"@,
            NixError::InvalidClean => "Tried to clean order that was not eligible to be cleaned"@,
            NixError::InvalidMarginfiAccount => "Invalid Marginfi Account"@,
            NixError::OracleNotSetup => "Marginfi bank does not have an oracle configured"@,
            NixError::IncorrectOracleAccount => "Incorrect oracle account"@,
            NixError::MarginfiAccountInitializationFailed => "Marginfi account initialization failed"@,
            NixError::InvalidOracleAccount => "Invalid oracle Account"@,
            NixError::PriceOracleMathError => "Pricing math error"@,
            NixError::StaleOracle => "Oracle price is stale"@,
            NixError::InvalidPrice => "Invalid Price"@,
            NixError::InvalidSwitchboardDecimalConversion => "Invalid switchboard decimal conversion"@,
            NixError::PythPushWrongAccountOwner => "PushPush Oracle: wrong account owner"@,
            NixError::InvalidFeeReceiver => "Invalid Fee Receiver PDA"@,
            NixError::InvalidVault => "Invalid Vault PDA"@,
            NixError::InvalidMarginfiGroup => "Invalid Marginfi Group"@,
            NixError::InvalidMarginfiBank => "Invalid Marginfi Bank"@,
            NixError::InvalidMarginfiLiquidityVault => "Invalid Marginfi Vault"@,
            NixError::MarginfiCpiFailed => "Marginfi CPI failed"@,
            NixError::InvalidMarginfiState => "Invalid Marginfi state"@,
            NixError::MaxActiveLoansExceeded => "Maximum number of active loans exceeded"@,
            NixError::InvalidActiveLoan => "Invalid Active Loan"@,
            NixError::InvalidAskReverseOrder => "Invalid ReverseOrder "@,
            NixError::InvalidAdminKey => "Invalid Admin Key"@,
            NixError::InvalidGlobalMint => "Invalid Global Mint"@,
        }
    }
}

/// What an operation of the engine fails with.
#[derive(Debug, Clone, Copy, PartialEq, Eq, Structural)]
pub enum EngineError {
    /// A failure of this order book.
    Nix(NixError),
    /// A seat holds fewer shares than an operation takes from it.
    InsufficientFunds,
    /// An order was handed to an operation meant for the other side.
    InvalidArgument,
    /// Instruction bytes that do not decode.
    InvalidInstructionData,
    /// An account that does not hold what it should.
    InvalidAccountData,
}

impl EngineError {
    /// The number under which a failure of this order book is reported, if
    /// this is one.
    pub fn custom_code(self) -> (c: Option<u32>)
        ensures
            c == match self {
                EngineError::Nix(e) => Some(e.spec_code()),
                _ => None::<u32>,
            },
    {
        match self {
            EngineError::Nix(e) => Some(e.code()),
            _ => None,
        }
    }
}

/// Two different failures never share a number.
pub proof fn lemma_codes_are_distinct(a: NixError, b: NixError)
    ensures
        a.spec_code() == b.spec_code() ==> a == b,
{
}

} // verus!
