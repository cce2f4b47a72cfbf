use vstd::prelude::*;

verus! {

/// The program's own error codes.
#[derive(Clone, Copy, Debug, PartialEq, Eq)]
pub enum DlmmErrors {
    /// Custom error message
    CustomError,
    /// Invalid bin range
    InvalidBinRange,
    /// Bin range exceeds maximum of 70 bins per position
    RangeExceedMaxBins,
    /// Zero amount
    ZeroAmount,
    /// Invalid token amount for bin range
    InvalidTokenAmount,
    /// Math overflow
    MathOverflow,
    /// Bin array not found
    BinArrayNotFound,
    /// Zero shares
    ZeroShares,
    /// Invalid bin array
    InvalidBinArray,
    /// Out of bounds
    OutOfBounds,
    /// Invalid bin index
    InvalidBinIndex,
    /// The bin array belongs to another pool
    InvalidPool,
    /// The input amount is zero
    InvalidAmount,
    /// No bin with liquidity was reached within the step limit
    OutOfLiquidity,
    /// The output is below the caller's minimum
    SlippageExceeded,
}

/// Why an instruction handler stops without a result.
#[derive(Clone, Copy, Debug, PartialEq, Eq)]
pub enum HandlerError {
    /// The program rejects the request with one of its error codes.
    Program(DlmmErrors),
    /// The account at this index of the remaining accounts is the bin array that
    /// the handler needs, but its data could not be loaded as a bin array.
    AccountNotLoadable(usize),
    /// An unchecked integer operation overflows; the program aborts there.
    IntegerOverflow,
    /// No bump seed gives an address off the curve for the seeds of the bin array
    /// that the handler needs, so its address cannot be derived; the program aborts
    /// there.
    NoProgramAddress,
}

/// Shorthand for a rejection with one of the program's error codes.
pub open spec fn fail<T>(e: DlmmErrors) -> Result<T, HandlerError> {
    Err(HandlerError::Program(e))
}

} // verus!
