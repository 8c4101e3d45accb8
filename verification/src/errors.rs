use vstd::prelude::*;

verus! {

/// Why an intent's coin flow was rejected.
#[derive(Clone, Copy, Debug, PartialEq, Eq, Structural)]
pub enum PsbtArgsIssue {
    /// The intent does not carry exactly one input coin and one output coin.
    CoinShape,
    /// The input coin is of the wrong kind for the requested action.
    InputCoinKind,
    /// The output coin is of the wrong kind for the requested action.
    OutputCoinKind,
    /// The output amount does not match the rate-derived expectation.
    AmountMismatch,
}

/// Structural violations found while rolling back or finalizing a pool.
#[derive(Clone, Copy, Debug, PartialEq, Eq, Structural)]
pub enum StateIssue {
    /// No state in the pool was produced by the given transaction.
    TxidNotFound,
}

/// Errors surfaced by the exchange core.
#[derive(Clone, Copy, Debug, PartialEq, Eq, Structural)]
pub enum ExchangeError {
    /// An arithmetic limit was exceeded.
    Overflow,
    /// No pool is registered under the given address.
    InvalidToken,
    /// The amount is below the minimum BTC value.
    TooSmallFunds,
    /// The transaction id is malformed.
    InvalidTxid,
    /// The pool has no states yet.
    EmptyToken,
    /// A rollback or finalize hit a structural violation.
    InvalidState(StateIssue),
    /// The intent's coin flow is malformed.
    InvalidSignPsbtArgs(PsbtArgsIssue),
    /// The supplied nonce is stale; carries the pool's current nonce.
    TokenStateExpired(u64),
    /// The pool's reserve cannot cover the requested sell.
    InsufficientBtc,
}

} // verus!
