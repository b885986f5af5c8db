//! What a request to the router is refused with.

use vstd::prelude::*;

verus! {

/// Another contract was to be called and gave back no usable value: the address to call is not a
/// contract's, the call failed, or the value that came back is not of the type that the interface
/// promises.
#[derive(Clone, Copy, Debug, PartialEq, Eq, Structural)]
pub struct CallFailed;

/// Why the router refuses a request.
///
/// A refused request leaves nothing behind once the contract that hosts the router aborts its
/// invocation with the error.
#[derive(Clone, Copy, Debug, PartialEq, Eq, Structural)]
pub enum RouterError {
    /// The router already knows its factory.
    AlreadyInitialized,
    /// The router does not know its factory yet.
    NotInitialized,
    /// What is stored as the factory is not an address.
    FactoryUnreadable,
    /// The path names fewer than two tokens.
    PathTooShort,
    /// The amount to trade is zero or negative.
    AmountNotPositive,
    /// The entry of the path at `index` is not an address.
    TokenUnreadable { index: u32 },
    /// The factory could not be asked for the pool of hop `hop`.
    LookupFailed { hop: u32 },
    /// The factory knows no pool for hop `hop`.
    NoPool { hop: u32 },
    /// The pool of hop `hop` did not carry out the swap.
    SwapFailed { hop: u32 },
    /// The pool of hop `hop` did not quote an amount.
    QuoteFailed { hop: u32 },
}

impl RouterError {
    /// The sentence that goes with the error, without the hop or the index it carries.
    pub open spec fn text(self) -> Seq<char> {
        match self {
            RouterError::AlreadyInitialized => "already initialized"@,
            RouterError::NotInitialized => "not initialized"@,
            RouterError::FactoryUnreadable => "stored factory is not an address"@,
            RouterError::PathTooShort => "path must have at least 2 tokens"@,
            RouterError::AmountNotPositive => "amount_in must be positive"@,
            RouterError::TokenUnreadable { .. } => "path entry is not an address"@,
            RouterError::LookupFailed { .. } => "factory lookup failed"@,
            RouterError::NoPool { .. } => "no pool for hop"@,
            RouterError::SwapFailed { .. } => "pool swap failed"@,
            RouterError::QuoteFailed { .. } => "pool quote failed"@,
        }
    }

    /// Returns the sentence that goes with the error.
    pub fn message(&self) -> (message: &'static str)
        ensures
            message@ == self.text(),
    {
        match self {
            RouterError::AlreadyInitialized => "already initialized",
            RouterError::NotInitialized => "not initialized",
            RouterError::FactoryUnreadable => "stored factory is not an address",
            RouterError::PathTooShort => "path must have at least 2 tokens",
            RouterError::AmountNotPositive => "amount_in must be positive",
            RouterError::TokenUnreadable { .. } => "path entry is not an address",
            RouterError::LookupFailed { .. } => "factory lookup failed",
            RouterError::NoPool { .. } => "no pool for hop",
            RouterError::SwapFailed { .. } => "pool swap failed",
            RouterError::QuoteFailed { .. } => "pool quote failed",
        }
    }
}

} // verus!
