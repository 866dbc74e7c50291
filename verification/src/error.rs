//! The ways in which a ledger operation is refused.

use vstd::prelude::*;

verus! {

/// Why the ledger refused an operation. Every refusal is decided before
/// anything is changed.
#[derive(Debug, Clone, Copy, PartialEq, Eq, Structural)]
pub enum LedgerError {
    /// A token with the identifier to be minted exists already.
    DuplicateId,
    /// No token has the identifier that the operation names.
    TokenNotFound,
    /// The buyer is the token's current owner.
    SelfPurchase,
    /// The value attached to a purchase is below the token's price.
    InsufficientPayment,
}

impl LedgerError {
    /// A sentence for the caller that says what went wrong.
    pub fn message(&self) -> (text: &'static str)
        ensures
            text@ == match *self {
                LedgerError::DuplicateId => "Token with ID already exists"@,
                LedgerError::TokenNotFound => "Token not found"@,
                LedgerError::SelfPurchase => "Cannot buy your own NFT"@,
                LedgerError::InsufficientPayment => "Attached deposit is less than the NFT price"@,
            },
    {
        match self {
            LedgerError::DuplicateId => "Token with ID already exists",
            LedgerError::TokenNotFound => "Token not found",
            LedgerError::SelfPurchase => "Cannot buy your own NFT",
            LedgerError::InsufficientPayment => "Attached deposit is less than the NFT price",
        }
    }
}

} // verus!
