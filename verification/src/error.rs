//! The ways in which a purchase can be turned down.

use vstd::prelude::*;

verus! {

/// Why a purchase was turned down.
#[derive(Debug, Clone, Copy, PartialEq, Eq, Structural)]
pub enum PurchaseError {
    /// No product has the identifier asked for.
    ProductNotFound,
    /// Fewer items are left than were asked for.
    InsufficientStock,
    /// No nonce gave the new block a hash that meets the difficulty.
    MiningFailed,
}

/// The sentence that tells a buyer of `error`.
pub open spec fn error_message(error: PurchaseError) -> Seq<char> {
    match error {
        PurchaseError::ProductNotFound => "Product not found"@,
        PurchaseError::InsufficientStock => "Insufficient stock"@,
        PurchaseError::MiningFailed => "Mining failed"@,
    }
}

impl PurchaseError {
    /// The sentence that tells a buyer of this error.
    pub fn message(&self) -> (text: String)
        ensures
            text@ == error_message(*self),
    {
        match self {
            PurchaseError::ProductNotFound => "Product not found".to_owned(),
            PurchaseError::InsufficientStock => "Insufficient stock".to_owned(),
            PurchaseError::MiningFailed => "Mining failed".to_owned(),
        }
    }
}

} // verus!
