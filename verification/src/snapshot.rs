//! A ledger as plain values, for a host that stores it between calls.

use crate::cart_store::CartItem;
use crate::model::ContractView;
use crate::table::map_of;
use crate::token::Token;
use vstd::prelude::*;

verus! {

/// Everything that a ledger holds. The accounts of the owner index and
/// their entries stand position by position in two vectors, and so do the
/// accounts that have a cart and their carts.
#[derive(Debug, PartialEq, Eq)]
pub struct Snapshot {
    pub owner_id: String,
    pub tokens: Vec<Token>,
    pub owner_accounts: Vec<String>,
    pub owner_entries: Vec<Vec<String>>,
    pub cart_accounts: Vec<String>,
    pub cart_entries: Vec<Vec<CartItem>>,
}

impl Snapshot {
    /// The state that the snapshot describes.
    pub open spec fn ledger(&self) -> ContractView {
        ContractView {
            owner_id: self.owner_id@,
            tokens: self.tokens.deep_view(),
            owners: map_of(self.owner_accounts.deep_view(), self.owner_entries.deep_view()),
            carts: map_of(self.cart_accounts.deep_view(), self.cart_entries.deep_view()),
        }
    }

    /// The snapshot describes a well-formed ledger: each account has one
    /// entry and one cart at most, and the state is well-formed.
    pub open spec fn valid(&self) -> bool {
        &&& self.owner_accounts.len() == self.owner_entries.len()
        &&& self.owner_accounts.deep_view().no_duplicates()
        &&& self.cart_accounts.len() == self.cart_entries.len()
        &&& self.cart_accounts.deep_view().no_duplicates()
        &&& self.ledger().wf()
    }
}

} // verus!
