//! A token registry and marketplace ledger.
//!
//! The ledger mints uniquely identified tokens, tracks who owns them in a
//! primary table and an inverted owner index that always mirror each other,
//! sells a token to a buyer for its listed price, and keeps a per-account
//! cart of purchase intents. Every operation is a method on an explicitly
//! constructed ledger value; the caller's identity and the value attached to
//! a call are ordinary parameters, and the payment owed to a seller is
//! returned as a value for the host to carry out.

pub mod cart_store;
pub mod contract;
pub mod error;
pub mod laws;
pub mod model;
pub mod owner_index;
pub mod seq_facts;
pub mod simple_lib;
pub mod snapshot;
pub mod table;
pub mod token;
pub mod token_table;

pub use cart_store::{CartItem, CartItemView};
pub use contract::{Contract, Transfer};
pub use error::LedgerError;
pub use model::{ContractView, Operation, TransferView};
pub use snapshot::Snapshot;
pub use token::{Token, TokenMetadata, TokenMetadataView, TokenView};
