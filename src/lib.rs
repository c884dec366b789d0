//! Ledger data model of a sidechain: outpoints, outputs, transactions, block
//! headers, their canonical byte encoding and the header's commitment over a
//! block's coinbase and transactions.

pub mod encoding;
pub mod hashing;
pub mod merkle;
pub mod text;
pub mod types;

pub use encoding::decode_outpoint;
pub use hashing::Hashable;
pub use merkle::{concat_hashes, root_matches};
pub use types::{
    Header, MainBlock, OutPoint, Output, Transaction, WithdrawalBundleEvent,
    WithdrawalBundleEventType,
};
pub use types::{ADDRESS_LENGTH, BLOCK_SIZE_LIMIT, HASH_LENGTH, MAIN_ADDRESS_LENGTH};
