//! Multi-party authorization core for a custodial wallet.
//!
//! Every sensitive configuration change and transfer is proposed, collected
//! into a quorum of approvals, and only then applied. This crate holds the
//! authorization state machine and its backing configuration model: the
//! fixed-capacity slot stores and flag sets, the wallet / balance-account
//! configuration aggregate with its validate-before-apply mutations, the
//! two-phase multisig operation lifecycle, and the fixed-size binary codec
//! for every stored record.

pub mod address_book;
pub mod balance_account;
pub mod bytes32;
pub mod codec;
pub mod error;
pub mod flags;
pub mod instruction;
pub mod multisig_op;
pub mod params;
pub mod signer;
pub mod slots;
pub mod wallet;

pub use error::WalletError;
