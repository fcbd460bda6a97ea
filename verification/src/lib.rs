//! A minimal fungible-token ledger module.
//!
//! The ledger holds mint records (one per token type) and token-account
//! records (one per holder and mint). Four operations transition the
//! ledger: creating a mint, minting new supply, burning supply, and
//! transferring balance between accounts. Every operation is verified to
//! preserve the ledger's global invariant: each mint's total supply equals
//! the sum of the balances of the accounts that reference it.

pub mod state;
pub mod ops;
pub mod laws;
