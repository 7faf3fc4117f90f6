use vstd::prelude::*;

pub mod account;
pub mod block;
pub mod blockchain;
pub mod coder;
pub mod key;
pub mod miner;
pub mod pow;
pub mod transaction;

verus! {

/// Errors the ledger engine can report to its callers.
///
/// Storage failures are the concern of the surrounding process (the
/// key-value store lives outside this crate) and are fatal there.
#[derive(Debug, PartialEq, Eq, Structural, Clone, Copy)]
pub enum ChainError {
    /// A spend asked for more than the account holds.
    InsufficientFunds,
    /// The bounded nonce search ended without meeting the target.
    MiningExhausted,
    /// Chain traversal hit a missing predecessor block.
    BrokenChain,
}

} // verus!
