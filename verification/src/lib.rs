//! A single-node append-only ledger sealed by proof of work.
//!
//! The crate holds four coupled parts: the block and chain structure with
//! mining and self-adjusting difficulty, the fork-choice rule, the ledger of
//! signed value transfers, and the derivation of a wallet's balance from the
//! transfers recorded so far.
//!
//! - [`hash`], [`block`] and [`chain`] hold the chain: content hashes, blocks,
//!   mining, linkage validation and fork choice. [`work`] counts the leading
//!   zero bits that seal a block; [`decimal`] and [`hexadecimal`] are the two
//!   text forms that hashing needs.
//! - [`output`], [`input`], [`transaction`] and [`pool`] hold the ledger:
//!   transfers that conserve value, their signatures, and the transactions
//!   that wait to be mined.
//! - [`wallet`] holds the keys and derives a balance from the transactions
//!   recorded so far; [`miner`] joins a chain, a pool and a wallet.
//! - [`sha256`], [`ecdsa`] and [`utils`] reach the digest, the signatures and
//!   the clock, which are trusted rather than proved.
//!
//! Amounts are whole numbers of indivisible units. A block's payload is an
//! opaque string: writing transactions into it and reading them back is left
//! to the caller.
pub mod block;
pub mod chain;
pub mod decimal;
pub mod ecdsa;
pub mod hash;
pub mod hexadecimal;
pub mod input;
pub mod miner;
pub mod output;
pub mod pool;
pub mod sha256;
pub mod transaction;
pub mod utils;
pub mod wallet;
pub mod work;
