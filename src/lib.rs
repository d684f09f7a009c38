//! A token ledger: an administrator mints tokens in batches or authorizes
//! claimers, owners transfer tokens, and authorized parties claim new ones.
pub mod laws;
pub mod ledger;

pub use ledger::{MintError, NFTContract, NFT, PUBLIC_BATCH_SIZE};
