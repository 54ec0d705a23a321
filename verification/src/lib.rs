//! Verified core of an NFT staking program built on Metaplex Core assets.
//!
//! Staking state lives in the asset's `Attributes` plugin as string
//! key/value pairs (`staked`, `staked_at`, `rewards_updated_at`).  This
//! crate decodes that plugin from raw account bytes, decides what a claim
//! or an unstake does to the attribute list, and computes the reward that
//! is minted for the elapsed whole days.
pub mod error;
pub mod decimal;
pub mod attributes;
pub mod asset;
pub mod rewards;
pub mod claim;
pub mod unstake;
pub mod lifecycle;
