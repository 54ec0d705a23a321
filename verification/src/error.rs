use vstd::prelude::*;

verus! {

/// The program's error codes.
#[derive(Debug, Clone, Copy, PartialEq, Eq, Structural)]
pub enum StakingError {
    /// The signer does not own the asset.
    InvalidOwner,
    /// The asset or collection has an unexpected update authority.
    InvalidUpdateAuthority,
    /// The asset carries no staking attributes, or they say it is not staked.
    AssetNotStaked,
    /// A timestamp could not be read, or a time or counter computation overflowed.
    InvalidTimestamp,
    /// Less than one whole day has passed since rewards were last settled.
    NoRewardsToClaim,
    /// The reward amount does not fit in a `u64`.
    InvalidRewardsBps,
    /// The asset is still inside the collection's freeze period.
    FreezePeriodNotElapsed,
}

} // verus!
