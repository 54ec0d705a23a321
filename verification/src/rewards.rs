//! Elapsed whole days and the reward minted for them.
use vstd::prelude::*;

use vstd::arithmetic::power::pow;

use crate::error::StakingError;

verus! {

pub open spec fn seconds_per_day() -> int {
    86400
}

/// `diff / 86400` as Rust's integer division computes it: rounded toward zero.
pub open spec fn whole_days(diff: int) -> int {
    if diff >= 0 {
        diff / seconds_per_day()
    } else {
        -((-diff) / seconds_per_day())
    }
}

/// `now.checked_sub(since)` followed by `checked_div(86400)`: `None` exactly when
/// the difference overflows an `i64`.
pub open spec fn days_between_spec(now: i64, since: i64) -> Option<i64> {
    let diff = now - since;
    if diff < i64::MIN || diff > i64::MAX {
        None
    } else {
        Some(whole_days(diff) as i64)
    }
}

/// The whole days from `since` to `now`, rounded toward zero.
pub fn days_between(now: i64, since: i64) -> (r: Option<i64>)
    ensures
        r == days_between_spec(now, since),
{
    match now.checked_sub(since) {
        Some(diff) => diff.checked_div(86400),
        None => None,
    }
}

/// The value of `days as u64`: a negative count wraps around.
pub open spec fn as_unsigned(days: i64) -> int {
    if days >= 0 {
        days as int
    } else {
        days + 0x1_0000_0000_0000_0000
    }
}

/// The reward for `days` whole days at `rewards_bps` basis points of one token per
/// day, in base units of a mint with `decimals` decimals:
/// `days * rewards_bps * 10^decimals / 10000`, rounded down, or `InvalidRewardsBps`
/// when a product overflows a `u64`.
pub open spec fn reward_spec(days: i64, rewards_bps: u32, decimals: u8) -> Result<u64, StakingError> {
    let per_day = as_unsigned(days) * rewards_bps;
    let scaled = per_day * pow(10, decimals as nat);
    if per_day > u64::MAX || scaled > u64::MAX {
        Err(StakingError::InvalidRewardsBps)
    } else {
        Ok((scaled / 10000) as u64)
    }
}

/// `10u64.pow(exp)`.
pub fn pow10(exp: u8) -> (r: u64)
    requires
        exp <= 19,
    ensures
        r == pow(10, exp as nat),
{
    proof {
        reveal_with_fuel(pow, 20);
        assert(pow(10, 19) == 10_000_000_000_000_000_000);
    }
    let mut r: u64 = 1;
    let mut i: u8 = 0;
    while i < exp
        invariant
            i <= exp <= 19,
            r == pow(10, i as nat),
            pow(10, 19) == 10_000_000_000_000_000_000,
        decreases exp - i,
    {
        proof {
            vstd::arithmetic::power::lemma_pow_increases(10, (i + 1) as nat, 19);
            reveal(pow);
            assert(pow(10, (i + 1) as nat) == 10 * pow(10, i as nat));
        }
        r = r * 10;
        i = i + 1;
    }
    r
}

/// The reward minted for `staked_days` whole days of staking.
pub fn reward_amount(staked_days: i64, rewards_bps: u32, decimals: u8) -> (r: Result<u64, StakingError>)
    requires
        decimals <= 19,
    ensures
        r == reward_spec(staked_days, rewards_bps, decimals),
{
    let days = staked_days as u64;
    proof {
        assert(staked_days < 0 ==> days as int == staked_days + 0x1_0000_0000_0000_0000)
            by (bit_vector)
            requires
                days == staked_days as u64,
        ;
    }
    let per_day = match days.checked_mul(rewards_bps as u64) {
        Some(v) => v,
        None => return Err(StakingError::InvalidRewardsBps),
    };
    let scaled = match per_day.checked_mul(pow10(decimals)) {
        Some(v) => v,
        None => return Err(StakingError::InvalidRewardsBps),
    };
    match scaled.checked_div(10000) {
        Some(v) => Ok(v),
        None => Err(StakingError::InvalidRewardsBps),
    }
}

} // verus!

verus! {

/// More whole days never earn less: where the reward for `more` days succeeds, the
/// reward for fewer (non-negative) days succeeds too and is no larger.
pub proof fn lemma_reward_grows_with_days(fewer: i64, more: i64, rewards_bps: u32, decimals: u8)
    requires
        0 <= fewer <= more,
        reward_spec(more, rewards_bps, decimals) is Ok,
    ensures
        reward_spec(fewer, rewards_bps, decimals) is Ok,
        reward_spec(fewer, rewards_bps, decimals)->Ok_0 <= reward_spec(more, rewards_bps, decimals)->Ok_0,
{
    let p = pow(10, decimals as nat);
    vstd::arithmetic::power::lemma_pow_positive(10, decimals as nat);
    let a = fewer as int;
    let b = more as int;
    let r = rewards_bps as int;
    assert(a * r <= b * r) by (nonlinear_arith)
        requires
            0 <= a <= b,
            0 <= r,
    ;
    assert(a * r * p <= b * r * p) by (nonlinear_arith)
        requires
            a * r <= b * r,
            0 <= a * r,
            0 < p,
    ;
    assert((a * r * p) / 10000 <= (b * r * p) / 10000) by (nonlinear_arith)
        requires
            0 <= a * r * p <= b * r * p,
    ;
}

} // verus!
