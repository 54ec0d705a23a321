use core_staking::error::StakingError;
use core_staking::rewards::{days_between, pow10, reward_amount};

#[test]
fn whole_days_round_toward_zero() {
    assert_eq!(days_between(86_400, 0), Some(1));
    assert_eq!(days_between(86_399, 0), Some(0));
    assert_eq!(days_between(3 * 86_400 + 5, 5), Some(3));
    assert_eq!(days_between(0, 1), Some(0));
    assert_eq!(days_between(0, 86_401), Some(-1));
    assert_eq!(days_between(i64::MIN, 1), None);
    assert_eq!(days_between(i64::MAX, -1), None);
}

#[test]
fn powers_of_ten() {
    assert_eq!(pow10(0), 1);
    assert_eq!(pow10(6), 1_000_000);
    assert_eq!(pow10(19), 10_000_000_000_000_000_000);
}

#[test]
fn reward_is_days_times_bps_scaled_by_decimals() {
    assert_eq!(reward_amount(3, 100, 6), Ok(30_000));
    assert_eq!(reward_amount(1, 10_000, 9), Ok(1_000_000_000));
    assert_eq!(reward_amount(1, 1, 0), Ok(0));
    assert_eq!(reward_amount(7, 15, 2), Ok(1));
    assert_eq!(reward_amount(0, 500, 6), Ok(0));
}

#[test]
fn reward_overflow_is_refused() {
    assert_eq!(reward_amount(i64::MAX, 3, 0), Err(StakingError::InvalidRewardsBps));
    assert_eq!(reward_amount(1_000_000, 1_000_000, 19), Err(StakingError::InvalidRewardsBps));
    // A negative day count wraps around as `as u64` does.
    assert_eq!(reward_amount(-1, 2, 0), Err(StakingError::InvalidRewardsBps));
    assert_eq!(reward_amount(-1, 1, 0), Ok(u64::MAX / 10_000));
    assert_eq!(reward_amount(-1, 0, 6), Ok(0));
}

#[test]
fn more_days_never_earn_less() {
    let mut last = 0;
    for days in 0..50 {
        let amount = reward_amount(days, 333, 3).unwrap();
        assert!(amount >= last);
        last = amount;
    }
    assert_eq!(last, 49 * 333 * 1_000 / 10_000);
}
