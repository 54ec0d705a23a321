use core_staking::attributes::{staked_attributes, AttributeEntry};
use core_staking::claim;
use core_staking::error::StakingError;
use core_staking::rewards::reward_amount;
use core_staking::unstake;

const DAY: i64 = 86_400;
const T0: i64 = 1_700_000_000;

fn entries(pairs: &[(&str, &str)]) -> Vec<AttributeEntry> {
    pairs.iter().map(|(k, v)| AttributeEntry { key: k.to_string(), value: v.to_string() }).collect()
}

fn pairs(list: &[AttributeEntry]) -> Vec<(String, String)> {
    list.iter().map(|e| (e.key.clone(), e.value.clone())).collect()
}

fn owned(p: &[(&str, &str)]) -> Vec<(String, String)> {
    p.iter().map(|(k, v)| (k.to_string(), v.to_string())).collect()
}

fn err_claim(r: Result<claim::ClaimPlan, StakingError>) -> StakingError {
    match r {
        Ok(_) => panic!("claim unexpectedly succeeded"),
        Err(e) => e,
    }
}

fn err_unstake(r: Result<unstake::UnstakePlan, StakingError>) -> StakingError {
    match r {
        Ok(_) => panic!("unstake unexpectedly succeeded"),
        Err(e) => e,
    }
}

#[test]
fn claim_pays_whole_days_since_staking() {
    let attrs = entries(&[("staked", "true"), ("staked_at", &T0.to_string()), ("level", "3")]);
    let now = T0 + 3 * DAY + 100;
    let plan = claim::handler(attrs, now).ok().unwrap();
    assert_eq!(plan.staked_days, 3);
    assert_eq!(
        pairs(&plan.attributes),
        owned(&[
            ("staked", "true"),
            ("staked_at", &T0.to_string()),
            ("level", "3"),
            ("rewards_updated_at", &now.to_string()),
        ])
    );
    assert_eq!(reward_amount(plan.staked_days, 250, 6), Ok(75_000));
}

#[test]
fn claim_counts_from_last_settlement() {
    let settled = T0 + 10 * DAY;
    let attrs = entries(&[
        ("staked", "true"),
        ("rewards_updated_at", &settled.to_string()),
        ("staked_at", &T0.to_string()),
    ]);
    let now = settled + 2 * DAY;
    let plan = claim::handler(attrs, now).ok().unwrap();
    assert_eq!(plan.staked_days, 2);
    assert_eq!(
        pairs(&plan.attributes),
        owned(&[
            ("staked", "true"),
            ("rewards_updated_at", &now.to_string()),
            ("staked_at", &T0.to_string()),
        ])
    );
}

#[test]
fn claim_refusals() {
    assert_eq!(staked_attributes(None).err(), Some(StakingError::AssetNotStaked));
    let not_staked = entries(&[("staked", "false"), ("staked_at", "0")]);
    assert_eq!(err_claim(claim::handler(not_staked, T0)), StakingError::AssetNotStaked);
    let no_flag = entries(&[("staked_at", "0")]);
    assert_eq!(err_claim(claim::handler(no_flag, T0)), StakingError::AssetNotStaked);
    let bad_time = entries(&[("staked", "true"), ("staked_at", "yesterday")]);
    assert_eq!(err_claim(claim::handler(bad_time, T0)), StakingError::InvalidTimestamp);
    let no_time = entries(&[("staked", "true")]);
    assert_eq!(err_claim(claim::handler(no_time, T0)), StakingError::InvalidTimestamp);
    let fresh = entries(&[("staked", "true"), ("staked_at", &T0.to_string())]);
    assert_eq!(err_claim(claim::handler(fresh, T0 + DAY - 1)), StakingError::NoRewardsToClaim);
    let overflow = entries(&[("staked", "true"), ("staked_at", &i64::MIN.to_string())]);
    assert_eq!(err_claim(claim::handler(overflow, T0)), StakingError::InvalidTimestamp);
}

#[test]
fn claim_reports_the_first_bad_entry() {
    let attrs = entries(&[("staked_at", "x"), ("staked", "no")]);
    assert_eq!(err_claim(claim::handler(attrs, T0)), StakingError::InvalidTimestamp);
    let attrs = entries(&[("staked", "no"), ("staked_at", "x")]);
    assert_eq!(err_claim(claim::handler(attrs, T0)), StakingError::AssetNotStaked);
}

#[test]
fn second_claim_counts_from_the_first() {
    let attrs = entries(&[("staked", "true"), ("staked_at", &T0.to_string())]);
    let first = T0 + 5 * DAY;
    let plan = claim::handler(attrs, first).ok().unwrap();
    let again = claim::handler(plan.attributes, first);
    assert_eq!(err_claim(again), StakingError::NoRewardsToClaim);

    let attrs = entries(&[("staked", "true"), ("staked_at", &T0.to_string())]);
    let plan = claim::handler(attrs, first).ok().unwrap();
    let later = claim::handler(plan.attributes, first + 2 * DAY + 7).ok().unwrap();
    assert_eq!(later.staked_days, 2);
}

#[test]
fn unstake_clears_staking_attributes() {
    let attrs = entries(&[
        ("level", "3"),
        ("staked", "true"),
        ("staked_at", &T0.to_string()),
        ("rewards_updated_at", &(T0 + DAY).to_string()),
        ("color", "red"),
    ]);
    let plan = unstake::handler(attrs, T0 + 8 * DAY, 7).ok().unwrap();
    assert_eq!(plan.staked_days, 7);
    assert_eq!(
        pairs(&plan.attributes),
        owned(&[
            ("level", "3"),
            ("color", "red"),
            ("staked", "false"),
            ("staked_at", "0"),
            ("rewards_updated_at", "0"),
        ])
    );
}

#[test]
fn unstake_refusals() {
    assert_eq!(
        staked_attributes(Some(entries(&[("staked", "true")]))).ok(),
        Some(entries(&[("staked", "true")]))
    );
    let frozen = entries(&[("staked", "true"), ("staked_at", &T0.to_string())]);
    assert_eq!(
        err_unstake(unstake::handler(frozen, T0 + 6 * DAY, 7)),
        StakingError::FreezePeriodNotElapsed
    );
    let not_staked = entries(&[("staked", "false")]);
    assert_eq!(err_unstake(unstake::handler(not_staked, T0, 0)), StakingError::AssetNotStaked);
    let bad = entries(&[("rewards_updated_at", "soon")]);
    assert_eq!(err_unstake(unstake::handler(bad, T0, 0)), StakingError::InvalidTimestamp);
    let no_time = entries(&[("staked", "true")]);
    assert_eq!(err_unstake(unstake::handler(no_time, T0, 0)), StakingError::InvalidTimestamp);
}

#[test]
fn unstake_without_staked_flag_is_allowed() {
    let attrs = entries(&[("staked_at", &T0.to_string())]);
    let plan = unstake::handler(attrs, T0 + 2 * DAY, 1).ok().unwrap();
    assert_eq!(plan.staked_days, 2);
}

#[test]
fn unstake_before_last_settlement_gives_negative_days() {
    let attrs = entries(&[
        ("staked", "true"),
        ("staked_at", &(T0 - 10 * DAY).to_string()),
        ("rewards_updated_at", &(T0 + 2 * DAY).to_string()),
    ]);
    let plan = unstake::handler(attrs, T0, 7).ok().unwrap();
    assert_eq!(plan.staked_days, -2);
    let frozen = entries(&[("staked", "true"), ("staked_at", &T0.to_string())]);
    assert_eq!(
        err_unstake(unstake::handler(frozen, T0 - 2 * DAY, 0)),
        StakingError::FreezePeriodNotElapsed
    );
}

#[test]
fn unstaked_asset_cannot_claim_or_unstake_again() {
    let attrs = entries(&[("staked", "true"), ("staked_at", &T0.to_string()), ("x", "y")]);
    let plan = unstake::handler(attrs, T0 + 30 * DAY, 7).ok().unwrap();
    let claim_again = claim::handler(entries_of(&plan.attributes), T0 + 60 * DAY);
    assert_eq!(err_claim(claim_again), StakingError::AssetNotStaked);
    let unstake_again = unstake::handler(plan.attributes, T0 + 60 * DAY, 0);
    assert_eq!(err_unstake(unstake_again), StakingError::AssetNotStaked);
}

fn entries_of(list: &[AttributeEntry]) -> Vec<AttributeEntry> {
    list.iter().map(|e| AttributeEntry { key: e.key.clone(), value: e.value.clone() }).collect()
}

#[test]
fn staked_count_bookkeeping() {
    assert_eq!(unstake::decrement_staked_count(5), Ok(4));
    assert_eq!(unstake::decrement_staked_count(0), Err(StakingError::InvalidTimestamp));
    let attrs = unstake::staked_count_attributes(12);
    assert_eq!(pairs(&attrs), owned(&[("staked_count", "12")]));
}

#[test]
fn unstake_after_claim_pays_from_the_claim() {
    let attrs = entries(&[("staked", "true"), ("staked_at", &T0.to_string())]);
    let claimed_at = T0 + 10 * DAY;
    let plan = claim::handler(attrs, claimed_at).ok().unwrap();
    assert_eq!(plan.staked_days, 10);
    let out = unstake::handler(plan.attributes, claimed_at + 4 * DAY + 1, 7).ok().unwrap();
    assert_eq!(out.staked_days, 4);
}

fn is_marked_staked(list: &[AttributeEntry]) -> bool {
    list.iter().any(|e| e.key == "staked" && e.value == "true")
}

#[test]
fn staked_count_follows_unstake_and_claim() {
    let mut assets = vec![
        entries(&[("staked", "true"), ("staked_at", &T0.to_string())]),
        entries(&[("staked", "false")]),
        entries(&[("staked", "true"), ("staked_at", &T0.to_string())]),
    ];
    let mut count = assets.iter().filter(|a| is_marked_staked(a)).count() as u64;
    assert_eq!(count, 2);

    let claimed = claim::handler(entries_of(&assets[0]), T0 + 3 * DAY).ok().unwrap();
    assets[0] = claimed.attributes;
    assert_eq!(assets.iter().filter(|a| is_marked_staked(a)).count() as u64, count);

    let plan = unstake::handler(entries_of(&assets[2]), T0 + 9 * DAY, 7).ok().unwrap();
    assets[2] = plan.attributes;
    count = unstake::decrement_staked_count(count).unwrap();
    assert_eq!(count, 1);
    assert_eq!(assets.iter().filter(|a| is_marked_staked(a)).count() as u64, count);
}
