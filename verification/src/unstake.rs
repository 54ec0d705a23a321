//! Unstaking an asset: settling its rewards and clearing its staking attributes.
use vstd::prelude::*;

use crate::attributes::{
    attribute, copy_entry, false_string, false_text, first_error, last_timestamp,
    lemma_first_error_prefix, lemma_keys_distinct, rewards_start, rewards_updated_at_key,
    rewards_updated_at_key_string, staked_at_key, staked_at_key_string, staked_count_key,
    staked_count_key_string, staked_key, staked_key_string, true_string, true_text, zero_string,
    zero_text, AttributeEntry, AttributeView,
};
use crate::decimal::{format_u64, int_text, parse_i64, parse_i64_spec};
use crate::error::StakingError;
use crate::rewards::{days_between, days_between_spec};

verus! {

/// What an unstake refuses in a single entry: a `staked` entry that is not `"true"`,
/// a timestamp entry that does not read as an `i64`, and a `staked_at` less than
/// `freeze_period` whole days before `now`.
pub open spec fn unstake_entry_error(a: AttributeView, now: i64, freeze_period: u32) -> Option<
    StakingError,
> {
    if a.key == staked_key() {
        if a.value != true_text() {
            Some(StakingError::AssetNotStaked)
        } else {
            None
        }
    } else if a.key == staked_at_key() {
        match parse_i64_spec(a.value) {
            None => Some(StakingError::InvalidTimestamp),
            Some(staked_at) => match days_between_spec(now, staked_at) {
                None => Some(StakingError::InvalidTimestamp),
                Some(frozen_days) => if frozen_days < freeze_period {
                    Some(StakingError::FreezePeriodNotElapsed)
                } else {
                    None
                },
            },
        }
    } else if a.key == rewards_updated_at_key() {
        if parse_i64_spec(a.value) is None {
            Some(StakingError::InvalidTimestamp)
        } else {
            None
        }
    } else {
        None
    }
}

pub open spec fn unstake_check(now: i64, freeze_period: u32) -> spec_fn(AttributeView) -> Option<
    StakingError,
> {
    |a: AttributeView| unstake_entry_error(a, now, freeze_period)
}

pub open spec fn is_staking_key(key: Seq<char>) -> bool {
    key == staked_key() || key == staked_at_key() || key == rewards_updated_at_key()
}

/// The entries whose keys are not staking keys, in their order.
pub open spec fn without_staking_keys(list: Seq<AttributeView>) -> Seq<AttributeView>
    decreases list.len(),
{
    if list.len() == 0 {
        Seq::empty()
    } else {
        let rest = without_staking_keys(list.drop_last());
        if is_staking_key(list.last().key) {
            rest
        } else {
            rest.push(list.last())
        }
    }
}

/// The staking attributes of an asset that is not staked.
pub open spec fn unstaked_marks() -> Seq<AttributeView> {
    seq![
        attribute(staked_key(), false_text()),
        attribute(staked_at_key(), zero_text()),
        attribute(rewards_updated_at_key(), zero_text()),
    ]
}

/// The attribute list after an unstake: the other entries in their order, then
/// `staked = "false"`, `staked_at = "0"` and `rewards_updated_at = "0"`.
pub open spec fn unstake_attributes(list: Seq<AttributeView>) -> Seq<AttributeView> {
    without_staking_keys(list) + unstaked_marks()
}

/// An unstake at `now` on the attributes of an asset: the new attribute list and the
/// whole days of rewards still owed.
pub open spec fn unstake_spec(list: Seq<AttributeView>, now: i64, freeze_period: u32) -> Result<
    (Seq<AttributeView>, i64),
    StakingError,
> {
    match first_error(list, unstake_check(now, freeze_period)) {
        Some(e) => Err(e),
        None => match rewards_start(list) {
            None => Err(StakingError::InvalidTimestamp),
            Some(start) => match days_between_spec(now, start) {
                None => Err(StakingError::InvalidTimestamp),
                Some(days) => Ok((unstake_attributes(list), days)),
            },
        },
    }
}

/// What a successful unstake decides about the asset: the attributes to write back
/// and the whole days of rewards to pay.
pub struct UnstakePlan {
    pub attributes: Vec<AttributeEntry>,
    pub staked_days: i64,
}

pub open spec fn unstake_plan_view(r: Result<UnstakePlan, StakingError>) -> Result<
    (Seq<AttributeView>, i64),
    StakingError,
> {
    match r {
        Ok(plan) => Ok((plan.attributes.deep_view(), plan.staked_days)),
        Err(e) => Err(e),
    }
}

/// Decides an unstake at time `now` on the asset's attributes, for a collection whose
/// freeze period is `freeze_period` whole days.
pub fn handler(list: Vec<AttributeEntry>, now: i64, freeze_period: u32) -> (r: Result<
    UnstakePlan,
    StakingError,
>)
    ensures
        unstake_plan_view(r) == unstake_spec(list.deep_view(), now, freeze_period),
{
    let ghost view = list.deep_view();
    proof {
        lemma_keys_distinct();
    }
    let staked = staked_key_string();
    let staked_at_name = staked_at_key_string();
    let rewards_name = rewards_updated_at_key_string();
    let truth = true_string();
    let mut staked_at: Option<i64> = None;
    let mut rewards_updated_at: Option<i64> = None;
    let mut out: Vec<AttributeEntry> = Vec::new();
    assert(view.take(0) =~= Seq::<AttributeView>::empty());
    let mut i: usize = 0;
    while i < list.len()
        invariant
            i <= list.len(),
            view == list.deep_view(),
            staked@ == staked_key(),
            staked_at_name@ == staked_at_key(),
            rewards_name@ == rewards_updated_at_key(),
            truth@ == true_text(),
            staked_key() != staked_at_key(),
            staked_key() != rewards_updated_at_key(),
            staked_at_key() != rewards_updated_at_key(),
            first_error(view.take(i as int), unstake_check(now, freeze_period)) is None,
            staked_at == last_timestamp(view.take(i as int), staked_at_key()),
            rewards_updated_at == last_timestamp(view.take(i as int), rewards_updated_at_key()),
            out.deep_view() == without_staking_keys(view.take(i as int)),
        decreases list.len() - i,
    {
        let entry = &list[i];
        let ghost out_before = out.deep_view();
        let ghost prefix = view.take(i as int);
        let ghost next = view.take(i + 1);
        assert(next.drop_last() =~= prefix);
        assert(next.last() == entry@);
        if entry.key == staked {
            if entry.value != truth {
                proof {
                    lemma_first_error_prefix(view, i + 1, unstake_check(now, freeze_period));
                }
                return Err(StakingError::AssetNotStaked);
            }
        } else if entry.key == staked_at_name {
            let parsed = match parse_i64(entry.value.as_str()) {
                Some(t) => t,
                None => {
                    proof {
                        lemma_first_error_prefix(view, i + 1, unstake_check(now, freeze_period));
                    }
                    return Err(StakingError::InvalidTimestamp);
                },
            };
            staked_at = Some(parsed);
            let frozen_days = match days_between(now, parsed) {
                Some(days) => days,
                None => {
                    proof {
                        lemma_first_error_prefix(view, i + 1, unstake_check(now, freeze_period));
                    }
                    return Err(StakingError::InvalidTimestamp);
                },
            };
            if frozen_days < freeze_period as i64 {
                proof {
                    lemma_first_error_prefix(view, i + 1, unstake_check(now, freeze_period));
                }
                return Err(StakingError::FreezePeriodNotElapsed);
            }
        } else if entry.key == rewards_name {
            match parse_i64(entry.value.as_str()) {
                Some(t) => {
                    rewards_updated_at = Some(t);
                },
                None => {
                    proof {
                        lemma_first_error_prefix(view, i + 1, unstake_check(now, freeze_period));
                    }
                    return Err(StakingError::InvalidTimestamp);
                },
            }
        } else {
            out.push(copy_entry(entry));
            assert(out.deep_view() =~= out_before.push(entry@));
        }
        assert(out.deep_view() =~= without_staking_keys(next));
        i = i + 1;
    }
    assert(view.take(list.len() as int) =~= view);
    let start = match rewards_updated_at {
        Some(t) => t,
        None => match staked_at {
            Some(t) => t,
            None => return Err(StakingError::InvalidTimestamp),
        },
    };
    let staked_days = match days_between(now, start) {
        Some(days) => days,
        None => return Err(StakingError::InvalidTimestamp),
    };
    let ghost kept = out.deep_view();
    out.push(AttributeEntry { key: staked_key_string(), value: false_string() });
    out.push(AttributeEntry { key: staked_at_key_string(), value: zero_string() });
    out.push(AttributeEntry { key: rewards_updated_at_key_string(), value: zero_string() });
    assert(out.deep_view() =~= unstake_attributes(view));
    Ok(UnstakePlan { attributes: out, staked_days })
}

/// `staked_count.checked_sub(1)`: one asset fewer staked in the collection.
pub fn decrement_staked_count(staked_count: u64) -> (r: Result<u64, StakingError>)
    ensures
        staked_count == 0 ==> r == Err::<u64, StakingError>(StakingError::InvalidTimestamp),
        staked_count > 0 ==> r == Ok::<u64, StakingError>((staked_count - 1) as u64),
{
    match staked_count.checked_sub(1) {
        Some(n) => Ok(n),
        None => Err(StakingError::InvalidTimestamp),
    }
}

/// The collection's attribute list after an unstake: its `staked_count`.
pub fn staked_count_attributes(staked_count: u64) -> (r: Vec<AttributeEntry>)
    ensures
        r.deep_view() == seq![attribute(staked_count_key(), int_text(staked_count as int))],
{
    let mut r: Vec<AttributeEntry> = Vec::new();
    r.push(AttributeEntry { key: staked_count_key_string(), value: format_u64(staked_count) });
    assert(r.deep_view() =~= seq![attribute(staked_count_key(), int_text(staked_count as int))]);
    r
}

} // verus!
