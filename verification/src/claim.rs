//! Claiming the rewards of a staked asset.
use vstd::prelude::*;

use crate::attributes::{
    attribute, copy_entry, first_error, has_key, last_timestamp, lemma_first_error_prefix, lemma_keys_distinct,
    rewards_start, rewards_updated_at_key, rewards_updated_at_key_string, staked_at_key,
    staked_at_key_string, staked_key, staked_key_string, true_string, true_text, AttributeEntry,
    AttributeView,
};
use crate::decimal::{format_i64, int_text, parse_i64, parse_i64_spec};
use crate::error::StakingError;
use crate::rewards::{days_between, days_between_spec};

verus! {

/// What a claim refuses in a single entry: a `staked` entry that is not `"true"`, or
/// a timestamp entry that does not read as an `i64`.
pub open spec fn claim_entry_error(a: AttributeView) -> Option<StakingError> {
    if a.key == staked_key() {
        if a.value != true_text() {
            Some(StakingError::AssetNotStaked)
        } else {
            None
        }
    } else if a.key == staked_at_key() || a.key == rewards_updated_at_key() {
        if parse_i64_spec(a.value) is None {
            Some(StakingError::InvalidTimestamp)
        } else {
            None
        }
    } else {
        None
    }
}

pub open spec fn claim_check() -> spec_fn(AttributeView) -> Option<StakingError> {
    |a: AttributeView| claim_entry_error(a)
}

/// A claim stamps every `rewards_updated_at` entry with the claim time.
pub open spec fn claim_rewrite_entry(a: AttributeView, now: i64) -> AttributeView {
    if a.key == rewards_updated_at_key() {
        attribute(rewards_updated_at_key(), int_text(now as int))
    } else {
        a
    }
}

/// The attribute list after a claim at `now`: every entry kept in place, with
/// `rewards_updated_at` set to `now`, and added at the end where there was none.
pub open spec fn claim_attributes(list: Seq<AttributeView>, now: i64) -> Seq<AttributeView> {
    let rewritten = list.map_values(|a: AttributeView| claim_rewrite_entry(a, now));
    if has_key(list, rewards_updated_at_key()) {
        rewritten
    } else {
        rewritten.push(attribute(rewards_updated_at_key(), int_text(now as int)))
    }
}

/// A claim at `now` on the attributes of an asset: the new attribute list and the
/// whole days of rewards it pays.
pub open spec fn claim_spec(list: Seq<AttributeView>, now: i64) -> Result<
    (Seq<AttributeView>, i64),
    StakingError,
> {
    match first_error(list, claim_check()) {
        Some(e) => Err(e),
        None => if !has_key(list, staked_key()) {
            Err(StakingError::AssetNotStaked)
        } else {
            match rewards_start(list) {
                None => Err(StakingError::InvalidTimestamp),
                Some(start) => match days_between_spec(now, start) {
                    None => Err(StakingError::InvalidTimestamp),
                    Some(days) => if days <= 0 {
                        Err(StakingError::NoRewardsToClaim)
                    } else {
                        Ok((claim_attributes(list, now), days))
                    },
                },
            }
        },
    }
}

/// What a successful claim decides: the attributes to write back and the whole days
/// of rewards to pay.
pub struct ClaimPlan {
    pub attributes: Vec<AttributeEntry>,
    pub staked_days: i64,
}

pub open spec fn claim_plan_view(r: Result<ClaimPlan, StakingError>) -> Result<
    (Seq<AttributeView>, i64),
    StakingError,
> {
    match r {
        Ok(plan) => Ok((plan.attributes.deep_view(), plan.staked_days)),
        Err(e) => Err(e),
    }
}

/// Decides a claim at time `now` on the asset's attributes.
pub fn handler(list: Vec<AttributeEntry>, now: i64) -> (r: Result<ClaimPlan, StakingError>)
    ensures
        claim_plan_view(r) == claim_spec(list.deep_view(), now),
{
    let ghost view = list.deep_view();
    proof {
        lemma_keys_distinct();
    }
    let staked = staked_key_string();
    let staked_at_name = staked_at_key_string();
    let rewards_name = rewards_updated_at_key_string();
    let truth = true_string();
    let mut staked_at: Option<i64> = None;
    let mut rewards_updated_at: Option<i64> = None;
    let mut is_staked = false;
    let mut out: Vec<AttributeEntry> = Vec::new();
    assert(view.take(0) =~= Seq::<AttributeView>::empty());
    let mut i: usize = 0;
    while i < list.len()
        invariant
            i <= list.len(),
            view == list.deep_view(),
            staked@ == staked_key(),
            staked_at_name@ == staked_at_key(),
            rewards_name@ == rewards_updated_at_key(),
            truth@ == true_text(),
            staked_key() != staked_at_key(),
            staked_key() != rewards_updated_at_key(),
            staked_at_key() != rewards_updated_at_key(),
            first_error(view.take(i as int), claim_check()) is None,
            staked_at == last_timestamp(view.take(i as int), staked_at_key()),
            rewards_updated_at == last_timestamp(view.take(i as int), rewards_updated_at_key()),
            rewards_updated_at is Some <==> has_key(view.take(i as int), rewards_updated_at_key()),
            is_staked <==> has_key(view.take(i as int), staked_key()),
            out.deep_view() == view.take(i as int).map_values(
                |a: AttributeView| claim_rewrite_entry(a, now),
            ),
        decreases list.len() - i,
    {
        let entry = &list[i];
        let ghost out_before = out.deep_view();
        let ghost prefix = view.take(i as int);
        let ghost next = view.take(i + 1);
        assert(next.drop_last() =~= prefix);
        assert(next.last() == entry@);
        if entry.key == staked {
            if entry.value != truth {
                proof {
                    lemma_first_error_prefix(view, i + 1, claim_check());
                }
                return Err(StakingError::AssetNotStaked);
            }
            is_staked = true;
            out.push(copy_entry(entry));
        } else if entry.key == staked_at_name {
            match parse_i64(entry.value.as_str()) {
                Some(t) => {
                    staked_at = Some(t);
                },
                None => {
                    proof {
                        lemma_first_error_prefix(view, i + 1, claim_check());
                    }
                    return Err(StakingError::InvalidTimestamp);
                },
            }
            out.push(copy_entry(entry));
        } else if entry.key == rewards_name {
            match parse_i64(entry.value.as_str()) {
                Some(t) => {
                    rewards_updated_at = Some(t);
                },
                None => {
                    proof {
                        lemma_first_error_prefix(view, i + 1, claim_check());
                    }
                    return Err(StakingError::InvalidTimestamp);
                },
            }
            out.push(AttributeEntry { key: rewards_updated_at_key_string(), value: format_i64(now) });
        } else {
            out.push(copy_entry(entry));
        }
        proof {
            assert(out.deep_view() =~= out_before.push(out@.last()@));
            assert(out.deep_view() =~= next.map_values(
                |a: AttributeView| claim_rewrite_entry(a, now),
            ));
            assert(has_key(next, staked_key()) == (has_key(prefix, staked_key()) || entry@.key
                == staked_key()));
            assert(has_key(next, rewards_updated_at_key()) == (has_key(
                prefix,
                rewards_updated_at_key(),
            ) || entry@.key == rewards_updated_at_key()));
        }
        i = i + 1;
    }
    assert(view.take(list.len() as int) =~= view);
    if !is_staked {
        return Err(StakingError::AssetNotStaked);
    }
    let start = match rewards_updated_at {
        Some(t) => t,
        None => match staked_at {
            Some(t) => t,
            None => return Err(StakingError::InvalidTimestamp),
        },
    };
    let ghost rewritten = out.deep_view();
    if rewards_updated_at.is_none() {
        out.push(AttributeEntry { key: rewards_updated_at_key_string(), value: format_i64(now) });
        assert(out.deep_view() =~= rewritten.push(
            attribute(rewards_updated_at_key(), int_text(now as int)),
        ));
    }
    assert(out.deep_view() =~= claim_attributes(view, now));
    assert(rewards_start(view) == Some(start));
    let staked_days = match days_between(now, start) {
        Some(days) => days,
        None => return Err(StakingError::InvalidTimestamp),
    };
    if staked_days <= 0 {
        return Err(StakingError::NoRewardsToClaim);
    }
    Ok(ClaimPlan { attributes: out, staked_days })
}

} // verus!
