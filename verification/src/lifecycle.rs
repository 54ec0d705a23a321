//! Properties of an asset's staking attributes across operations.
use vstd::prelude::*;

use crate::attributes::{
    last_timestamp, lemma_first_error_witness, staked_at_key,
    attribute, false_text, first_error, has_key, lemma_first_error_none,
    lemma_first_error_prefix, lemma_keys_distinct, lemma_last_timestamp_uniform, rewards_start,
    rewards_updated_at_key, staked_key, true_text, AttributeView,
};
use crate::claim::{claim_attributes, claim_check, claim_entry_error, claim_rewrite_entry, claim_spec};
use crate::decimal::{int_text, lemma_parse_format_roundtrip, parse_i64_spec};
use crate::error::StakingError;
use crate::rewards::{days_between_spec, whole_days};
use crate::unstake::{
    is_staking_key, unstake_attributes, unstake_check, unstake_entry_error, unstake_spec,
    unstaked_marks, without_staking_keys,
};

verus! {

/// What a claim at `later` does to attributes whose rewards were last settled at `since`.
pub open spec fn claim_after_settlement(list: Seq<AttributeView>, since: i64, later: i64) -> Result<
    (Seq<AttributeView>, i64),
    StakingError,
> {
    match days_between_spec(later, since) {
        None => Err(StakingError::InvalidTimestamp),
        Some(days) => if days <= 0 {
            Err(StakingError::NoRewardsToClaim)
        } else {
            Ok((claim_attributes(list, later), days))
        },
    }
}

/// The attributes a successful claim at `now` writes pass every check of a claim,
/// still mark the asset as staked, and settle rewards at `now`.
proof fn lemma_claim_settles_at(list: Seq<AttributeView>, now: i64)
    requires
        claim_spec(list, now) is Ok,
    ensures
        first_error(claim_attributes(list, now), claim_check()) is None,
        has_key(claim_attributes(list, now), staked_key()),
        rewards_start(claim_attributes(list, now)) == Some(now),
{
    lemma_keys_distinct();
    lemma_parse_format_roundtrip(now);
    let after = claim_attributes(list, now);
    let stamp = int_text(now as int);
    let rewritten = list.map_values(|a: AttributeView| claim_rewrite_entry(a, now));
    lemma_first_error_none(list, claim_check());
    assert forall|j: int| 0 <= j < after.len() implies (#[trigger] claim_check()(after[j])) is None
        && (after[j].key == rewards_updated_at_key() ==> after[j].value == stamp) by {
        if j < list.len() {
            assert(after[j] == rewritten[j]);
            assert(claim_check()(list[j]) is None);
        }
    }
    lemma_first_error_none(after, claim_check());
    let w = choose|i: int| 0 <= i < list.len() && #[trigger] list[i].key == staked_key();
    assert(after[w] == rewritten[w]);
    assert(has_key(after, staked_key()));
    if has_key(list, rewards_updated_at_key()) {
        let r = choose|i: int| 0 <= i < list.len() && #[trigger] list[i].key
            == rewards_updated_at_key();
        assert(after[r] == rewritten[r]);
        assert(after[r].key == rewards_updated_at_key());
    } else {
        assert(after[list.len() as int] == attribute(rewards_updated_at_key(), stamp));
        assert(after[list.len() as int].key == rewards_updated_at_key());
    }
    assert(has_key(after, rewards_updated_at_key()));
    lemma_last_timestamp_uniform(after, rewards_updated_at_key(), stamp);
}

/// After a successful claim at `now`, rewards accrue from `now`: a later claim at
/// `later` pays exactly the whole days from `now` to `later`, and a second claim at
/// the same time is refused with `NoRewardsToClaim`.
pub proof fn lemma_claim_resets_reward_clock(list: Seq<AttributeView>, now: i64, later: i64)
    requires
        claim_spec(list, now) is Ok,
    ensures
        claim_spec(claim_attributes(list, now), later) == claim_after_settlement(
            claim_attributes(list, now),
            now,
            later,
        ),
        claim_spec(claim_attributes(list, now), now) == Err::<
            (Seq<AttributeView>, i64),
            StakingError,
        >(StakingError::NoRewardsToClaim),
{
    lemma_claim_settles_at(list, now);
    assert(days_between_spec(now, now) == Some(0i64));
}

/// No day is paid twice: after a successful claim at `now`, an unstake at `later` that
/// succeeds pays exactly the whole days from `now` to `later`.
pub proof fn lemma_unstake_after_claim_pays_from_claim(
    list: Seq<AttributeView>,
    now: i64,
    later: i64,
    freeze_period: u32,
)
    requires
        claim_spec(list, now) is Ok,
        unstake_spec(claim_attributes(list, now), later, freeze_period) is Ok,
    ensures
        days_between_spec(later, now) is Some,
        unstake_spec(claim_attributes(list, now), later, freeze_period) == Ok::<
            (Seq<AttributeView>, i64),
            StakingError,
        >((unstake_attributes(claim_attributes(list, now)), days_between_spec(later, now)->0)),
{
    lemma_claim_settles_at(list, now);
}

/// A claim changes nothing but the `rewards_updated_at` stamp: every other entry keeps
/// its place and content, every `rewards_updated_at` entry holds the claim time, and
/// one is added at the end only where there was none.
pub proof fn lemma_claim_changes_only_the_stamp(list: Seq<AttributeView>, now: i64)
    requires
        claim_spec(list, now) is Ok,
    ensures
        claim_spec(list, now)->Ok_0.0 == claim_attributes(list, now),
        claim_attributes(list, now).len() == list.len() + (if has_key(
            list,
            rewards_updated_at_key(),
        ) {
            0int
        } else {
            1int
        }),
        forall|i: int|
            0 <= i < list.len() && list[i].key != rewards_updated_at_key() ==> #[trigger] claim_attributes(
                list,
                now,
            )[i] == list[i],
        forall|i: int|
            0 <= i < claim_attributes(list, now).len() && (#[trigger] claim_attributes(
                list,
                now,
            )[i]).key == rewards_updated_at_key() ==> claim_attributes(list, now)[i]
                == attribute(rewards_updated_at_key(), int_text(now as int)),
{
}

/// No entry left after removing the staking keys has a staking key.
proof fn lemma_no_staking_keys_left(list: Seq<AttributeView>)
    ensures
        forall|i: int|
            0 <= i < without_staking_keys(list).len() ==> !is_staking_key(
                #[trigger] without_staking_keys(list)[i].key,
            ),
    decreases list.len(),
{
    if list.len() > 0 {
        let rest = without_staking_keys(list.drop_last());
        lemma_no_staking_keys_left(list.drop_last());
        let all = without_staking_keys(list);
        assert forall|i: int| 0 <= i < all.len() implies !is_staking_key(#[trigger] all[i].key) by {
            if i < rest.len() {
                assert(all[i] == rest[i]);
            }
        }
    }
}

/// After an unstake the only staking attributes are the three marks at the end:
/// `staked = "false"`, `staked_at = "0"` and `rewards_updated_at = "0"`.
pub proof fn lemma_unstake_leaves_only_the_marks(list: Seq<AttributeView>)
    ensures
        unstake_attributes(list).len() >= 3,
        unstake_attributes(list).subrange(
            unstake_attributes(list).len() - 3,
            unstake_attributes(list).len() as int,
        ) == unstaked_marks(),
        forall|i: int|
            0 <= i < unstake_attributes(list).len() - 3 ==> !is_staking_key(
                (#[trigger] unstake_attributes(list)[i]).key,
            ),
{
    let kept = without_staking_keys(list);
    let after = unstake_attributes(list);
    lemma_no_staking_keys_left(list);
    assert(after.subrange(after.len() - 3, after.len() as int) =~= unstaked_marks());
    assert forall|i: int| 0 <= i < after.len() - 3 implies !is_staking_key(
        (#[trigger] after[i]).key,
    ) by {
        assert(after[i] == kept[i]);
    }
}

/// The attributes that an unstake writes are refused by the first check that meets
/// the `staked = "false"` mark, and only by it.
proof fn lemma_unstaked_refused(
    list: Seq<AttributeView>,
    check: spec_fn(AttributeView) -> Option<StakingError>,
)
    requires
        forall|a: AttributeView| !is_staking_key(a.key) ==> #[trigger] check(a) is None,
        check(attribute(staked_key(), false_text())) == Some(StakingError::AssetNotStaked),
    ensures
        first_error(unstake_attributes(list), check) == Some(StakingError::AssetNotStaked),
{
    let kept = without_staking_keys(list);
    let all = unstake_attributes(list);
    lemma_no_staking_keys_left(list);
    assert forall|i: int| 0 <= i < kept.len() implies (#[trigger] check(kept[i])) is None by {
        assert(!is_staking_key(kept[i].key));
    }
    lemma_first_error_none(kept, check);
    let n = kept.len() as int + 1;
    assert(all.take(n).drop_last() =~= kept);
    assert(all.take(n).last() == unstaked_marks()[0]);
    lemma_first_error_prefix(all, n, check);
}

/// An unstaked asset earns nothing: claiming on the attributes an unstake wrote is
/// refused with `AssetNotStaked`, at any time.
pub proof fn lemma_no_claim_after_unstake(list: Seq<AttributeView>, later: i64)
    ensures
        claim_spec(unstake_attributes(list), later) == Err::<
            (Seq<AttributeView>, i64),
            StakingError,
        >(StakingError::AssetNotStaked),
{
    lemma_keys_distinct();
    assert(false_text() != crate::attributes::true_text());
    assert forall|a: AttributeView| !is_staking_key(a.key) implies #[trigger] claim_check()(a) is None by {
        assert(claim_check()(a) == claim_entry_error(a));
    }
    lemma_unstaked_refused(list, claim_check());
}

/// An asset cannot be unstaked twice: unstaking the attributes an unstake wrote is
/// refused with `AssetNotStaked`, at any time and for any freeze period.
pub proof fn lemma_no_unstake_after_unstake(list: Seq<AttributeView>, later: i64, freeze_period: u32)
    ensures
        unstake_spec(unstake_attributes(list), later, freeze_period) == Err::<
            (Seq<AttributeView>, i64),
            StakingError,
        >(StakingError::AssetNotStaked),
{
    lemma_keys_distinct();
    assert forall|a: AttributeView| !is_staking_key(a.key) implies #[trigger] unstake_check(
        later,
        freeze_period,
    )(a) is None by {
        assert(unstake_check(later, freeze_period)(a) == unstake_entry_error(a, later, freeze_period));
    }
    lemma_unstaked_refused(list, unstake_check(later, freeze_period));
}

} // verus!

verus! {

/// The asset carries the mark `staked = "true"`.
pub open spec fn marked_staked(list: Seq<AttributeView>) -> bool {
    exists|i: int| 0 <= i < list.len() && #[trigger] list[i] == attribute(staked_key(), true_text())
}

/// The number of assets of a collection that carry the mark `staked = "true"`.
pub open spec fn staked_asset_count(assets: Seq<Seq<AttributeView>>) -> nat
    decreases assets.len(),
{
    if assets.len() == 0 {
        0
    } else {
        staked_asset_count(assets.drop_last()) + if marked_staked(assets.last()) {
            1nat
        } else {
            0nat
        }
    }
}

proof fn lemma_count_after_update(
    assets: Seq<Seq<AttributeView>>,
    k: int,
    replacement: Seq<AttributeView>,
)
    requires
        0 <= k < assets.len(),
    ensures
        staked_asset_count(assets.update(k, replacement)) + (if marked_staked(assets[k]) {
            1int
        } else {
            0int
        }) == staked_asset_count(assets) + (if marked_staked(replacement) {
            1int
        } else {
            0int
        }),
    decreases assets.len(),
{
    let updated = assets.update(k, replacement);
    if k == assets.len() - 1 {
        assert(updated.drop_last() =~= assets.drop_last());
    } else {
        assert(updated.drop_last() =~= assets.drop_last().update(k, replacement));
        lemma_count_after_update(assets.drop_last(), k, replacement);
    }
}

/// The collection's `staked_count` stays the number of staked assets across an
/// unstake: where it counts the assets marked `staked = "true"` and the unstaked asset
/// is one of them, it is positive (so decrementing it succeeds) and, after the
/// unstake, the count of marked assets is one less.
pub proof fn lemma_unstake_keeps_staked_count(
    assets: Seq<Seq<AttributeView>>,
    k: int,
    now: i64,
    freeze_period: u32,
    staked_count: u64,
)
    requires
        0 <= k < assets.len(),
        marked_staked(assets[k]),
        unstake_spec(assets[k], now, freeze_period) is Ok,
        staked_count == staked_asset_count(assets),
    ensures
        staked_count > 0,
        staked_asset_count(
            assets.update(k, unstake_spec(assets[k], now, freeze_period)->Ok_0.0),
        ) == staked_count - 1,
{
    let after = unstake_attributes(assets[k]);
    lemma_keys_distinct();
    lemma_unstake_leaves_only_the_marks(assets[k]);
    assert(!marked_staked(after)) by {
        if marked_staked(after) {
            let i = choose|i: int| 0 <= i < after.len() && #[trigger] after[i] == attribute(
                staked_key(),
                true_text(),
            );
            if i < after.len() - 3 {
                assert(!is_staking_key(after[i].key));
            } else {
                let marks = after.subrange(after.len() - 3, after.len() as int);
                assert(after[i] == marks[i - (after.len() - 3)]);
            }
        }
    }
    lemma_count_after_update(assets, k, after);
}

/// A claim leaves the collection's count of staked assets unchanged: the claimed
/// asset keeps its `staked = "true"` mark.
pub proof fn lemma_claim_keeps_staked_count(assets: Seq<Seq<AttributeView>>, k: int, now: i64)
    requires
        0 <= k < assets.len(),
        claim_spec(assets[k], now) is Ok,
    ensures
        staked_asset_count(assets.update(k, claim_spec(assets[k], now)->Ok_0.0))
            == staked_asset_count(assets),
{
    let list = assets[k];
    let after = claim_attributes(list, now);
    lemma_keys_distinct();
    lemma_claim_changes_only_the_stamp(list, now);
    if marked_staked(list) {
        let i = choose|i: int| 0 <= i < list.len() && #[trigger] list[i] == attribute(
            staked_key(),
            true_text(),
        );
        assert(after[i] == list[i]);
    }
    if marked_staked(after) {
        let i = choose|i: int| 0 <= i < after.len() && #[trigger] after[i] == attribute(
            staked_key(),
            true_text(),
        );
        if i < list.len() {
            assert(after[i] == list[i]);
        }
    }
    lemma_count_after_update(assets, k, after);
}

} // verus!

verus! {

/// The attributes of an asset staked at `t`.
pub open spec fn staked_since(t: i64) -> Seq<AttributeView> {
    seq![attribute(staked_key(), true_text()), attribute(staked_at_key(), int_text(t as int))]
}

/// The freeze period counts whole days since staking: an asset staked at `t` is
/// unstaked at `now` exactly when at least `freeze_period` whole days (`now - t`
/// divided by 86400, rounded toward zero) have passed, and the unstake then owes
/// those days and leaves only the unstaked marks; before that it is refused with
/// `FreezePeriodNotElapsed`.
pub proof fn lemma_freeze_period_in_whole_days(t: i64, now: i64, freeze_period: u32)
    requires
        i64::MIN <= now - t <= i64::MAX,
    ensures
        whole_days(now - t) >= freeze_period ==> unstake_spec(staked_since(t), now, freeze_period)
            == Ok::<(Seq<AttributeView>, i64), StakingError>(
            (unstaked_marks(), whole_days(now - t) as i64),
        ),
        whole_days(now - t) < freeze_period ==> unstake_spec(staked_since(t), now, freeze_period)
            == Err::<(Seq<AttributeView>, i64), StakingError>(StakingError::FreezePeriodNotElapsed),
{
    lemma_keys_distinct();
    lemma_parse_format_roundtrip(t);
    let list = staked_since(t);
    let check = unstake_check(now, freeze_period);
    let first = list.drop_last();
    assert(first =~= seq![attribute(staked_key(), true_text())]);
    assert(first.drop_last() =~= Seq::<AttributeView>::empty());
    assert(check(list[0]) is None);
    assert(first_error(first.drop_last(), check) is None);
    assert(first.last() == list[0]);
    assert(first_error(first, check) is None);
    assert(list.last() == attribute(staked_at_key(), int_text(t as int)));
    assert(last_timestamp(first.drop_last(), rewards_updated_at_key()) is None);
    assert(last_timestamp(first, rewards_updated_at_key()) is None);
    assert(last_timestamp(list, rewards_updated_at_key()) is None);
    assert(last_timestamp(list, staked_at_key()) == Some(t));
    assert(without_staking_keys(first.drop_last()) =~= Seq::<AttributeView>::empty());
    assert(is_staking_key(first.last().key));
    assert(without_staking_keys(first) =~= Seq::<AttributeView>::empty());
    assert(without_staking_keys(list) =~= Seq::<AttributeView>::empty());
    assert(unstake_attributes(list) =~= unstaked_marks());
}

/// An unstake is refused with `FreezePeriodNotElapsed` only because of a `staked_at`
/// entry that holds a time less than `freeze_period` whole days before `now`.
pub proof fn lemma_freeze_refusal_has_a_reason(list: Seq<AttributeView>, now: i64, freeze_period: u32)
    requires
        unstake_spec(list, now, freeze_period) == Err::<(Seq<AttributeView>, i64), StakingError>(
            StakingError::FreezePeriodNotElapsed,
        ),
    ensures
        exists|i: int|
            0 <= i < list.len() && (#[trigger] list[i]).key == staked_at_key() && (
            parse_i64_spec(list[i].value) matches Some(t) && i64::MIN <= now - t <= i64::MAX
                && whole_days(now - t) < freeze_period),
{
    lemma_keys_distinct();
    let check = unstake_check(now, freeze_period);
    lemma_first_error_witness(list, check);
    let i = choose|i: int| 0 <= i < list.len() && #[trigger] check(list[i]) == first_error(list, check);
    assert(check(list[i]) == unstake_entry_error(list[i], now, freeze_period));
}

} // verus!

verus! {

/// A claim on an asset staked at `t` pays the whole days (rounded toward zero) from `t`
/// to `now` and stamps `rewards_updated_at` with `now`; with no whole day passed it is
/// refused with `NoRewardsToClaim`.
pub proof fn lemma_claim_pays_whole_days_since_staking(t: i64, now: i64)
    requires
        i64::MIN <= now - t <= i64::MAX,
    ensures
        whole_days(now - t) >= 1 ==> claim_spec(staked_since(t), now) == Ok::<
            (Seq<AttributeView>, i64),
            StakingError,
        >(
            (
                staked_since(t).push(attribute(rewards_updated_at_key(), int_text(now as int))),
                whole_days(now - t) as i64,
            ),
        ),
        whole_days(now - t) < 1 ==> claim_spec(staked_since(t), now) == Err::<
            (Seq<AttributeView>, i64),
            StakingError,
        >(StakingError::NoRewardsToClaim),
{
    lemma_keys_distinct();
    lemma_parse_format_roundtrip(t);
    let list = staked_since(t);
    let check = claim_check();
    let first = list.drop_last();
    assert(first =~= seq![attribute(staked_key(), true_text())]);
    assert(first.drop_last() =~= Seq::<AttributeView>::empty());
    assert(first_error(first.drop_last(), check) is None);
    assert(first.last() == list[0]);
    assert(check(list[0]) is None);
    assert(first_error(first, check) is None);
    assert(list.last() == attribute(staked_at_key(), int_text(t as int)));
    assert(list[0].key == staked_key());
    assert(has_key(list, staked_key()));
    assert(last_timestamp(first.drop_last(), rewards_updated_at_key()) is None);
    assert(last_timestamp(first, rewards_updated_at_key()) is None);
    assert(last_timestamp(list, rewards_updated_at_key()) is None);
    assert(last_timestamp(list, staked_at_key()) == Some(t));
    assert(!has_key(list, rewards_updated_at_key())) by {
        if has_key(list, rewards_updated_at_key()) {
            let i = choose|i: int| 0 <= i < list.len() && #[trigger] list[i].key
                == rewards_updated_at_key();
            assert(i == 0 || i == 1);
        }
    }
    assert(claim_attributes(list, now) =~= list.push(
        attribute(rewards_updated_at_key(), int_text(now as int)),
    ));
}

} // verus!
