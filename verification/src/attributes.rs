//! The string attributes that record an asset's staking state.
use vstd::prelude::*;

use crate::decimal::parse_i64_spec;
use crate::error::StakingError;

verus! {

/// One key/value pair of an asset's `Attributes` plugin.
#[derive(Debug, PartialEq, Eq)]
pub struct AttributeEntry {
    pub key: String,
    pub value: String,
}

/// The mathematical content of an [`AttributeEntry`].
pub struct AttributeView {
    pub key: Seq<char>,
    pub value: Seq<char>,
}

impl View for AttributeEntry {
    type V = AttributeView;

    open spec fn view(&self) -> AttributeView {
        AttributeView { key: self.key@, value: self.value@ }
    }
}

impl DeepView for AttributeEntry {
    type V = AttributeView;

    open spec fn deep_view(&self) -> AttributeView {
        self@
    }
}

pub open spec fn attribute(key: Seq<char>, value: Seq<char>) -> AttributeView {
    AttributeView { key, value }
}

/// `staked`: `"true"` while the asset is staked.
pub open spec fn staked_key() -> Seq<char> {
    seq!['s', 't', 'a', 'k', 'e', 'd']
}

/// `staked_at`: the time at which the asset was staked.
pub open spec fn staked_at_key() -> Seq<char> {
    seq!['s', 't', 'a', 'k', 'e', 'd', '_', 'a', 't']
}

/// `rewards_updated_at`: the time up to which rewards have been paid.
pub open spec fn rewards_updated_at_key() -> Seq<char> {
    seq!['r', 'e', 'w', 'a', 'r', 'd', 's', '_', 'u', 'p', 'd', 'a', 't', 'e', 'd', '_', 'a', 't']
}

/// `staked_count`: the collection attribute that counts staked assets.
pub open spec fn staked_count_key() -> Seq<char> {
    seq!['s', 't', 'a', 'k', 'e', 'd', '_', 'c', 'o', 'u', 'n', 't']
}

pub open spec fn true_text() -> Seq<char> {
    seq!['t', 'r', 'u', 'e']
}

pub open spec fn false_text() -> Seq<char> {
    seq!['f', 'a', 'l', 's', 'e']
}

pub open spec fn zero_text() -> Seq<char> {
    seq!['0']
}

pub fn staked_key_string() -> (r: String)
    ensures
        r@ == staked_key(),
{
    proof {
        reveal_strlit("staked");
    }
    let r = String::from_str("staked");
    assert(r@ =~= staked_key());
    r
}

pub fn staked_at_key_string() -> (r: String)
    ensures
        r@ == staked_at_key(),
{
    proof {
        reveal_strlit("staked_at");
    }
    let r = String::from_str("staked_at");
    assert(r@ =~= staked_at_key());
    r
}

pub fn rewards_updated_at_key_string() -> (r: String)
    ensures
        r@ == rewards_updated_at_key(),
{
    proof {
        reveal_strlit("rewards_updated_at");
    }
    let r = String::from_str("rewards_updated_at");
    assert(r@ =~= rewards_updated_at_key());
    r
}

pub fn staked_count_key_string() -> (r: String)
    ensures
        r@ == staked_count_key(),
{
    proof {
        reveal_strlit("staked_count");
    }
    let r = String::from_str("staked_count");
    assert(r@ =~= staked_count_key());
    r
}

pub fn true_string() -> (r: String)
    ensures
        r@ == true_text(),
{
    proof {
        reveal_strlit("true");
    }
    let r = String::from_str("true");
    assert(r@ =~= true_text());
    r
}

pub fn false_string() -> (r: String)
    ensures
        r@ == false_text(),
{
    proof {
        reveal_strlit("false");
    }
    let r = String::from_str("false");
    assert(r@ =~= false_text());
    r
}

pub fn zero_string() -> (r: String)
    ensures
        r@ == zero_text(),
{
    proof {
        reveal_strlit("0");
    }
    let r = String::from_str("0");
    assert(r@ =~= zero_text());
    r
}

/// A copy of `entry`.
pub fn copy_entry(entry: &AttributeEntry) -> (r: AttributeEntry)
    ensures
        r@ == entry@,
{
    AttributeEntry { key: entry.key.clone(), value: entry.value.clone() }
}

} // verus!

verus! {

/// The error of the first entry that `check` refuses, if any.
pub open spec fn first_error(
    list: Seq<AttributeView>,
    check: spec_fn(AttributeView) -> Option<StakingError>,
) -> Option<StakingError>
    decreases list.len(),
{
    if list.len() == 0 {
        None
    } else {
        match first_error(list.drop_last(), check) {
            Some(e) => Some(e),
            None => check(list.last()),
        }
    }
}

/// Some entry has this key.
pub open spec fn has_key(list: Seq<AttributeView>, key: Seq<char>) -> bool {
    exists|i: int| 0 <= i < list.len() && #[trigger] list[i].key == key
}

/// The timestamp in the last entry with this key, if there is one and it reads as an `i64`.
pub open spec fn last_timestamp(list: Seq<AttributeView>, key: Seq<char>) -> Option<i64>
    decreases list.len(),
{
    if list.len() == 0 {
        None
    } else if list.last().key == key {
        parse_i64_spec(list.last().value)
    } else {
        last_timestamp(list.drop_last(), key)
    }
}

/// The time from which rewards accrue: the last `rewards_updated_at`, else the last
/// `staked_at`.
pub open spec fn rewards_start(list: Seq<AttributeView>) -> Option<i64> {
    match last_timestamp(list, rewards_updated_at_key()) {
        Some(t) => Some(t),
        None => last_timestamp(list, staked_at_key()),
    }
}

/// An error found in a prefix is the first error of the whole list.
pub proof fn lemma_first_error_prefix(
    list: Seq<AttributeView>,
    n: int,
    check: spec_fn(AttributeView) -> Option<StakingError>,
)
    requires
        0 <= n <= list.len(),
        first_error(list.take(n), check) is Some,
    ensures
        first_error(list, check) == first_error(list.take(n), check),
    decreases list.len() - n,
{
    if n < list.len() {
        let longer = list.take(n + 1);
        assert(longer.drop_last() =~= list.take(n));
        lemma_first_error_prefix(list, n + 1, check);
    } else {
        assert(list.take(n) =~= list);
    }
}

} // verus!

verus! {

/// The attribute keys are different strings.
pub proof fn lemma_keys_distinct()
    ensures
        staked_key() != staked_at_key(),
        staked_key() != rewards_updated_at_key(),
        staked_at_key() != rewards_updated_at_key(),
        staked_count_key() != staked_key(),
        staked_count_key() != staked_at_key(),
        staked_count_key() != rewards_updated_at_key(),
        true_text() != false_text(),
{
    assert(staked_key().len() == 6);
    assert(staked_at_key().len() == 9);
    assert(rewards_updated_at_key().len() == 18);
    assert(staked_count_key().len() == 12);
    assert(true_text().len() == 4);
    assert(false_text().len() == 5);
}

} // verus!

verus! {

/// No entry is refused exactly when `check` accepts every entry.
pub proof fn lemma_first_error_none(
    list: Seq<AttributeView>,
    check: spec_fn(AttributeView) -> Option<StakingError>,
)
    ensures
        first_error(list, check) is None <==> forall|i: int|
            0 <= i < list.len() ==> (#[trigger] check(list[i])) is None,
    decreases list.len(),
{
    if list.len() > 0 {
        let rest = list.drop_last();
        lemma_first_error_none(rest, check);
        if first_error(list, check) is None {
            assert forall|i: int| 0 <= i < list.len() implies (#[trigger] check(list[i])) is None by {
                if i < rest.len() {
                    assert(list[i] == rest[i]);
                }
            }
        }
        if forall|i: int| 0 <= i < list.len() ==> (#[trigger] check(list[i])) is None {
            assert forall|i: int| 0 <= i < rest.len() implies (#[trigger] check(rest[i])) is None by {
                assert(list[i] == rest[i]);
            }
            assert(check(list[list.len() - 1]) is None);
        }
    }
}

/// When every entry with `key` holds `value`, the last timestamp under `key` is `value`'s.
pub proof fn lemma_last_timestamp_uniform(list: Seq<AttributeView>, key: Seq<char>, value: Seq<char>)
    requires
        has_key(list, key),
        forall|i: int| 0 <= i < list.len() && #[trigger] list[i].key == key ==> list[i].value == value,
    ensures
        last_timestamp(list, key) == parse_i64_spec(value),
    decreases list.len(),
{
    if list.last().key != key {
        let rest = list.drop_last();
        let w = choose|i: int| 0 <= i < list.len() && #[trigger] list[i].key == key;
        assert(rest[w].key == key);
        assert forall|i: int| 0 <= i < rest.len() && #[trigger] rest[i].key == key implies rest[i].value == value by {
            assert(rest[i] == list[i]);
        }
        lemma_last_timestamp_uniform(rest, key, value);
    } else {
        assert(list[list.len() - 1].key == key);
    }
}

} // verus!

verus! {

/// `loaded.ok_or(AssetNotStaked)`: an asset without an `Attributes` plugin is not staked.
pub fn staked_attributes(loaded: Option<Vec<AttributeEntry>>) -> (r: Result<
    Vec<AttributeEntry>,
    StakingError,
>)
    ensures
        match loaded {
            None => r == Err::<Vec<AttributeEntry>, StakingError>(StakingError::AssetNotStaked),
            Some(list) => r == Ok::<Vec<AttributeEntry>, StakingError>(list),
        },
{
    match loaded {
        Some(list) => Ok(list),
        None => Err(StakingError::AssetNotStaked),
    }
}

} // verus!

verus! {

/// The first error of a list is the error of one of its entries.
pub proof fn lemma_first_error_witness(
    list: Seq<AttributeView>,
    check: spec_fn(AttributeView) -> Option<StakingError>,
)
    requires
        first_error(list, check) is Some,
    ensures
        exists|i: int| 0 <= i < list.len() && #[trigger] check(list[i]) == first_error(list, check),
    decreases list.len(),
{
    let rest = list.drop_last();
    if first_error(rest, check) is Some {
        lemma_first_error_witness(rest, check);
        let i = choose|i: int| 0 <= i < rest.len() && #[trigger] check(rest[i]) == first_error(rest, check);
        assert(list[i] == rest[i]);
    } else {
        assert(check(list[list.len() - 1]) == first_error(list, check));
    }
}

} // verus!
