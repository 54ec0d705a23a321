use core_staking::asset::{
    asset_base_len, load_asset_attributes, plugin_outcome, plugins_start, registry_offsets,
    registry_start, try_load_asset_attributes, AssetBase, UpdateAuthorityKind,
};
use core_staking::attributes::AttributeEntry;
use core_staking::error::StakingError;
use mpl_core::accounts::{BaseAssetV1, PluginHeaderV1, PluginRegistryV1};
use mpl_core::types::{
    Attribute, Attributes, FreezeDelegate, Key, Plugin, PluginAuthority, PluginType,
    RegistryRecord, UpdateAuthority,
};

fn base(update_authority: UpdateAuthority, seq: Option<u64>) -> BaseAssetV1 {
    BaseAssetV1 {
        key: Key::AssetV1,
        owner: Default::default(),
        update_authority,
        name: "Staked Sloth #7".to_string(),
        uri: "https://example.com/7.json".to_string(),
        seq,
    }
}

fn attributes_plugin(pairs: &[(&str, &str)]) -> Plugin {
    Plugin::Attributes(Attributes {
        attribute_list: pairs
            .iter()
            .map(|(k, v)| Attribute { key: k.to_string(), value: v.to_string() })
            .collect(),
    })
}

/// An asset account: the base, a plugin header, the plugins, then the registry.
fn account(base: &BaseAssetV1, plugins: &[(PluginType, Plugin)]) -> Vec<u8> {
    let mut data = borsh::to_vec(base).unwrap();
    let header_at = data.len();
    data.extend(borsh::to_vec(&PluginHeaderV1 { key: Key::PluginHeaderV1, plugin_registry_offset: 0 }).unwrap());
    let mut registry = Vec::new();
    for (plugin_type, plugin) in plugins {
        registry.push(RegistryRecord {
            plugin_type: plugin_type.clone(),
            authority: PluginAuthority::UpdateAuthority,
            offset: data.len() as u64,
        });
        data.extend(borsh::to_vec(plugin).unwrap());
    }
    let registry_at = data.len() as u64;
    data.extend(
        borsh::to_vec(&PluginRegistryV1 { key: Key::PluginRegistryV1, registry, external_registry: vec![] })
            .unwrap(),
    );
    let header = borsh::to_vec(&PluginHeaderV1 { key: Key::PluginHeaderV1, plugin_registry_offset: registry_at }).unwrap();
    data[header_at..header_at + header.len()].copy_from_slice(&header);
    data
}

fn entries(pairs: &[(&str, &str)]) -> Vec<AttributeEntry> {
    pairs.iter().map(|(k, v)| AttributeEntry { key: k.to_string(), value: v.to_string() }).collect()
}

#[test]
fn base_len_matches_the_encoding() {
    for (authority, kind) in [
        (UpdateAuthority::None, UpdateAuthorityKind::Unset),
        (UpdateAuthority::Address(Default::default()), UpdateAuthorityKind::Address),
        (UpdateAuthority::Collection(Default::default()), UpdateAuthorityKind::Collection),
    ] {
        for seq in [None, Some(9)] {
            let b = base(authority.clone(), seq);
            let encoded = borsh::to_vec(&b).unwrap();
            let model = AssetBase {
                name_len: b.name.len(),
                uri_len: b.uri.len(),
                update_authority: kind,
                has_seq: seq.is_some(),
            };
            assert_eq!(asset_base_len(&model), encoded.len());
        }
    }
}

#[test]
fn base_len_exact_values() {
    let plain = AssetBase { name_len: 0, uri_len: 0, update_authority: UpdateAuthorityKind::Unset, has_seq: false };
    assert_eq!(asset_base_len(&plain), 43);
    let full = AssetBase { name_len: 5, uri_len: 10, update_authority: UpdateAuthorityKind::Collection, has_seq: true };
    assert_eq!(asset_base_len(&full), 43 + 15 + 32 + 8);
}

#[test]
fn asset_without_plugins_has_no_attributes() {
    let data = borsh::to_vec(&base(UpdateAuthority::Collection(Default::default()), None)).unwrap();
    assert_eq!(load_asset_attributes(&data), Ok(None));
    assert_eq!(try_load_asset_attributes(&data), Some(Ok(None)));
}

#[test]
fn reads_the_attributes_plugin() {
    let pairs = [("staked", "true"), ("staked_at", "1700000000")];
    let data = account(
        &base(UpdateAuthority::Collection(Default::default()), Some(3)),
        &[(PluginType::Attributes, attributes_plugin(&pairs))],
    );
    assert_eq!(load_asset_attributes(&data), Ok(Some(entries(&pairs))));
    assert_eq!(try_load_asset_attributes(&data), Some(Ok(Some(entries(&pairs)))));
}

#[test]
fn skips_other_plugins_to_the_attributes() {
    let pairs = [("level", "3")];
    let data = account(
        &base(UpdateAuthority::Address(Default::default()), None),
        &[
            (PluginType::FreezeDelegate, Plugin::FreezeDelegate(FreezeDelegate { frozen: true })),
            (PluginType::Attributes, attributes_plugin(&pairs)),
        ],
    );
    assert_eq!(load_asset_attributes(&data), Ok(Some(entries(&pairs))));
}

#[test]
fn asset_with_other_plugins_only_has_no_attributes() {
    let data = account(
        &base(UpdateAuthority::None, None),
        &[(PluginType::FreezeDelegate, Plugin::FreezeDelegate(FreezeDelegate { frozen: false }))],
    );
    assert_eq!(load_asset_attributes(&data), Ok(None));
}

#[test]
fn undecodable_account_is_refused() {
    assert_eq!(load_asset_attributes(&[]), Err(StakingError::InvalidTimestamp));
    assert_eq!(load_asset_attributes(&[1, 2, 3]), Err(StakingError::InvalidTimestamp));
    // A valid base followed by bytes that are no plugin header.
    let mut data = borsh::to_vec(&base(UpdateAuthority::None, None)).unwrap();
    data.push(1);
    assert_eq!(load_asset_attributes(&data), Err(StakingError::InvalidTimestamp));
}

#[test]
fn undecodable_plugin_is_refused() {
    let mut data = account(
        &base(UpdateAuthority::None, None),
        &[(PluginType::Attributes, attributes_plugin(&[("staked", "true")]))],
    );
    // The plugin sits right after the 9-byte header; break its variant tag.
    let plugin_at = borsh::to_vec(&base(UpdateAuthority::None, None)).unwrap().len() + 9;
    data[plugin_at] = 200;
    assert_eq!(load_asset_attributes(&data), Err(StakingError::InvalidTimestamp));
}

#[test]
fn offsets_past_the_end_are_reported() {
    let b = base(UpdateAuthority::None, None);
    let mut data = borsh::to_vec(&b).unwrap();
    data.extend(borsh::to_vec(&PluginHeaderV1 { key: Key::PluginHeaderV1, plugin_registry_offset: 10_000 }).unwrap());
    assert_eq!(try_load_asset_attributes(&data), None);

    let mut data = account(&b, &[(PluginType::Attributes, attributes_plugin(&[("a", "b")]))]);
    // Point the registry record at a place past the end of the account.
    let end = data.len();
    data[end - 12..end - 4].copy_from_slice(&(end as u64 + 1).to_le_bytes());
    assert_eq!(try_load_asset_attributes(&data), None);
}

#[test]
fn short_accounts_are_refused() {
    for len in [0usize, 1, 9, 42] {
        let data = vec![1u8; len];
        assert_eq!(try_load_asset_attributes(&data), Some(Err(StakingError::InvalidTimestamp)));
    }
}

#[test]
fn plugins_begin_after_the_base() {
    let model = AssetBase { name_len: 3, uri_len: 4, update_authority: UpdateAuthorityKind::Address, has_seq: false };
    assert_eq!(plugins_start(None, 100), Err(StakingError::InvalidTimestamp));
    assert_eq!(plugins_start(Some(model), 82), Ok(None));
    assert_eq!(plugins_start(Some(model), 100), Ok(Some(82)));
}

#[test]
fn registry_and_plugin_outcomes() {
    assert_eq!(registry_start(None), Err(StakingError::InvalidTimestamp));
    assert_eq!(registry_start(Some(120)), Ok(120));
    assert_eq!(registry_offsets(None), Err(StakingError::InvalidTimestamp));
    assert_eq!(registry_offsets(Some(vec![7, 9])), Ok(vec![7, 9]));
    assert_eq!(plugin_outcome(None), Some(Err(StakingError::InvalidTimestamp)));
    assert_eq!(plugin_outcome(Some(None)), None);
    let list = entries(&[("staked", "true")]);
    assert_eq!(plugin_outcome(Some(Some(entries(&[("staked", "true")])))), Some(Ok(list)));
}

#[test]
fn plugin_header_layout() {
    // A header whose key byte names no `Key` variant is refused.
    let b = base(UpdateAuthority::None, None);
    let mut data = account(&b, &[(PluginType::Attributes, attributes_plugin(&[("a", "b")]))]);
    let header_at = borsh::to_vec(&b).unwrap().len();
    assert_eq!(data[header_at], 3);
    data[header_at] = 7;
    assert_eq!(load_asset_attributes(&data), Err(StakingError::InvalidTimestamp));
    // Any of the seven key bytes is accepted, and the offset is little-endian.
    data[header_at] = 0;
    assert_eq!(load_asset_attributes(&data), Ok(Some(entries(&[("a", "b")]))));
    // A header cut short is refused.
    let mut short = borsh::to_vec(&b).unwrap();
    short.extend([3u8, 1, 2, 3]);
    assert_eq!(load_asset_attributes(&short), Err(StakingError::InvalidTimestamp));
}
