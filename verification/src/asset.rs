//! Reading the staking attributes out of a Metaplex Core asset account.
//!
//! An asset account holds the borsh encoding of `BaseAssetV1`, optionally
//! followed by a plugin header, a plugin registry and the plugins the
//! registry points at.  The decoding itself is done by `mpl_core`; this
//! module decides which bytes it is handed and what is made of its answers.
use vstd::prelude::*;

use borsh::BorshDeserialize;
use mpl_core::accounts::{BaseAssetV1, PluginHeaderV1};
use mpl_core::types::{Plugin, UpdateAuthority};
use mpl_core::PluginRegistryV1Safe;

use crate::attributes::{AttributeEntry, AttributeView};
use crate::error::StakingError;

verus! {

/// Which form an asset's update authority takes.
#[derive(Debug, Clone, Copy, PartialEq, Eq, Structural)]
pub enum UpdateAuthorityKind {
    Unset,
    Address,
    Collection,
}

/// What the staking logic reads of a decoded `BaseAssetV1`: the byte lengths of its
/// name and uri, the form of its update authority and whether it has a sequence number.
#[derive(Debug, Clone, Copy, PartialEq, Eq, Structural)]
pub struct AssetBase {
    pub name_len: usize,
    pub uri_len: usize,
    pub update_authority: UpdateAuthorityKind,
    pub has_seq: bool,
}

/// The number of bytes that the borsh encoding of a `BaseAssetV1` takes: key (1),
/// owner (32), update authority tag (1) and its key (32) when it names one, name and
/// uri (4 bytes of length each, plus their bytes), and the `seq` option (1, plus 8).
pub open spec fn base_len_spec(asset: AssetBase) -> int {
    1 + 32 + 1 + 4 + 4 + 1 + asset.name_len + asset.uri_len
        + (if asset.update_authority != UpdateAuthorityKind::Unset { 32int } else { 0int })
        + (if asset.has_seq { 8int } else { 0int })
}

/// The length of the base part of an asset account.
pub fn asset_base_len(asset: &AssetBase) -> (r: usize)
    requires
        base_len_spec(*asset) <= usize::MAX,
    ensures
        r == base_len_spec(*asset),
{
    let mut size = 1 + 32 + 1 + 4 + 4 + 1 + asset.name_len + asset.uri_len;
    match asset.update_authority {
        UpdateAuthorityKind::Address | UpdateAuthorityKind::Collection => {
            size = size + 32;
        },
        UpdateAuthorityKind::Unset => {},
    }
    if asset.has_seq {
        size = size + 8;
    }
    size
}

/// What borsh decoding of a `BaseAssetV1` makes of a byte string: the decoded base
/// and the number of bytes it was read from (`None` where decoding fails).
pub uninterp spec fn base_asset_decoding(data: Seq<u8>) -> Option<(AssetBase, nat)>;

/// The little-endian number in the eight bytes of `b`.
pub open spec fn le_u64(b: Seq<u8>) -> int {
    b[0] + 0x100 * b[1] + 0x1_0000 * b[2] + 0x100_0000 * b[3] + 0x1_0000_0000 * b[4]
        + 0x100_0000_0000 * b[5] + 0x1_0000_0000_0000 * b[6] + 0x100_0000_0000_0000 * b[7]
}

/// What `PluginHeaderV1::from_bytes` makes of a byte string: a `Key` (one byte, one of
/// its seven variants) followed by the registry offset as a little-endian `u64`;
/// bytes after those nine are not read.
pub open spec fn plugin_header_spec(data: Seq<u8>) -> Option<u64> {
    if data.len() >= 9 && data[0] < 7 {
        Some(le_u64(data.subrange(1, 9)) as u64)
    } else {
        None
    }
}

/// What `PluginRegistryV1Safe::from_bytes` makes of a byte string: the offsets of the
/// plugins in its registry, in registry order.
pub uninterp spec fn plugin_registry_decoding(data: Seq<u8>) -> Option<Seq<u64>>;

/// What borsh decoding of a `Plugin` makes of a byte string: `Some(Some(list))` for an
/// `Attributes` plugin with that attribute list, `Some(None)` for any other plugin.
pub uninterp spec fn plugin_attributes_decoding(data: Seq<u8>) -> Option<Option<Seq<AttributeView>>>;

/// Calls borsh's `deserialize` for `mpl_core::accounts::BaseAssetV1` (the body of
/// `BaseAssetV1::from_bytes`) and keeps what the staking logic reads, with the number
/// of bytes left unread.  Claimed: the result is a function of the bytes alone, and a
/// decoded base was read from exactly `base_len_spec` bytes at the front, since borsh
/// reads the fields in order (key, owner, update authority, name, uri, seq), each
/// taking the bytes counted there, and fails when the slice runs out.
#[verifier::external_body]
fn decode_base_asset(data: &[u8]) -> (r: Option<(AssetBase, usize)>)
    ensures
        r is None <==> base_asset_decoding(data@) is None,
        r matches Some((asset, rest)) ==> base_asset_decoding(data@) == Some(
            (asset, (data@.len() - rest) as nat),
        ),
        r matches Some((asset, rest)) ==> rest + base_len_spec(asset) == data@.len(),
{
    let mut rest = data;
    match BaseAssetV1::deserialize(&mut rest) {
        Ok(asset) => Some((AssetBase {
            name_len: asset.name.len(),
            uri_len: asset.uri.len(),
            update_authority: match asset.update_authority {
                UpdateAuthority::None => UpdateAuthorityKind::Unset,
                UpdateAuthority::Address(_) => UpdateAuthorityKind::Address,
                UpdateAuthority::Collection(_) => UpdateAuthorityKind::Collection,
            },
            has_seq: asset.seq.is_some(),
        }, rest.len())),
        Err(_) => None,
    }
}

/// Calls `mpl_core::accounts::PluginHeaderV1::from_bytes` and keeps the registry
/// offset.  Claimed: borsh reads the `Key` as one byte that must name one of its
/// seven variants, then the offset as eight little-endian bytes.
#[verifier::external_body]
fn decode_plugin_header(data: &[u8]) -> (r: Option<u64>)
    ensures
        r == plugin_header_spec(data@),
{
    match PluginHeaderV1::from_bytes(data) {
        Ok(header) => Some(header.plugin_registry_offset),
        Err(_) => None,
    }
}

/// Calls `mpl_core::PluginRegistryV1Safe::from_bytes` and keeps the offset of each
/// registry record, in order.  Claimed: the result is a function of the bytes alone.
#[verifier::external_body]
fn decode_plugin_registry(data: &[u8]) -> (r: Option<Vec<u64>>)
    ensures
        r is None <==> plugin_registry_decoding(data@) is None,
        r matches Some(offsets) ==> plugin_registry_decoding(data@) == Some(offsets@),
{
    match PluginRegistryV1Safe::from_bytes(data) {
        Ok(registry) => Some(registry.registry.iter().map(|record| record.offset).collect()),
        Err(_) => None,
    }
}

/// Calls borsh's `deserialize` for `mpl_core::types::Plugin` on the bytes and keeps the
/// attribute list of an `Attributes` plugin.  Claimed: the result is a function of
/// the bytes alone.
#[verifier::external_body]
fn decode_plugin(data: &[u8]) -> (r: Option<Option<Vec<AttributeEntry>>>)
    ensures
        r is None <==> plugin_attributes_decoding(data@) is None,
        r == Some(Option::<Vec<AttributeEntry>>::None) ==> plugin_attributes_decoding(data@)
            == Some(Option::<Seq<AttributeView>>::None),
        r matches Some(Some(list)) ==> plugin_attributes_decoding(data@) == Some(
            Some(list.deep_view()),
        ),
{
    let mut bytes = data;
    match Plugin::deserialize(&mut bytes) {
        Ok(Plugin::Attributes(attributes)) => Some(Some(
            attributes.attribute_list.into_iter().map(|a| AttributeEntry { key: a.key, value: a.value }).collect(),
        )),
        Ok(_) => Some(None),
        Err(_) => None,
    }
}

} // verus!

verus! {

/// Where the plugins of an asset account begin, given its decoded base: `Ok(None)` when
/// the base fills the whole account, `Err(InvalidTimestamp)` when the base did not decode.
pub fn plugins_start(base: Option<AssetBase>, data_len: usize) -> (r: Result<Option<usize>, StakingError>)
    requires
        base matches Some(asset) ==> base_len_spec(asset) <= data_len,
    ensures
        r == match base {
            None => Err(StakingError::InvalidTimestamp),
            Some(asset) => if base_len_spec(asset) == data_len {
                Ok(None)
            } else {
                Ok(Some(base_len_spec(asset) as usize))
            },
        },
{
    match base {
        None => Err(StakingError::InvalidTimestamp),
        Some(asset) => {
            let base_len = asset_base_len(&asset);
            if base_len == data_len {
                Ok(None)
            } else {
                Ok(Some(base_len))
            }
        },
    }
}

/// The registry offset, given the decoded plugin header.
pub fn registry_start(header: Option<u64>) -> (r: Result<u64, StakingError>)
    ensures
        r == match header {
            None => Err(StakingError::InvalidTimestamp),
            Some(offset) => Ok(offset),
        },
{
    match header {
        Some(offset) => Ok(offset),
        None => Err(StakingError::InvalidTimestamp),
    }
}

/// The plugin offsets to visit, given the decoded plugin registry.
pub fn registry_offsets(registry: Option<Vec<u64>>) -> (r: Result<Vec<u64>, StakingError>)
    ensures
        match registry {
            None => r == Err::<Vec<u64>, StakingError>(StakingError::InvalidTimestamp),
            Some(offsets) => r matches Ok(o) && o@ == offsets@,
        },
{
    match registry {
        Some(offsets) => Ok(offsets),
        None => Err(StakingError::InvalidTimestamp),
    }
}

/// What a decoded plugin decides: `Some(Ok(list))` stops at an `Attributes` plugin,
/// `Some(Err(InvalidTimestamp))` stops at a plugin that did not decode, `None` goes on
/// to the next plugin.
pub fn plugin_outcome(plugin: Option<Option<Vec<AttributeEntry>>>) -> (r: Option<
    Result<Vec<AttributeEntry>, StakingError>,
>)
    ensures
        match plugin {
            None => r == Some(Err::<Vec<AttributeEntry>, StakingError>(StakingError::InvalidTimestamp)),
            Some(None) => r is None,
            Some(Some(list)) => r matches Some(Ok(l)) && l.deep_view() == list.deep_view(),
        },
{
    match plugin {
        None => Some(Err(StakingError::InvalidTimestamp)),
        Some(None) => None,
        Some(Some(list)) => Some(Ok(list)),
    }
}

/// The plugins at `offsets`, in order, until the first `Attributes` plugin: its list,
/// or `Ok(None)` when there is none; a plugin that does not decode is an error.
pub open spec fn scan_for_attributes(data: Seq<u8>, offsets: Seq<u64>) -> Result<
    Option<Seq<AttributeView>>,
    StakingError,
>
    decreases offsets.len(),
{
    if offsets.len() == 0 {
        Ok(None)
    } else {
        match plugin_attributes_decoding(data.skip(offsets[0] as int)) {
            None => Err(StakingError::InvalidTimestamp),
            Some(Some(list)) => Ok(Some(list)),
            Some(None) => scan_for_attributes(data, offsets.drop_first()),
        }
    }
}

/// The attribute list of an asset account: `Ok(None)` when the account has no
/// plugins or no `Attributes` plugin, `Err(InvalidTimestamp)` when a part of it does
/// not decode.
pub open spec fn asset_attributes_spec(data: Seq<u8>) -> Result<
    Option<Seq<AttributeView>>,
    StakingError,
> {
    match base_asset_decoding(data) {
        None => Err(StakingError::InvalidTimestamp),
        Some((asset, _)) => {
            let base_len = base_len_spec(asset);
            if base_len == data.len() {
                Ok(None)
            } else {
                match plugin_header_spec(data.skip(base_len)) {
                    None => Err(StakingError::InvalidTimestamp),
                    Some(registry_offset) => match plugin_registry_decoding(
                        data.skip(registry_offset as int),
                    ) {
                        None => Err(StakingError::InvalidTimestamp),
                        Some(offsets) => scan_for_attributes(data, offsets),
                    },
                }
            }
        },
    }
}

/// Every offset that the scan of `offsets` reaches lies within the account.
pub open spec fn scan_offsets_in_bounds(data: Seq<u8>, offsets: Seq<u64>) -> bool
    decreases offsets.len(),
{
    offsets.len() == 0 || (offsets[0] <= data.len() && match plugin_attributes_decoding(
        data.skip(offsets[0] as int),
    ) {
        Some(None) => scan_offsets_in_bounds(data, offsets.drop_first()),
        _ => true,
    })
}

/// Every offset that reading the attributes follows lies within the account, so that
/// no slice of the account data is taken past its end.
pub open spec fn attribute_offsets_in_bounds(data: Seq<u8>) -> bool {
    match base_asset_decoding(data) {
        None => true,
        Some((asset, _)) => base_len_spec(asset) == data.len() || match plugin_header_spec(
            data.skip(base_len_spec(asset)),
        ) {
            None => true,
            Some(registry_offset) => registry_offset <= data.len() && match plugin_registry_decoding(
                data.skip(registry_offset as int),
            ) {
                None => true,
                Some(offsets) => scan_offsets_in_bounds(data, offsets),
            },
        },
    }
}

/// Every offset the account names lies within it: the registry offset in its plugin
/// header, and the offset of every plugin that its registry lists.
pub open spec fn named_offsets_fit(data: Seq<u8>) -> bool {
    match base_asset_decoding(data) {
        None => true,
        Some((asset, _)) => base_len_spec(asset) == data.len() || match plugin_header_spec(
            data.skip(base_len_spec(asset)),
        ) {
            None => true,
            Some(registry_offset) => registry_offset <= data.len() && match plugin_registry_decoding(
                data.skip(registry_offset as int),
            ) {
                None => true,
                Some(offsets) => forall|i: int| 0 <= i < offsets.len() ==> #[trigger] offsets[i] <= data.len(),
            },
        },
    }
}

/// The scan stays within the account whenever every offset it is given does, whatever
/// the plugins at those offsets are.
pub proof fn lemma_scan_in_bounds_when_offsets_fit(data: Seq<u8>, offsets: Seq<u64>)
    requires
        forall|i: int| 0 <= i < offsets.len() ==> #[trigger] offsets[i] <= data.len(),
    ensures
        scan_offsets_in_bounds(data, offsets),
    decreases offsets.len(),
{
    if offsets.len() > 0 {
        let rest = offsets.drop_first();
        assert forall|i: int| 0 <= i < rest.len() implies #[trigger] rest[i] <= data.len() by {
            assert(rest[i] == offsets[i + 1]);
        }
        lemma_scan_in_bounds_when_offsets_fit(data, rest);
    }
}

/// A scan leaves the account only at an offset past its end.
pub proof fn lemma_scan_out_of_bounds_has_a_reason(data: Seq<u8>, offsets: Seq<u64>)
    requires
        !scan_offsets_in_bounds(data, offsets),
    ensures
        exists|i: int| 0 <= i < offsets.len() && #[trigger] offsets[i] > data.len(),
    decreases offsets.len(),
{
    if offsets[0] <= data.len() {
        let rest = offsets.drop_first();
        lemma_scan_out_of_bounds_has_a_reason(data, rest);
        let i = choose|i: int| 0 <= i < rest.len() && #[trigger] rest[i] > data.len();
        assert(offsets[i + 1] == rest[i]);
    }
}

/// Reading the attributes stays within the account whenever every offset the account
/// names does; and where it would leave the account, some named offset lies past its end.
pub proof fn lemma_in_bounds_when_offsets_fit(data: Seq<u8>)
    ensures
        named_offsets_fit(data) ==> attribute_offsets_in_bounds(data),
        !attribute_offsets_in_bounds(data) ==> !named_offsets_fit(data),
{
    if let Some((asset, _)) = base_asset_decoding(data) {
        if base_len_spec(asset) != data.len() {
            if let Some(registry_offset) = plugin_header_spec(data.skip(base_len_spec(asset))) {
                if let Some(offsets) = plugin_registry_decoding(data.skip(registry_offset as int)) {
                    if forall|i: int| 0 <= i < offsets.len() ==> #[trigger] offsets[i] <= data.len() {
                        lemma_scan_in_bounds_when_offsets_fit(data, offsets);
                    }
                }
            }
        }
    }
}

/// A decoded base was read from exactly its `base_len_spec` bytes at the front of the
/// account: the plugin header begins at `asset_base_len`.
pub open spec fn base_read_from_its_length(data: Seq<u8>) -> bool {
    base_asset_decoding(data) matches Some((asset, read)) ==> read == base_len_spec(asset) && read
        <= data.len()
}

/// The mathematical content of a loaded attribute list.
pub open spec fn loaded_view(r: Result<Option<Vec<AttributeEntry>>, StakingError>) -> Result<
    Option<Seq<AttributeView>>,
    StakingError,
> {
    match r {
        Ok(Some(list)) => Ok(Some(list.deep_view())),
        Ok(None) => Ok(None),
        Err(e) => Err(e),
    }
}

/// The account bytes from `start` on.
fn tail(data: &[u8], start: usize) -> (r: &[u8])
    requires
        start <= data@.len(),
    ensures
        r@ == data@.skip(start as int),
{
    let r = &data[start..data.len()];
    assert(r@ =~= data@.skip(start as int));
    r
}

/// Decodes the base of an asset account.
fn read_base(data: &[u8]) -> (r: Option<AssetBase>)
    ensures
        base_read_from_its_length(data@),
        r is None <==> base_asset_decoding(data@) is None,
        r matches Some(asset) ==> base_asset_decoding(data@) matches Some((a, _)) && a == asset,
{
    match decode_base_asset(data) {
        Some((asset, _)) => Some(asset),
        None => None,
    }
}

/// Reads the `Attributes` plugin of an asset account.
pub fn load_asset_attributes(data: &[u8]) -> (r: Result<Option<Vec<AttributeEntry>>, StakingError>)
    requires
        attribute_offsets_in_bounds(data@),
    ensures
        loaded_view(r) == asset_attributes_spec(data@),
        base_read_from_its_length(data@),
        data@.len() < 43 ==> r == Err::<Option<Vec<AttributeEntry>>, StakingError>(
            StakingError::InvalidTimestamp,
        ),
{
    let len = data.len();
    let base = read_base(data);
    let start = match plugins_start(base, len) {
        Ok(Some(start)) => start,
        Ok(None) => return Ok(None),
        Err(e) => return Err(e),
    };
    let registry_offset = match registry_start(decode_plugin_header(tail(data, start))) {
        Ok(offset) => offset,
        Err(e) => return Err(e),
    };
    let offsets = match registry_offsets(decode_plugin_registry(tail(data, registry_offset as usize))) {
        Ok(offsets) => offsets,
        Err(e) => return Err(e),
    };
    let ghost all = offsets@;
    assert(all.skip(0) =~= all);
    let mut i: usize = 0;
    while i < offsets.len()
        invariant
            i <= offsets@.len(),
            all == offsets@,
            len == data@.len(),
            data@.len() >= 43,
            base_read_from_its_length(data@),
            asset_attributes_spec(data@) == scan_for_attributes(data@, all),
            scan_for_attributes(data@, all) == scan_for_attributes(data@, all.skip(i as int)),
            scan_offsets_in_bounds(data@, all.skip(i as int)),
        decreases offsets.len() - i,
    {
        let ghost rest = all.skip(i as int);
        assert(rest[0] == offsets@[i as int]);
        assert(rest.drop_first() =~= all.skip(i + 1));
        let offset = offsets[i];
        match plugin_outcome(decode_plugin(tail(data, offset as usize))) {
            Some(Ok(list)) => return Ok(Some(list)),
            Some(Err(e)) => return Err(e),
            None => {},
        }
        i = i + 1;
    }
    assert(all.skip(i as int) =~= Seq::<u64>::empty());
    Ok(None)
}

/// Whether every offset that reading the attributes follows lies within the account.
fn attribute_offsets_checked(data: &[u8]) -> (r: bool)
    ensures
        r == attribute_offsets_in_bounds(data@),
        base_read_from_its_length(data@),
{
    let len = data.len();
    let base = match read_base(data) {
        Some(asset) => asset,
        None => return true,
    };
    let base_len = asset_base_len(&base);
    if base_len == data.len() {
        return true;
    }
    let registry_offset = match decode_plugin_header(tail(data, base_len)) {
        Some(offset) => offset,
        None => return true,
    };
    if registry_offset > data.len() as u64 {
        return false;
    }
    let offsets = match decode_plugin_registry(tail(data, registry_offset as usize)) {
        Some(offsets) => offsets,
        None => return true,
    };
    let ghost all = offsets@;
    assert(all.skip(0) =~= all);
    let mut i: usize = 0;
    while i < offsets.len()
        invariant
            i <= offsets@.len(),
            all == offsets@,
            len == data@.len(),
            base_read_from_its_length(data@),
            attribute_offsets_in_bounds(data@) == scan_offsets_in_bounds(data@, all),
            scan_offsets_in_bounds(data@, all) == scan_offsets_in_bounds(data@, all.skip(i as int)),
        decreases offsets.len() - i,
    {
        let ghost rest = all.skip(i as int);
        assert(rest[0] == offsets@[i as int]);
        assert(rest.drop_first() =~= all.skip(i + 1));
        let offset = offsets[i];
        if offset > data.len() as u64 {
            return false;
        }
        match decode_plugin(tail(data, offset as usize)) {
            Some(None) => {},
            _ => return true,
        }
        i = i + 1;
    }
    assert(all.skip(i as int) =~= Seq::<u64>::empty());
    true
}

/// Reads the `Attributes` plugin of an asset account, or gives `None` where an offset
/// that the reading follows points past the end of the account (where slicing the
/// account data would fail).
pub fn try_load_asset_attributes(data: &[u8]) -> (r: Option<
    Result<Option<Vec<AttributeEntry>>, StakingError>,
>)
    ensures
        r is None <==> !attribute_offsets_in_bounds(data@),
        r matches Some(loaded) ==> loaded_view(loaded) == asset_attributes_spec(data@),
        base_read_from_its_length(data@),
        data@.len() < 43 ==> r == Some(
            Err::<Option<Vec<AttributeEntry>>, StakingError>(StakingError::InvalidTimestamp),
        ),
        named_offsets_fit(data@) ==> r is Some,
{
    proof {
        lemma_in_bounds_when_offsets_fit(data@);
    }
    if attribute_offsets_checked(data) {
        Some(load_asset_attributes(data))
    } else {
        None
    }
}

} // verus!
