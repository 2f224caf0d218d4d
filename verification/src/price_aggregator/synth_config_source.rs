//! What synthetics can be borrowed against: configured, or found on chain with an NFT.

use vstd::prelude::*;

use crate::config::{CollateralConfig, CurrencyConfig, SyntheticConfig};
use crate::encoding::{hex_bytes, hex_decode, hex_digits, hex_encode, is_hex};
use crate::health::{HealthInfo, HealthInfoView, HealthStatus, Origin, OriginView, StatusView};
use crate::names::{ascending, keys_of, lemma_entry, lemma_place, map_of, precedes, str_equal, NameMap, Named};
use crate::numbers::{decimal_digits, u64_to_text};
use crate::plutus::{cbor_tree, Plutus, PlutusData};
use crate::price_feed::codec::trees;
use crate::price_feed::synthetic::{clone_names, names_in, texts};
use crate::text::{between, join};

pub mod laws;

verus! {

/// How long a configuration that was found is used before it is looked up again, in nanoseconds.
pub const REFRESH_INTERVAL: u128 = 30_000_000_000;

/// The tag of a struct's first variant.
const FIRST_VARIANT: u64 = 121;

/// A token on chain, in hexadecimal digits.
pub struct AssetView {
    pub policy_id: Seq<char>,
    pub asset_name: Seq<char>,
}

#[derive(Debug)]
pub struct AssetClass {
    pub policy_id: String,
    pub asset_name: String,
}

impl View for AssetClass {
    type V = AssetView;

    open spec fn view(&self) -> AssetView {
        AssetView { policy_id: self.policy_id@, asset_name: self.asset_name@ }
    }
}

/// The first fields of a struct, or what is wrong with it.
pub open spec fn struct_fields(data: Plutus, count: nat) -> Result<Seq<Plutus>, Seq<char>> {
    match data {
        Plutus::Constr { tag, fields, .. } => if tag != 121 {
            Err("datum has unexpected variant (expected 121, got "@ + decimal_digits(tag as nat) + ")"@)
        } else if fields.len() < count {
            Err(
                "too few elements (expected at least "@ + decimal_digits(count) + ", got "@ + decimal_digits(fields.len())
                    + ")"@,
            )
        } else {
            Ok(fields.take(count as int))
        },
        _ => Err("datum is not a struct"@),
    }
}

/// A token that stands at a place in a list.
pub open spec fn asset_at(data: Plutus, index: nat) -> Result<AssetView, Seq<char>> {
    match struct_fields(data, 2) {
        Err(error) => Err(error),
        Ok(fields) => match fields[0] {
            Plutus::BoundedBytes(policy_id) => match fields[1] {
                Plutus::BoundedBytes(asset_name) => Ok(
                    AssetView { policy_id: hex_digits(policy_id), asset_name: hex_digits(asset_name) },
                ),
                _ => Err("asset "@ + decimal_digits(index) + " has invalid asset name"@),
            },
            _ => Err("asset "@ + decimal_digits(index) + " has invalid policy id"@),
        },
    }
}

/// The tokens of a list, or what is wrong with the first of them that is not one.
pub open spec fn assets_in(items: Seq<Plutus>) -> Result<Seq<AssetView>, Seq<char>>
    decreases items.len(),
{
    if items.len() == 0 {
        Ok(seq![])
    } else {
        match assets_in(items.drop_last()) {
            Err(error) => Err(error),
            Ok(assets) => match asset_at(items.last(), (items.len() - 1) as nat) {
                Err(error) => Err(error),
                Ok(asset) => Ok(assets.push(asset)),
            },
        }
    }
}

/// The tokens that a synthetic's datum lists: they are the first field of the first field of the first field.
pub open spec fn collateral_assets(datum: Plutus) -> Result<Seq<AssetView>, Seq<char>> {
    match struct_fields(datum, 1) {
        Err(error) => Err(error),
        Ok(outer) => match struct_fields(outer[0], 1) {
            Err(error) => Err(error),
            Ok(wrapper) => match struct_fields(wrapper[0], 1) {
                Err(error) => Err(error),
                Ok(params) => match params[0] {
                    Plutus::Array { items, .. } => assets_in(items),
                    _ => Err("datum has invalid collateral assets"@),
                },
            },
        },
    }
}

/// The fields or the error of an outcome.
pub open spec fn fields_in(outcome: Result<Vec<PlutusData>, String>) -> Result<Seq<Plutus>, Seq<char>> {
    match outcome {
        Ok(fields) => Ok(trees(fields@)),
        Err(error) => Err(error@),
    }
}

/// The tokens or the error of an outcome.
pub open spec fn assets_found(outcome: Result<Vec<AssetClass>, String>) -> Result<Seq<AssetView>, Seq<char>> {
    match outcome {
        Ok(assets) => Ok(Seq::new(assets@.len(), |i: int| assets@[i]@)),
        Err(error) => Err(error@),
    }
}

/// The first fields of a struct, or what is wrong with it.
fn decode_struct(datum: PlutusData, count: usize) -> (r: Result<Vec<PlutusData>, String>)
    ensures
        fields_in(r) == struct_fields(datum@, count as nat),
        r matches Ok(fields) ==> fields@.len() == count,
{
    match datum {
        PlutusData::Constr { tag, fields, .. } => {
            assert(datum@->Constr_fields =~= trees(fields@));
            if tag != FIRST_VARIANT {
                return Err(
                    between(
                        "datum has unexpected variant (expected 121, got ",
                        u64_to_text(tag).as_str(),
                        ")",
                    ),
                );
            }
            let found: usize = fields.len();
            if found < count {
                let start = between(
                    "too few elements (expected at least ",
                    u64_to_text(count as u64).as_str(),
                    ", got ",
                );
                return Err(between(start.as_str(), u64_to_text(found as u64).as_str(), ")"));
            }
            let mut fields = fields;
            let ghost all = fields@;
            fields.truncate(count);
            assert(trees(fields@) =~= trees(all).take(count as int));
            Ok(fields)
        },
        _ => Err("datum is not a struct".to_owned()),
    }
}

/// The token that stands at a place in a list.
fn decode_asset(asset: PlutusData, index: usize) -> (r: Result<AssetClass, String>)
    ensures
        match r {
            Ok(asset_class) => asset_at(asset@, index as nat) == Ok::<AssetView, Seq<char>>(asset_class@),
            Err(error) => asset_at(asset@, index as nat) == Err::<AssetView, Seq<char>>(error@),
        },
{
    let mut fields = match decode_struct(asset, 2) {
        Ok(fields) => fields,
        Err(error) => {
            return Err(error);
        },
    };
    let ghost all = trees(fields@);
    let asset_name = fields.remove(1);
    let policy_id = fields.remove(0);
    assert(all[0] == policy_id@ && all[1] == asset_name@);
    let policy_id = match policy_id {
        PlutusData::BoundedBytes(bytes) => bytes,
        _ => {
            return Err(between("asset ", u64_to_text(index as u64).as_str(), " has invalid policy id"));
        },
    };
    let asset_name = match asset_name {
        PlutusData::BoundedBytes(bytes) => bytes,
        _ => {
            return Err(between("asset ", u64_to_text(index as u64).as_str(), " has invalid asset name"));
        },
    };
    Ok(AssetClass { policy_id: hex_encode(policy_id.as_slice()), asset_name: hex_encode(asset_name.as_slice()) })
}

/// The first of the fields that a struct has at least one of.
fn decode_only_field(datum: PlutusData) -> (r: Result<PlutusData, String>)
    ensures
        match r {
            Ok(field) => struct_fields(datum@, 1) matches Ok(fields) && fields[0] == field@,
            Err(error) => struct_fields(datum@, 1) == Err::<Seq<Plutus>, Seq<char>>(error@),
        },
{
    match decode_struct(datum, 1) {
        Ok(fields) => {
            let mut fields = fields;
            let ghost all = trees(fields@);
            let field = fields.remove(0);
            assert(all[0] == field@);
            Ok(field)
        },
        Err(error) => Err(error),
    }
}

/// The tokens that a synthetic's datum lists.
pub fn extract_collateral_assets(datum: PlutusData) -> (r: Result<Vec<AssetClass>, String>)
    ensures
        assets_found(r) == collateral_assets(datum@),
{
    let wrapper = match decode_only_field(datum) {
        Ok(field) => field,
        Err(error) => {
            return Err(error);
        },
    };
    let params = match decode_only_field(wrapper) {
        Ok(field) => field,
        Err(error) => {
            return Err(error);
        },
    };
    let listed = match decode_only_field(params) {
        Ok(field) => field,
        Err(error) => {
            return Err(error);
        },
    };
    let ghost tree = listed@;
    let items = match listed {
        PlutusData::Array { items, .. } => items,
        _ => {
            return Err("datum has invalid collateral assets".to_owned());
        },
    };
    let ghost all = trees(items@);
    assert(tree->items =~= all);
    let mut items = items;
    let count: usize = items.len();
    let mut assets: Vec<AssetClass> = Vec::new();
    let mut index: usize = 0;
    assert(all.take(0) =~= seq![]);
    assert(Seq::new(assets@.len(), |i: int| assets@[i]@) =~= Seq::<AssetView>::empty());
    while items.len() > 0
        invariant
            collateral_assets(datum@) == assets_in(all),
            index + items.len() == all.len(),
            all.len() == count,
            trees(items@) == all.skip(index as int),
            assets_in(all.take(index as int)) == Ok::<Seq<AssetView>, Seq<char>>(
                Seq::new(assets@.len(), |i: int| assets@[i]@),
            ),
        decreases items.len(),
    {
        let ghost before = assets@;
        let ghost rest = items@;
        let item = items.remove(0);
        proof {
            assert(trees(rest)[0] == item@);
            assert(all[index as int] == item@);
            assert forall|j: int| 0 <= j < items@.len() implies #[trigger] trees(items@)[j] == all.skip(index + 1)[j] by {
                assert(items@[j] == rest[j + 1]);
                assert(trees(rest)[j + 1] == all.skip(index as int)[j + 1]);
            }
            assert(trees(items@) =~= all.skip(index + 1));
            assert(all.take(index + 1).drop_last() =~= all.take(index as int));
            assert(all.take(index + 1).last() == item@);
        }
        match decode_asset(item, index) {
            Ok(asset) => {
                assets.push(asset);
                assert(Seq::new(assets@.len(), |i: int| assets@[i]@) =~= Seq::new(
                    before.len(),
                    |i: int| before[i]@,
                ).push(asset@));
            },
            Err(error) => {
                proof {
                    lemma_first_error(all, index + 1);
                }
                return Err(error);
            },
        }
        index += 1;
    }
    assert(all.take(index as int) =~= all);
    Ok(assets)
}

/// What is wrong with the start of a list is wrong with the list.
proof fn lemma_first_error(items: Seq<Plutus>, n: int)
    requires
        0 <= n <= items.len(),
        assets_in(items.take(n)) is Err,
    ensures
        assets_in(items) == assets_in(items.take(n)),
    decreases items.len(),
{
    if n == items.len() {
        assert(items.take(n) =~= items);
    } else {
        assert(items.drop_last().take(n) =~= items.take(n));
        lemma_first_error(items.drop_last(), n);
    }
}

/// A synthetic's configuration could not be found. Where the chain was asked in vain, what was found before is
/// still used; where the answer makes no sense, it is not.
#[derive(Debug)]
pub struct UpdateConfigError {
    pub message: String,
    pub clear: bool,
}

pub struct UpdateConfigErrorView {
    pub message: Seq<char>,
    pub clear: bool,
}

impl View for UpdateConfigError {
    type V = UpdateConfigErrorView;

    open spec fn view(&self) -> UpdateConfigErrorView {
        UpdateConfigErrorView { message: self.message@, clear: self.clear }
    }
}

fn fail<T>(clear: bool, message: String) -> (r: Result<T, UpdateConfigError>)
    ensures
        r matches Err(error) && error@ == (UpdateConfigErrorView { message: message@, clear }),
{
    Err(UpdateConfigError { message, clear })
}

pub open spec fn failure<T>(clear: bool, message: Seq<char>) -> Result<T, UpdateConfigErrorView> {
    Err(UpdateConfigErrorView { message, clear })
}

/// The outputs that hold an NFT, each by the hash of its datum if it has one; or why they could not be found.
pub type MatchesReply = Result<Vec<Option<String>>, String>;

/// A datum in hexadecimal digits, if it was found; or why it could not be asked for.
pub type DatumReply = Result<Option<String>, String>;

/// Which datum to ask for next, when these outputs hold the NFT.
pub open spec fn datum_to_ask(nft: Seq<char>, reply: MatchesReply) -> Result<Seq<char>, UpdateConfigErrorView> {
    match reply {
        Err(error) => failure(false, "could not fetch owner for NFT "@ + nft + ": "@ + error@),
        Ok(matches) => if matches@.len() == 0 {
            failure(true, "no UTxO found for NFT "@ + nft)
        } else if matches@.len() > 1 {
            failure(
                true,
                "found "@ + decimal_digits(matches@.len()) + " UTxOs for NFT "@ + nft + ", expected 1"@,
            )
        } else {
            match matches@[0] {
                None => failure(true, "no datum associated with NFT "@ + nft),
                Some(hash) => Ok(hash@),
            }
        },
    }
}

/// Which datum to ask for next, when these outputs hold the NFT.
pub fn receive_matches(nft: &str, reply: MatchesReply) -> (r: Result<String, UpdateConfigError>)
    ensures
        match r {
            Ok(hash) => datum_to_ask(nft@, reply) == Ok::<Seq<char>, UpdateConfigErrorView>(hash@),
            Err(error) => datum_to_ask(nft@, reply) == Err::<Seq<char>, UpdateConfigErrorView>(error@),
        },
{
    match reply {
        Err(error) => fail(
            false,
            join(between("could not fetch owner for NFT ", nft, ": ").as_str(), error.as_str()),
        ),
        Ok(matches) => {
            let count: usize = matches.len();
            if count == 0 {
                return fail(true, join("no UTxO found for NFT ", nft));
            }
            if count > 1 {
                let start = between("found ", u64_to_text(count as u64).as_str(), " UTxOs for NFT ");
                return fail(true, between(start.as_str(), nft, ", expected 1"));
            }
            match &matches[0] {
                None => fail(true, join("no datum associated with NFT ", nft)),
                Some(hash) => Ok(hash.clone()),
            }
        },
    }
}

/// What a token is called. ADA has no policy and no name.
pub open spec fn asset_id(asset: AssetView) -> Seq<char> {
    asset.policy_id + "."@ + asset.asset_name
}

/// The names of these tokens.
pub open spec fn names_of_assets(
    asset_names: Map<Seq<char>, Seq<char>>,
    assets: Seq<AssetView>,
) -> Result<Seq<Seq<char>>, UpdateConfigErrorView>
    decreases assets.len(),
{
    if assets.len() == 0 {
        Ok(seq![])
    } else {
        match names_of_assets(asset_names, assets.drop_last()) {
            Err(error) => Err(error),
            Ok(names) => {
                let asset = assets.last();
                if asset.policy_id.len() == 0 && asset.asset_name.len() == 0 {
                    Ok(names.push("ADA"@))
                } else if asset_names.contains_key(asset_id(asset)) {
                    Ok(names.push(asset_names[asset_id(asset)]))
                } else {
                    failure(true, "unrecognized asset id "@ + asset_id(asset))
                }
            },
        }
    }
}

/// What a synthetic can be borrowed against, by its datum.
pub open spec fn collateral_in(
    asset_names: Map<Seq<char>, Seq<char>>,
    nft: Seq<char>,
    reply: DatumReply,
) -> Result<Seq<Seq<char>>, UpdateConfigErrorView> {
    match reply {
        Err(error) => failure(false, "could not fetch datum for NFT "@ + nft + ": "@ + error@),
        Ok(None) => failure(true, "datum not found for NFT "@ + nft),
        Ok(Some(datum)) => if !is_hex(datum@) {
            failure(true, "malformed datum for NFT "@ + nft)
        } else {
            match cbor_tree(hex_bytes(datum@)) {
                None => failure(true, "invalid CBOR for NFT "@ + nft),
                Some(tree) => match collateral_assets(tree) {
                    Err(error) => failure(true, "could not parse datum for NFT "@ + nft + ": "@ + error),
                    Ok(assets) => names_of_assets(asset_names, assets),
                },
            }
        },
    }
}

/// What was found, or why it was not.
pub open spec fn collateral_found(
    outcome: Result<Vec<String>, UpdateConfigError>,
) -> Result<Seq<Seq<char>>, UpdateConfigErrorView> {
    match outcome {
        Ok(names) => Ok(texts(names@)),
        Err(error) => Err(error@),
    }
}

/// What is known of a synthetic's collateral.
struct CollateralState {
    config: CollateralConfig,
    collateral: Option<Vec<String>>,
}

/// What is known of a synthetic's collateral.
pub struct CollateralView {
    /// The NFT to look it up with.
    pub nft: Option<Seq<char>>,
    /// What is configured.
    pub list: Seq<Seq<char>>,
    /// What was found.
    pub found: Option<Seq<Seq<char>>>,
}

pub struct ConfigSourceView {
    /// The names of tokens by what they are called on chain.
    pub asset_names: Map<Seq<char>, Seq<char>>,
    pub collateral: Map<Seq<char>, CollateralView>,
    pub next_refresh: u128,
}

/// The NFT to look collateral up with.
pub open spec fn nft_of(config: CollateralConfig) -> Option<Seq<char>> {
    match config {
        CollateralConfig::Nft(nft) => Some(nft@),
        CollateralConfig::List(_) => None,
    }
}

/// The collateral that is configured.
pub open spec fn list_of(config: CollateralConfig) -> Seq<Seq<char>> {
    match config {
        CollateralConfig::List(list) => texts(list@),
        CollateralConfig::Nft(_) => seq![],
    }
}

impl View for CollateralState {
    type V = CollateralView;

    closed spec fn view(&self) -> CollateralView {
        CollateralView {
            nft: nft_of(self.config),
            list: list_of(self.config),
            found: names_in(self.collateral),
        }
    }
}

/// Where the collateral of synthetics is looked up.
pub struct SyntheticConfigSource {
    asset_names: NameMap<String, String>,
    collateral: NameMap<String, CollateralState>,
    next_refresh: u128,
}

/// Texts by name.
pub open spec fn texts_by_name(map: Map<Seq<char>, String>) -> Map<Seq<char>, Seq<char>> {
    map.map_values(|text: String| text@)
}

impl View for SyntheticConfigSource {
    type V = ConfigSourceView;

    closed spec fn view(&self) -> ConfigSourceView {
        ConfigSourceView {
            asset_names: texts_by_name(self.asset_names@),
            collateral: self.collateral@.map_values(|state: CollateralState| state@),
            next_refresh: self.next_refresh,
        }
    }
}

/// The names of tokens by what they are called on chain; of those with the same, the last.
pub open spec fn known_assets(currencies: Seq<CurrencyConfig>) -> Map<Seq<char>, Seq<char>>
    decreases currencies.len(),
{
    if currencies.len() == 0 {
        Map::empty()
    } else {
        let rest = known_assets(currencies.drop_last());
        match currencies.last().asset_id {
            Some(id) => rest.insert(id@, currencies.last().name@),
            None => rest,
        }
    }
}

/// What is known of the collateral of synthetics at first.
pub open spec fn configured_collateral(synthetics: Seq<SyntheticConfig>) -> Map<Seq<char>, CollateralView>
    decreases synthetics.len(),
{
    if synthetics.len() == 0 {
        Map::empty()
    } else {
        let last = synthetics.last();
        configured_collateral(synthetics.drop_last()).insert(
            last.name@,
            CollateralView { nft: nft_of(last.collateral), list: list_of(last.collateral), found: None },
        )
    }
}

/// What is known after an outcome.
pub open spec fn with_outcome(
    state: CollateralView,
    outcome: Result<Seq<Seq<char>>, UpdateConfigErrorView>,
) -> CollateralView {
    CollateralView {
        found: match outcome {
            Ok(collateral) => Some(collateral),
            Err(error) => if error.clear {
                None
            } else {
                state.found
            },
        },
        ..state
    }
}

/// What is reported after an outcome.
pub open spec fn health_after(
    synthetic: Seq<char>,
    outcome: Result<Seq<Seq<char>>, UpdateConfigErrorView>,
) -> HealthInfoView {
    HealthInfoView {
        origin: OriginView::SyntheticConfig(synthetic),
        status: match outcome {
            Ok(_) => StatusView::Healthy,
            Err(error) => StatusView::Unhealthy(error.message),
        },
    }
}

/// A synthetic's collateral: what was found, or else what is configured, if anything is.
pub open spec fn current_collateral(source: ConfigSourceView, synthetic: Seq<char>) -> Option<Seq<Seq<char>>> {
    if !source.collateral.contains_key(synthetic) {
        None
    } else if source.collateral[synthetic].found is Some {
        source.collateral[synthetic].found
    } else if source.collateral[synthetic].list.len() > 0 {
        Some(source.collateral[synthetic].list)
    } else {
        None
    }
}

/// A copy of what is configured.
fn copy_config(config: &CollateralConfig) -> (r: CollateralConfig)
    ensures
        nft_of(r) == nft_of(*config),
        list_of(r) == list_of(*config),
{
    match config {
        CollateralConfig::List(list) => CollateralConfig::List(clone_names(list)),
        CollateralConfig::Nft(nft) => CollateralConfig::Nft(nft.clone()),
    }
}

impl SyntheticConfigSource {
    pub fn new(currencies: &[CurrencyConfig], synthetics: &[SyntheticConfig], now: u128) -> (r: Self)
        ensures
            r@.asset_names == known_assets(currencies@),
            r@.collateral == configured_collateral(synthetics@),
            r@.next_refresh == now,
    {
        let mut asset_names: NameMap<String, String> = NameMap::new();
        let mut i: usize = 0;
        assert(currencies@.take(0) =~= seq![]);
        assert(texts_by_name(asset_names@) =~= known_assets(currencies@.take(0)));
        while i < currencies.len()
            invariant
                i <= currencies.len(),
                texts_by_name(asset_names@) == known_assets(currencies@.take(i as int)),
            decreases currencies.len() - i,
        {
            let ghost before = asset_names@;
            proof {
                assert(currencies@.take(i + 1).drop_last() =~= currencies@.take(i as int));
                assert(currencies@.take(i + 1).last() == currencies@[i as int]);
            }
            if let Some(asset_id) = &currencies[i].asset_id {
                asset_names.insert(asset_id.clone(), currencies[i].name.clone());
                assert(texts_by_name(asset_names@) =~= texts_by_name(before).insert(
                    asset_id@,
                    currencies@[i as int].name@,
                ));
            }
            i += 1;
        }
        assert(currencies@.take(i as int) =~= currencies@);
        let mut collateral: NameMap<String, CollateralState> = NameMap::new();
        let mut k: usize = 0;
        assert(synthetics@.take(0) =~= seq![]);
        assert(collateral@.map_values(|state: CollateralState| state@) =~= configured_collateral(synthetics@.take(0)));
        while k < synthetics.len()
            invariant
                k <= synthetics.len(),
                collateral@.map_values(|state: CollateralState| state@) == configured_collateral(
                    synthetics@.take(k as int),
                ),
            decreases synthetics.len() - k,
        {
            let ghost before = collateral@;
            let state = CollateralState { config: copy_config(&synthetics[k].collateral), collateral: None };
            let ghost new = state@;
            collateral.insert(synthetics[k].name.clone(), state);
            proof {
                assert(synthetics@.take(k + 1).drop_last() =~= synthetics@.take(k as int));
                assert(synthetics@.take(k + 1).last() == synthetics@[k as int]);
                assert(collateral@.map_values(|state: CollateralState| state@) =~= before.map_values(
                    |state: CollateralState| state@,
                ).insert(synthetics@[k as int].name@, new));
            }
            k += 1;
        }
        assert(synthetics@.take(k as int) =~= synthetics@);
        SyntheticConfigSource { asset_names, collateral, next_refresh: now }
    }

    /// Whether it is time to look collateral up.
    pub fn is_due(&self, now: u128) -> (r: bool)
        ensures
            r == (now >= self@.next_refresh),
    {
        now >= self.next_refresh
    }

    /// The synthetics whose collateral is looked up with an NFT, and the NFTs, in alphabetical order of the synthetics.
    pub fn lookups(&self) -> (r: Vec<(String, String)>)
        ensures
            ascending(keys_of(r@)),
            forall|i: int|
                0 <= i < r@.len() ==> self@.collateral.contains_key((#[trigger] r@[i]).0@)
                    && self@.collateral[r@[i].0@].nft == Some(r@[i].1@),
            forall|synthetic: Seq<char>| #[trigger]
                self@.collateral.contains_key(synthetic) && self@.collateral[synthetic].nft is Some ==> exists|i: int|
                    0 <= i < r@.len() && (#[trigger] r@[i]).0@ == synthetic,
    {
        let entries = self.collateral.entries();
        let mut found: Vec<(String, String)> = Vec::new();
        let mut i: usize = 0;
        while i < entries.len()
            invariant
                i <= entries.len(),
                entries@ == self.collateral.listed(),
                self.collateral@ == map_of(entries@),
                ascending(keys_of(entries@)),
                forall|j: int|
                    0 <= j < found@.len() ==> self@.collateral.contains_key((#[trigger] found@[j]).0@)
                        && self@.collateral[found@[j].0@].nft == Some(found@[j].1@),
                forall|j: int|
                    0 <= j < i && (#[trigger] entries@[j]).1@.nft is Some ==> listed_for(found@, entries@[j].0@),
                ascending(keys_of(found@)),
                forall|j: int, k: int|
                    0 <= j < found@.len() && i <= k < entries@.len() ==> precedes(
                        (#[trigger] found@[j]).0@,
                        (#[trigger] entries@[k]).0@,
                    ),
            decreases entries.len() - i,
        {
            let ghost before = found@;
            let (synthetic, state) = &entries[i];
            proof {
                lemma_entry(entries@, i as int);
                assert forall|k: int| i < k < entries@.len() implies precedes(
                    synthetic@,
                    (#[trigger] entries@[k]).0@,
                ) by {
                    assert(keys_of(entries@)[i as int].name() == synthetic@);
                    assert(keys_of(entries@)[k].name() == entries@[k].0@);
                }
            }
            if let CollateralConfig::Nft(nft) = &state.config {
                found.push((synthetic.clone(), nft.clone()));
                proof {
                    assert(found@[before.len() as int].0@ == synthetic@);
                    assert forall|a: int, b: int| 0 <= a < b < found@.len() implies precedes(
                        #[trigger] keys_of(found@)[a].name(),
                        #[trigger] keys_of(found@)[b].name(),
                    ) by {
                        assert(found@[a] == before[a]);
                        if b < before.len() {
                            assert(found@[b] == before[b]);
                            assert(keys_of(before)[a].name() == keys_of(found@)[a].name());
                            assert(keys_of(before)[b].name() == keys_of(found@)[b].name());
                        } else {
                            assert(precedes(before[a].0@, entries@[i as int].0@));
                        }
                    }
                    assert forall|j: int| 0 <= j < i + 1 && (#[trigger] entries@[j]).1@.nft is Some implies listed_for(
                        found@,
                        entries@[j].0@,
                    ) by {
                        if j < i {
                            let k = choose|k: int| 0 <= k < before.len() && (#[trigger] before[k]).0@ == entries@[j].0@;
                            assert(found@[k].0@ == entries@[j].0@);
                        }
                    }
                }
            }
            i += 1;
        }
        proof {
            assert forall|synthetic: Seq<char>| #[trigger]
                self@.collateral.contains_key(synthetic) && self@.collateral[synthetic].nft is Some implies exists|i: int|
                0 <= i < found@.len() && (#[trigger] found@[i]).0@ == synthetic by {
                let at = lemma_place(entries@, synthetic);
                lemma_entry(entries@, at);
                assert(entries@[at].1@.nft is Some);
                assert(listed_for(found@, entries@[at].0@));
            }
        }
        found
    }

    /// What a synthetic can be borrowed against, by its datum.
    pub fn receive_datum(&self, nft: &str, reply: DatumReply) -> (r: Result<Vec<String>, UpdateConfigError>)
        ensures
            collateral_found(r) == collateral_in(self@.asset_names, nft@, reply),
    {
        let raw_datum = match reply {
            Ok(Some(raw_datum)) => raw_datum,
            Ok(None) => {
                return fail(true, join("datum not found for NFT ", nft));
            },
            Err(error) => {
                return fail(
                    false,
                    join(between("could not fetch datum for NFT ", nft, ": ").as_str(), error.as_str()),
                );
            },
        };
        let datum_bytes = match hex_decode(raw_datum.as_str()) {
            Some(bytes) => bytes,
            None => {
                return fail(true, join("malformed datum for NFT ", nft));
            },
        };
        let datum = match crate::plutus::decode(datum_bytes.as_slice()) {
            Some(datum) => datum,
            None => {
                return fail(true, join("invalid CBOR for NFT ", nft));
            },
        };
        let assets = match extract_collateral_assets(datum) {
            Ok(assets) => assets,
            Err(error) => {
                return fail(
                    true,
                    join(between("could not parse datum for NFT ", nft, ": ").as_str(), error.as_str()),
                );
            },
        };
        self.name_assets(&assets)
    }

    /// The names of these tokens.
    fn name_assets(&self, assets: &Vec<AssetClass>) -> (r: Result<Vec<String>, UpdateConfigError>)
        ensures
            collateral_found(r) == names_of_assets(
                self@.asset_names,
                Seq::new(assets@.len(), |i: int| assets@[i]@),
            ),
    {
        let ghost all = Seq::new(assets@.len(), |i: int| assets@[i]@);
        let ghost known = self@.asset_names;
        let mut names: Vec<String> = Vec::new();
        let mut i: usize = 0;
        assert(all.take(0) =~= seq![]);
        assert(texts(names@) =~= seq![]);
        while i < assets.len()
            invariant
                i <= assets.len(),
                known == self@.asset_names,
                all == Seq::new(assets@.len(), |i: int| assets@[i]@),
                names_of_assets(known, all.take(i as int)) == Ok::<Seq<Seq<char>>, UpdateConfigErrorView>(texts(names@)),
            decreases assets.len() - i,
        {
            let asset = &assets[i];
            let ghost before = names@;
            proof {
                assert(all.take(i + 1).drop_last() =~= all.take(i as int));
                assert(all.take(i + 1).last() == asset@);
            }
            if is_empty(asset.policy_id.as_str()) && is_empty(asset.asset_name.as_str()) {
                names.push("ADA".to_owned());
                assert(texts(names@) =~= texts(before).push("ADA"@));
            } else {
                let id = between(asset.policy_id.as_str(), ".", asset.asset_name.as_str());
                match self.asset_names.get(id.as_str()) {
                    Some(name) => {
                        names.push(name.clone());
                        assert(texts(names@) =~= texts(before).push(name@));
                    },
                    None => {
                        proof {
                            lemma_first_unknown(known, all, i + 1);
                        }
                        return fail(true, join("unrecognized asset id ", id.as_str()));
                    },
                }
            }
            i += 1;
        }
        assert(all.take(i as int) =~= all);
        Ok(names)
    }

    /// Takes note of an outcome, and says how the lookup is doing.
    pub fn apply(&mut self, synthetic: &str, outcome: Result<Vec<String>, UpdateConfigError>) -> (r: HealthInfo)
        requires
            old(self)@.collateral.contains_key(synthetic@),
        ensures
            final(self)@.asset_names == old(self)@.asset_names,
            final(self)@.next_refresh == old(self)@.next_refresh,
            final(self)@.collateral == old(self)@.collateral.insert(
                synthetic@,
                with_outcome(old(self)@.collateral[synthetic@], collateral_found(outcome)),
            ),
            r@ == health_after(synthetic@, collateral_found(outcome)),
    {
        let ghost before = self@.collateral;
        let origin = Origin::SyntheticConfig(synthetic.to_owned());
        let mut state = match self.collateral.remove(synthetic) {
            Some(state) => state,
            None => CollateralState { config: CollateralConfig::List(Vec::new()), collateral: None },
        };
        let status = match outcome {
            Ok(collateral) => {
                state.collateral = Some(collateral);
                HealthStatus::Healthy
            },
            Err(error) => {
                if error.clear {
                    state.collateral = None;
                }
                HealthStatus::Unhealthy(error.message)
            },
        };
        let ghost new = state@;
        self.collateral.insert(synthetic.to_owned(), state);
        assert(self@.collateral =~= before.insert(synthetic@, new));
        HealthInfo { origin, status }
    }

    /// Collateral was looked up at this moment.
    pub fn refreshed(&mut self, now: u128)
        requires
            now + REFRESH_INTERVAL <= u128::MAX,
        ensures
            final(self)@ == (ConfigSourceView { next_refresh: (now + REFRESH_INTERVAL) as u128, ..old(self)@ }),
    {
        self.next_refresh = now + REFRESH_INTERVAL;
    }

    /// A synthetic's collateral.
    pub fn synthetic_collateral(&self, name: &str) -> (r: Option<Vec<String>>)
        ensures
            names_in(r) == current_collateral(self@, name@),
    {
        match self.collateral.get(name) {
            None => None,
            Some(state) => match &state.collateral {
                Some(collateral) => Some(clone_names(collateral)),
                None => match &state.config {
                    CollateralConfig::List(list) => if list.len() > 0 {
                        Some(clone_names(list))
                    } else {
                        None
                    },
                    CollateralConfig::Nft(_) => None,
                },
            },
        }
    }
}

/// Whether a synthetic is listed.
spec fn listed_for(found: Seq<(String, String)>, synthetic: Seq<char>) -> bool {
    exists|k: int| 0 <= k < found.len() && (#[trigger] found[k]).0@ == synthetic
}

/// Whether a text is empty.
fn is_empty(text: &str) -> (r: bool)
    ensures
        r == (text@.len() == 0),
{
    proof {
        reveal_strlit("");
    }
    let r = str_equal(text, "");
    assert(text@.len() == 0 ==> text@ =~= ""@);
    r
}

/// A token that is not known among the first makes all of them unknown.
proof fn lemma_first_unknown(asset_names: Map<Seq<char>, Seq<char>>, assets: Seq<AssetView>, n: int)
    requires
        0 <= n <= assets.len(),
        names_of_assets(asset_names, assets.take(n)) is Err,
    ensures
        names_of_assets(asset_names, assets) == names_of_assets(asset_names, assets.take(n)),
    decreases assets.len(),
{
    if n == assets.len() {
        assert(assets.take(n) =~= assets);
    } else {
        assert(assets.drop_last().take(n) =~= assets.take(n));
        lemma_first_unknown(asset_names, assets.drop_last(), n);
    }
}

/// When the chain cannot be asked, what was found before is still used; when the answer makes no sense, what is
/// configured is used again.
pub proof fn law_errors_keep_or_clear(source: ConfigSourceView, synthetic: Seq<char>, error: UpdateConfigErrorView)
    requires
        source.collateral.contains_key(synthetic),
    ensures
        ({
            let after = ConfigSourceView {
                collateral: source.collateral.insert(
                    synthetic,
                    with_outcome(source.collateral[synthetic], Err(error)),
                ),
                ..source
            };
            if error.clear {
                current_collateral(after, synthetic) == if source.collateral[synthetic].list.len() > 0 {
                    Some(source.collateral[synthetic].list)
                } else {
                    None
                }
            } else {
                current_collateral(after, synthetic) == current_collateral(source, synthetic)
            }
        }),
{
}

} // verus!
