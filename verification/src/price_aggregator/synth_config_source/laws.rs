//! What holds of the collateral of synthetics.

use vstd::prelude::*;

use crate::config::{CurrencyConfig, SyntheticConfig};
use crate::encoding::{hex_bytes, is_hex, law_hex_round_trip};
use crate::plutus::Plutus;
use crate::price_aggregator::synth_config_source::{
    assets_in, collateral_assets, configured_collateral, current_collateral, datum_to_ask, known_assets, list_of,
    names_of_assets, nft_of, AssetView, ConfigSourceView, MatchesReply,
};

verus! {

/// Whether a token goes by this name: ADA, which has neither a policy nor a name on chain, or what is known under its policy
/// and its name with a point between them.
pub open spec fn goes_by(asset_names: Map<Seq<char>, Seq<char>>, asset: AssetView, name: Seq<char>) -> bool {
    if asset.policy_id == Seq::<char>::empty() && asset.asset_name == Seq::<char>::empty() {
        name == "ADA"@
    } else {
        asset_names.contains_pair(asset.policy_id + "."@ + asset.asset_name, name)
    }
}

/// Each token of a list has its name at its own place. Where one is not known there are none, and it is said which was the
/// first.
pub proof fn law_every_token_has_its_name(asset_names: Map<Seq<char>, Seq<char>>, assets: Seq<AssetView>)
    ensures
        match names_of_assets(asset_names, assets) {
            Ok(names) => names.len() == assets.len() && forall|i: int|
                0 <= i < assets.len() ==> goes_by(asset_names, #[trigger] assets[i], names[i]),
            Err(error) => error.clear && exists|at: int|
                0 <= at < assets.len() && (forall|name: Seq<char>|
                    !goes_by(asset_names, #[trigger] assets[at], name)) && error.message == "unrecognized asset id "@ + (
                assets[at].policy_id + "."@ + assets[at].asset_name),
        },
    decreases assets.len(),
{
    if assets.len() > 0 {
        let front = assets.drop_last();
        let last = assets[assets.len() - 1];
        law_every_token_has_its_name(asset_names, front);
        assert(last.policy_id.len() == 0 <==> last.policy_id =~= Seq::<char>::empty());
        assert(last.asset_name.len() == 0 <==> last.asset_name =~= Seq::<char>::empty());
        match names_of_assets(asset_names, front) {
            Ok(before) => {
                match names_of_assets(asset_names, assets) {
                    Ok(names) => {
                        assert forall|i: int| 0 <= i < assets.len() implies goes_by(
                            asset_names,
                            #[trigger] assets[i],
                            names[i],
                        ) by {
                            if i < front.len() {
                                assert(goes_by(asset_names, front[i], before[i]));
                            }
                        }
                    },
                    Err(_) => {
                        let at = assets.len() - 1;
                        assert forall|name: Seq<char>| !goes_by(asset_names, #[trigger] assets[at], name) by {}
                    },
                }
            },
            Err(error) => {
                let at = choose|at: int|
                    0 <= at < front.len() && (forall|name: Seq<char>|
                        !goes_by(asset_names, #[trigger] front[at], name)) && error.message == "unrecognized asset id "@
                        + (front[at].policy_id + "."@ + front[at].asset_name);
                assert(assets[at] == front[at]);
                assert forall|name: Seq<char>| !goes_by(asset_names, #[trigger] assets[at], name) by {
                    assert(!goes_by(asset_names, front[at], name));
                }
            },
        }
    }
}

/// Whether a token is what a tree says: its first two fields are the policy and the name, as bytes, of which the token has
/// the hexadecimal digits.
pub open spec fn is_asset(tree: Plutus, asset: AssetView) -> bool {
    &&& tree matches Plutus::Constr { tag, fields, .. } && tag == 121 && fields.len() >= 2
    &&& is_hex(asset.policy_id)
    &&& is_hex(asset.asset_name)
    &&& tree->Constr_fields[0] == Plutus::BoundedBytes(hex_bytes(asset.policy_id))
    &&& tree->Constr_fields[1] == Plutus::BoundedBytes(hex_bytes(asset.asset_name))
}

/// Each tree of a list is a token at its own place.
pub proof fn law_every_tree_is_a_token(items: Seq<Plutus>)
    ensures
        assets_in(items) matches Ok(assets) ==> assets.len() == items.len() && forall|i: int|
            0 <= i < items.len() ==> is_asset(#[trigger] items[i], assets[i]),
    decreases items.len(),
{
    if items.len() > 0 {
        let front = items.drop_last();
        law_every_tree_is_a_token(front);
        if let Ok(assets) = assets_in(items) {
            let before = assets_in(front)->Ok_0;
            let last = items[items.len() - 1];
            let fields = last->Constr_fields;
            law_hex_round_trip(fields[0]->BoundedBytes_0);
            law_hex_round_trip(fields[1]->BoundedBytes_0);
            assert(is_asset(last, assets.last()));
            assert forall|i: int| 0 <= i < items.len() implies is_asset(#[trigger] items[i], assets[i]) by {
                if i < front.len() {
                    assert(front[i] == items[i]);
                    assert(is_asset(front[i], before[i]));
                }
            }
        }
    }
}

/// The tokens that a datum lists stand in the first field of the first field of its first field, whatever stands beside.
pub proof fn law_collateral_is_the_innermost_first_field(datum: Plutus, wrapper: Plutus, params: Plutus, items: Plutus)
    requires
        datum matches Plutus::Constr { tag, fields, .. } && tag == 121 && fields.len() > 0 && fields[0] == wrapper,
        wrapper matches Plutus::Constr { tag, fields, .. } && tag == 121 && fields.len() > 0 && fields[0] == params,
        params matches Plutus::Constr { tag, fields, .. } && tag == 121 && fields.len() > 0 && fields[0] == items,
        items is Array,
    ensures
        collateral_assets(datum) == assets_in(items->Array_items),
{
}

/// A datum is asked for if, and only if, just one output holds the NFT, and it has one. What was known is forgotten, unless
/// it only could not be asked who holds the NFT.
pub proof fn law_one_output_holds_the_nft(nft: Seq<char>, reply: MatchesReply)
    ensures
        datum_to_ask(nft, reply) is Ok <==> (reply matches Ok(found) && found@.len() == 1 && found@[0] is Some),
        datum_to_ask(nft, reply) matches Ok(hash) ==> hash == reply->Ok_0@[0]->0@,
        datum_to_ask(nft, reply) matches Err(error) ==> (error.clear <==> reply is Ok),
{
}

/// A synthetic can be borrowed against what was found, if anything was, and else against what is configured, if that is
/// more than nothing.
pub proof fn law_found_collateral_comes_first(source: ConfigSourceView, synthetic: Seq<char>)
    requires
        source.collateral.contains_key(synthetic),
    ensures
        ({
            let known = source.collateral[synthetic];
            match current_collateral(source, synthetic) {
                Some(collateral) => known.found == Some(collateral) || (known.found is None && collateral == known.list
                    && collateral.len() > 0),
                None => known.found is None && known.list.len() == 0,
            }
        }),
{
}

/// A token goes by the name of the last currency that is configured with what it is called on chain.
pub proof fn law_last_currency_names_a_token(currencies: Seq<CurrencyConfig>, at: int)
    requires
        0 <= at < currencies.len(),
        currencies[at].asset_id is Some,
        forall|j: int|
            at < j < currencies.len() && (#[trigger] currencies[j]).asset_id is Some ==> currencies[j].asset_id->0@
                != currencies[at].asset_id->0@,
    ensures
        known_assets(currencies).contains_pair(currencies[at].asset_id->0@, currencies[at].name@),
    decreases currencies.len(),
{
    if at < currencies.len() - 1 {
        let front = currencies.drop_last();
        let last = currencies[currencies.len() - 1];
        assert(last.asset_id is Some ==> last.asset_id->0@ != currencies[at].asset_id->0@);
        law_last_currency_names_a_token(front, at);
    }
}

/// What is known at first of a synthetic's collateral is what the last synthetic of its name is configured with; nothing was
/// found yet.
pub proof fn law_configured_collateral_is_known_first(synthetics: Seq<SyntheticConfig>, at: int)
    requires
        0 <= at < synthetics.len(),
        forall|j: int| at < j < synthetics.len() ==> (#[trigger] synthetics[j]).name@ != synthetics[at].name@,
    ensures
        ({
            let known = configured_collateral(synthetics);
            &&& known.contains_key(synthetics[at].name@)
            &&& known[synthetics[at].name@].nft == nft_of(synthetics[at].collateral)
            &&& known[synthetics[at].name@].list == list_of(synthetics[at].collateral)
            &&& known[synthetics[at].name@].found is None
        }),
    decreases synthetics.len(),
{
    if at < synthetics.len() - 1 {
        let front = synthetics.drop_last();
        assert(synthetics[synthetics.len() - 1].name@ != synthetics[at].name@);
        law_configured_collateral_is_known_first(front, at);
    }
}

} // verus!
