//! Importing what was written gives the provider back.
use vstd::prelude::*;
use crate::error::FaultView;
use crate::import::{
    default_model, env_key, has_own_key, keyless, profile_key, provider_part, stripped,
    without_key, without_models,
};
use crate::laws::again::{lemma_no_routes_to_none, lemma_nothing_to_remove};
use crate::laws::frame::{
    agree_outside, lemma_agree_get, lemma_agree_put, lemma_agree_trans, lemma_agree_without,
    lemma_names_differ, lemma_without_at_same,
};
use crate::laws::import::law_import_takes_only_what_a_provider_owns;
use crate::laws::patch::{lemma_merged_is_sound, lemma_patched_profile};
use crate::laws::profile::{
    law_merge_gives_the_profile, law_merge_touches_only_the_profile, profile_sections,
};
use crate::laws::registry::law_migration_is_needed_once;
use crate::patch::{patched, patched_model, patched_profile, with_each_model, Overrides};
use crate::profile::{merged, with_models, with_owned_key, with_routes, with_selection};
use crate::provider::{ProviderMap, ProviderView};
use crate::registry::{
    collapsed, has_marker, has_model, is_managed, is_marked, is_registered, model_names, models,
    owned, without_entries, MANAGED_REGISTRY_ROOT,
};
use crate::selection::{
    auth_key, backend_of_format, model_group, provider_profile, selected_model,
    CC_SWITCH_GROK_MODEL_ID,
};
use crate::tree::{
    first_where, lemma_first_where_holds, lemma_names, lemma_without_none, Group, Node,
};

verus! {

/// The caller sets nothing in place of what the provider says.
pub open spec fn no_overrides() -> Overrides {
    Overrides { base_url: None, api_key: None, api_backend: None }
}

/// A model that leaves its key to the provider, and has a backend unless the
/// provider gives none.
pub open spec fn leaves_its_key(model: Group, provider: ProviderView) -> bool {
    &&& model.get("api_key"@) is None
    &&& model.get("env_key"@) is None
    &&& !has_marker(Node::Table(model))
    &&& model.get("api_backend"@) is Some || backend_of_format(provider.api_format) is None
}

/// The models of the provider stand under a header, and each leaves its key to
/// the provider.
pub open spec fn has_one_key(provider: ProviderView) -> bool {
    &&& provider_profile(provider) is Ok
    &&& auth_key(provider.settings) is Some
    &&& models(provider_profile(provider)->Ok_0) is Some
    &&& models(provider_profile(provider)->Ok_0)->0.well_formed()
    &&& forall|name: Seq<char>|
        match #[trigger] provider_profile(provider)->Ok_0.at("model"@, name) {
            Some(Node::Table(model)) => leaves_its_key(model, provider),
            _ => true,
        }
}

/// Models can be written where the place for them is free or a table.
pub proof fn lemma_models_can_be_written(live: Group, profile: Group, names: Seq<Seq<char>>)
    requires
        live.get("model"@) is None || live.get("model"@)->0.is_table_like(),
    ensures
        with_models(live, profile, names) is Some,
        ({
            let after = with_models(live, profile, names)->0;
            after.get("model"@) is None || after.get("model"@)->0.is_table_like()
        }),
    decreases names.len(),
{
    if names.len() > 0 {
        lemma_models_can_be_written(live, profile, names.drop_last());
    }
}

/// Every profile can be put into an empty configuration.
pub proof fn law_empty_configuration_takes_every_profile(profile: Group)
    ensures
        merged(Group::empty(), profile) is Some,
{
    lemma_names_differ();
    let none = Group::empty();
    let a = with_owned_key(none, profile, "endpoints"@, "models_base_url"@)->0;
    assert(with_owned_key(none, profile, "endpoints"@, "models_base_url"@) is Some);
    assert(a.get("models"@) is None);
    let b = with_owned_key(a, profile, "models"@, "default"@)->0;
    assert(with_owned_key(a, profile, "models"@, "default"@) is Some);
    assert(b.get("models"@) is None || b.get("models"@)->0.is_table_like());
    let c = with_owned_key(b, profile, "models"@, "web_search"@)->0;
    assert(with_owned_key(b, profile, "models"@, "web_search"@) is Some);
    assert(c.get("subagents"@) is None);
    assert(c.get("model"@) is None);
    assert(with_selection(none, profile) == Some(c));
    let d = with_routes(c, profile)->0;
    assert(with_routes(c, profile) is Some);
    assert(d.get("model"@) is None);
    lemma_models_can_be_written(d, profile, model_names(profile));
}

/// What changing each model changes.
proof fn lemma_each_model(doc: Group, f: spec_fn(Group) -> Group)
    requires
        models(doc) is Some,
    ensures
        ({
            let after = with_each_model(doc, f);
            &&& models(after) is Some
            &&& forall|name: Seq<char>| #[trigger]
                after.at("model"@, name) == match doc.at("model"@, name) {
                    Some(node) => Some(node.map_table(f)),
                    None => None,
                }
            &&& forall|name: Seq<char>| name != "model"@ ==> #[trigger] after.get(name) == doc.get(name)
        }),
{
}

/// A patched model of a provider with one key: the key is added.
proof fn lemma_key_is_added(model: Group, provider: ProviderView)
    requires
        leaves_its_key(model, provider),
        auth_key(provider.settings) is Some,
    ensures
        patched_model(model, provider, no_overrides()) == model.put(
            "api_key"@,
            Node::fresh_text(auth_key(provider.settings)->0),
        ),
{
    lemma_names_differ();
}

/// Taking the key out of a model that it was added to.
proof fn lemma_key_is_taken_out(model: Group, key: Seq<char>)
    requires
        model.get("api_key"@) is None,
    ensures
        ({
            let after = without_key(model.put("api_key"@, Node::fresh_text(key)), key);
            &&& agree_outside(model, after, set!["api_key"@])
            &&& after.get("api_key"@) is None
        }),
{
    let only = set!["api_key"@];
    let keyed = model.put("api_key"@, Node::fresh_text(key));
    lemma_agree_put(model, "api_key"@, Node::fresh_text(key), only);
    lemma_agree_without(keyed, only, only);
    lemma_agree_trans(model, keyed, keyed.without(only), only);
}

/// The provider as it is written into an empty configuration.
pub open spec fn written_alone(provider: ProviderView) -> Group {
    merged(
        Group::empty(),
        patched_profile(provider_profile(provider)->Ok_0, provider, no_overrides())->0,
    )->0
}

/// What stands in the configuration.
proof fn lemma_written_alone(provider: ProviderView)
    requires
        has_one_key(provider),
    ensures
        ({
            let doc = provider_profile(provider)->Ok_0;
            let after = written_alone(provider);
            let key = auth_key(provider.settings)->0;
            &&& patched_profile(doc, provider, no_overrides()) is Some
            &&& merged(
                Group::empty(),
                patched_profile(doc, provider, no_overrides())->0,
            ) is Some
            &&& after.at("endpoints"@, "models_base_url"@) == doc.at("endpoints"@, "models_base_url"@)
            &&& after.at("models"@, "default"@) == doc.at("models"@, "default"@)
            &&& after.at("models"@, "web_search"@) == doc.at("models"@, "web_search"@)
            &&& after.at("subagents"@, "models"@) == doc.at("subagents"@, "models"@)
            &&& after.get(MANAGED_REGISTRY_ROOT@) is None
            &&& models(after) is Some
            &&& models(after)->0.well_formed()
            &&& forall|name: Seq<char>| #[trigger]
                after.at("model"@, name) == match doc.at("model"@, name) {
                    Some(Node::Table(model)) => Some(
                        Node::Table(model.put("api_key"@, Node::fresh_text(key))),
                    ),
                    node => node,
                }
            &&& exists|name: Seq<char>| #[trigger] model_group(after, name) is Some
        }),
{
    lemma_names_differ();
    let none = Group::empty();
    let doc = provider_profile(provider)->Ok_0;
    let over = no_overrides();
    let profile = patched_profile(doc, provider, over)->0;
    let after = written_alone(provider);
    let key = auth_key(provider.settings)->0;
    law_empty_configuration_takes_every_profile(profile);
    lemma_patched_profile(doc, provider, over);
    law_merge_touches_only_the_profile(none, profile);
    law_merge_gives_the_profile(none, profile);
    lemma_merged_is_sound(none, profile);
    lemma_agree_get(none, after, profile_sections(), MANAGED_REGISTRY_ROOT@);
    assert(profile.get("endpoints"@) == doc.get("endpoints"@));
    assert(profile.get("models"@) == doc.get("models"@));
    assert(profile.get("subagents"@) == doc.get("subagents"@));
    let all = models(doc)->0;
    assert forall|name: Seq<char>| #[trigger]
        after.at("model"@, name) == match doc.at("model"@, name) {
            Some(Node::Table(model)) => Some(
                Node::Table(model.put("api_key"@, Node::fresh_text(key))),
            ),
            node => node,
        } by {
        lemma_names(all, name);
        assert(all.order.contains(name) <==> all.fields.contains_key(name));
        assert(!is_managed(none, name));
        match doc.at("model"@, name) {
            Some(Node::Table(model)) => {
                lemma_key_is_added(model, provider);
            },
            _ => {},
        }
    }
    // the model that the provider selects
    let p = |name: Seq<char>| has_model(doc, name);
    lemma_first_where_holds(model_names(doc), p);
    let name = if doc.text_at("models"@, "default"@) is Some && model_group(
        doc,
        doc.text_at("models"@, "default"@)->0,
    ) is Some {
        doc.text_at("models"@, "default"@)->0
    } else if model_group(doc, CC_SWITCH_GROK_MODEL_ID@) is Some {
        CC_SWITCH_GROK_MODEL_ID@
    } else {
        first_where(model_names(doc), p)->0
    };
    assert(selected_model(doc) is Some);
    assert(model_group(doc, name) is Some);
    assert(after.at("model"@, name) is Some);
    assert(model_group(after, name) is Some);
}

/// A configuration without registry and without older markers owns nothing.
proof fn lemma_owns_nothing(doc: Group)
    requires
        doc.get(MANAGED_REGISTRY_ROOT@) is None,
        forall|name: Seq<char>| !#[trigger] is_marked(doc, name),
    ensures
        owned(doc) == Set::<Seq<char>>::empty(),
{
    assert forall|name: Seq<char>| !owned(doc).contains(name) by {
        assert(!is_registered(doc, name));
        assert(!is_marked(doc, name));
    }
    assert(owned(doc) =~= Set::<Seq<char>>::empty());
}

/// Stripping a configuration that owns nothing leaves every field as it is.
proof fn lemma_strip_nothing(doc: Group)
    requires
        doc.get(MANAGED_REGISTRY_ROOT@) is None,
        forall|name: Seq<char>| !#[trigger] is_marked(doc, name),
    ensures
        stripped(doc) is Some,
        forall|name: Seq<char>| #[trigger] stripped(doc)->0.get(name) == doc.get(name),
{
    let none = Set::<Seq<char>>::empty();
    lemma_owns_nothing(doc);
    law_migration_is_needed_once(doc);
    lemma_without_none(doc.section("model"@));
    lemma_without_at_same(doc, "model"@, none);
    lemma_no_routes_to_none(doc);
    assert(without_models(doc, none) == doc);
    assert(without_entries(doc, none) == doc);
    assert(stripped(doc) == Some(collapsed(doc)));
}

/// Without models of other providers and without routes, writing a provider is
/// putting its profile in.
proof fn lemma_patched_alone(provider: ProviderView, all: ProviderMap)
    requires
        has_one_key(provider),
        provider.routes.len() == 0,
    ensures
        patched(Group::empty(), provider, all, no_overrides()) == Ok::<Group, FaultView>(
            written_alone(provider),
        ),
        forall|name: Seq<char>| !#[trigger] is_marked(written_alone(provider), name),
{
    lemma_names_differ();
    lemma_written_alone(provider);
    let after = written_alone(provider);
    let doc = provider_profile(provider)->Ok_0;
    assert forall|name: Seq<char>| !#[trigger] is_marked(after, name) by {
        assert(after.at("model"@, name) == match doc.at("model"@, name) {
            Some(Node::Table(model)) => Some(
                Node::Table(
                    model.put("api_key"@, Node::fresh_text(auth_key(provider.settings)->0)),
                ),
            ),
            node => node,
        });
        match doc.at("model"@, name) {
            Some(Node::Table(model)) => {
                assert(leaves_its_key(model, provider));
            },
            _ => {},
        }
    }
    lemma_owns_nothing(after);
    law_migration_is_needed_once(after);
    lemma_nothing_to_remove(after);
}

/// The key that all models of a configuration have is the one that they share.
proof fn lemma_shared_key(doc: Group, key: Seq<char>, env_value: Option<Seq<char>>)
    requires
        key.len() > 0,
        models(doc) is Some,
        models(doc)->0.well_formed(),
        exists|name: Seq<char>| #[trigger] model_group(doc, name) is Some,
        forall|name: Seq<char>|
            match #[trigger] model_group(doc, name) {
                Some(model) => model.text("api_key"@) == Some(key),
                None => true,
            },
    ensures
        profile_key(doc, env_value) == key,
        selected_model(doc) is Some,
{
    let all = models(doc)->0;
    let name = choose|name: Seq<char>| #[trigger] model_group(doc, name) is Some;
    lemma_names(all, name);
    assert(all.order.contains(name) <==> all.fields.contains_key(name));
    let names = model_names(doc);
    let k = choose|k: int| 0 <= k < names.len() && names[k] == name;
    let p = |n: Seq<char>| has_own_key(doc, n);
    let q = |n: Seq<char>| has_model(doc, n);
    lemma_first_where_holds(names, p);
    lemma_first_where_holds(names, q);
    assert(p(names[k]));
    assert(q(names[k]));
    match default_model(doc) {
        Some(model) => {
            let default = doc.text_at("models"@, "default"@)->0;
            assert(model_group(doc, default) == Some(model));
        },
        None => {},
    }
}

/// Importing undoes writing. A provider without routes whose models leave their
/// key to it is written into an empty configuration. Then the key that an import
/// finds is that of the provider, and what it takes over is the address, the
/// selection, the routes and the models as the provider has them.
pub proof fn law_import_undoes_writing(
    provider: ProviderView,
    all: ProviderMap,
    env_value: Option<Seq<char>>,
)
    requires
        has_one_key(provider),
        provider.routes.len() == 0,
    ensures
        ({
            let doc = provider_profile(provider)->Ok_0;
            let key = auth_key(provider.settings)->0;
            let live = patched(Group::empty(), provider, all, no_overrides())->Ok_0;
            let part = provider_part(stripped(keyless(live, key))->0);
            &&& patched(Group::empty(), provider, all, no_overrides()) is Ok
            &&& selected_model(live) is Some
            &&& profile_key(live, env_value) == key
            &&& stripped(keyless(live, key)) is Some
            &&& part.at("endpoints"@, "models_base_url"@) == doc.at("endpoints"@, "models_base_url"@)
            &&& part.at("models"@, "default"@) == doc.at("models"@, "default"@)
            &&& part.at("models"@, "web_search"@) == doc.at("models"@, "web_search"@)
            &&& part.at("subagents"@, "models"@) == doc.at("subagents"@, "models"@)
            &&& forall|name: Seq<char>|
                match doc.at("model"@, name) {
                    Some(Node::Table(model)) => {
                        &&& #[trigger] part.at("model"@, name) is Some
                        &&& part.at("model"@, name)->0 is Table
                        &&& agree_outside(
                            model,
                            part.at("model"@, name)->0.group(),
                            set!["api_key"@],
                        )
                        &&& model.get("api_key"@) is None
                        &&& part.at("model"@, name)->0.group().get("api_key"@) is None
                    },
                    node => part.at("model"@, name) == node,
                }
        }),
{
    lemma_names_differ();
    let doc = provider_profile(provider)->Ok_0;
    let key = auth_key(provider.settings)->0;
    let live = written_alone(provider);
    let f = |model: Group| without_key(model, key);
    let bare = keyless(live, key);
    lemma_written_alone(provider);
    lemma_patched_alone(provider, all);
    assert forall|name: Seq<char>|
        match #[trigger] model_group(live, name) {
            Some(model) => model.text("api_key"@) == Some(key),
            None => true,
        } by {
        assert(live.at("model"@, name) == match doc.at("model"@, name) {
            Some(Node::Table(model)) => Some(
                Node::Table(model.put("api_key"@, Node::fresh_text(key))),
            ),
            node => node,
        });
    }
    lemma_shared_key(live, key, env_value);
    lemma_each_model(live, f);
    assert forall|name: Seq<char>| !#[trigger] is_marked(bare, name) by {
        assert(!is_marked(live, name));
        assert(bare.at("model"@, name) == match live.at("model"@, name) {
            Some(node) => Some(node.map_table(f)),
            None => None,
        });
    }
    lemma_strip_nothing(bare);
    let rest = stripped(bare)->0;
    law_import_takes_only_what_a_provider_owns(rest);
    let part = provider_part(rest);
    assert forall|name: Seq<char>|
        match doc.at("model"@, name) {
            Some(Node::Table(model)) => {
                &&& #[trigger] part.at("model"@, name) is Some
                &&& part.at("model"@, name)->0 is Table
                &&& agree_outside(model, part.at("model"@, name)->0.group(), set!["api_key"@])
                &&& model.get("api_key"@) is None
                &&& part.at("model"@, name)->0.group().get("api_key"@) is None
            },
            node => part.at("model"@, name) == node,
        } by {
        assert(part.at("model"@, name) == bare.at("model"@, name));
        match doc.at("model"@, name) {
            Some(Node::Table(model)) => {
                assert(leaves_its_key(model, provider));
                assert(live.at("model"@, name) == Some(
                    Node::Table(model.put("api_key"@, Node::fresh_text(key))),
                ));
                lemma_key_is_taken_out(model, key);
            },
            _ => {
                assert(live.at("model"@, name) == doc.at("model"@, name));
            },
        }
    }
}

} // verus!
