//! Writing a provider into a configuration, and a takeover by the proxy.
use vstd::prelude::*;
use crate::error::{AppErrorView, FaultView};
use crate::laws::cleanup::route_of;
use crate::laws::frame::{
    agree_outside, lemma_agree_get, lemma_agree_more, lemma_agree_put, lemma_agree_trans,
    lemma_names_differ,
};
use crate::laws::outside::{
    law_routing_keeps_the_selection_of_the_user, law_routing_spares_the_models_of_the_user,
    law_routing_touches_nothing_else, registry_is_spared,
};
use crate::laws::profile::{
    law_merge_gives_the_profile, law_merge_touches_only_the_profile,
    law_official_removes_only_address_and_selection, profile_sections,
};
use crate::laws::registry::{lemma_beside_trans, models_are_sound, registry_is_sound};
use crate::laws::routes::{
    has_a_role, is_last_of_its_role, keeps_its_name,
    law_route_to_another_provider_leads_to_its_model,
    routed_sections, target_of,
};
use crate::patch::{
    patched, patched_model, patched_official, patched_profile, patched_text, takeover,
    with_each_model, Overrides,
};
use crate::profile::{existing_doc, merged, official, with_models, with_routes, with_selection};
use crate::provider::{ProviderMap, ProviderView};
use crate::registry::{
    has_marker, is_managed, is_taken, marker_keys, model_names, models, registered_source,
    LEGACY_MANAGED_OWNER_KEY, MANAGED_REGISTRY_ROOT,
};
use crate::routes::{copied_model, route_source};
use crate::selection::{
    any_placeholder, auth_key, backend_of_format, has_placeholder, model_group, provider_doc, provider_profile,
};
use crate::text::trimmed;
use crate::toml::{toml_parse, toml_render};
use crate::tree::{lemma_names, lemma_put_well_formed, Group, Node};

verus! {

/// The sections that writing a provider touches.
pub open spec fn patched_sections() -> Set<Seq<char>> {
    set!["endpoints"@, "models"@, "subagents"@, "model"@, MANAGED_REGISTRY_ROOT@]
}

/// What is set in a model: the address of the caller, if there is one, and the
/// key of the caller, if there is one; nothing but address, key and backend. A
/// backend that the model has stays, unless the caller sets one; so does a key. A
/// model with neither key nor variable for one gets the key of the provider, and
/// one without backend gets the backend of its format.
pub proof fn law_patched_model(model: Group, provider: ProviderView, over: Overrides)
    ensures
        ({
            let after = patched_model(model, provider, over);
            &&& after.get("base_url"@) == match over.base_url {
                Some(url) => Some(Node::fresh_text(url)),
                None => model.get("base_url"@),
            }
            &&& over.api_key is Some ==> after.get("api_key"@) == Some(
                Node::fresh_text(over.api_key->0),
            )
            &&& over.api_key is None && (model.get("api_key"@) is Some || model.get("env_key"@) is Some)
                ==> after.get("api_key"@) == model.get("api_key"@)
            &&& over.api_key is None && model.get("api_key"@) is None && model.get("env_key"@) is None
                ==> after.get("api_key"@) == match auth_key(provider.settings) {
                Some(key) => Some(Node::fresh_text(key)),
                None => None,
            }
            &&& over.api_backend is Some ==> after.get("api_backend"@) == Some(
                Node::fresh_text(over.api_backend->0),
            )
            &&& over.api_backend is None && model.get("api_backend"@) is Some ==> after.get(
                "api_backend"@,
            ) == model.get("api_backend"@)
            &&& over.api_backend is None && model.get("api_backend"@) is None ==> after.get(
                "api_backend"@,
            ) == match backend_of_format(provider.api_format) {
                Some(backend) => Some(Node::fresh_text(backend)),
                None => None,
            }
            &&& forall|name: Seq<char>|
                name != "base_url"@ && name != "api_key"@ && name != "api_backend"@
                    ==> #[trigger] after.get(name) == model.get(name)
            &&& agree_outside(model, after, set!["base_url"@, "api_key"@, "api_backend"@])
        }),
{
    lemma_names_differ();
    let three = set!["base_url"@, "api_key"@, "api_backend"@];
    let after = patched_model(model, provider, over);
    let addressed = match over.base_url {
        Some(url) => model.put("base_url"@, Node::fresh_text(url)),
        None => model,
    };
    if over.base_url is Some {
        lemma_agree_put(model, "base_url"@, Node::fresh_text(over.base_url->0), three);
    }
    let key = match over.api_key {
        Some(key) => Some(key),
        None => if addressed.get("api_key"@) is None && addressed.get("env_key"@) is None {
            auth_key(provider.settings)
        } else {
            None
        },
    };
    let keyed = match key {
        Some(key) => addressed.put("api_key"@, Node::fresh_text(key)),
        None => addressed,
    };
    if key is Some {
        lemma_agree_put(addressed, "api_key"@, Node::fresh_text(key->0), three);
    }
    let backend = match over.api_backend {
        Some(backend) => Some(backend),
        None => if keyed.get("api_backend"@) is None {
            backend_of_format(provider.api_format)
        } else {
            None
        },
    };
    if backend is Some {
        lemma_agree_put(keyed, "api_backend"@, Node::fresh_text(backend->0), three);
    }
    lemma_agree_trans(model, addressed, keyed, three);
    lemma_agree_trans(model, keyed, after, three);
}

/// Merging keeps sound models sound.
proof fn lemma_models_stay_sound(live: Group, profile: Group, names: Seq<Seq<char>>)
    requires
        with_models(live, profile, names) is Some,
        models_are_sound(live),
    ensures
        models_are_sound(with_models(live, profile, names)->0),
        live.get("model"@) is None || models(live) is Some ==> ({
            let after = with_models(live, profile, names)->0;
            after.get("model"@) is None || models(after) is Some
        }),
    decreases names.len(),
{
    if names.len() > 0 {
        lemma_models_stay_sound(live, profile, names.drop_last());
        let before = with_models(live, profile, names.drop_last())->0;
        let last = names.last();
        if !is_managed(before, last) && before.writable("model"@, Node::fresh_table())->0 is Table {
            lemma_put_well_formed(
                before.writable("model"@, Node::fresh_table())->0.group(),
                last,
                profile.at("model"@, last)->0,
            );
        }
    }
}

/// Models that stood under a header still do once a profile is merged.
pub proof fn lemma_merged_keeps_header(live: Group, profile: Group)
    requires
        merged(live, profile) is Some,
    ensures
        models(live) is Some ==> models(merged(live, profile)->0) is Some,
{
    lemma_names_differ();
    let selected = with_selection(live, profile)->0;
    let merged_routes = with_routes(selected, profile)->0;
    assert(merged_routes.get("model"@) == live.get("model"@));
    lemma_models_keep_header(merged_routes, profile, model_names(profile));
}

/// Models that stood under a header still do once others are written.
proof fn lemma_models_keep_header(live: Group, profile: Group, names: Seq<Seq<char>>)
    requires
        with_models(live, profile, names) is Some,
    ensures
        models(live) is Some ==> models(with_models(live, profile, names)->0) is Some,
    decreases names.len(),
{
    if names.len() > 0 {
        lemma_models_keep_header(live, profile, names.drop_last());
    }
}

/// The configuration between merging the provider and following its routes.
pub proof fn lemma_merged_is_sound(live: Group, profile: Group)
    requires
        merged(live, profile) is Some,
        models_are_sound(live),
    ensures
        registry_is_sound(live) ==> registry_is_sound(merged(live, profile)->0),
        models_are_sound(merged(live, profile)->0),
        merged(live, profile)->0.get(MANAGED_REGISTRY_ROOT@) == live.get(MANAGED_REGISTRY_ROOT@),
        live.get("model"@) is None || models(live) is Some ==> ({
            let after = merged(live, profile)->0;
            after.get("model"@) is None || models(after) is Some
        }),
{
    lemma_names_differ();
    let after = merged(live, profile)->0;
    law_merge_touches_only_the_profile(live, profile);
    lemma_agree_get(live, after, profile_sections(), MANAGED_REGISTRY_ROOT@);
    let selected = with_selection(live, profile)->0;
    let merged_routes = with_routes(selected, profile)->0;
    assert(merged_routes.get("model"@) == live.get("model"@));
    lemma_models_stay_sound(merged_routes, profile, model_names(profile));
}

/// Writing a provider touches address, selection, routes, models and the
/// registry. Every other section is left alone, and so are the other fields of
/// those for address, selection and routes.
pub proof fn law_patch_touches_nothing_else(
    live: Group,
    provider: ProviderView,
    all: ProviderMap,
    over: Overrides,
)
    requires
        patched(live, provider, all, over) is Ok,
    ensures
        ({
            let after = patched(live, provider, all, over)->Ok_0;
            &&& agree_outside(live, after, patched_sections())
            &&& registry_is_spared(live, after)
            &&& agree_outside(
                live.section("endpoints"@),
                after.section("endpoints"@),
                set!["models_base_url"@],
            )
            &&& agree_outside(
                live.section("models"@),
                after.section("models"@),
                set!["default"@, "web_search"@],
            )
            &&& agree_outside(live.section("subagents"@), after.section("subagents"@), set!["models"@])
        }),
{
    lemma_names_differ();
    let profile = patched_profile(provider_profile(provider)->Ok_0, provider, over)->0;
    let tree = merged(live, profile)->0;
    let after = patched(live, provider, all, over)->Ok_0;
    let sections = patched_sections();
    law_merge_touches_only_the_profile(live, profile);
    law_routing_touches_nothing_else(tree, provider, all);
    lemma_agree_more(live, tree, profile_sections(), sections);
    lemma_agree_more(tree, after, routed_sections(), sections);
    lemma_agree_trans(live, tree, after, sections);
    lemma_agree_get(live, tree, profile_sections(), MANAGED_REGISTRY_ROOT@);
    if registry_is_sound(live) {
        lemma_beside_trans(live, tree, after);
    }
    lemma_agree_get(tree, after, routed_sections(), "endpoints"@);
    lemma_agree_trans(
        live.section("models"@),
        tree.section("models"@),
        after.section("models"@),
        set!["default"@, "web_search"@],
    );
    lemma_agree_trans(
        live.section("subagents"@),
        tree.section("subagents"@),
        after.section("subagents"@),
        set!["models"@],
    );
}

/// A model of the user that the provider does not have is left alone.
pub proof fn law_patch_spares_the_models_of_the_user(
    live: Group,
    provider: ProviderView,
    all: ProviderMap,
    over: Overrides,
    name: Seq<char>,
)
    requires
        patched(live, provider, all, over) is Ok,
        models_are_sound(live),
        is_taken(live, name),
        !model_names(provider_profile(provider)->Ok_0).contains(name),
    ensures
        patched(live, provider, all, over)->Ok_0.at("model"@, name) == live.at("model"@, name),
{
    let doc = provider_profile(provider)->Ok_0;
    let profile = patched_profile(doc, provider, over)->0;
    let tree = merged(live, profile)->0;
    lemma_patched_profile(doc, provider, over);
    law_merge_touches_only_the_profile(live, profile);
    lemma_merged_is_sound(live, profile);
    assert(tree.at("model"@, name) == live.at("model"@, name));
    assert(is_taken(tree, name));
    law_routing_spares_the_models_of_the_user(tree, provider, all, name);
}

/// The address is that of the caller, if there is one, else that of the
/// provider, there or not there.
pub proof fn law_patch_sets_the_address(
    live: Group,
    provider: ProviderView,
    all: ProviderMap,
    over: Overrides,
)
    requires
        patched(live, provider, all, over) is Ok,
    ensures
        patched(live, provider, all, over)->Ok_0.at("endpoints"@, "models_base_url"@) == match over.base_url {
            Some(url) => Some(Node::fresh_text(url)),
            None => provider_profile(provider)->Ok_0.at("endpoints"@, "models_base_url"@),
        },
{
    lemma_names_differ();
    let doc = provider_profile(provider)->Ok_0;
    let profile = patched_profile(doc, provider, over)->0;
    let tree = merged(live, profile)->0;
    let after = patched(live, provider, all, over)->Ok_0;
    law_merge_gives_the_profile(live, profile);
    law_routing_touches_nothing_else(tree, provider, all);
    lemma_agree_get(tree, after, routed_sections(), "endpoints"@);
}

/// The selection is that of the provider, there or not there, as long as it does
/// not name a copy for another provider.
pub proof fn law_patch_sets_the_selection(
    live: Group,
    provider: ProviderView,
    all: ProviderMap,
    over: Overrides,
    key: Seq<char>,
)
    requires
        patched(live, provider, all, over) is Ok,
        models_are_sound(live),
        key == "default"@ || key == "web_search"@,
        match provider_profile(provider)->Ok_0.text_at("models"@, key) {
            Some(name) => is_taken(written(live, provider, over), name),
            None => true,
        },
    ensures
        patched(live, provider, all, over)->Ok_0.at("models"@, key) == provider_profile(
            provider,
        )->Ok_0.at("models"@, key),
{
    lemma_names_differ();
    let doc = provider_profile(provider)->Ok_0;
    let profile = patched_profile(doc, provider, over)->0;
    lemma_merged_is_sound(live, profile);
    law_merge_gives_the_profile(live, profile);
    assert(profile.get("models"@) == doc.get("models"@));
    law_routing_keeps_the_selection_of_the_user(written(live, provider, over), provider, all, key);
}

/// The provider has the same models as before, each patched.
pub proof fn lemma_patched_profile(doc: Group, provider: ProviderView, over: Overrides)
    requires
        patched_profile(doc, provider, over) is Some,
    ensures
        ({
            let profile = patched_profile(doc, provider, over)->0;
            &&& model_names(profile) == model_names(doc)
            &&& forall|name: Seq<char>| models(doc) is Some ==> #[trigger] profile.at("model"@, name)
                == match doc.at("model"@, name) {
                Some(node) => Some(
                    node.map_table(|model: Group| patched_model(model, provider, over)),
                ),
                None => None,
            }
        }),
{
    lemma_names_differ();
    let f = |model: Group| patched_model(model, provider, over);
    let each = with_each_model(doc, f);
    let profile = patched_profile(doc, provider, over)->0;
    assert(profile.get("model"@) == each.get("model"@));
    match models(doc) {
        Some(before) => {
            let after = before.map_tables(f);
            assert forall|name: Seq<char>| #[trigger] after.get(name) == match before.get(name) {
                Some(node) => Some(node.map_table(f)),
                None => None,
            } by {}
            assert((|n: Seq<char>| after.get(n) is Some) =~= (|n: Seq<char>| before.get(n) is Some));
            assert(after.names() == before.names());
        },
        None => {},
    }
}

/// Every model of the provider stands in the configuration, patched, unless its
/// name is that of a copy for another provider.
pub proof fn law_patch_writes_every_model_of_the_provider(
    live: Group,
    provider: ProviderView,
    all: ProviderMap,
    over: Overrides,
    name: Seq<char>,
)
    requires
        patched(live, provider, all, over) is Ok,
        models_are_sound(live),
        live.get("model"@) is None || models(live) is Some,
        model_names(provider_profile(provider)->Ok_0).contains(name),
        match provider_profile(provider)->Ok_0.at("model"@, name) {
            Some(node) => node is Table && !has_marker(node),
            None => false,
        },
        !is_managed(live, name),
    ensures
        patched(live, provider, all, over)->Ok_0.at("model"@, name) == Some(
            Node::Table(
                patched_model(
                    provider_profile(provider)->Ok_0.at("model"@, name)->0->Table_0,
                    provider,
                    over,
                ),
            ),
        ),
{
    lemma_names_differ();
    let doc = provider_profile(provider)->Ok_0;
    let profile = patched_profile(doc, provider, over)->0;
    let tree = merged(live, profile)->0;
    let model = doc.at("model"@, name)->0->Table_0;
    lemma_patched_profile(doc, provider, over);
    assert(models(doc) is Some);
    law_merge_touches_only_the_profile(live, profile);
    lemma_merged_is_sound(live, profile);
    assert(profile.at("model"@, name) == Some(Node::Table(patched_model(model, provider, over))));
    assert(tree.at("model"@, name) == profile.at("model"@, name));
    law_patched_model(model, provider, over);
    assert(patched_model(model, provider, over).get(LEGACY_MANAGED_OWNER_KEY@) == model.get(
        LEGACY_MANAGED_OWNER_KEY@,
    ));
    assert(is_taken(tree, name));
    law_routing_spares_the_models_of_the_user(tree, provider, all, name);
}

/// A takeover gives every model of the provider the address of the proxy and
/// the placeholder as its key. A backend that the model has stays.
pub proof fn law_takeover_redirects_every_model_of_the_provider(
    live: Group,
    provider: ProviderView,
    all: ProviderMap,
    proxy: Seq<char>,
    name: Seq<char>,
)
    requires
        patched(live, provider, all, takeover(proxy)) is Ok,
        models_are_sound(live),
        live.get("model"@) is None || models(live) is Some,
        model_names(provider_profile(provider)->Ok_0).contains(name),
        match provider_profile(provider)->Ok_0.at("model"@, name) {
            Some(node) => node is Table && !has_marker(node),
            None => false,
        },
        !is_managed(live, name),
    ensures
        ({
            let after = patched(live, provider, all, takeover(proxy))->Ok_0;
            let before = provider_profile(provider)->Ok_0.at("model"@, name)->0->Table_0;
            &&& after.at("model"@, name) is Some
            &&& after.at("model"@, name)->0 is Table
            &&& after.at("model"@, name)->0.group().text("base_url"@) == Some(proxy)
            &&& has_placeholder(after, name)
            &&& any_placeholder(after)
            &&& before.get("api_backend"@) is Some ==> after.at("model"@, name)->0.group().get(
                "api_backend"@,
            ) == before.get("api_backend"@)
        }),
{
    let over = takeover(proxy);
    let doc = provider_profile(provider)->Ok_0;
    let profile = patched_profile(doc, provider, over)->0;
    let tree = merged(live, profile)->0;
    let after = patched(live, provider, all, over)->Ok_0;
    let model = doc.at("model"@, name)->0->Table_0;
    law_patch_writes_every_model_of_the_provider(live, provider, all, over, name);
    law_patched_model(model, provider, over);
    lemma_merged_is_sound(live, profile);
    lemma_patched_profile(doc, provider, over);
    law_merge_touches_only_the_profile(live, profile);
    assert(tree.at("model"@, name) == profile.at("model"@, name));
    assert(patched_model(model, provider, over).get(LEGACY_MANAGED_OWNER_KEY@) == model.get(
        LEGACY_MANAGED_OWNER_KEY@,
    )) by {
        lemma_names_differ();
    }
    assert(is_taken(tree, name));
    law_routing_spares_the_models_of_the_user(tree, provider, all, name);
    let listed = models(after)->0;
    lemma_names(listed, name);
    assert(listed.order.contains(name) <==> listed.fields.contains_key(name));
    let k = choose|k: int| 0 <= k < model_names(after).len() && model_names(after)[k] == name;
    assert(has_placeholder(after, model_names(after)[k]));
}

/// The copy of a model is as its provider defines it, but for two things: it has
/// the key of that provider if it had none, and no older marker.
pub proof fn law_copy_is_as_its_provider_defines_it(source: ProviderView, model_id: Seq<char>)
    requires
        copied_model(source, model_id) is Ok,
    ensures
        ({
            let copy = copied_model(source, model_id)->Ok_0;
            let model = model_group(provider_doc(source)->Ok_0, model_id)->0;
            &&& forall|name: Seq<char>|
                name != "api_key"@ && !marker_keys().contains(name) ==> #[trigger] copy.get(name)
                    == model.get(name)
            &&& copy.get("api_key"@) == if model.get("api_key"@) is Some || model.get("env_key"@) is Some {
                model.get("api_key"@)
            } else {
                match auth_key(source.settings) {
                    Some(key) => Some(Node::fresh_text(key)),
                    None => None,
                }
            }
            &&& forall|name: Seq<char>| marker_keys().contains(name) ==> #[trigger] copy.get(name) is None
        }),
{
    reveal_strlit("api_key");
    reveal_strlit("cc_switch_owned");
    reveal_strlit("cc_switch_source_provider");
    reveal_strlit("cc_switch_source_model");
    assert("api_key"@.len() == 7);
    assert("cc_switch_owned"@.len() == 15);
    assert("cc_switch_source_provider"@.len() == 25);
    assert("cc_switch_source_model"@.len() == 22);
}

/// Whatever the caller sets in place of what the provider says, a takeover among
/// it, a copy for another provider keeps its own address and key.
pub proof fn law_patch_leaves_copies_alone(
    live: Group,
    provider: ProviderView,
    all: ProviderMap,
    over: Overrides,
    i: int,
)
    requires
        patched(live, provider, all, over) is Ok,
        registry_is_sound(live),
        models_are_sound(live),
        0 <= i < provider.routes.len(),
        has_a_role(provider.routes[i]),
        route_source(provider.routes[i], provider) != provider.id,
        all.contains_key(route_source(provider.routes[i], provider)),
        is_last_of_its_role(provider.routes, i),
        keeps_its_name(written(live, provider, over), provider, all, i),
    ensures
        ({
            let after = patched(live, provider, all, over)->Ok_0;
            let source = route_source(provider.routes[i], provider);
            let model_id = trimmed(provider.routes[i].model_id);
            let name = target_of(written(live, provider, over), provider, all, i);
            &&& route_of(after, trimmed(provider.routes[i].role)) == Some(Node::fresh_text(name))
            &&& registered_source(after, name) == Some((source, model_id))
            &&& copied_model(all[source], model_id) is Ok
            &&& after.at("model"@, name) == Some(
                Node::Table(copied_model(all[source], model_id)->Ok_0),
            )
        }),
{
    let profile = patched_profile(provider_profile(provider)->Ok_0, provider, over)->0;
    lemma_merged_is_sound(live, profile);
    law_route_to_another_provider_leads_to_its_model(
        written(live, provider, over),
        provider,
        all,
        i,
    );
}

/// The configuration with the provider in it, before its routes are followed.
pub open spec fn written(live: Group, provider: ProviderView, over: Overrides) -> Group {
    merged(live, patched_profile(provider_profile(provider)->Ok_0, provider, over)->0)->0
}

/// The official account is refused a takeover, whatever the configuration.
pub proof fn law_official_account_is_refused_a_takeover(
    existing: Seq<char>,
    provider: ProviderView,
    all: ProviderMap,
    proxy: Seq<char>,
)
    requires
        existing_doc(existing) is Ok,
        provider.is_official(),
    ensures
        patched_text(existing, provider, all, takeover(proxy)) == Err::<Seq<char>, FaultView>(
            FaultView::Reported(AppErrorView::OfficialProxyUnsupported),
        ),
{
}

/// The configuration of the official account, where `read` is what the text
/// without address and selection reads as, and `lost` are the sections that it
/// reads otherwise than they were written. Nothing is touched but address,
/// selection, routes, models and the registry, and what was lost. There is no
/// address and no selection, and the models of the user stay.
pub proof fn law_official_patch_touches_nothing_else(
    live: Group,
    read: Group,
    lost: Set<Seq<char>>,
    provider: ProviderView,
    all: ProviderMap,
    over: Overrides,
)
    requires
        patched_official(live, provider, all, over) is Ok,
        toml_parse(toml_render(official(live))) == Ok::<Group, Seq<char>>(read),
        agree_outside(official(live), read, lost),
    ensures
        ({
            let after = patched_official(live, provider, all, over)->Ok_0;
            &&& agree_outside(live, after, patched_sections().union(lost))
            &&& !lost.contains("endpoints"@) ==> {
                &&& after.at("endpoints"@, "models_base_url"@) is None
                &&& agree_outside(
                    live.section("endpoints"@),
                    after.section("endpoints"@),
                    set!["models_base_url"@],
                )
            }
            &&& !lost.contains("models"@) ==> {
                &&& after.at("models"@, "default"@) is None
                &&& after.at("models"@, "web_search"@) is None
                &&& agree_outside(
                    live.section("models"@),
                    after.section("models"@),
                    set!["default"@, "web_search"@],
                )
            }
            &&& !lost.contains("subagents"@) ==> agree_outside(
                live.section("subagents"@),
                after.section("subagents"@),
                set!["models"@],
            )
            &&& !lost.contains(MANAGED_REGISTRY_ROOT@) ==> registry_is_spared(live, after)
            &&& forall|name: Seq<char>|
                models_are_sound(read) && is_taken(live, name) && !lost.contains("model"@) && !lost.contains(
                    MANAGED_REGISTRY_ROOT@,
                ) ==> #[trigger] after.at("model"@, name) == live.at("model"@, name)
        }),
{
    lemma_names_differ();
    let sections = patched_sections().union(lost);
    let two = set!["endpoints"@, "models"@];
    let cut = official(live);
    let after = patched_official(live, provider, all, over)->Ok_0;
    law_official_removes_only_address_and_selection(live);
    law_routing_touches_nothing_else(read, provider, all);
    lemma_agree_more(live, cut, two, sections);
    lemma_agree_more(cut, read, lost, sections);
    lemma_agree_more(read, after, routed_sections(), sections);
    lemma_agree_trans(live, cut, read, sections);
    lemma_agree_trans(live, read, after, sections);
    lemma_agree_get(live, cut, two, "subagents"@);
    lemma_agree_get(live, cut, two, "model"@);
    lemma_agree_get(live, cut, two, MANAGED_REGISTRY_ROOT@);
    lemma_agree_get(read, after, routed_sections(), "endpoints"@);
    if !lost.contains("endpoints"@) {
        lemma_agree_get(cut, read, lost, "endpoints"@);
    }
    if !lost.contains("models"@) {
        lemma_agree_get(cut, read, lost, "models"@);
        lemma_agree_trans(
            live.section("models"@),
            read.section("models"@),
            after.section("models"@),
            set!["default"@, "web_search"@],
        );
    }
    if !lost.contains("subagents"@) {
        lemma_agree_get(cut, read, lost, "subagents"@);
    }
    if !lost.contains(MANAGED_REGISTRY_ROOT@) {
        lemma_agree_get(cut, read, lost, MANAGED_REGISTRY_ROOT@);
        if registry_is_sound(live) {
            lemma_beside_trans(live, read, after);
        }
    }
    assert forall|name: Seq<char>|
        models_are_sound(read) && is_taken(live, name) && !lost.contains("model"@) && !lost.contains(
        MANAGED_REGISTRY_ROOT@,
    ) implies #[trigger] after.at("model"@, name) == live.at("model"@, name) by {
        lemma_agree_get(cut, read, lost, "model"@);
        assert(is_taken(read, name));
        law_routing_spares_the_models_of_the_user(read, provider, all, name);
    }
}

} // verus!
