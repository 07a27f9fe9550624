//! What switching to a provider gives, from text to text.
use vstd::prelude::*;
use crate::error::{AppErrorView, FaultView};
use crate::laws::again::lemma_nothing_to_remove;
use crate::laws::cleanup::route_of;
use crate::laws::frame::{agree_outside, lemma_names_differ};
use crate::laws::outside::{
    law_routing_clears_a_role_only_with_its_copy,
    law_routing_clears_a_selection_only_with_its_copy, law_routing_spares_the_models_of_the_user,
    lemma_gone, lemma_migrated_is_owned, lemma_registered_is_owned, models_can_be_listed,
    registry_is_spared,
};
use crate::laws::patch::{
    law_patch_sets_the_address, law_patch_touches_nothing_else, law_patched_model,
    lemma_merged_is_sound, lemma_merged_keeps_header, lemma_patched_profile, patched_sections,
    written,
};
use crate::laws::profile::{
    law_merge_gives_the_profile, law_merge_keeps_the_order_of_models,
    law_merge_touches_only_the_profile, lemma_models_are_listed_once,
};
use crate::laws::registry::{
    is_copy, law_migration_is_needed_once, law_migration_moves_every_marker,
    law_sound_documents_have_sound_tables, marker_source, models_are_sound, registry_is_sound,
};
use crate::laws::routes::{
    copies_in_use, has_a_role, is_asked_for, is_last_of_its_role, keeps_its_name,
    law_every_copy_is_asked_for, law_only_copies_in_use_are_left,
    law_other_roles_lose_only_copies_that_are_gone,
    law_role_points_to_the_model_of_the_active_provider,
    law_route_to_another_provider_leads_to_its_model, law_without_routes_no_copy_is_left,
    leads_elsewhere, lemma_routed, target_of,
};
use crate::patch::{
    patched, patched_model, patched_profile, patched_text, takeover, with_each_model, Overrides,
};
use crate::profile::merged;
use crate::provider::{ProviderMap, ProviderView};
use crate::registry::{
    is_managed, is_marked, is_registered, is_taken, migrated, model_names, models, owned,
    registered_source, LEGACY_MANAGED_OWNER_KEY, MANAGED_REGISTRY_ROOT,
};
use crate::routes::{copied_model, route_source, routed};
use crate::selection::{auth_key, backend_of_format, provider_profile, selected_model};
use crate::text::{is_blank, trimmed};
use crate::toml::{toml_parse, toml_render};
use crate::tree::{lemma_names, Group, Node};

verus! {

/// The text reads as that document: a blank one as the empty document.
pub open spec fn reads_as(text: Seq<char>, doc: Group) -> bool {
    &&& doc.is_sound()
    &&& if is_blank(text) {
        doc == Group::empty()
    } else {
        toml_parse(text) == Ok::<Group, Seq<char>>(doc)
    }
}

/// The configuration of the provider reads as that document.
pub open spec fn provider_reads_as(provider: ProviderView, doc: Group) -> bool {
    &&& doc.is_sound()
    &&& provider.settings.member_text("config"@) is Some
    &&& toml_parse(provider.settings.member_text("config"@)->0) == Ok::<Group, Seq<char>>(doc)
}

/// The document behind the text that switching gives.
pub proof fn lemma_switched_tree(
    existing: Seq<char>,
    live: Group,
    doc: Group,
    provider: ProviderView,
    all: ProviderMap,
    over: Overrides,
) -> (after: Group)
    requires
        reads_as(existing, live),
        provider_reads_as(provider, doc),
        provider.category != Some("official"@),
        patched_text(existing, provider, all, over) is Ok,
    ensures
        patched_text(existing, provider, all, over) == Ok::<Seq<char>, FaultView>(toml_render(after)),
        patched(live, provider, all, over) == Ok::<Group, FaultView>(after),
        provider_profile(provider) == Ok::<Group, AppErrorView>(doc),
        ({
            let profile = patched_profile(doc, provider, over);
            &&& profile is Some
            &&& merged(live, profile->0) == Some(written(live, provider, over))
            &&& routed(written(live, provider, over), provider, all) == Ok::<Group, FaultView>(after)
        }),
{
    patched(live, provider, all, over)->Ok_0
}

/// What the provider makes of a configuration before its routes are followed.
pub proof fn lemma_written(live: Group, doc: Group, provider: ProviderView, over: Overrides)
    requires
        live.is_sound(),
        doc.is_sound(),
        provider_profile(provider) == Ok::<Group, AppErrorView>(doc),
        patched_profile(doc, provider, over) is Some,
        merged(live, patched_profile(doc, provider, over)->0) is Some,
    ensures
        ({
            let tree = written(live, provider, over);
            &&& models_are_sound(tree)
            &&& tree.get(MANAGED_REGISTRY_ROOT@) == live.get(MANAGED_REGISTRY_ROOT@)
            &&& tree.at("models"@, "default"@) == doc.at("models"@, "default"@)
            &&& tree.at("models"@, "web_search"@) == doc.at("models"@, "web_search"@)
            &&& tree.at("subagents"@, "models"@) == match doc.at("subagents"@, "models"@) {
                Some(routes) => Some(routes),
                None => live.at("subagents"@, "models"@),
            }
            &&& forall|name: Seq<char>| #[trigger]
                tree.at("model"@, name) == if models(doc) is Some && doc.at("model"@, name) is Some
                    && !is_managed(live, name) {
                    Some(
                        doc.at("model"@, name)->0.map_table(
                            |model: Group| patched_model(model, provider, over),
                        ),
                    )
                } else {
                    live.at("model"@, name)
                }
            &&& forall|name: Seq<char>| #[trigger]
                is_managed(tree, name) <==> is_managed(live, name) || is_marked(doc, name)
            &&& models_can_be_listed(live) ==> models_can_be_listed(tree)
        }),
{
    lemma_names_differ();
    let profile = patched_profile(doc, provider, over)->0;
    let tree = written(live, provider, over);
    law_sound_documents_have_sound_tables(live);
    law_sound_documents_have_sound_tables(doc);
    lemma_patched_profile(doc, provider, over);
    law_merge_touches_only_the_profile(live, profile);
    law_merge_gives_the_profile(live, profile);
    lemma_merged_is_sound(live, profile);
    assert(profile.get("models"@) == doc.get("models"@));
    assert(profile.get("subagents"@) == doc.get("subagents"@));
    let f = |model: Group| patched_model(model, provider, over);
    assert forall|name: Seq<char>| #[trigger]
        tree.at("model"@, name) == if models(doc) is Some && doc.at("model"@, name) is Some
            && !is_managed(live, name) {
            Some(doc.at("model"@, name)->0.map_table(f))
        } else {
            live.at("model"@, name)
        } by {
        match models(doc) {
            Some(all) => {
                lemma_names(all, name);
                assert(all.order.contains(name) <==> all.fields.contains_key(name));
                assert(profile.at("model"@, name) == match doc.at("model"@, name) {
                    Some(node) => Some(node.map_table(f)),
                    None => None,
                });
            },
            None => {},
        }
    }
    assert forall|name: Seq<char>| #[trigger]
        is_managed(tree, name) <==> is_managed(live, name) || is_marked(doc, name) by {
        assert(tree.at("model"@, name) == if models(doc) is Some && doc.at("model"@, name) is Some
            && !is_managed(live, name) {
            Some(doc.at("model"@, name)->0.map_table(f))
        } else {
            live.at("model"@, name)
        });
        match doc.at("model"@, name) {
            Some(Node::Table(model)) => {
                law_patched_model(model, provider, over);
                assert(patched_model(model, provider, over).get(LEGACY_MANAGED_OWNER_KEY@)
                    == model.get(LEGACY_MANAGED_OWNER_KEY@));
            },
            _ => {},
        }
    }
}

/// The models of the provider stand under headers where those before did.
pub proof fn lemma_written_can_be_listed(
    live: Group,
    doc: Group,
    provider: ProviderView,
    over: Overrides,
)
    requires
        live.is_sound(),
        provider_profile(provider) == Ok::<Group, AppErrorView>(doc),
        patched_profile(doc, provider, over) is Some,
        merged(live, patched_profile(doc, provider, over)->0) is Some,
        models_can_be_listed(live),
    ensures
        models_can_be_listed(written(live, provider, over)),
{
    law_sound_documents_have_sound_tables(live);
    lemma_merged_is_sound(live, patched_profile(doc, provider, over)->0);
}

/// Models that stood under a header still do.
proof fn lemma_written_keeps_header(
    live: Group,
    doc: Group,
    provider: ProviderView,
    over: Overrides,
)
    requires
        provider_profile(provider) == Ok::<Group, AppErrorView>(doc),
        patched_profile(doc, provider, over) is Some,
        merged(live, patched_profile(doc, provider, over)->0) is Some,
    ensures
        models(live) is Some ==> models(written(live, provider, over)) is Some,
{
    lemma_merged_keeps_header(live, patched_profile(doc, provider, over)->0);
}

/// Once a provider is switched to, the address is that of the caller, else that
/// of the provider, and both selections are those of the provider. What the
/// provider does not have is not there, whatever stood there before. A selection
/// is missing only where it names a copy that is gone. Nothing else is touched but
/// the models, the roles and the registry.
pub proof fn law_switch_gives_address_and_selection_of_the_provider(
    existing: Seq<char>,
    live: Group,
    doc: Group,
    provider: ProviderView,
    all: ProviderMap,
    over: Overrides,
)
    requires
        reads_as(existing, live),
        provider_reads_as(provider, doc),
        provider.category != Some("official"@),
        patched_text(existing, provider, all, over) is Ok,
    ensures
        exists|after: Group|
            {
                &&& patched_text(existing, provider, all, over) == Ok::<Seq<char>, FaultView>(
                    #[trigger] toml_render(after),
                )
                &&& after.at("endpoints"@, "models_base_url"@) == match over.base_url {
                    Some(url) => Some(Node::fresh_text(url)),
                    None => doc.at("endpoints"@, "models_base_url"@),
                }
                &&& after.at("models"@, "default"@) == match doc.text_at("models"@, "default"@) {
                    Some(name) => if (is_managed(live, name) || is_marked(doc, name)) && after.at(
                        "model"@,
                        name,
                    ) is None {
                        None
                    } else {
                        doc.at("models"@, "default"@)
                    },
                    None => doc.at("models"@, "default"@),
                }
                &&& after.at("models"@, "web_search"@) == match doc.text_at("models"@, "web_search"@) {
                    Some(name) => if (is_managed(live, name) || is_marked(doc, name)) && after.at(
                        "model"@,
                        name,
                    ) is None {
                        None
                    } else {
                        doc.at("models"@, "web_search"@)
                    },
                    None => doc.at("models"@, "web_search"@),
                }
                &&& agree_outside(live, after, patched_sections())
                &&& agree_outside(
                    live.section("endpoints"@),
                    after.section("endpoints"@),
                    set!["models_base_url"@],
                )
                &&& agree_outside(
                    live.section("models"@),
                    after.section("models"@),
                    set!["default"@, "web_search"@],
                )
                &&& agree_outside(
                    live.section("subagents"@),
                    after.section("subagents"@),
                    set!["models"@],
                )
                &&& registry_is_spared(live, after)
            },
{
    let after = lemma_switched_tree(existing, live, doc, provider, all, over);
    let tree = written(live, provider, over);
    lemma_written(live, doc, provider, over);
    law_patch_sets_the_address(live, provider, all, over);
    law_patch_touches_nothing_else(live, provider, all, over);
    law_routing_clears_a_selection_only_with_its_copy(tree, provider, all, "default"@);
    law_routing_clears_a_selection_only_with_its_copy(tree, provider, all, "web_search"@);
    assert(patched_text(existing, provider, all, over) == Ok::<Seq<char>, FaultView>(toml_render(after)));
}

/// A model of the provider as it stands once the provider is switched to: with
/// the address, the key and the backend of the caller, if there are any. It keeps
/// what it has of the three otherwise, and gets from the provider a key if it has
/// neither a key nor a variable for one, and a backend if it has none. Nothing
/// else in it is touched.
pub open spec fn is_model_of(
    after: Group,
    model: Group,
    provider: ProviderView,
    over: Overrides,
) -> bool {
    &&& after.get("base_url"@) == match over.base_url {
        Some(url) => Some(Node::fresh_text(url)),
        None => model.get("base_url"@),
    }
    &&& after.get("api_key"@) == match over.api_key {
        Some(key) => Some(Node::fresh_text(key)),
        None => if model.get("api_key"@) is Some || model.get("env_key"@) is Some {
            model.get("api_key"@)
        } else {
            match auth_key(provider.settings) {
                Some(key) => Some(Node::fresh_text(key)),
                None => None,
            }
        },
    }
    &&& after.get("api_backend"@) == match over.api_backend {
        Some(backend) => Some(Node::fresh_text(backend)),
        None => if model.get("api_backend"@) is Some {
            model.get("api_backend"@)
        } else {
            match backend_of_format(provider.api_format) {
                Some(backend) => Some(Node::fresh_text(backend)),
                None => None,
            }
        },
    }
    &&& agree_outside(model, after, set!["base_url"@, "api_key"@, "api_backend"@])
}

/// Once a provider is switched to, each of its models is there, with what the
/// caller sets and what the provider adds. A model of the user that the provider
/// does not have is left as it was.
pub proof fn law_switch_gives_the_models_of_the_provider(
    existing: Seq<char>,
    live: Group,
    doc: Group,
    provider: ProviderView,
    all: ProviderMap,
    over: Overrides,
)
    requires
        reads_as(existing, live),
        provider_reads_as(provider, doc),
        provider.category != Some("official"@),
        models_can_be_listed(live),
        patched_text(existing, provider, all, over) is Ok,
    ensures
        exists|after: Group|
            {
                &&& patched_text(existing, provider, all, over) == Ok::<Seq<char>, FaultView>(
                    #[trigger] toml_render(after),
                )
                &&& forall|name: Seq<char>|
                    models(doc) is Some && !is_managed(live, name) && !is_marked(doc, name) ==> match (
                    doc.at("model"@, name)) {
                        Some(Node::Table(model)) => (#[trigger] after.at("model"@, name)) is Some
                            && after.at("model"@, name)->0 is Table && is_model_of(
                            after.at("model"@, name)->0.group(),
                            model,
                            provider,
                            over,
                        ),
                        Some(node) => after.at("model"@, name) == Some(node),
                        None => true,
                    }
                &&& forall|name: Seq<char>|
                    live.at("model"@, name) is Some && !is_managed(live, name) && (models(doc) is None
                        || doc.at("model"@, name) is None) ==> #[trigger] after.at("model"@, name)
                        == live.at("model"@, name)
            },
{
    let after = lemma_switched_tree(existing, live, doc, provider, all, over);
    let tree = written(live, provider, over);
    let f = |model: Group| patched_model(model, provider, over);
    lemma_written(live, doc, provider, over);
    assert forall|name: Seq<char>| tree.at("model"@, name) is Some && !is_managed(
        tree,
        name,
    ) implies #[trigger] after.at("model"@, name) == tree.at("model"@, name) by {
        assert(is_taken(tree, name));
        law_routing_spares_the_models_of_the_user(tree, provider, all, name);
    }
    assert forall|name: Seq<char>|
        models(doc) is Some && !is_managed(live, name) && !is_marked(doc, name) implies match (doc.at(
        "model"@,
        name,
    )) {
        Some(Node::Table(model)) => (#[trigger] after.at("model"@, name)) is Some && after.at(
            "model"@,
            name,
        )->0 is Table && is_model_of(after.at("model"@, name)->0.group(), model, provider, over),
        Some(node) => after.at("model"@, name) == Some(node),
        None => true,
    } by {
        assert(is_managed(tree, name) <==> is_managed(live, name) || is_marked(doc, name));
        if doc.at("model"@, name) is Some {
            assert(tree.at("model"@, name) == Some(doc.at("model"@, name)->0.map_table(f)));
            assert(after.at("model"@, name) == tree.at("model"@, name));
            match doc.at("model"@, name) {
                Some(Node::Table(model)) => {
                    law_patched_model(model, provider, over);
                },
                _ => {},
            }
        }
    }
    assert forall|name: Seq<char>|
        live.at("model"@, name) is Some && !is_managed(live, name) && (models(doc) is None || doc.at(
            "model"@,
            name,
        ) is None) implies #[trigger] after.at("model"@, name) == live.at("model"@, name) by {
        assert(is_managed(tree, name) <==> is_managed(live, name) || is_marked(doc, name));
        assert(tree.at("model"@, name) == live.at("model"@, name));
    }
    assert(patched_text(existing, provider, all, over) == Ok::<Seq<char>, FaultView>(toml_render(after)));
}

/// A takeover gives each model of the provider the address of the proxy and the
/// placeholder for its key, and the common address too. The backend stays that of
/// the model, whatever format the provider speaks; the selection stays that of
/// the provider.
pub proof fn law_takeover_gives_address_and_placeholder(
    existing: Seq<char>,
    live: Group,
    doc: Group,
    provider: ProviderView,
    all: ProviderMap,
    proxy: Seq<char>,
)
    requires
        reads_as(existing, live),
        provider_reads_as(provider, doc),
        provider.category != Some("official"@),
        models_can_be_listed(live),
        patched_text(existing, provider, all, takeover(proxy)) is Ok,
    ensures
        exists|after: Group|
            {
                &&& patched_text(existing, provider, all, takeover(proxy)) == Ok::<
                    Seq<char>,
                    FaultView,
                >(#[trigger] toml_render(after))
                &&& after.at("endpoints"@, "models_base_url"@) == Some(Node::fresh_text(proxy))
                &&& forall|name: Seq<char>|
                    models(doc) is Some && !is_managed(live, name) && !is_marked(doc, name) ==> match (
                    doc.at("model"@, name)) {
                        Some(Node::Table(model)) => {
                            let taken = (#[trigger] after.at("model"@, name))->0.group();
                            &&& after.at("model"@, name) is Some
                            &&& after.at("model"@, name)->0 is Table
                            &&& taken.get("base_url"@) == Some(Node::fresh_text(proxy))
                            &&& taken.get("api_key"@) == Some(Node::fresh_text("PROXY_MANAGED"@))
                            &&& model.get("api_backend"@) is Some ==> taken.get("api_backend"@)
                                == model.get("api_backend"@)
                            &&& model.get("api_backend"@) is None ==> taken.get("api_backend"@)
                                == match backend_of_format(provider.api_format) {
                                Some(backend) => Some(Node::fresh_text(backend)),
                                None => None,
                            }
                            &&& agree_outside(
                                model,
                                taken,
                                set!["base_url"@, "api_key"@, "api_backend"@],
                            )
                        },
                        _ => true,
                    }
            },
{
    law_switch_gives_address_and_selection_of_the_provider(
        existing,
        live,
        doc,
        provider,
        all,
        takeover(proxy),
    );
    let after = lemma_switched_tree(existing, live, doc, provider, all, takeover(proxy));
    law_patch_sets_the_address(live, provider, all, takeover(proxy));
    let tree = written(live, provider, takeover(proxy));
    let f = |model: Group| patched_model(model, provider, takeover(proxy));
    lemma_written(live, doc, provider, takeover(proxy));
    assert forall|name: Seq<char>|
        models(doc) is Some && !is_managed(live, name) && !is_marked(doc, name) implies match (doc.at(
        "model"@,
        name,
    )) {
        Some(Node::Table(model)) => {
            let taken = (#[trigger] after.at("model"@, name))->0.group();
            &&& after.at("model"@, name) is Some
            &&& after.at("model"@, name)->0 is Table
            &&& taken.get("base_url"@) == Some(Node::fresh_text(proxy))
            &&& taken.get("api_key"@) == Some(Node::fresh_text("PROXY_MANAGED"@))
            &&& model.get("api_backend"@) is Some ==> taken.get("api_backend"@) == model.get(
                "api_backend"@,
            )
            &&& model.get("api_backend"@) is None ==> taken.get("api_backend"@)
                == match backend_of_format(provider.api_format) {
                Some(backend) => Some(Node::fresh_text(backend)),
                None => None,
            }
            &&& agree_outside(model, taken, set!["base_url"@, "api_key"@, "api_backend"@])
        },
        _ => true,
    } by {
        assert(is_managed(tree, name) <==> is_managed(live, name) || is_marked(doc, name));
        match doc.at("model"@, name) {
            Some(Node::Table(model)) => {
                law_patched_model(model, provider, takeover(proxy));
                assert(tree.at("model"@, name) == Some(doc.at("model"@, name)->0.map_table(f)));
                assert(is_taken(tree, name));
                law_routing_spares_the_models_of_the_user(tree, provider, all, name);
            },
            _ => {},
        }
    }
    assert(patched_text(existing, provider, all, takeover(proxy)) == Ok::<Seq<char>, FaultView>(
        toml_render(after),
    ));
}

/// No route of the provider has that role.
pub open spec fn is_unnamed(provider: ProviderView, role: Seq<char>) -> bool {
    forall|i: int|
        0 <= i < provider.routes.len() && has_a_role(#[trigger] provider.routes[i]) ==> trimmed(
            provider.routes[i].role,
        ) != role
}

/// The copies in a configuration are those that the routes of the provider ask
/// for, and none without routes. What was a copy before and is none any more is
/// not there. The role of each route, the last with that role, points to
/// the model that it names, or to the copy of it.
pub open spec fn copies_are_as_asked(
    before: Group,
    after: Group,
    provider: ProviderView,
    all: ProviderMap,
) -> bool {
    &&& provider.routes.len() == 0 ==> owned(after) == Set::<Seq<char>>::empty()
    &&& forall|name: Seq<char>| #[trigger]
        is_registered(before, name) && !owned(after).contains(name) ==> after.at("model"@, name) is None
    &&& registry_is_sound(before) ==> forall|name: Seq<char>| #[trigger]
        is_copy(before, name) && !owned(after).contains(name) ==> after.at("model"@, name) is None
    &&& forall|name: Seq<char>| #[trigger]
        owned(after).contains(name) ==> exists|i: int| #[trigger]
            is_asked_for(after, provider, all, name, i)
    &&& forall|i: int| #[trigger]
        leads_elsewhere(provider, i) && is_last_of_its_role(provider.routes, i) ==> {
            let route = route_of(after, trimmed(provider.routes[i].role));
            &&& route is Some
            &&& route->0.text() is Some
            &&& owned(after).contains(route->0.text()->0)
        }
    &&& forall|i: int|
        0 <= i < provider.routes.len() && has_a_role(#[trigger] provider.routes[i]) && route_source(
            provider.routes[i],
            provider,
        ) == provider.id && is_last_of_its_role(provider.routes, i) ==> route_of(
            after,
            trimmed(provider.routes[i].role),
        ) == Some(Node::fresh_text(trimmed(provider.routes[i].model_id)))
}

/// Following the routes leaves the copies that they ask for.
pub proof fn law_routing_leaves_the_copies_that_are_asked_for(
    doc: Group,
    provider: ProviderView,
    all: ProviderMap,
)
    requires
        routed(doc, provider, all) is Ok,
        models_are_sound(doc),
        registry_is_sound(doc) || provider.routes.len() == 0,
    ensures
        copies_are_as_asked(doc, routed(doc, provider, all)->Ok_0, provider, all),
{
    let after = routed(doc, provider, all)->Ok_0;
    if provider.routes.len() == 0 {
        law_without_routes_no_copy_is_left(migrated(doc)->0);
    } else {
        law_only_copies_in_use_are_left(doc, provider, all);
        lemma_routed(doc, provider, all);
    }
    assert forall|name: Seq<char>| #[trigger] is_registered(doc, name) && !owned(after).contains(
        name,
    ) implies after.at("model"@, name) is None by {
        let n = provider.routes.len() as int;
        assert(provider.routes.take(n) =~= provider.routes);
        lemma_gone(doc, provider, all, name);
        lemma_registered_is_owned(doc, provider, all, name);
    }
    if registry_is_sound(doc) {
        assert forall|name: Seq<char>| #[trigger] is_copy(doc, name) && !owned(after).contains(
            name,
        ) implies after.at("model"@, name) is None by {
            let n = provider.routes.len() as int;
            assert(provider.routes.take(n) =~= provider.routes);
            lemma_gone(doc, provider, all, name);
            if !is_registered(doc, name) {
                law_migration_moves_every_marker(doc);
                assert(registered_source(migrated(doc)->0, name) == marker_source(doc, name));
                lemma_migrated_is_owned(doc, provider, all, name);
            }
        }
    }
    assert forall|name: Seq<char>| #[trigger] owned(after).contains(name) implies exists|i: int| #[trigger]
        is_asked_for(after, provider, all, name, i) by {
        law_every_copy_is_asked_for(doc, provider, all, name);
    }
    assert forall|i: int| #[trigger]
        leads_elsewhere(provider, i) && is_last_of_its_role(provider.routes, i) implies {
        let route = route_of(after, trimmed(provider.routes[i].role));
        &&& route is Some
        &&& route->0.text() is Some
        &&& owned(after).contains(route->0.text()->0)
    } by {
        assert(copies_in_use(doc, provider, all).contains(target_of(doc, provider, all, i)));
    }
    assert forall|i: int|
        0 <= i < provider.routes.len() && has_a_role(#[trigger] provider.routes[i]) && route_source(
            provider.routes[i],
            provider,
        ) == provider.id && is_last_of_its_role(provider.routes, i) implies route_of(
        after,
        trimmed(provider.routes[i].role),
    ) == Some(Node::fresh_text(trimmed(provider.routes[i].model_id))) by {
        law_role_points_to_the_model_of_the_active_provider(doc, provider, all, i);
    }
}

/// Once a provider is switched to, the copies are those that its routes ask for:
/// none without routes. What was kept for another provider and is not asked for
/// is gone, with the selections and the roles that point to it. A role that no
/// route names has what the provider says, else what it had before.
pub proof fn law_switch_leaves_the_copies_that_are_asked_for(
    existing: Seq<char>,
    live: Group,
    doc: Group,
    provider: ProviderView,
    all: ProviderMap,
    over: Overrides,
)
    requires
        reads_as(existing, live),
        provider_reads_as(provider, doc),
        provider.category != Some("official"@),
        models_can_be_listed(live),
        registry_is_sound(live) || provider.routes.len() == 0,
        patched_text(existing, provider, all, over) is Ok,
    ensures
        exists|after: Group|
            {
                let routes = match doc.at("subagents"@, "models"@) {
                    Some(routes) => Some(routes),
                    None => live.at("subagents"@, "models"@),
                };
                &&& patched_text(existing, provider, all, over) == Ok::<Seq<char>, FaultView>(
                    #[trigger] toml_render(after),
                )
                &&& copies_are_as_asked(live, after, provider, all)
                &&& forall|role: Seq<char>|
                    is_unnamed(provider, role) && (provider.routes.len() == 0 || routes is None
                        || routes->0 is Table) ==> #[trigger] route_of(after, role) == match routes {
                        Some(routes) => match routes.child(role) {
                            Some(route) => if route.text() is Some && (is_managed(
                                live,
                                route.text()->0,
                            ) || is_marked(doc, route.text()->0)) && after.at(
                                "model"@,
                                route.text()->0,
                            ) is None {
                                None
                            } else {
                                Some(route)
                            },
                            None => None,
                        },
                        None => None,
                    }
            },
{
    let after = lemma_switched_tree(existing, live, doc, provider, all, over);
    let tree = written(live, provider, over);
    lemma_written(live, doc, provider, over);
    lemma_written_can_be_listed(live, doc, provider, over);
    law_routing_leaves_the_copies_that_are_asked_for(tree, provider, all);
    law_sound_documents_have_sound_tables(live);
    law_sound_documents_have_sound_tables(doc);
    assert forall|name: Seq<char>| #[trigger] is_registered(live, name) && !owned(after).contains(
        name,
    ) implies after.at("model"@, name) is None by {
        assert(is_registered(tree, name));
    }
    if registry_is_sound(live) {
        assert forall|name: Seq<char>| #[trigger] is_copy(live, name) && !owned(after).contains(
            name,
        ) implies after.at("model"@, name) is None by {
            assert(is_managed(live, name));
            assert(tree.at("model"@, name) == live.at("model"@, name));
            assert(marker_source(tree, name) == marker_source(live, name));
            assert(is_marked(live, name) ==> is_marked(tree, name)) by {
                lemma_written_keeps_header(live, doc, provider, over);
            }
            assert(is_copy(tree, name));
        }
    }
    let routes = match doc.at("subagents"@, "models"@) {
        Some(routes) => Some(routes),
        None => live.at("subagents"@, "models"@),
    };
    assert forall|role: Seq<char>|
        is_unnamed(provider, role) && (provider.routes.len() == 0 || routes is None
            || routes->0 is Table) implies #[trigger] route_of(after, role) == match routes {
        Some(routes) => match routes.child(role) {
            Some(route) => if route.text() is Some && (is_managed(live, route.text()->0) || is_marked(
                doc,
                route.text()->0,
            )) && after.at("model"@, route.text()->0) is None {
                None
            } else {
                Some(route)
            },
            None => None,
        },
        None => None,
    } by {
        if provider.routes.len() == 0 {
            law_routing_clears_a_role_only_with_its_copy(tree, provider, all, role);
        } else {
            law_other_roles_lose_only_copies_that_are_gone(tree, provider, all, role);
        }
    }
    assert(patched_text(existing, provider, all, over) == Ok::<Seq<char>, FaultView>(toml_render(after)));
}

/// Where nothing is kept for other providers, and no route asks for it, switching
/// adds the models of the provider behind those that were there, in the order of
/// the provider, and leaves the registry alone.
pub proof fn law_switch_without_copies_keeps_the_order_of_models(
    existing: Seq<char>,
    live: Group,
    doc: Group,
    provider: ProviderView,
    all: ProviderMap,
    over: Overrides,
)
    requires
        reads_as(existing, live),
        provider_reads_as(provider, doc),
        provider.category != Some("official"@),
        provider.routes.len() == 0,
        forall|name: Seq<char>| !#[trigger] is_managed(live, name),
        forall|name: Seq<char>| !#[trigger] is_marked(doc, name),
        patched_text(existing, provider, all, over) is Ok,
    ensures
        exists|after: Group|
            {
                &&& patched_text(existing, provider, all, over) == Ok::<Seq<char>, FaultView>(
                    #[trigger] toml_render(after),
                )
                &&& after.section("model"@).order == live.section("model"@).order + model_names(
                    doc,
                ).filter(|name: Seq<char>| !live.section("model"@).fields.contains_key(name))
                &&& after.get(MANAGED_REGISTRY_ROOT@) == live.get(MANAGED_REGISTRY_ROOT@)
            },
{
    let after = lemma_switched_tree(existing, live, doc, provider, all, over);
    let tree = written(live, provider, over);
    let profile = patched_profile(doc, provider, over)->0;
    lemma_written(live, doc, provider, over);
    lemma_models_are_listed_once(doc);
    lemma_patched_profile(doc, provider, over);
    law_merge_keeps_the_order_of_models(live, profile);
    let p = |name: Seq<char>|
        !live.section("model"@).fields.contains_key(name) && !is_managed(live, name);
    let q = |name: Seq<char>| !live.section("model"@).fields.contains_key(name);
    assert forall|name: Seq<char>| #[trigger] p(name) == q(name) by {
        assert(!is_managed(live, name));
    }
    assert(p =~= q);
    assert forall|name: Seq<char>| !#[trigger] is_marked(tree, name) by {
        assert(is_managed(tree, name) <==> is_managed(live, name) || is_marked(doc, name));
        assert(!is_managed(live, name));
        assert(!is_marked(doc, name));
    }
    assert forall|name: Seq<char>| !owned(tree).contains(name) by {
        assert(!is_marked(tree, name));
        assert(!is_managed(live, name));
        assert(registered_source(tree, name) == registered_source(live, name));
    }
    assert(owned(tree) =~= Set::<Seq<char>>::empty());
    law_migration_is_needed_once(tree);
    lemma_nothing_to_remove(tree);
    assert(after == tree);
    assert(patched_text(existing, provider, all, over) == Ok::<Seq<char>, FaultView>(toml_render(after)));
}

/// Switching is nothing but merging the models of the provider, each as it is to
/// stand in the configuration, with address, selection and roles, and following
/// its routes: the text that it gives is that of the document which these two
/// give, and what they refuse it refuses.
pub proof fn law_switch_is_merging_and_routing(
    existing: Seq<char>,
    live: Group,
    doc: Group,
    provider: ProviderView,
    all: ProviderMap,
    over: Overrides,
    profile: Group,
)
    requires
        reads_as(existing, live),
        provider_reads_as(provider, doc),
        provider.category != Some("official"@),
        selected_model(doc) is Some,
        patched_profile(doc, provider, over) == Some(profile),
    ensures
        patched_text(existing, provider, all, over) == match merged(live, profile) {
            Some(tree) => match routed(tree, provider, all) {
                Ok(after) => Ok::<Seq<char>, FaultView>(toml_render(after)),
                Err(fault) => Err(fault),
            },
            None => Err(FaultView::NotATable),
        },
        profile.at("models"@, "default"@) == doc.at("models"@, "default"@),
        profile.at("models"@, "web_search"@) == doc.at("models"@, "web_search"@),
        profile.at("subagents"@, "models"@) == doc.at("subagents"@, "models"@),
        profile.at("endpoints"@, "models_base_url"@) == match over.base_url {
            Some(url) => Some(Node::fresh_text(url)),
            None => doc.at("endpoints"@, "models_base_url"@),
        },
        model_names(profile) == model_names(doc),
{
    lemma_names_differ();
    lemma_patched_profile(doc, provider, over);
    let each = with_each_model(doc, |model: Group| patched_model(model, provider, over));
    assert(each.get("endpoints"@) == doc.get("endpoints"@));
    assert(profile.get("models"@) == doc.get("models"@));
    assert(profile.get("subagents"@) == doc.get("subagents"@));
}

/// The role of a route to a model of another provider points to the copy of that
/// very model: the registry gives its provider and its name there, and where that
/// provider is at hand the copy is as it defines it, whatever the caller sets.
pub proof fn law_switch_leads_a_route_to_its_model(
    existing: Seq<char>,
    live: Group,
    doc: Group,
    provider: ProviderView,
    all: ProviderMap,
    over: Overrides,
    i: int,
)
    requires
        reads_as(existing, live),
        provider_reads_as(provider, doc),
        provider.category != Some("official"@),
        registry_is_sound(live),
        leads_elsewhere(provider, i),
        is_last_of_its_role(provider.routes, i),
        keeps_its_name(written(live, provider, over), provider, all, i),
        patched_text(existing, provider, all, over) is Ok,
    ensures
        exists|after: Group|
            {
                let source = route_source(provider.routes[i], provider);
                let model_id = trimmed(provider.routes[i].model_id);
                let route = route_of(after, trimmed(provider.routes[i].role));
                &&& patched_text(existing, provider, all, over) == Ok::<Seq<char>, FaultView>(
                    #[trigger] toml_render(after),
                )
                &&& route is Some
                &&& route->0.text() is Some
                &&& registered_source(after, route->0.text()->0) == Some((source, model_id))
                &&& after.at("model"@, route->0.text()->0) is Some
                &&& all.contains_key(source) ==> copied_model(all[source], model_id) is Ok && after.at(
                    "model"@,
                    route->0.text()->0,
                ) == Some(Node::Table(copied_model(all[source], model_id)->Ok_0))
            },
{
    let after = lemma_switched_tree(existing, live, doc, provider, all, over);
    let tree = written(live, provider, over);
    lemma_written(live, doc, provider, over);
    law_route_to_another_provider_leads_to_its_model(tree, provider, all, i);
    assert(patched_text(existing, provider, all, over) == Ok::<Seq<char>, FaultView>(toml_render(after)));
}

} // verus!
