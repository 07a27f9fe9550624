//! What an import takes over, and what a release leaves behind.
use vstd::prelude::*;
use crate::import::{
    keyless, provider_part, released, settings_json, stripped, taken_over, with_field_of, with_routes_of,
    without_key, without_models,
};
use crate::laws::cleanup::{
    law_routes_go_only_if_stale, law_selection_is_cleared_only_if_stale, points_to, route_of,
};
use crate::laws::frame::{
    agree_outside, lemma_agree_get, lemma_agree_more, lemma_agree_trans, lemma_agree_without_at,
    lemma_names_differ,
};
use crate::laws::outside::{
    law_migration_touches_nothing_else, lemma_forgetting_outside, registry_is_spared,
};
use crate::laws::profile::profile_sections;
use crate::laws::registry::{lemma_beside_trans, models_are_sound, registry_is_sound};
use crate::laws::routes::routed_sections;
use crate::registry::{
    is_managed, is_marked, migrated, model_names, models, owned, registered_source,
    MANAGED_REGISTRY_ROOT,
};
use crate::routes::without_selection_of;
use crate::selection::{any_placeholder, auth_key, has_placeholder};
use crate::text::trimmed;
use crate::tree::{lemma_names, Group, Node};

verus! {

/// Models that are removed go, with the selections and the routes that refer to
/// one. Every other model, selection and route stays, and so does everything else.
pub proof fn law_models_go_with_what_refers_to_them(doc: Group, names: Set<Seq<char>>)
    ensures
        ({
            let after = without_models(doc, names);
            &&& forall|name: Seq<char>| #[trigger]
                after.at("model"@, name) == if names.contains(name) {
                    None
                } else {
                    doc.at("model"@, name)
                }
            &&& forall|role: Seq<char>| #[trigger]
                route_of(after, role) == if points_to(doc, role, names) {
                    None
                } else {
                    route_of(doc, role)
                }
            &&& after.at("models"@, "default"@) == without_selection_of(doc, "default"@, names).at(
                "models"@,
                "default"@,
            )
            &&& after.at("models"@, "web_search"@) == without_selection_of(
                doc,
                "web_search"@,
                names,
            ).at("models"@, "web_search"@)
            &&& agree_outside(doc, after, set!["model"@, "models"@, "subagents"@])
            &&& agree_outside(
                doc.section("models"@),
                after.section("models"@),
                set!["default"@, "web_search"@],
            )
            &&& agree_outside(doc.section("subagents"@), after.section("subagents"@), set!["models"@])
            &&& models(after) is Some == models(doc) is Some
        }),
{
    lemma_names_differ();
    let touched = set!["model"@, "models"@, "subagents"@];
    let two = set!["default"@, "web_search"@];
    let a = doc.without_at("model"@, names);
    let b = without_selection_of(a, "default"@, names);
    let c = without_selection_of(b, "web_search"@, names);
    let after = without_models(doc, names);
    lemma_agree_without_at(doc, "model"@, names, set!["model"@], names);
    lemma_agree_get(doc, a, set!["model"@], "models"@);
    lemma_agree_get(doc, a, set!["model"@], "subagents"@);
    law_selection_is_cleared_only_if_stale(a, "default"@, names);
    law_selection_is_cleared_only_if_stale(b, "web_search"@, names);
    law_selection_is_cleared_only_if_stale(doc, "default"@, names);
    law_selection_is_cleared_only_if_stale(doc, "web_search"@, names);
    lemma_agree_get(a, b, set!["models"@], "model"@);
    lemma_agree_get(a, b, set!["models"@], "subagents"@);
    lemma_agree_get(b, c, set!["models"@], "model"@);
    lemma_agree_get(b, c, set!["models"@], "subagents"@);
    lemma_agree_get(a.section("models"@), b.section("models"@), set!["default"@], "web_search"@);
    lemma_agree_get(b.section("models"@), c.section("models"@), set!["web_search"@], "default"@);
    law_routes_go_only_if_stale(c, names);
    lemma_agree_get(c, after, set!["subagents"@], "model"@);
    lemma_agree_get(c, after, set!["subagents"@], "models"@);
    lemma_agree_more(doc, a, set!["model"@], touched);
    lemma_agree_more(a, b, set!["models"@], touched);
    lemma_agree_more(b, c, set!["models"@], touched);
    lemma_agree_more(c, after, set!["subagents"@], touched);
    lemma_agree_trans(doc, a, b, touched);
    lemma_agree_trans(doc, b, c, touched);
    lemma_agree_trans(doc, c, after, touched);
    lemma_agree_more(a.section("models"@), b.section("models"@), set!["default"@], two);
    lemma_agree_more(b.section("models"@), c.section("models"@), set!["web_search"@], two);
    lemma_agree_trans(a.section("models"@), b.section("models"@), c.section("models"@), two);
    assert forall|name: Seq<char>| #[trigger]
        after.at("model"@, name) == if names.contains(name) {
            None
        } else {
            doc.at("model"@, name)
        } by {
        assert(after.at("model"@, name) == a.at("model"@, name));
    }
    assert forall|role: Seq<char>| #[trigger]
        route_of(after, role) == if points_to(doc, role, names) {
            None
        } else {
            route_of(doc, role)
        } by {
        assert(route_of(c, role) == route_of(doc, role));
    }
}

/// Nothing that is kept for other providers is left: no model, no entry in the
/// registry, no selection, no route. The models and routes of the user stay.
pub proof fn law_nothing_of_other_providers_is_left(doc: Group)
    requires
        stripped(doc) is Some,
    ensures
        ({
            let after = stripped(doc)->0;
            let copies = owned(migrated(doc)->0);
            &&& owned(after) == Set::<Seq<char>>::empty()
            &&& forall|name: Seq<char>| #[trigger]
                after.at("model"@, name) == if copies.contains(name) {
                    None
                } else {
                    migrated(doc)->0.at("model"@, name)
                }
            &&& forall|name: Seq<char>| !is_managed(doc, name) ==> #[trigger] after.at("model"@, name)
                == doc.at("model"@, name)
            &&& forall|role: Seq<char>| #[trigger]
                route_of(after, role) == if points_to(doc, role, copies) {
                    None
                } else {
                    route_of(doc, role)
                }
            &&& after.at("models"@, "default"@) == without_selection_of(doc, "default"@, copies).at(
                "models"@,
                "default"@,
            )
            &&& after.at("models"@, "web_search"@) == without_selection_of(
                doc,
                "web_search"@,
                copies,
            ).at("models"@, "web_search"@)
            &&& agree_outside(doc, after, routed_sections())
            &&& agree_outside(
                doc.section("models"@),
                after.section("models"@),
                set!["default"@, "web_search"@],
            )
            &&& agree_outside(doc.section("subagents"@), after.section("subagents"@), set!["models"@])
            &&& registry_is_spared(doc, after)
        }),
{
    lemma_names_differ();
    let all = routed_sections();
    let two = set!["model"@, MANAGED_REGISTRY_ROOT@];
    let three = set!["model"@, "models"@, "subagents"@];
    let root_only = set![MANAGED_REGISTRY_ROOT@];
    let a = migrated(doc)->0;
    let copies = owned(a);
    let b = without_models(a, copies);
    let after = stripped(doc)->0;
    law_migration_touches_nothing_else(doc);
    law_models_go_with_what_refers_to_them(a, copies);
    lemma_agree_get(doc, a, two, "models"@);
    lemma_agree_get(doc, a, two, "subagents"@);
    lemma_agree_get(a, b, three, MANAGED_REGISTRY_ROOT@);
    lemma_forgetting_outside(b, copies);
    lemma_agree_get(b, after, root_only, "model"@);
    lemma_agree_get(b, after, root_only, "models"@);
    lemma_agree_get(b, after, root_only, "subagents"@);
    law_selection_is_cleared_only_if_stale(doc, "default"@, copies);
    law_selection_is_cleared_only_if_stale(doc, "web_search"@, copies);
    law_selection_is_cleared_only_if_stale(a, "default"@, copies);
    law_selection_is_cleared_only_if_stale(a, "web_search"@, copies);
    lemma_agree_more(doc, a, two, all);
    lemma_agree_more(a, b, three, all);
    lemma_agree_more(b, after, root_only, all);
    lemma_agree_trans(doc, a, b, all);
    lemma_agree_trans(doc, b, after, all);
    if registry_is_sound(doc) {
        lemma_beside_trans(doc, a, b);
        lemma_beside_trans(doc, b, after);
    }
    assert forall|name: Seq<char>| !owned(after).contains(name) by {
        assert(registered_source(after, name) is Some ==> !copies.contains(name)
            && registered_source(after, name) == registered_source(b, name));
        assert(registered_source(b, name) == registered_source(a, name));
        assert(after.at("model"@, name) == b.at("model"@, name));
        assert(b.at("model"@, name) == if copies.contains(name) {
            None
        } else {
            a.at("model"@, name)
        });
    }
    assert(owned(after) =~= Set::<Seq<char>>::empty());
    assert forall|name: Seq<char>| !is_managed(doc, name) implies #[trigger] after.at("model"@, name)
        == doc.at("model"@, name) by {
        assert(!is_marked(doc, name));
        assert(registered_source(a, name) == registered_source(doc, name));
        assert(a.at("model"@, name) == doc.at("model"@, name));
        assert(!is_marked(a, name));
        assert(!copies.contains(name));
        assert(b.at("model"@, name) == a.at("model"@, name));
    }
    assert forall|name: Seq<char>| #[trigger]
        after.at("model"@, name) == if copies.contains(name) {
            None
        } else {
            a.at("model"@, name)
        } by {
        assert(after.at("model"@, name) == b.at("model"@, name));
    }
    assert forall|role: Seq<char>| #[trigger]
        route_of(after, role) == if points_to(doc, role, copies) {
            None
        } else {
            route_of(doc, role)
        } by {
        assert(route_of(after, role) == route_of(b, role));
        assert(route_of(a, role) == route_of(doc, role));
    }
}

/// No model keeps the key that moves to the settings of the provider; a model
/// with a key of its own keeps that. No other field of a model is touched.
pub proof fn law_shared_key_is_taken_out_of_every_model(doc: Group, key: Seq<char>, name: Seq<char>)
    requires
        models(doc) is Some,
        match doc.at("model"@, name) {
            Some(node) => node is Table,
            None => false,
        },
    ensures
        ({
            let before = doc.at("model"@, name)->0.group();
            &&& keyless(doc, key).at("model"@, name) == Some(Node::Table(without_key(before, key)))
            &&& without_key(before, key).text("api_key"@) != Some(key)
            &&& before.text("api_key"@) != Some(key) ==> without_key(before, key) == before
            &&& forall|field: Seq<char>| field != "api_key"@ ==> #[trigger] without_key(
                before,
                key,
            ).get(field) == before.get(field)
        }),
{
}

/// What is taken over of a provider is its address, its selection, its routes
/// and its models, as they stand, and nothing else.
pub proof fn law_import_takes_only_what_a_provider_owns(doc: Group)
    ensures
        ({
            let part = provider_part(doc);
            &&& part.at("endpoints"@, "models_base_url"@) == doc.at("endpoints"@, "models_base_url"@)
            &&& part.at("models"@, "default"@) == doc.at("models"@, "default"@)
            &&& part.at("models"@, "web_search"@) == doc.at("models"@, "web_search"@)
            &&& part.at("subagents"@, "models"@) == doc.at("subagents"@, "models"@)
            &&& part.get("model"@) == doc.get("model"@)
            &&& forall|name: Seq<char>| !profile_sections().contains(name) ==> #[trigger] part.get(name) is None
            &&& forall|name: Seq<char>| name != "models_base_url"@ ==> #[trigger] part.at("endpoints"@, name) is None
            &&& forall|name: Seq<char>| name != "default"@ && name != "web_search"@ ==> #[trigger] part.at(
                "models"@,
                name,
            ) is None
            &&& forall|name: Seq<char>| name != "models"@ ==> #[trigger] part.at("subagents"@, name) is None
        }),
{
    lemma_names_differ();
    let a = with_field_of(Group::empty(), doc, "endpoints"@, "models_base_url"@);
    let b = with_field_of(a, doc, "models"@, "default"@);
    let c = with_field_of(b, doc, "models"@, "web_search"@);
    let d = with_routes_of(c, doc);
    let part = provider_part(doc);
    assert(a.get("models"@) is None);
    assert(b.get("models"@) is Some ==> b.get("models"@)->0.is_table_like());
    assert(c.get("subagents"@) is None);
    assert(part.get("endpoints"@) == a.get("endpoints"@));
    assert(part.get("models"@) == c.get("models"@));
    assert(part.get("subagents"@) == d.get("subagents"@));
}

/// A configuration that is taken over names no model as a copy: what stands for
/// other providers in the live configuration is not taken over with it.
pub proof fn law_import_owns_no_copy(doc: Group)
    requires
        stripped(doc) is Some,
    ensures
        owned(provider_part(stripped(doc)->0)) == Set::<Seq<char>>::empty(),
{
    law_nothing_of_other_providers_is_left(doc);
    law_part_without_copies_owns_none(stripped(doc)->0);
}

/// Where no model is recorded as a copy, none is in what is taken over.
pub proof fn law_part_without_copies_owns_none(doc: Group)
    requires
        owned(doc) == Set::<Seq<char>>::empty(),
    ensures
        owned(provider_part(doc)) == Set::<Seq<char>>::empty(),
{
    lemma_names_differ();
    law_import_takes_only_what_a_provider_owns(doc);
    let part = provider_part(doc);
    assert(part.get(MANAGED_REGISTRY_ROOT@) is None);
    assert forall|name: Seq<char>| !owned(part).contains(name) by {
        assert(!owned(doc).contains(name));
        assert(registered_source(part, name) is None);
        assert(part.at("model"@, name) == doc.at("model"@, name));
    }
    assert(owned(part) =~= Set::<Seq<char>>::empty());
}

/// The key that an import puts into the settings is the one that is read from
/// them again, without white space around it.
pub proof fn law_imported_key_is_read_again(key: Seq<char>, config: Seq<char>)
    ensures
        auth_key(settings_json(key, config)) == if trimmed(key).len() > 0 {
            Some(trimmed(key))
        } else {
            None
        },
        settings_json(key, config).member_text("config"@) == Some(config),
{
    reveal_strlit("auth");
    reveal_strlit("config");
    assert("auth"@.len() == 4);
    assert("config"@.len() == 6);
}

/// After a release no model keeps the placeholder of the proxy.
pub proof fn law_release_leaves_no_placeholder(doc: Group)
    ensures
        !any_placeholder(released(doc)),
{
    lemma_release(doc);
    let after = released(doc);
    assert forall|i: int| 0 <= i < model_names(after).len() implies !has_placeholder(
        after,
        #[trigger] model_names(after)[i],
    ) by {
        let name = model_names(after)[i];
        assert(after.at("model"@, name) == if taken_over(doc).contains(name) {
            None
        } else {
            doc.at("model"@, name)
        });
        assert(models(after) is Some);
    }
}

/// What a release does to the models.
proof fn lemma_release(doc: Group)
    ensures
        forall|name: Seq<char>| #[trigger]
            released(doc).at("model"@, name) == if taken_over(doc).contains(name) {
                None
            } else {
                doc.at("model"@, name)
            },
        models(released(doc)) is Some == models(doc) is Some,
{
    lemma_names_differ();
    let names = taken_over(doc);
    if !(names =~= Set::empty()) {
        let a = without_models(doc, names);
        law_models_go_with_what_refers_to_them(doc, names);
        lemma_agree_without_at(
            a,
            "endpoints"@,
            set!["models_base_url"@],
            set!["endpoints"@],
            set!["models_base_url"@],
        );
        lemma_agree_get(a, released(doc), set!["endpoints"@], "model"@);
        assert forall|name: Seq<char>| #[trigger]
            released(doc).at("model"@, name) == if names.contains(name) {
                None
            } else {
                doc.at("model"@, name)
            } by {
            assert(a.at("model"@, name) == released(doc).at("model"@, name));
        }
    } else {
        assert forall|name: Seq<char>| !names.contains(name) by {
            assert(!Set::<Seq<char>>::empty().contains(name));
        }
    }
}

/// A release takes out the models with the placeholder, what refers to one, and
/// the address of the proxy. Everything else stays, all other models and routes
/// among it.
pub proof fn law_release_touches_nothing_else(doc: Group)
    ensures
        ({
            let after = released(doc);
            let names = taken_over(doc);
            &&& forall|name: Seq<char>| #[trigger]
                after.at("model"@, name) == if names.contains(name) {
                    None
                } else {
                    doc.at("model"@, name)
                }
            &&& forall|role: Seq<char>| #[trigger]
                route_of(after, role) == if points_to(doc, role, names) {
                    None
                } else {
                    route_of(doc, role)
                }
            &&& names != Set::<Seq<char>>::empty() ==> after.at("endpoints"@, "models_base_url"@) is None
            &&& agree_outside(doc, after, profile_sections())
            &&& agree_outside(
                doc.section("endpoints"@),
                after.section("endpoints"@),
                set!["models_base_url"@],
            )
            &&& agree_outside(
                doc.section("models"@),
                after.section("models"@),
                set!["default"@, "web_search"@],
            )
            &&& agree_outside(doc.section("subagents"@), after.section("subagents"@), set!["models"@])
        }),
{
    lemma_names_differ();
    lemma_release(doc);
    let all = profile_sections();
    let names = taken_over(doc);
    let after = released(doc);
    if !(names =~= Set::empty()) {
        let three = set!["model"@, "models"@, "subagents"@];
        let url = set!["models_base_url"@];
        let a = without_models(doc, names);
        law_models_go_with_what_refers_to_them(doc, names);
        lemma_agree_get(doc, a, three, "endpoints"@);
        lemma_agree_without_at(a, "endpoints"@, url, set!["endpoints"@], url);
        lemma_agree_get(a, after, set!["endpoints"@], "models"@);
        lemma_agree_get(a, after, set!["endpoints"@], "subagents"@);
        lemma_agree_more(doc, a, three, all);
        lemma_agree_more(a, after, set!["endpoints"@], all);
        lemma_agree_trans(doc, a, after, all);
        assert forall|role: Seq<char>| #[trigger]
            route_of(after, role) == if points_to(doc, role, names) {
                None
            } else {
                route_of(doc, role)
            } by {
            assert(route_of(a, role) == route_of(after, role));
        }
    } else {
        assert forall|role: Seq<char>| !points_to(doc, role, names) by {
            assert forall|name: Seq<char>| !names.contains(name) by {
                assert(!Set::<Seq<char>>::empty().contains(name));
            }
        }
    }
}

/// A configuration that is not taken over is left as it is.
pub proof fn law_release_needs_a_takeover(doc: Group)
    requires
        models_are_sound(doc),
        !any_placeholder(doc),
    ensures
        released(doc) == doc,
{
    assert forall|name: Seq<char>| !taken_over(doc).contains(name) by {
        if taken_over(doc).contains(name) {
            let all = models(doc)->0;
            lemma_names(all, name);
            assert(all.order.contains(name) <==> all.fields.contains_key(name));
            let k = choose|k: int| 0 <= k < model_names(doc).len() && model_names(doc)[k] == name;
            assert(has_placeholder(doc, model_names(doc)[k]));
        }
    }
    assert(taken_over(doc) =~= Set::empty());
}

/// A second release changes nothing.
pub proof fn law_release_is_idempotent(doc: Group)
    ensures
        released(released(doc)) == released(doc),
{
    lemma_release(doc);
    let after = released(doc);
    assert forall|name: Seq<char>| !taken_over(after).contains(name) by {
        assert(after.at("model"@, name) == if taken_over(doc).contains(name) {
            None
        } else {
            doc.at("model"@, name)
        });
    }
    assert(taken_over(after) =~= Set::empty());
}

} // verus!
