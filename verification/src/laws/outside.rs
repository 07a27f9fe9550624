//! What is left alone whatever the registry holds, tables or not.
use vstd::prelude::*;
use crate::laws::cleanup::{
    law_registry_forgets_only_what_is_removed, law_routes_go_only_if_stale,
    law_selection_is_cleared_only_if_stale, route_of,
};
use crate::laws::frame::{
    agree_outside, lemma_agree_get, lemma_agree_more, lemma_agree_put, lemma_agree_put_in,
    lemma_agree_trans, lemma_agree_without, lemma_agree_without_at, lemma_names_differ,
};
use crate::laws::registry::{
    law_allocation_spares_the_models_of_the_user, law_registry_gives_back_what_was_entered,
    lemma_beside_trans, models_are_sound, registry_is_sound, same_beside_registry,
};
use crate::laws::routes::routed_sections;
use crate::provider::{ProviderMap, ProviderView, RouteView};
use crate::registry::{
    allocated, collapsed, entry_node, find_registered, has_model, is_managed, is_marked,
    is_registered, is_taken, marked_names, marker_keys, marker_names, marker_text, migrated,
    migrated_all, migrated_one, model_names, models, owned, registered_source, registry_names,
    with_entry, without_entries, LEGACY_MANAGED_SOURCE_MODEL_KEY,
    LEGACY_MANAGED_SOURCE_PROVIDER_KEY, MANAGED_REGISTRY_ROOT, MANAGED_REGISTRY_TABLE,
};
use crate::routes::{
    cleaned, copied_model, final_routes, route_source, route_start, route_step, route_steps,
    routed, without_routes_to, without_selection_of, RouteState,
};
use crate::text::{lemma_push_contains, trimmed};
use crate::tree::{
    lemma_first_where_holds, lemma_put_well_formed, lemma_without_well_formed, Group, Node,
};

verus! {

/// A sound registry stays sound, and what stands beside it stays.
pub open spec fn registry_is_spared(before: Group, after: Group) -> bool {
    registry_is_sound(before) ==> registry_is_sound(after) && same_beside_registry(before, after)
}

/// A sound registry is spared through several steps.
proof fn lemma_spared_trans(a: Group, b: Group, c: Group)
    requires
        registry_is_spared(a, b),
        registry_is_spared(b, c),
    ensures
        registry_is_spared(a, c),
{
    if registry_is_sound(a) {
        lemma_beside_trans(a, b, c);
    }
}

/// The place for the models is free, or a table under a header.
pub open spec fn models_can_be_listed(doc: Group) -> bool {
    doc.get("model"@) is None || models(doc) is Some
}

/// A registry that is the same is spared.
proof fn lemma_spared_same(a: Group, b: Group)
    requires
        a.get(MANAGED_REGISTRY_ROOT@) == b.get(MANAGED_REGISTRY_ROOT@),
    ensures
        registry_is_spared(a, b),
{
}

/// Sound models stay sound, and a model of the user stays as it is, and one of
/// the user.
pub open spec fn user_is_spared(before: Group, after: Group) -> bool {
    models_are_sound(before) ==> {
        &&& models_are_sound(after)
        &&& forall|name: Seq<char>| #[trigger]
            is_taken(before, name) ==> is_taken(after, name) && after.at("model"@, name) == before.at(
                "model"@,
                name,
            )
    }
}

/// The models of the user are spared where the models are the same and the
/// registry says no more of one than before.
proof fn lemma_user_spared_same(before: Group, after: Group)
    requires
        after.get("model"@) == before.get("model"@),
        forall|name: Seq<char>| is_taken(before, name) ==> #[trigger] registered_source(after, name) is None,
    ensures
        user_is_spared(before, after),
{
    assert forall|name: Seq<char>| #[trigger] is_taken(before, name) implies is_taken(after, name) by {
        assert(registered_source(after, name) is None);
    }
}

/// What an entry in the registry leaves alone.
pub proof fn lemma_entry_outside(doc: Group, name: Seq<char>, provider: Seq<char>, model: Seq<char>)
    requires
        with_entry(doc, name, provider, model) is Some,
    ensures
        ({
            let after = with_entry(doc, name, provider, model)->0;
            &&& agree_outside(doc, after, set![MANAGED_REGISTRY_ROOT@])
            &&& forall|other: Seq<char>| other != name ==> #[trigger] registered_source(after, other)
                == registered_source(doc, other)
            &&& registry_is_spared(doc, after)
        }),
{
    let root = doc.writable(MANAGED_REGISTRY_ROOT@, Node::fresh_table())->0;
    let group = root.group().put_under(MANAGED_REGISTRY_TABLE@, name, entry_node(provider, model))->0;
    lemma_agree_put(doc, MANAGED_REGISTRY_ROOT@, root.with_group(group), set![MANAGED_REGISTRY_ROOT@]);
    if registry_is_sound(doc) {
        law_registry_gives_back_what_was_entered(doc, name, provider, model);
    }
}

/// What moving the marker of one model leaves alone.
proof fn lemma_migrated_one_outside(doc: Group, name: Seq<char>)
    requires
        migrated_one(doc, name) is Some,
    ensures
        ({
            let after = migrated_one(doc, name)->0;
            &&& agree_outside(doc, after, set!["model"@, MANAGED_REGISTRY_ROOT@])
            &&& forall|other: Seq<char>| other != name ==> #[trigger] after.at("model"@, other)
                == doc.at("model"@, other)
            &&& forall|other: Seq<char>| other != name ==> #[trigger] registered_source(after, other)
                == registered_source(doc, other)
            &&& models(after) is Some == models(doc) is Some
            &&& models_can_be_listed(doc) ==> models_can_be_listed(after)
            &&& forall|name: Seq<char>| #[trigger]
                after.at("model"@, name) is Some == doc.at("model"@, name) is Some
            &&& forall|name: Seq<char>| #[trigger]
                registered_source(doc, name) is Some ==> registered_source(after, name)
                    == registered_source(doc, name)
            &&& registry_is_spared(doc, after)
            &&& models_are_sound(doc) ==> models_are_sound(after)
        }),
{
    lemma_names_differ();
    let touched = set!["model"@, MANAGED_REGISTRY_ROOT@];
    let provider = marker_text(doc, name, LEGACY_MANAGED_SOURCE_PROVIDER_KEY@);
    let model = marker_text(doc, name, LEGACY_MANAGED_SOURCE_MODEL_KEY@);
    let enters = provider.len() > 0 && model.len() > 0 && !is_registered(doc, name);
    let entered = if enters {
        with_entry(doc, name, provider, model)->0
    } else {
        doc
    };
    let after = migrated_one(doc, name)->0;
    if enters {
        lemma_entry_outside(doc, name, provider, model);
        lemma_agree_more(doc, entered, set![MANAGED_REGISTRY_ROOT@], touched);
        lemma_agree_get(doc, entered, set![MANAGED_REGISTRY_ROOT@], "model"@);
    }
    match models(entered) {
        Some(all) => match all.get(name) {
            Some(Node::Table(marked)) => {
                let node = Node::Table(marked.without(marker_keys()));
                if all.well_formed() {
                    lemma_put_well_formed(all, name, node);
                }
                lemma_agree_put(entered, "model"@, Node::Table(all.put(name, node)), touched);
            },
            _ => {},
        },
        None => {},
    }
    lemma_agree_trans(doc, entered, after, touched);
    assert(after.get(MANAGED_REGISTRY_ROOT@) == entered.get(MANAGED_REGISTRY_ROOT@));
    lemma_spared_same(entered, after);
    lemma_spared_trans(doc, entered, after);
    assert forall|other: Seq<char>| other != name implies #[trigger] registered_source(after, other)
        == registered_source(doc, other) by {
        assert(registered_source(entered, other) == registered_source(doc, other));
    }
}

/// What moving the markers of some models leaves alone.
proof fn lemma_migrated_all_outside(doc: Group, names: Seq<Seq<char>>)
    requires
        migrated_all(doc, names) is Some,
    ensures
        ({
            let after = migrated_all(doc, names)->0;
            &&& agree_outside(doc, after, set!["model"@, MANAGED_REGISTRY_ROOT@])
            &&& forall|name: Seq<char>| !names.contains(name) ==> #[trigger] after.at("model"@, name)
                == doc.at("model"@, name)
            &&& forall|name: Seq<char>| !names.contains(name) ==> #[trigger] registered_source(
                after,
                name,
            ) == registered_source(doc, name)
            &&& models(after) is Some == models(doc) is Some
            &&& models_can_be_listed(doc) ==> models_can_be_listed(after)
            &&& forall|name: Seq<char>| #[trigger]
                after.at("model"@, name) is Some == doc.at("model"@, name) is Some
            &&& forall|name: Seq<char>| #[trigger]
                registered_source(doc, name) is Some ==> registered_source(after, name)
                    == registered_source(doc, name)
            &&& registry_is_spared(doc, after)
            &&& models_are_sound(doc) ==> models_are_sound(after)
        }),
    decreases names.len(),
{
    if names.len() > 0 {
        let some = names.drop_last();
        let last = names.last();
        let before = migrated_all(doc, some)->0;
        let after = migrated_all(doc, names)->0;
        assert(names =~= some.push(last));
        lemma_migrated_all_outside(doc, some);
        lemma_migrated_one_outside(before, last);
        lemma_agree_trans(doc, before, after, set!["model"@, MANAGED_REGISTRY_ROOT@]);
        lemma_spared_trans(doc, before, after);
        assert forall|name: Seq<char>| !names.contains(name) implies #[trigger] after.at("model"@, name)
            == doc.at("model"@, name) by {
            lemma_push_contains(some, last, name);
            assert(before.at("model"@, name) == doc.at("model"@, name));
        }
        assert forall|name: Seq<char>| !names.contains(name) implies #[trigger] registered_source(
            after,
            name,
        ) == registered_source(doc, name) by {
            lemma_push_contains(some, last, name);
            assert(registered_source(before, name) == registered_source(doc, name));
        }
    }
}

/// Moving older markers touches the models that carry one, and the registry.
/// Every other model is left alone, with what the registry says of it, and so is
/// every other section.
pub proof fn law_migration_touches_nothing_else(doc: Group)
    requires
        migrated(doc) is Some,
    ensures
        ({
            let after = migrated(doc)->0;
            &&& agree_outside(doc, after, set!["model"@, MANAGED_REGISTRY_ROOT@])
            &&& forall|name: Seq<char>| !is_marked(doc, name) ==> #[trigger] after.at("model"@, name)
                == doc.at("model"@, name)
            &&& forall|name: Seq<char>| !is_marked(doc, name) ==> #[trigger] registered_source(
                after,
                name,
            ) == registered_source(doc, name)
            &&& models(after) is Some == models(doc) is Some
            &&& models_can_be_listed(doc) ==> models_can_be_listed(after)
            &&& forall|name: Seq<char>| #[trigger]
                after.at("model"@, name) is Some == doc.at("model"@, name) is Some
            &&& forall|name: Seq<char>| #[trigger]
                registered_source(doc, name) is Some ==> registered_source(after, name)
                    == registered_source(doc, name)
            &&& registry_is_spared(doc, after)
            &&& user_is_spared(doc, after)
        }),
{
    broadcast use vstd::seq_lib::group_filter_ensures;

    let names = marked_names(doc);
    let after = migrated(doc)->0;
    let p = |n: Seq<char>| is_marked(doc, n);
    lemma_migrated_all_outside(doc, names);
    assert forall|name: Seq<char>| #[trigger] names.contains(name) implies is_marked(doc, name) by {
        let k = choose|k: int| 0 <= k < names.len() && names[k] == name;
        assert(p(model_names(doc).filter(p)[k]));
    }
    assert forall|name: Seq<char>| !is_marked(doc, name) implies #[trigger] after.at("model"@, name)
        == doc.at("model"@, name) by {
        assert(!names.contains(name));
    }
    assert forall|name: Seq<char>| !is_marked(doc, name) implies #[trigger] registered_source(
        after,
        name,
    ) == registered_source(doc, name) by {
        assert(!names.contains(name));
    }
    assert forall|name: Seq<char>| #[trigger] is_taken(doc, name) implies is_taken(after, name) by {
        assert(!is_marked(doc, name));
        assert(after.at("model"@, name) == doc.at("model"@, name));
        assert(registered_source(after, name) == registered_source(doc, name));
    }
    assert forall|name: Seq<char>| #[trigger] is_taken(doc, name) implies after.at("model"@, name)
        == doc.at("model"@, name) by {
        assert(!is_marked(doc, name));
    }
}

/// What removing entries of the registry leaves alone. An entry that was removed
/// gives no source; no entry gives another than before.
pub proof fn lemma_forgetting_outside(doc: Group, names: Set<Seq<char>>)
    ensures
        ({
            let after = collapsed(without_entries(doc, names));
            &&& agree_outside(doc, after, set![MANAGED_REGISTRY_ROOT@])
            &&& forall|name: Seq<char>| #[trigger]
                registered_source(after, name) is Some ==> !names.contains(name)
                    && registered_source(after, name) == registered_source(doc, name)
            &&& registry_is_spared(doc, after)
        }),
{
    let root_only = set![MANAGED_REGISTRY_ROOT@];
    let table_only = set![MANAGED_REGISTRY_TABLE@];
    let fewer = without_entries(doc, names);
    let inner = fewer.without_at(MANAGED_REGISTRY_ROOT@, table_only);
    let after = collapsed(fewer);
    match doc.get(MANAGED_REGISTRY_ROOT@) {
        Some(root) => {
            if root.is_table_like() {
                let group = root.group().without_at(MANAGED_REGISTRY_TABLE@, names);
                lemma_agree_put(doc, MANAGED_REGISTRY_ROOT@, root.with_group(group), root_only);
            }
        },
        None => {},
    }
    lemma_agree_without_at(fewer, MANAGED_REGISTRY_ROOT@, table_only, root_only, table_only);
    lemma_agree_without(fewer, root_only, root_only);
    lemma_agree_without(inner, root_only, root_only);
    lemma_agree_trans(doc, fewer, inner, root_only);
    lemma_agree_trans(doc, fewer, fewer.without(root_only), root_only);
    lemma_agree_trans(doc, inner, inner.without(root_only), root_only);
    if registry_is_sound(doc) {
        law_registry_forgets_only_what_is_removed(doc, names);
    }
}

/// A selection is as it was, or it is gone because it named one of the models.
pub open spec fn selection_is_spared(
    before: Group,
    after: Group,
    key: Seq<char>,
    stale: Set<Seq<char>>,
) -> bool {
    after.at("models"@, key) == match before.text_at("models"@, key) {
        Some(name) => if stale.contains(name) {
            None
        } else {
            before.at("models"@, key)
        },
        None => before.at("models"@, key),
    }
}

/// What removing copies leaves alone.
pub proof fn lemma_cleaned_outside(doc: Group, keep: Set<Seq<char>>)
    ensures
        ({
            let after = cleaned(doc, keep);
            &&& agree_outside(doc, after, set!["model"@, "models"@, MANAGED_REGISTRY_ROOT@])
            &&& agree_outside(
                doc.section("models"@),
                after.section("models"@),
                set!["default"@, "web_search"@],
            )
            &&& forall|name: Seq<char>| #[trigger]
                after.at("model"@, name) == if owned(doc).contains(name) && !keep.contains(name) {
                    None
                } else {
                    doc.at("model"@, name)
                }
            &&& forall|name: Seq<char>| #[trigger]
                registered_source(after, name) is Some ==> registered_source(after, name)
                    == registered_source(doc, name) && keep.contains(name)
            &&& selection_is_spared(doc, after, "default"@, owned(doc).difference(keep))
            &&& selection_is_spared(doc, after, "web_search"@, owned(doc).difference(keep))
            &&& registry_is_spared(doc, after)
            &&& user_is_spared(doc, after)
        }),
{
    lemma_names_differ();
    let stale = owned(doc).difference(keep);
    let after = cleaned(doc, keep);
    if !(stale =~= Set::empty()) {
        let touched = set!["model"@, "models"@, MANAGED_REGISTRY_ROOT@];
        let two = set!["default"@, "web_search"@];
        let root_only = set![MANAGED_REGISTRY_ROOT@];
        let a = doc.without_at("model"@, stale);
        let b = collapsed(without_entries(a, stale));
        let c = without_selection_of(b, "default"@, stale);
        lemma_agree_without_at(doc, "model"@, stale, set!["model"@], stale);
        lemma_agree_get(doc, a, set!["model"@], MANAGED_REGISTRY_ROOT@);
        lemma_agree_get(doc, a, set!["model"@], "models"@);
        lemma_forgetting_outside(a, stale);
        lemma_agree_get(a, b, root_only, "models"@);
        law_selection_is_cleared_only_if_stale(b, "default"@, stale);
        law_selection_is_cleared_only_if_stale(c, "web_search"@, stale);
        lemma_agree_get(b, c, set!["models"@], MANAGED_REGISTRY_ROOT@);
        lemma_agree_get(c, after, set!["models"@], MANAGED_REGISTRY_ROOT@);
        lemma_agree_more(doc, a, set!["model"@], touched);
        lemma_agree_more(a, b, root_only, touched);
        lemma_agree_more(b, c, set!["models"@], touched);
        lemma_agree_more(c, after, set!["models"@], touched);
        lemma_agree_trans(doc, a, b, touched);
        lemma_agree_trans(doc, b, c, touched);
        lemma_agree_trans(doc, c, after, touched);
        lemma_agree_more(b.section("models"@), c.section("models"@), set!["default"@], two);
        lemma_agree_more(c.section("models"@), after.section("models"@), set!["web_search"@], two);
        lemma_agree_trans(doc.section("models"@), c.section("models"@), after.section("models"@), two);
        lemma_spared_same(doc, a);
        lemma_spared_trans(doc, a, b);
        lemma_spared_same(b, after);
        lemma_spared_trans(doc, b, after);
        lemma_agree_get(a, b, root_only, "model"@);
        lemma_agree_get(b, c, set!["models"@], "model"@);
        lemma_agree_get(c, after, set!["models"@], "model"@);
        lemma_agree_get(b.section("models"@), c.section("models"@), set!["default"@], "web_search"@);
        lemma_agree_get(c.section("models"@), after.section("models"@), set!["web_search"@], "default"@);
        if models_are_sound(doc) && models(doc) is Some {
            lemma_without_well_formed(models(doc)->0, stale);
        }
        assert forall|name: Seq<char>| #[trigger]
            after.at("model"@, name) == if owned(doc).contains(name) && !keep.contains(name) {
                None
            } else {
                doc.at("model"@, name)
            } by {
            assert(after.at("model"@, name) == a.at("model"@, name));
        }
        assert forall|name: Seq<char>| #[trigger] registered_source(
            after,
            name,
        ) is Some implies registered_source(after, name) == registered_source(doc, name)
            && keep.contains(name) by {
            assert(registered_source(after, name) == registered_source(b, name));
            assert(registered_source(a, name) == registered_source(doc, name));
            assert(owned(doc).contains(name));
        }
        assert forall|name: Seq<char>| #[trigger] is_taken(doc, name) implies is_taken(after, name) by {
            assert(!owned(doc).contains(name));
            assert(after.at("model"@, name) == doc.at("model"@, name));
            assert(registered_source(doc, name) is None);
            assert(registered_source(after, name) is None);
        }
    } else {
        assert forall|name: Seq<char>| owned(doc).contains(name) implies #[trigger] keep.contains(name) by {
            assert(!Set::<Seq<char>>::empty().contains(name));
            assert(!stale.contains(name));
        }
        assert forall|name: Seq<char>| #[trigger] registered_source(
            after,
            name,
        ) is Some implies keep.contains(name) by {
            assert(owned(doc).contains(name));
        }
    }
}

/// Every copy in use is there.
pub open spec fn kept_are_there(state: RouteState) -> bool {
    forall|name: Seq<char>| #[trigger]
        state.kept.contains(name) ==> state.doc.at("model"@, name) is Some
}

/// A copy that is found is there.
proof fn lemma_found_is_there(doc: Group, provider: Seq<char>, model: Seq<char>)
    requires
        find_registered(doc, provider, model) is Some,
    ensures
        doc.at("model"@, find_registered(doc, provider, model)->0) is Some,
{
    let by_entry = |name: Seq<char>|
        registered_source(doc, name) == Some((provider, model)) && has_model(doc, name);
    let by_marker = |name: Seq<char>|
        match doc.at("model"@, name) {
            Some(node) => marker_names(node, provider, model),
            None => false,
        };
    lemma_first_where_holds(registry_names(doc), by_entry);
    lemma_first_where_holds(model_names(doc), by_marker);
}

/// What following one route leaves alone.
pub proof fn lemma_step_outside(
    state: RouteState,
    active: ProviderView,
    all: ProviderMap,
    route: RouteView,
)
    requires
        route_step(state, active, all, route) is Ok,
    ensures
        ({
            let next = route_step(state, active, all, route)->Ok_0;
            &&& agree_outside(state.doc, next.doc, set!["model"@, MANAGED_REGISTRY_ROOT@])
            &&& registry_is_spared(state.doc, next.doc)
            &&& user_is_spared(state.doc, next.doc)
            &&& models_can_be_listed(state.doc) ==> models_can_be_listed(next.doc)
            &&& state.kept.subset_of(next.kept)
            &&& kept_are_there(state) ==> kept_are_there(next)
            &&& forall|name: Seq<char>| !next.kept.contains(name) ==> #[trigger] next.doc.at("model"@, name)
                == state.doc.at("model"@, name)
            &&& forall|name: Seq<char>| !next.kept.contains(name) ==> #[trigger] registered_source(
                next.doc,
                name,
            ) == registered_source(state.doc, name)
        }),
{
    lemma_names_differ();
    let touched = set!["model"@, MANAGED_REGISTRY_ROOT@];
    let next = route_step(state, active, all, route)->Ok_0;
    let source = route_source(route, active);
    let model_id = trimmed(route.model_id);
    if trimmed(route.role).len() > 0 && source != active.id && all.contains_key(source) {
        let name = allocated(state.doc, source, model_id);
        let node = Node::Table(copied_model(all[source], model_id)->Ok_0);
        let placed = state.doc.put_under("model"@, name, node)->0;
        lemma_agree_put_in(
            state.doc,
            "model"@,
            Node::fresh_table(),
            name,
            node,
            touched,
            set![name],
        );
        assert(placed.get(MANAGED_REGISTRY_ROOT@) == state.doc.get(MANAGED_REGISTRY_ROOT@));
        lemma_entry_outside(placed, name, source, model_id);
        lemma_agree_more(placed, next.doc, set![MANAGED_REGISTRY_ROOT@], touched);
        lemma_agree_trans(state.doc, placed, next.doc, touched);
        lemma_spared_same(state.doc, placed);
        lemma_spared_trans(state.doc, placed, next.doc);
        lemma_agree_get(placed, next.doc, set![MANAGED_REGISTRY_ROOT@], "model"@);
        if models_are_sound(state.doc) {
            law_allocation_spares_the_models_of_the_user(state.doc, source, model_id);
            match models(state.doc) {
                Some(group) => {
                    lemma_put_well_formed(group, name, node);
                },
                None => {
                    lemma_put_well_formed(Group::empty(), name, node);
                },
            }
            assert forall|other: Seq<char>| #[trigger] is_taken(state.doc, other) implies is_taken(
                next.doc,
                other,
            ) && next.doc.at("model"@, other) == state.doc.at("model"@, other) by {
                assert(other != name);
                assert(registered_source(next.doc, other) == registered_source(placed, other));
                assert(registered_source(placed, other) == registered_source(state.doc, other));
            }
        }
        assert forall|other: Seq<char>| !next.kept.contains(other) implies #[trigger] registered_source(
            next.doc,
            other,
        ) == registered_source(state.doc, other) by {
            assert(other != name);
            assert(registered_source(placed, other) == registered_source(state.doc, other));
        }
        assert forall|other: Seq<char>| #[trigger] next.doc.at("model"@, other) == if other == name {
            Some(node)
        } else {
            state.doc.at("model"@, other)
        } by {}
    } else if trimmed(route.role).len() > 0 && source != active.id {
        lemma_found_is_there(state.doc, source, model_id);
    }
}

/// What following some routes leaves alone.
pub proof fn lemma_steps_outside(
    state: RouteState,
    active: ProviderView,
    all: ProviderMap,
    routes: Seq<RouteView>,
)
    requires
        route_steps(state, active, all, routes) is Ok,
    ensures
        ({
            let end = route_steps(state, active, all, routes)->Ok_0;
            &&& agree_outside(state.doc, end.doc, set!["model"@, MANAGED_REGISTRY_ROOT@])
            &&& registry_is_spared(state.doc, end.doc)
            &&& user_is_spared(state.doc, end.doc)
            &&& models_can_be_listed(state.doc) ==> models_can_be_listed(end.doc)
            &&& state.kept.subset_of(end.kept)
            &&& kept_are_there(state) ==> kept_are_there(end)
            &&& forall|name: Seq<char>| !end.kept.contains(name) ==> #[trigger] end.doc.at("model"@, name)
                == state.doc.at("model"@, name)
            &&& forall|name: Seq<char>| !end.kept.contains(name) ==> #[trigger] registered_source(
                end.doc,
                name,
            ) == registered_source(state.doc, name)
        }),
    decreases routes.len(),
{
    if routes.len() > 0 {
        lemma_steps_outside(state, active, all, routes.drop_last());
        let before = route_steps(state, active, all, routes.drop_last())->Ok_0;
        let end = route_steps(state, active, all, routes)->Ok_0;
        lemma_step_outside(before, active, all, routes.last());
        lemma_agree_trans(
            state.doc,
            before.doc,
            end.doc,
            set!["model"@, MANAGED_REGISTRY_ROOT@],
        );
        lemma_spared_trans(state.doc, before.doc, end.doc);
    }
}

/// What replacing the routes and then removing copies leaves alone.
proof fn lemma_last_steps_outside(doc: Group, tree: Group, keep: Set<Seq<char>>)
    requires
        agree_outside(doc, tree, set!["subagents"@]),
        agree_outside(doc.section("subagents"@), tree.section("subagents"@), set!["models"@]),
    ensures
        ({
            let after = cleaned(tree, keep);
            &&& agree_outside(doc, after, routed_sections())
            &&& agree_outside(
                doc.section("models"@),
                after.section("models"@),
                set!["default"@, "web_search"@],
            )
            &&& agree_outside(doc.section("subagents"@), after.section("subagents"@), set!["models"@])
            &&& registry_is_spared(doc, after)
            &&& user_is_spared(doc, after)
            &&& selection_is_spared(doc, after, "default"@, owned(doc).difference(keep))
            &&& selection_is_spared(doc, after, "web_search"@, owned(doc).difference(keep))
            &&& forall|name: Seq<char>| #[trigger]
                after.at("model"@, name) == if owned(doc).contains(name) && !keep.contains(name) {
                    None
                } else {
                    doc.at("model"@, name)
                }
        }),
{
    lemma_names_differ();
    let after = cleaned(tree, keep);
    let three = set!["model"@, "models"@, MANAGED_REGISTRY_ROOT@];
    lemma_cleaned_outside(tree, keep);
    lemma_agree_get(doc, tree, set!["subagents"@], "models"@);
    lemma_agree_get(doc, tree, set!["subagents"@], MANAGED_REGISTRY_ROOT@);
    lemma_agree_get(tree, after, three, "subagents"@);
    lemma_agree_more(doc, tree, set!["subagents"@], routed_sections());
    lemma_agree_more(tree, after, three, routed_sections());
    lemma_agree_trans(doc, tree, after, routed_sections());
    lemma_spared_same(doc, tree);
    lemma_spared_trans(doc, tree, after);
    lemma_agree_get(doc, tree, set!["subagents"@], "model"@);
    assert forall|name: Seq<char>| #[trigger]
        registered_source(tree, name) == registered_source(doc, name) by {}
    lemma_user_spared_same(doc, tree);
    assert(owned(tree) =~= owned(doc)) by {
        assert forall|name: Seq<char>| owned(tree).contains(name) <==> owned(doc).contains(name) by {
            assert(registered_source(tree, name) == registered_source(doc, name));
        }
    }
}

/// The configuration before the last steps of routing, and the copies that they keep.
pub open spec fn before_last_steps(
    doc: Group,
    active: ProviderView,
    all: ProviderMap,
) -> (Group, Set<Seq<char>>) {
    let start = migrated(doc)->0;
    if active.routes.len() == 0 {
        (migrated(start)->0, Set::empty())
    } else {
        let state = route_steps(route_start(start), active, all, active.routes)->Ok_0;
        (state.doc, state.kept)
    }
}

/// What following all routes leaves alone up to the last steps, and in them.
proof fn lemma_routed_outside(doc: Group, active: ProviderView, all: ProviderMap)
    requires
        routed(doc, active, all) is Ok,
    ensures
        ({
            let (middle, keep) = before_last_steps(doc, active, all);
            let after = routed(doc, active, all)->Ok_0;
            &&& agree_outside(doc, middle, set!["model"@, MANAGED_REGISTRY_ROOT@])
            &&& registry_is_spared(doc, middle)
            &&& user_is_spared(doc, middle)
            &&& agree_outside(middle, after, routed_sections())
            &&& agree_outside(
                middle.section("models"@),
                after.section("models"@),
                set!["default"@, "web_search"@],
            )
            &&& agree_outside(middle.section("subagents"@), after.section("subagents"@), set!["models"@])
            &&& registry_is_spared(middle, after)
            &&& user_is_spared(middle, after)
            &&& selection_is_spared(middle, after, "default"@, owned(middle).difference(keep))
            &&& selection_is_spared(middle, after, "web_search"@, owned(middle).difference(keep))
            &&& forall|name: Seq<char>| #[trigger]
                after.at("model"@, name) == if owned(middle).contains(name) && !keep.contains(name) {
                    None
                } else {
                    middle.at("model"@, name)
                }
            &&& models_can_be_listed(doc) ==> models_can_be_listed(middle)
            &&& forall|name: Seq<char>| keep.contains(name) ==> #[trigger] middle.at("model"@, name) is Some
            &&& forall|name: Seq<char>| #[trigger]
                owned(middle).contains(name) && !keep.contains(name) ==> is_managed(doc, name)
            &&& forall|name: Seq<char>| !keep.contains(name) ==> #[trigger] middle.at("model"@, name) is Some
                == doc.at("model"@, name) is Some
            &&& forall|name: Seq<char>| !keep.contains(name) && is_registered(doc, name)
                ==> #[trigger] owned(middle).contains(name)
            &&& forall|name: Seq<char>| !keep.contains(name) && is_registered(migrated(doc)->0, name)
                ==> #[trigger] owned(middle).contains(name)
        }),
{
    lemma_names_differ();
    let (middle, keep) = before_last_steps(doc, active, all);
    let start = migrated(doc)->0;
    law_migration_touches_nothing_else(doc);
    if active.routes.len() == 0 {
        law_migration_touches_nothing_else(start);
        law_routes_go_only_if_stale(middle, owned(middle));
        lemma_last_steps_outside(middle, without_routes_to(middle, owned(middle)), keep);
    } else {
        let state = route_steps(route_start(start), active, all, active.routes)->Ok_0;
        let routes = Node::Table(final_routes(state));
        lemma_steps_outside(route_start(start), active, all, active.routes);
        lemma_agree_put_in(
            middle,
            "subagents"@,
            Node::fresh_table(),
            "models"@,
            routes,
            set!["subagents"@],
            set!["models"@],
        );
        lemma_last_steps_outside(middle, middle.put_under("subagents"@, "models"@, routes)->0, keep);
    }
    lemma_agree_trans(doc, start, middle, set!["model"@, MANAGED_REGISTRY_ROOT@]);
    lemma_spared_trans(doc, start, middle);
    assert forall|name: Seq<char>| #[trigger]
        owned(middle).contains(name) && !keep.contains(name) implies is_managed(doc, name) by {
        if !is_managed(doc, name) {
            assert(!is_marked(doc, name));
            assert(start.at("model"@, name) == doc.at("model"@, name));
            assert(registered_source(start, name) == registered_source(doc, name));
            assert(!is_marked(start, name));
            assert(middle.at("model"@, name) == start.at("model"@, name));
            assert(registered_source(middle, name) == registered_source(start, name));
        }
    }
    assert forall|name: Seq<char>| !keep.contains(name) implies #[trigger] middle.at("model"@, name) is Some
        == doc.at("model"@, name) is Some by {
        assert(start.at("model"@, name) is Some == doc.at("model"@, name) is Some);
    }
    assert forall|name: Seq<char>| !keep.contains(name) && is_registered(
        doc,
        name,
    ) implies #[trigger] owned(middle).contains(name) by {
        assert(registered_source(doc, name) is Some);
        assert(registered_source(start, name) is Some);
        assert(registered_source(middle, name) == registered_source(start, name));
    }
    assert forall|name: Seq<char>| !keep.contains(name) && is_registered(
        start,
        name,
    ) implies #[trigger] owned(middle).contains(name) by {
        assert(registered_source(start, name) is Some);
        assert(registered_source(middle, name) == registered_source(start, name));
    }
}

/// Following routes touches the models, the registry, the routes, and the
/// selection; no other section, and no other field of those for the routes and
/// the selection. A selection is not made or changed, only taken out. The models
/// of the user stay, and what stands beside a sound registry.
pub proof fn law_routing_touches_nothing_else(doc: Group, active: ProviderView, all: ProviderMap)
    requires
        routed(doc, active, all) is Ok,
    ensures
        ({
            let after = routed(doc, active, all)->Ok_0;
            &&& agree_outside(doc, after, routed_sections())
            &&& agree_outside(
                doc.section("models"@),
                after.section("models"@),
                set!["default"@, "web_search"@],
            )
            &&& after.at("models"@, "default"@) is None || after.at("models"@, "default"@) == doc.at(
                "models"@,
                "default"@,
            )
            &&& after.at("models"@, "web_search"@) is None || after.at("models"@, "web_search"@)
                == doc.at("models"@, "web_search"@)
            &&& agree_outside(doc.section("subagents"@), after.section("subagents"@), set!["models"@])
            &&& registry_is_spared(doc, after)
            &&& user_is_spared(doc, after)
        }),
{
    lemma_names_differ();
    let two = set!["model"@, MANAGED_REGISTRY_ROOT@];
    let (middle, keep) = before_last_steps(doc, active, all);
    let after = routed(doc, active, all)->Ok_0;
    lemma_routed_outside(doc, active, all);
    lemma_agree_get(doc, middle, two, "models"@);
    lemma_agree_get(doc, middle, two, "subagents"@);
    lemma_agree_more(doc, middle, two, routed_sections());
    lemma_agree_trans(doc, middle, after, routed_sections());
    lemma_spared_trans(doc, middle, after);
}

/// A copy that is gone: the model was kept for another provider, and nothing
/// stands under its name any more.
pub open spec fn is_gone(before: Group, after: Group, name: Seq<char>) -> bool {
    is_managed(before, name) && after.at("model"@, name) is None
}

/// A selection is what it was before, there or not there, unless it named a copy
/// that is gone; then there is none.
pub proof fn law_routing_clears_a_selection_only_with_its_copy(
    doc: Group,
    active: ProviderView,
    all: ProviderMap,
    key: Seq<char>,
)
    requires
        routed(doc, active, all) is Ok,
        key == "default"@ || key == "web_search"@,
    ensures
        ({
            let after = routed(doc, active, all)->Ok_0;
            after.at("models"@, key) == match doc.text_at("models"@, key) {
                Some(name) => if is_gone(doc, after, name) {
                    None
                } else {
                    doc.at("models"@, key)
                },
                None => doc.at("models"@, key),
            }
        }),
{
    lemma_names_differ();
    lemma_routed_outside(doc, active, all);
    let (middle, keep) = before_last_steps(doc, active, all);
    let after = routed(doc, active, all)->Ok_0;
    lemma_agree_get(doc, middle, set!["model"@, MANAGED_REGISTRY_ROOT@], "models"@);
    match doc.text_at("models"@, key) {
        Some(name) => {
            lemma_gone(doc, active, all, name);
        },
        None => {},
    }
}

/// Where no route is given, a role has what it had before, unless that was a copy
/// that is gone; then it has none.
pub proof fn law_routing_clears_a_role_only_with_its_copy(
    doc: Group,
    active: ProviderView,
    all: ProviderMap,
    role: Seq<char>,
)
    requires
        routed(doc, active, all) is Ok,
        active.routes.len() == 0,
    ensures
        ({
            let after = routed(doc, active, all)->Ok_0;
            let stale = match route_of(doc, role) {
                Some(route) => route.text() is Some && is_gone(doc, after, route.text()->0),
                None => false,
            };
            route_of(after, role) == if stale {
                None
            } else {
                route_of(doc, role)
            }
        }),
{
    lemma_names_differ();
    lemma_routed_outside(doc, active, all);
    let (middle, keep) = before_last_steps(doc, active, all);
    let after = routed(doc, active, all)->Ok_0;
    let tree = without_routes_to(middle, owned(middle));
    lemma_agree_get(doc, middle, set!["model"@, MANAGED_REGISTRY_ROOT@], "subagents"@);
    law_routes_go_only_if_stale(middle, owned(middle));
    lemma_cleaned_outside(tree, keep);
    lemma_agree_get(tree, after, set!["model"@, "models"@, MANAGED_REGISTRY_ROOT@], "subagents"@);
    assert(route_of(after, role) == route_of(tree, role));
    match route_of(doc, role) {
        Some(route) => match route.text() {
            Some(name) => {
                lemma_gone(doc, active, all, name);
            },
            None => {},
        },
        None => {},
    }
}

/// The copies that are gone are those that were owned before the last steps and
/// are not in use.
pub proof fn lemma_gone(doc: Group, active: ProviderView, all: ProviderMap, name: Seq<char>)
    requires
        routed(doc, active, all) is Ok,
    ensures
        ({
            let (middle, keep) = before_last_steps(doc, active, all);
            let after = routed(doc, active, all)->Ok_0;
            &&& owned(middle).difference(keep).contains(name) <==> is_gone(doc, after, name)
            &&& models_can_be_listed(doc) ==> (is_managed(middle, name) && !keep.contains(name)
                <==> is_gone(doc, after, name))
        }),
{
    lemma_routed_outside(doc, active, all);
    let (middle, keep) = before_last_steps(doc, active, all);
    let after = routed(doc, active, all)->Ok_0;
    assert(after.at("model"@, name) == if owned(middle).contains(name) && !keep.contains(name) {
        None
    } else {
        middle.at("model"@, name)
    });
    assert(keep.contains(name) ==> middle.at("model"@, name) is Some);
    assert(!keep.contains(name) ==> middle.at("model"@, name) is Some == doc.at("model"@, name) is Some);
    if !keep.contains(name) && is_registered(doc, name) {
        assert(owned(middle).contains(name));
    }
}

/// A model that the registry gave a source for is owned before the last steps,
/// unless it is in use.
pub proof fn lemma_registered_is_owned(
    doc: Group,
    active: ProviderView,
    all: ProviderMap,
    name: Seq<char>,
)
    requires
        routed(doc, active, all) is Ok,
        is_registered(doc, name),
    ensures
        ({
            let (middle, keep) = before_last_steps(doc, active, all);
            keep.contains(name) || owned(middle).difference(keep).contains(name)
        }),
{
    lemma_routed_outside(doc, active, all);
    let (middle, keep) = before_last_steps(doc, active, all);
    if !keep.contains(name) {
        assert(owned(middle).contains(name));
    }
}

/// A model that the registry gives a source for once older markers are moved is
/// gone, unless it is in use.
pub proof fn lemma_migrated_is_owned(
    doc: Group,
    active: ProviderView,
    all: ProviderMap,
    name: Seq<char>,
)
    requires
        routed(doc, active, all) is Ok,
        is_registered(migrated(doc)->0, name),
    ensures
        ({
            let (middle, keep) = before_last_steps(doc, active, all);
            keep.contains(name) || owned(middle).difference(keep).contains(name)
        }),
{
    lemma_routed_outside(doc, active, all);
    let (middle, keep) = before_last_steps(doc, active, all);
    if !keep.contains(name) {
        assert(owned(middle).contains(name));
    }
}

/// A model of the user is left alone by all routes, with or without copies, and
/// stays one of the user.
pub proof fn law_routing_spares_the_models_of_the_user(
    doc: Group,
    active: ProviderView,
    all: ProviderMap,
    name: Seq<char>,
)
    requires
        routed(doc, active, all) is Ok,
        models_are_sound(doc),
        is_taken(doc, name),
    ensures
        routed(doc, active, all)->Ok_0.at("model"@, name) == doc.at("model"@, name),
        is_taken(routed(doc, active, all)->Ok_0, name),
        models_are_sound(routed(doc, active, all)->Ok_0),
{
    lemma_routed_outside(doc, active, all);
    let (middle, keep) = before_last_steps(doc, active, all);
    assert(is_taken(middle, name));
}

/// A selection of a model of the user stays, and one that is not there is not made.
pub proof fn law_routing_keeps_the_selection_of_the_user(
    doc: Group,
    active: ProviderView,
    all: ProviderMap,
    key: Seq<char>,
)
    requires
        routed(doc, active, all) is Ok,
        models_are_sound(doc),
        key == "default"@ || key == "web_search"@,
        match doc.text_at("models"@, key) {
            Some(name) => is_taken(doc, name),
            None => true,
        },
    ensures
        routed(doc, active, all)->Ok_0.at("models"@, key) == doc.at("models"@, key),
{
    lemma_names_differ();
    lemma_routed_outside(doc, active, all);
    let (middle, keep) = before_last_steps(doc, active, all);
    lemma_agree_get(doc, middle, set!["model"@, MANAGED_REGISTRY_ROOT@], "models"@);
    match doc.text_at("models"@, key) {
        Some(name) => {
            assert(is_taken(middle, name));
            assert(!owned(middle).contains(name));
        },
        None => {},
    }
}

} // verus!
