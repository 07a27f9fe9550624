//! Where the routes of a provider lead, and what they leave alone.
use vstd::prelude::*;
use crate::digest::managed_id;
use crate::error::{AppErrorView, FaultView};
use crate::laws::cleanup::{
    law_cleanup_removes_only_owned_models, law_routes_go_only_if_stale,
    law_selection_is_cleared_only_if_stale, points_to, route_of,
};
use crate::laws::frame::{
    agree_outside, lemma_agree_get, lemma_agree_more, lemma_agree_put_in, lemma_agree_trans,
    lemma_names_differ,
};
use crate::laws::outside::{
    is_gone, law_migration_touches_nothing_else, law_routing_spares_the_models_of_the_user,
    lemma_cleaned_outside, lemma_gone, models_can_be_listed, registry_is_spared,
};
use crate::laws::profile::{law_merge_touches_only_the_profile, profile_sections};
use crate::laws::registry::{
    law_allocation_spares_the_models_of_the_user, law_copy_is_written_and_registered,
    law_migration_is_needed_once, law_migration_moves_every_marker, lemma_beside_trans,
    lemma_first_where_same, models_are_sound, registry_is_sound, same_beside_registry,
};
use crate::profile::merged;
use crate::provider::{ProviderMap, ProviderView, RouteView};
use crate::registry::{
    allocated, find_registered, has_marker, has_model, is_managed, is_marked, is_registered,
    is_taken, marker_keys, marker_names, migrated, model_names, models, owned, registered_source,
    registry, registry_names, suffixed, LEGACY_MANAGED_OWNER_KEY, MANAGED_REGISTRY_ROOT,
};
use crate::routes::{
    copied_fields, copied_model, final_routes, is_resolved, keeps_route, lemma_route_steps_err,
    live_routes, route_source, route_start, route_step, route_steps, routed, with_auth, with_copy,
    with_texts, without_any_copy, without_routes_to, without_selection_of, RouteState,
};
use crate::selection::{model_group, provider_doc};
use crate::text::{lemma_push_contains, lemma_trimmed_twice, trimmed};
use crate::tree::{
    first_where, lemma_filter_subset, lemma_first_where_holds, lemma_names, Group, Node,
};

verus! {

/// The sections that routing touches.
pub open spec fn routed_sections() -> Set<Seq<char>> {
    set!["model"@, "models"@, "subagents"@, MANAGED_REGISTRY_ROOT@]
}

/// Without routes, no copy is left, and no route to one. The models and the
/// routes of the user stay, and so does everything else.
pub proof fn law_without_routes_no_copy_is_left(doc: Group)
    requires
        without_any_copy(doc) is Some,
    ensures
        ({
            let after = without_any_copy(doc)->0;
            let copies = owned(migrated(doc)->0);
            &&& owned(after) == Set::<Seq<char>>::empty()
            &&& forall|name: Seq<char>| copies.contains(name) ==> #[trigger] after.at("model"@, name) is None
            &&& forall|name: Seq<char>| !is_managed(doc, name) ==> #[trigger] after.at("model"@, name)
                == doc.at("model"@, name)
            &&& forall|role: Seq<char>| #[trigger]
                route_of(after, role) == if points_to(doc, role, copies) {
                    None
                } else {
                    route_of(doc, role)
                }
            &&& agree_outside(doc, after, routed_sections())
            &&& registry_is_spared(doc, after)
            &&& agree_outside(
                doc.section("models"@),
                after.section("models"@),
                set!["default"@, "web_search"@],
            )
            &&& agree_outside(doc.section("subagents"@), after.section("subagents"@), set!["models"@])
        }),
{
    lemma_names_differ();
    let all = routed_sections();
    let a = migrated(doc)->0;
    let copies = owned(a);
    let b = without_routes_to(a, copies);
    let after = without_any_copy(doc)->0;
    let two = set!["model"@, MANAGED_REGISTRY_ROOT@];
    let three = set!["model"@, "models"@, MANAGED_REGISTRY_ROOT@];
    law_migration_touches_nothing_else(doc);
    law_routes_go_only_if_stale(a, copies);
    lemma_agree_get(a, b, set!["subagents"@], MANAGED_REGISTRY_ROOT@);
    lemma_agree_get(a, b, set!["subagents"@], "model"@);
    lemma_cleaned_outside(b, Set::empty());
    assert(owned(b) =~= owned(a)) by {
        assert forall|name: Seq<char>| owned(b).contains(name) <==> owned(a).contains(name) by {
            assert(registered_source(b, name) == registered_source(a, name));
        }
    }
    lemma_agree_get(doc, a, two, "subagents"@);
    lemma_agree_get(doc, a, two, "models"@);
    lemma_agree_get(a, b, set!["subagents"@], "models"@);
    lemma_agree_get(b, after, three, "subagents"@);
    lemma_agree_more(doc, a, two, all);
    lemma_agree_more(a, b, set!["subagents"@], all);
    lemma_agree_more(b, after, three, all);
    lemma_agree_trans(doc, a, b, all);
    lemma_agree_trans(doc, b, after, all);
    if registry_is_sound(doc) {
        lemma_beside_trans(doc, a, b);
        lemma_beside_trans(doc, b, after);
    }
    assert forall|name: Seq<char>| !owned(after).contains(name) by {
        assert(!Set::<Seq<char>>::empty().contains(name));
        assert(registered_source(after, name) is None);
        assert(after.at("model"@, name) == if owned(b).contains(name) {
            None
        } else {
            b.at("model"@, name)
        });
    }
    assert(owned(after) =~= Set::<Seq<char>>::empty());
    assert forall|name: Seq<char>| !is_managed(doc, name) implies #[trigger] after.at("model"@, name)
        == doc.at("model"@, name) by {
        assert(!is_marked(doc, name));
        assert(registered_source(a, name) == registered_source(doc, name));
        assert(a.at("model"@, name) == doc.at("model"@, name));
        assert(!is_marked(a, name));
        assert(!owned(b).contains(name));
    }
    assert forall|name: Seq<char>| copies.contains(name) implies #[trigger] after.at(
        "model"@,
        name,
    ) is None by {
        assert(owned(b).contains(name));
    }
    assert forall|role: Seq<char>| #[trigger]
        route_of(after, role) == if points_to(doc, role, copies) {
            None
        } else {
            route_of(doc, role)
        } by {
        assert(route_of(after, role) == route_of(b, role));
        assert(route_of(a, role) == route_of(doc, role));
    }
}

/// What holds while routes are followed.
pub open spec fn is_under_way(start: Group, state: RouteState) -> bool {
    &&& registry_is_sound(state.doc)
    &&& models_are_sound(state.doc)
    &&& models(start) is Some ==> models(state.doc) is Some
    &&& forall|name: Seq<char>| !#[trigger] is_marked(state.doc, name)
    &&& agree_outside(start, state.doc, set!["model"@, MANAGED_REGISTRY_ROOT@])
    &&& same_beside_registry(start, state.doc)
    &&& forall|name: Seq<char>| #[trigger]
        is_taken(start, name) ==> state.doc.at("model"@, name) == start.at("model"@, name)
            && registered_source(state.doc, name) is None
    &&& forall|name: Seq<char>| #[trigger]
        state.kept.contains(name) ==> is_registered(state.doc, name) && has_model(state.doc, name)
    &&& forall|name: Seq<char>| !state.kept.contains(name) ==> #[trigger] state.doc.at("model"@, name)
        == start.at("model"@, name)
    &&& forall|name: Seq<char>| !state.kept.contains(name) ==> #[trigger] registered_source(
        state.doc,
        name,
    ) == registered_source(start, name)
}

/// Without older markers, a name is found through the registry.
pub proof fn lemma_found(doc: Group, provider: Seq<char>, model: Seq<char>)
    requires
        forall|name: Seq<char>| !#[trigger] is_marked(doc, name),
        find_registered(doc, provider, model) is Some,
    ensures
        registered_source(doc, find_registered(doc, provider, model)->0) == Some((provider, model)),
        has_model(doc, find_registered(doc, provider, model)->0),
{
    let name = find_registered(doc, provider, model)->0;
    let by_entry = |name: Seq<char>|
        registered_source(doc, name) == Some((provider, model)) && has_model(doc, name);
    let by_marker = |name: Seq<char>|
        match doc.at("model"@, name) {
            Some(node) => marker_names(node, provider, model),
            None => false,
        };
    lemma_first_where_holds(registry_names(doc), by_entry);
    lemma_first_where_holds(model_names(doc), by_marker);
    if model_names(doc).contains(name) && by_marker(name) {
        assert(is_marked(doc, name));
    }
}

/// The source of a route to another provider, and its model, are without white
/// space around them.
pub proof fn lemma_route_trimmed(route: RouteView, active: ProviderView)
    requires
        route_source(route, active) != active.id,
    ensures
        trimmed(route_source(route, active)) == route_source(route, active),
        route_source(route, active).len() > 0,
        trimmed(trimmed(route.model_id)) == trimmed(route.model_id),
{
    lemma_trimmed_twice(route.provider_id->0);
    lemma_trimmed_twice(route.model_id);
}

/// The copy of a model carries no older marker.
proof fn lemma_copy_is_unmarked(model: Group, source: ProviderView)
    ensures
        !has_marker(Node::Table(with_auth(model, source))),
{
    assert(marker_keys().contains(LEGACY_MANAGED_OWNER_KEY@));
}

/// A route to a model of another provider at hand: what it writes.
pub proof fn lemma_copy_step(
    start: Group,
    state: RouteState,
    active: ProviderView,
    all: ProviderMap,
    route: RouteView,
)
    requires
        is_under_way(start, state),
        route_step(state, active, all, route) is Ok,
        trimmed(route.role).len() > 0,
        route_source(route, active) != active.id,
        all.contains_key(route_source(route, active)),
    ensures
        ({
            let source = route_source(route, active);
            let model_id = trimmed(route.model_id);
            let name = allocated(state.doc, source, model_id);
            let next = route_step(state, active, all, route)->Ok_0;
            &&& copied_model(all[source], model_id) is Ok
            &&& with_copy(
                state.doc,
                name,
                copied_model(all[source], model_id)->Ok_0,
                source,
                model_id,
            ) == Some(next.doc)
            &&& !is_taken(state.doc, name)
            &&& next.doc.at("model"@, name) == Some(
                Node::Table(copied_model(all[source], model_id)->Ok_0),
            )
            &&& registered_source(next.doc, name) == Some((source, model_id))
            &&& forall|other: Seq<char>| other != name ==> #[trigger] next.doc.at("model"@, other)
                == state.doc.at("model"@, other)
            &&& forall|other: Seq<char>| other != name ==> #[trigger] registered_source(
                next.doc,
                other,
            ) == registered_source(state.doc, other)
            &&& next.kept == state.kept.insert(name)
            &&& next.resolved == state.resolved.push((trimmed(route.role), name))
            &&& is_under_way(start, next)
        }),
{
    lemma_names_differ();
    let source = route_source(route, active);
    let model_id = trimmed(route.model_id);
    let name = allocated(state.doc, source, model_id);
    let next = route_step(state, active, all, route)->Ok_0;
    let copy = copied_model(all[source], model_id)->Ok_0;
    let two = set!["model"@, MANAGED_REGISTRY_ROOT@];
    lemma_route_trimmed(route, active);
    law_copy_is_written_and_registered(state.doc, name, copy, source, model_id);
    law_allocation_spares_the_models_of_the_user(state.doc, source, model_id);
    lemma_agree_trans(start, state.doc, next.doc, two);
    lemma_beside_trans(start, state.doc, next.doc);
    assert forall|other: Seq<char>| !#[trigger] is_marked(next.doc, other) by {
        if other == name {
            let doc = provider_doc(all[source])->Ok_0;
            let model = model_group(doc, model_id)->0;
            lemma_copy_is_unmarked(model, all[source]);
        } else {
            assert(next.doc.at("model"@, other) == state.doc.at("model"@, other));
            assert(!is_marked(state.doc, other));
        }
    }
    assert forall|other: Seq<char>| #[trigger] is_taken(start, other) implies next.doc.at(
        "model"@,
        other,
    ) == start.at("model"@, other) && registered_source(next.doc, other) is None by {
        assert(state.doc.at("model"@, other) == start.at("model"@, other));
        assert(is_taken(state.doc, other));
        assert(other != name);
        assert(next.doc.at("model"@, other) == state.doc.at("model"@, other));
        assert(registered_source(next.doc, other) == registered_source(state.doc, other));
    }
    assert forall|other: Seq<char>| #[trigger] next.kept.contains(other) implies is_registered(
        next.doc,
        other,
    ) && has_model(next.doc, other) by {
        if other != name {
            assert(state.kept.contains(other));
            assert(next.doc.at("model"@, other) == state.doc.at("model"@, other));
            assert(registered_source(next.doc, other) == registered_source(state.doc, other));
        }
    }
}

/// What holds while routes are followed still holds after one more.
proof fn lemma_step_is_under_way(
    start: Group,
    state: RouteState,
    active: ProviderView,
    all: ProviderMap,
    route: RouteView,
)
    requires
        is_under_way(start, state),
        route_step(state, active, all, route) is Ok,
    ensures
        is_under_way(start, route_step(state, active, all, route)->Ok_0),
{
    let source = route_source(route, active);
    if trimmed(route.role).len() > 0 && source != active.id {
        if all.contains_key(source) {
            lemma_copy_step(start, state, active, all, route);
        } else {
            lemma_found(state.doc, source, trimmed(route.model_id));
        }
    }
}

/// How far things are once the first `i` routes have been followed.
pub open spec fn state_after(doc: Group, active: ProviderView, all: ProviderMap, i: int) -> RouteState {
    let start = route_start(migrated(doc)->0);
    route_steps(start, active, all, active.routes.take(i))->Ok_0
}

/// Where all routes have been followed, the first ones have been.
pub proof fn lemma_states(doc: Group, active: ProviderView, all: ProviderMap, i: int)
    requires
        routed(doc, active, all) is Ok,
        active.routes.len() > 0,
        registry_is_sound(doc),
        models_are_sound(doc),
        0 <= i <= active.routes.len(),
    ensures
        ({
            let start = route_start(migrated(doc)->0);
            &&& route_steps(start, active, all, active.routes.take(i)) is Ok
            &&& is_under_way(migrated(doc)->0, state_after(doc, active, all, i))
            &&& i < active.routes.len() ==> route_step(
                state_after(doc, active, all, i),
                active,
                all,
                active.routes[i],
            ) == Ok::<RouteState, FaultView>(state_after(doc, active, all, i + 1))
        }),
    decreases active.routes.len() + i,
{
    let start = route_start(migrated(doc)->0);
    let routes = active.routes;
    lemma_prefix_ok(start, active, all, routes, i);
    if i < routes.len() {
        lemma_prefix_ok(start, active, all, routes, i + 1);
        assert(routes.take(i + 1).drop_last() =~= routes.take(i));
        assert(routes.take(i + 1).last() == routes[i]);
    }
    if i == 0 {
        law_migration_moves_every_marker(doc);
        assert(routes.take(0) =~= Seq::empty());
        let none = state_after(doc, active, all, 0);
        assert forall|name: Seq<char>| !#[trigger] none.kept.contains(name) by {}
        assert forall|name: Seq<char>| #[trigger] is_taken(start.doc, name) implies registered_source(
            start.doc,
            name,
        ) is None by {
            assert(!is_managed(start.doc, name));
        }
    } else {
        lemma_states(doc, active, all, i - 1);
        lemma_step_is_under_way(
            start.doc,
            state_after(doc, active, all, i - 1),
            active,
            all,
            routes[i - 1],
        );
    }
}

/// Where all routes have been followed, the first ones have been.
proof fn lemma_prefix_ok(
    start: RouteState,
    active: ProviderView,
    all: ProviderMap,
    routes: Seq<RouteView>,
    i: int,
)
    requires
        route_steps(start, active, all, routes) is Ok,
        0 <= i <= routes.len(),
    ensures
        route_steps(start, active, all, routes.take(i)) is Ok,
    decreases routes.len() - i,
{
    if i < routes.len() {
        lemma_prefix_ok(start, active, all, routes, i + 1);
        assert(routes.take(i + 1).drop_last() =~= routes.take(i));
    } else {
        assert(routes.take(i) =~= routes);
    }
}

/// The model that a role was routed to last.
pub open spec fn last_for(pairs: Seq<(Seq<char>, Seq<char>)>, role: Seq<char>) -> Option<Seq<char>>
    decreases pairs.len(),
{
    if pairs.len() == 0 {
        None
    } else if pairs.last().0 == role {
        Some(pairs.last().1)
    } else {
        last_for(pairs.drop_last(), role)
    }
}

/// A role has been routed if there is a model that it was routed to last.
proof fn lemma_last_for(pairs: Seq<(Seq<char>, Seq<char>)>, role: Seq<char>)
    ensures
        is_resolved(pairs, role) <==> last_for(pairs, role) is Some,
    decreases pairs.len(),
{
    if pairs.len() > 0 {
        let rest = pairs.drop_last();
        lemma_last_for(rest, role);
        if is_resolved(rest, role) {
            let k = choose|k: int| 0 <= k < rest.len() && (#[trigger] rest[k]).0 == role;
            assert(pairs[k].0 == role);
        }
        if is_resolved(pairs, role) && pairs.last().0 != role {
            let k = choose|k: int| 0 <= k < pairs.len() && (#[trigger] pairs[k]).0 == role;
            assert(rest[k].0 == role);
        }
        if pairs.last().0 == role {
            assert(pairs[pairs.len() - 1].0 == role);
        }
    }
}

/// The last string that is written under a name stays there.
proof fn lemma_with_texts(to: Group, pairs: Seq<(Seq<char>, Seq<char>)>, role: Seq<char>)
    ensures
        with_texts(to, pairs).get(role) == match last_for(pairs, role) {
            Some(name) => Some(Node::fresh_text(name)),
            None => to.get(role),
        },
    decreases pairs.len(),
{
    if pairs.len() > 0 {
        lemma_with_texts(to, pairs.drop_last(), role);
    }
}

/// The fields that are copied, and no others.
pub proof fn lemma_copied_fields(from: Group, names: Seq<Seq<char>>, name: Seq<char>)
    requires
        forall|n: Seq<char>| #[trigger] names.contains(n) ==> from.get(n) is Some,
    ensures
        copied_fields(from, names).get(name) == if names.contains(name) {
            from.get(name)
        } else {
            None
        },
    decreases names.len(),
{
    if names.len() > 0 {
        let some = names.drop_last();
        let last = names.last();
        assert(names =~= some.push(last));
        assert forall|n: Seq<char>| #[trigger] some.contains(n) implies from.get(n) is Some by {
            lemma_push_contains(some, last, n);
            assert(names.contains(n));
        }
        lemma_copied_fields(from, some, name);
        lemma_push_contains(some, last, name);
        lemma_push_contains(some, last, last);
        assert(names.contains(last));
    }
}

/// The configuration once all routes have been followed: what it has of the
/// last state, and what became of the routes.
pub proof fn lemma_routed(doc: Group, active: ProviderView, all: ProviderMap)
    requires
        routed(doc, active, all) is Ok,
        active.routes.len() > 0,
        registry_is_sound(doc),
        models_are_sound(doc),
    ensures
        ({
            let state = state_after(doc, active, all, active.routes.len() as int);
            let after = routed(doc, active, all)->Ok_0;
            &&& is_under_way(migrated(doc)->0, state)
            &&& owned(after) == state.kept
            &&& models(after) is Some == models(state.doc) is Some
            &&& registry_is_sound(after)
            &&& models_are_sound(after)
            &&& forall|name: Seq<char>| !owned(state.doc).contains(name) || state.kept.contains(name)
                ==> #[trigger] after.at("model"@, name) == state.doc.at("model"@, name)
            &&& forall|name: Seq<char>| state.kept.contains(name) ==> #[trigger] registered_source(
                after,
                name,
            ) == registered_source(state.doc, name)
            &&& forall|role: Seq<char>| #[trigger]
                route_of(after, role) == final_routes(state).get(role)
            &&& agree_outside(doc, after, routed_sections())
            &&& same_beside_registry(doc, after)
            &&& agree_outside(
                doc.section("models"@),
                after.section("models"@),
                set!["default"@, "web_search"@],
            )
            &&& agree_outside(doc.section("subagents"@), after.section("subagents"@), set!["models"@])
            &&& after.at("models"@, "default"@) == without_selection_of(
                doc,
                "default"@,
                owned(state.doc).difference(state.kept),
            ).at("models"@, "default"@)
            &&& after.at("models"@, "web_search"@) == without_selection_of(
                doc,
                "web_search"@,
                owned(state.doc).difference(state.kept),
            ).at("models"@, "web_search"@)
        }),
{
    lemma_names_differ();
    let n = active.routes.len() as int;
    assert(active.routes.take(n) =~= active.routes);
    lemma_states(doc, active, all, n);
    let state = state_after(doc, active, all, n);
    let start = migrated(doc)->0;
    let routes = Node::Table(final_routes(state));
    let tree = state.doc.put_under("subagents"@, "models"@, routes)->0;
    let after = routed(doc, active, all)->Ok_0;
    let sections = routed_sections();
    let two = set!["model"@, MANAGED_REGISTRY_ROOT@];
    let three = set!["model"@, "models"@, MANAGED_REGISTRY_ROOT@];
    let only = set!["subagents"@];
    law_migration_moves_every_marker(doc);
    lemma_agree_put_in(
        state.doc,
        "subagents"@,
        Node::fresh_table(),
        "models"@,
        routes,
        only,
        set!["models"@],
    );
    lemma_agree_get(state.doc, tree, only, MANAGED_REGISTRY_ROOT@);
    lemma_agree_get(state.doc, tree, only, "model"@);
    lemma_agree_get(state.doc, tree, only, "models"@);
    law_cleanup_removes_only_owned_models(tree, state.kept);
    assert(owned(tree) =~= owned(state.doc)) by {
        assert forall|name: Seq<char>| owned(tree).contains(name) <==> owned(state.doc).contains(name) by {
            assert(registered_source(tree, name) == registered_source(state.doc, name));
        }
    }
    assert(owned(state.doc).intersect(state.kept) =~= state.kept) by {
        assert forall|name: Seq<char>| state.kept.contains(name) implies owned(state.doc).contains(name) by {
            assert(is_registered(state.doc, name));
        }
    }
    let stale = owned(state.doc).difference(state.kept);
    law_selection_is_cleared_only_if_stale(doc, "default"@, stale);
    law_selection_is_cleared_only_if_stale(doc, "web_search"@, stale);
    law_selection_is_cleared_only_if_stale(tree, "default"@, stale);
    law_selection_is_cleared_only_if_stale(tree, "web_search"@, stale);
    lemma_agree_get(tree, after, three, "subagents"@);
    lemma_agree_get(doc, start, two, "models"@);
    lemma_agree_get(doc, start, two, "subagents"@);
    lemma_agree_get(start, state.doc, two, "models"@);
    lemma_agree_get(start, state.doc, two, "subagents"@);
    lemma_agree_more(doc, start, two, sections);
    lemma_agree_more(start, state.doc, two, sections);
    lemma_agree_more(state.doc, tree, only, sections);
    lemma_agree_more(tree, after, three, sections);
    lemma_agree_trans(doc, start, state.doc, sections);
    lemma_agree_trans(doc, state.doc, tree, sections);
    lemma_agree_trans(doc, tree, after, sections);
    lemma_beside_trans(doc, start, state.doc);
    lemma_beside_trans(doc, state.doc, tree);
    lemma_beside_trans(doc, tree, after);
    assert forall|name: Seq<char>| !owned(state.doc).contains(name) || state.kept.contains(
        name,
    ) implies #[trigger] after.at("model"@, name) == state.doc.at("model"@, name) by {
        assert(tree.at("model"@, name) == state.doc.at("model"@, name));
    }
    assert forall|name: Seq<char>| state.kept.contains(name) implies #[trigger] registered_source(
        after,
        name,
    ) == registered_source(state.doc, name) by {
        assert(registered_source(tree, name) == registered_source(state.doc, name));
    }
    assert forall|role: Seq<char>| #[trigger]
        route_of(after, role) == final_routes(state).get(role) by {
        assert(tree.at("subagents"@, "models"@) == Some(routes));
    }
}

/// The name that the `i`-th route of the active provider was led to.
pub open spec fn target_of(doc: Group, active: ProviderView, all: ProviderMap, i: int) -> Seq<char> {
    state_after(doc, active, all, i + 1).resolved.last().1
}

/// The route has a role; one without is passed over.
pub open spec fn has_a_role(route: RouteView) -> bool {
    trimmed(route.role).len() > 0
}

/// No route after the `i`-th has the same role.
pub open spec fn is_last_of_its_role(routes: Seq<RouteView>, i: int) -> bool {
    forall|j: int| i < j < routes.len() ==> trimmed((#[trigger] routes[j]).role) != trimmed(routes[i].role)
}

/// The name is not one that a model of that provider would be given.
pub open spec fn is_no_name_for(name: Seq<char>, provider: Seq<char>, model: Seq<char>) -> bool {
    &&& name != managed_id(provider, model)
    &&& forall|n: nat| name != #[trigger] suffixed(managed_id(provider, model), n)
}

/// The name that the `i`-th route was led to is not one that a later route to
/// another model would be given: the identifiers of the two do not collide.
pub open spec fn keeps_its_name(doc: Group, active: ProviderView, all: ProviderMap, i: int) -> bool {
    let routes = active.routes;
    forall|j: int|
        i < j < routes.len() && has_a_role(#[trigger] routes[j]) && route_source(routes[j], active)
            != active.id && !(route_source(routes[j], active) == route_source(routes[i], active)
            && trimmed(routes[j].model_id) == trimmed(routes[i].model_id)) ==> is_no_name_for(
            target_of(doc, active, all, i),
            route_source(routes[j], active),
            trimmed(routes[j].model_id),
        )
}

/// The role of the `i`-th route, while later routes are followed.
pub proof fn lemma_role_holds(doc: Group, active: ProviderView, all: ProviderMap, i: int, j: int)
    requires
        routed(doc, active, all) is Ok,
        registry_is_sound(doc),
        models_are_sound(doc),
        0 <= i < j <= active.routes.len(),
        has_a_role(active.routes[i]),
        is_last_of_its_role(active.routes, i),
    ensures
        last_for(state_after(doc, active, all, j).resolved, trimmed(active.routes[i].role)) == Some(
            target_of(doc, active, all, i),
        ),
    decreases j - i,
{
    let role = trimmed(active.routes[i].role);
    if j == i + 1 {
        lemma_states(doc, active, all, i);
        let before = state_after(doc, active, all, i);
        let next = state_after(doc, active, all, i + 1);
        assert(next.resolved.last().0 == role);
    } else {
        lemma_role_holds(doc, active, all, i, j - 1);
        lemma_states(doc, active, all, j - 1);
        let before = state_after(doc, active, all, j - 1);
        let next = state_after(doc, active, all, j);
        let other = active.routes[j - 1];
        assert(trimmed(other.role) != role);
        if has_a_role(other) {
            assert(next.resolved.drop_last() =~= before.resolved);
            assert(next.resolved.last().0 == trimmed(other.role));
        }
    }
}

/// The copy that the `i`-th route was led to, while later routes are followed.
pub proof fn lemma_copy_holds(doc: Group, active: ProviderView, all: ProviderMap, i: int, j: int)
    requires
        routed(doc, active, all) is Ok,
        registry_is_sound(doc),
        models_are_sound(doc),
        0 <= i < j <= active.routes.len(),
        has_a_role(active.routes[i]),
        route_source(active.routes[i], active) != active.id,
        keeps_its_name(doc, active, all, i),
    ensures
        ({
            let state = state_after(doc, active, all, j);
            let name = target_of(doc, active, all, i);
            let source = route_source(active.routes[i], active);
            let model_id = trimmed(active.routes[i].model_id);
            &&& state.kept.contains(name)
            &&& registered_source(state.doc, name) == Some((source, model_id))
            &&& has_model(state.doc, name)
            &&& all.contains_key(source) ==> copied_model(all[source], model_id) is Ok
                && state.doc.at("model"@, name) == Some(
                Node::Table(copied_model(all[source], model_id)->Ok_0),
            )
        }),
    decreases j - i,
{
    let start = migrated(doc)->0;
    let name = target_of(doc, active, all, i);
    let source = route_source(active.routes[i], active);
    let model_id = trimmed(active.routes[i].model_id);
    if j == i + 1 {
        lemma_states(doc, active, all, i);
        let before = state_after(doc, active, all, i);
        if all.contains_key(source) {
            lemma_copy_step(start, before, active, all, active.routes[i]);
        } else {
            lemma_found(before.doc, source, model_id);
        }
    } else {
        lemma_copy_holds(doc, active, all, i, j - 1);
        lemma_states(doc, active, all, j - 1);
        let before = state_after(doc, active, all, j - 1);
        let next = state_after(doc, active, all, j);
        let other = active.routes[j - 1];
        if has_a_role(other) && route_source(other, active) != active.id && all.contains_key(
            route_source(other, active),
        ) {
            lemma_copy_step(start, before, active, all, other);
            let written = allocated(
                before.doc,
                route_source(other, active),
                trimmed(other.model_id),
            );
            if written == name {
                if find_registered(
                    before.doc,
                    route_source(other, active),
                    trimmed(other.model_id),
                ) is Some {
                    lemma_found(before.doc, route_source(other, active), trimmed(other.model_id));
                }
            } else {
                assert(next.doc.at("model"@, name) == before.doc.at("model"@, name));
                assert(registered_source(next.doc, name) == registered_source(before.doc, name));
            }
        }
    }
}

/// A route to a model of another provider leads to a copy of it: the role points
/// to a name that the registry records for that provider and that model, and the
/// model is there. Where the provider is at hand, the copy is as that provider
/// defines it, with the key of that provider, whatever the active one is set to.
pub proof fn law_route_to_another_provider_leads_to_its_model(
    doc: Group,
    active: ProviderView,
    all: ProviderMap,
    i: int,
)
    requires
        routed(doc, active, all) is Ok,
        registry_is_sound(doc),
        models_are_sound(doc),
        0 <= i < active.routes.len(),
        has_a_role(active.routes[i]),
        route_source(active.routes[i], active) != active.id,
        is_last_of_its_role(active.routes, i),
        keeps_its_name(doc, active, all, i),
    ensures
        ({
            let after = routed(doc, active, all)->Ok_0;
            let name = target_of(doc, active, all, i);
            let source = route_source(active.routes[i], active);
            let model_id = trimmed(active.routes[i].model_id);
            &&& route_of(after, trimmed(active.routes[i].role)) == Some(Node::fresh_text(name))
            &&& registered_source(after, name) == Some((source, model_id))
            &&& has_model(after, name)
            &&& all.contains_key(source) ==> copied_model(all[source], model_id) is Ok && after.at(
                "model"@,
                name,
            ) == Some(Node::Table(copied_model(all[source], model_id)->Ok_0))
        }),
{
    let n = active.routes.len() as int;
    let state = state_after(doc, active, all, n);
    let after = routed(doc, active, all)->Ok_0;
    let name = target_of(doc, active, all, i);
    let role = trimmed(active.routes[i].role);
    lemma_role_holds(doc, active, all, i, n);
    lemma_copy_holds(doc, active, all, i, n);
    lemma_routed(doc, active, all);
    lemma_final_route(state, role);
    assert(route_of(after, role) == final_routes(state).get(role));
    assert(after.at("model"@, name) == state.doc.at("model"@, name));
    assert(registered_source(after, name) == registered_source(state.doc, name));
}

/// A model that a route of the active provider names is there once all routes
/// have been followed, unless it was kept for another provider before.
pub proof fn lemma_local_model_stays(doc: Group, active: ProviderView, all: ProviderMap, i: int)
    requires
        routed(doc, active, all) is Ok,
        registry_is_sound(doc),
        models_are_sound(doc),
        0 <= i < active.routes.len(),
        has_a_role(active.routes[i]),
        route_source(active.routes[i], active) == active.id,
        !is_managed(doc, trimmed(active.routes[i].model_id)),
    ensures
        has_model(routed(doc, active, all)->Ok_0, trimmed(active.routes[i].model_id)),
        target_of(doc, active, all, i) == trimmed(active.routes[i].model_id),
{
    let n = active.routes.len() as int;
    let state = state_after(doc, active, all, n);
    let after = routed(doc, active, all)->Ok_0;
    let model_id = trimmed(active.routes[i].model_id);
    let start = migrated(doc)->0;
    lemma_states(doc, active, all, i);
    lemma_states(doc, active, all, n);
    if state_after(doc, active, all, i).kept.contains(model_id) {
        lemma_kept_grows(doc, active, all, i, n, model_id);
    }
    lemma_routed(doc, active, all);
    law_migration_moves_every_marker(doc);
    let before = state_after(doc, active, all, i);
    assert(has_model(before.doc, model_id));
    assert(!is_marked(doc, model_id));
    assert(registered_source(start, model_id) == registered_source(doc, model_id));
    assert(!is_marked(state.doc, model_id));
    if !state.kept.contains(model_id) {
        assert(before.doc.at("model"@, model_id) == start.at("model"@, model_id));
        assert(state.doc.at("model"@, model_id) == start.at("model"@, model_id));
        assert(registered_source(state.doc, model_id) == registered_source(start, model_id));
        assert(!owned(state.doc).contains(model_id));
    }
    assert(after.at("model"@, model_id) == state.doc.at("model"@, model_id));
}

/// A copy that is in use stays in use.
proof fn lemma_kept_grows(
    doc: Group,
    active: ProviderView,
    all: ProviderMap,
    i: int,
    j: int,
    name: Seq<char>,
)
    requires
        routed(doc, active, all) is Ok,
        active.routes.len() > 0,
        registry_is_sound(doc),
        models_are_sound(doc),
        0 <= i <= j <= active.routes.len(),
        state_after(doc, active, all, i).kept.contains(name),
    ensures
        state_after(doc, active, all, j).kept.contains(name),
    decreases j - i,
{
    if i < j {
        lemma_states(doc, active, all, i);
        lemma_kept_grows(doc, active, all, i + 1, j, name);
    }
}

/// A route to a model of the active provider leads to that model, unless its
/// name is that of a copy. A model of the user is left as it is.
pub proof fn law_route_to_the_active_provider_leads_to_its_model(
    doc: Group,
    active: ProviderView,
    all: ProviderMap,
    i: int,
)
    requires
        routed(doc, active, all) is Ok,
        registry_is_sound(doc),
        models_are_sound(doc),
        0 <= i < active.routes.len(),
        has_a_role(active.routes[i]),
        route_source(active.routes[i], active) == active.id,
        is_last_of_its_role(active.routes, i),
        !is_managed(doc, trimmed(active.routes[i].model_id)),
    ensures
        ({
            let after = routed(doc, active, all)->Ok_0;
            let model_id = trimmed(active.routes[i].model_id);
            &&& route_of(after, trimmed(active.routes[i].role)) == Some(Node::fresh_text(model_id))
            &&& has_model(after, model_id)
            &&& is_taken(doc, model_id) ==> after.at("model"@, model_id) == doc.at(
                "model"@,
                model_id,
            )
        }),
{
    let n = active.routes.len() as int;
    let state = state_after(doc, active, all, n);
    let after = routed(doc, active, all)->Ok_0;
    let role = trimmed(active.routes[i].role);
    let model_id = trimmed(active.routes[i].model_id);
    lemma_role_holds(doc, active, all, i, n);
    lemma_local_model_stays(doc, active, all, i);
    if is_taken(doc, model_id) {
        law_routing_spares_the_models_of_the_user(doc, active, all, model_id);
    }
    lemma_routed(doc, active, all);
    lemma_final_route(state, role);
    assert(route_of(after, role) == final_routes(state).get(role));
}

/// What became of the route of a role.
pub proof fn lemma_final_route(state: RouteState, role: Seq<char>)
    ensures
        final_routes(state).get(role) == match last_for(state.resolved, role) {
            Some(name) => Some(Node::fresh_text(name)),
            None => if live_routes(state.doc).names().contains(role) && keeps_route(state, role) {
                live_routes(state.doc).get(role)
            } else {
                None
            },
        },
{
    broadcast use vstd::seq_lib::group_filter_ensures;

    let live = live_routes(state.doc);
    let p = |r: Seq<char>| keeps_route(state, r);
    let kept = live.names().filter(p);
    assert forall|r: Seq<char>| #[trigger] kept.contains(r) implies live.get(r) is Some by {
        lemma_filter_subset(live.names(), p, r);
        lemma_names(live, r);
    }
    lemma_copied_fields(live, kept, role);
    lemma_with_texts(copied_fields(live, kept), state.resolved, role);
    if kept.contains(role) {
        lemma_filter_subset(live.names(), p, role);
        let k = choose|k: int| 0 <= k < kept.len() && kept[k] == role;
        assert(p(live.names().filter(p)[k]));
    }
    if live.names().contains(role) && keeps_route(state, role) {
        let k = choose|k: int| 0 <= k < live.names().len() && live.names()[k] == role;
        assert(p(live.names()[k]));
        assert(live.names().filter(p).contains(live.names()[k]));
    }
}

/// A role that no route names keeps the route that it has, unless that points to
/// a copy which is not in use any more; then it has none.
pub proof fn law_other_roles_keep_their_routes(
    doc: Group,
    active: ProviderView,
    all: ProviderMap,
    role: Seq<char>,
)
    requires
        routed(doc, active, all) is Ok,
        active.routes.len() > 0,
        registry_is_sound(doc),
        models_are_sound(doc),
        live_routes(doc).well_formed(),
        forall|i: int|
            0 <= i < active.routes.len() && has_a_role(#[trigger] active.routes[i]) ==> trimmed(
                active.routes[i].role,
            ) != role,
    ensures
        ({
            let state = state_after(doc, active, all, active.routes.len() as int);
            let stale = match live_routes(doc).text(role) {
                Some(name) => is_managed(state.doc, name) && !state.kept.contains(name),
                None => false,
            };
            route_of(routed(doc, active, all)->Ok_0, role) == if stale {
                None
            } else {
                live_routes(doc).get(role)
            }
        }),
{
    lemma_names_differ();
    let n = active.routes.len() as int;
    let state = state_after(doc, active, all, n);
    let after = routed(doc, active, all)->Ok_0;
    let start = migrated(doc)->0;
    let two = set!["model"@, MANAGED_REGISTRY_ROOT@];
    lemma_unnamed_role(doc, active, all, role, n);
    lemma_routed(doc, active, all);
    lemma_last_for(state.resolved, role);
    lemma_final_route(state, role);
    law_migration_moves_every_marker(doc);
    lemma_agree_get(doc, start, two, "subagents"@);
    lemma_agree_get(start, state.doc, two, "subagents"@);
    assert(live_routes(state.doc) == live_routes(doc));
    let live = live_routes(doc);
    lemma_names(live, role);
    assert(live.order.contains(role) <==> live.fields.contains_key(role));
    assert(route_of(after, role) == final_routes(state).get(role));
}

/// A role that no route names keeps the route that it has, unless that points to
/// a copy that is gone; then it has none.
pub proof fn law_other_roles_lose_only_copies_that_are_gone(
    doc: Group,
    active: ProviderView,
    all: ProviderMap,
    role: Seq<char>,
)
    requires
        routed(doc, active, all) is Ok,
        active.routes.len() > 0,
        registry_is_sound(doc),
        models_are_sound(doc),
        models_can_be_listed(doc),
        live_routes(doc).well_formed(),
        forall|i: int|
            0 <= i < active.routes.len() && has_a_role(#[trigger] active.routes[i]) ==> trimmed(
                active.routes[i].role,
            ) != role,
    ensures
        ({
            let after = routed(doc, active, all)->Ok_0;
            let stale = match live_routes(doc).text(role) {
                Some(name) => is_gone(doc, after, name),
                None => false,
            };
            route_of(after, role) == if stale {
                None
            } else {
                live_routes(doc).get(role)
            }
        }),
{
    let n = active.routes.len() as int;
    assert(active.routes.take(n) =~= active.routes);
    law_other_roles_keep_their_routes(doc, active, all, role);
    match live_routes(doc).text(role) {
        Some(name) => {
            lemma_gone(doc, active, all, name);
        },
        None => {},
    }
}

/// A role that no route names is never routed.
proof fn lemma_unnamed_role(
    doc: Group,
    active: ProviderView,
    all: ProviderMap,
    role: Seq<char>,
    j: int,
)
    requires
        routed(doc, active, all) is Ok,
        active.routes.len() > 0,
        registry_is_sound(doc),
        models_are_sound(doc),
        0 <= j <= active.routes.len(),
        forall|i: int|
            0 <= i < active.routes.len() && has_a_role(#[trigger] active.routes[i]) ==> trimmed(
                active.routes[i].role,
            ) != role,
    ensures
        last_for(state_after(doc, active, all, j).resolved, role) is None,
    decreases j,
{
    lemma_states(doc, active, all, j);
    if j == 0 {
        assert(active.routes.take(0) =~= Seq::empty());
    } else {
        lemma_unnamed_role(doc, active, all, role, j - 1);
        lemma_states(doc, active, all, j - 1);
        let before = state_after(doc, active, all, j - 1);
        let next = state_after(doc, active, all, j);
        let other = active.routes[j - 1];
        if has_a_role(other) {
            assert(trimmed(other.role) != role);
            assert(next.resolved.drop_last() =~= before.resolved);
            assert(next.resolved.last().0 == trimmed(other.role));
        }
    }
}

/// The `i`-th route of the active provider is one to a model of another.
pub open spec fn leads_elsewhere(active: ProviderView, i: int) -> bool {
    &&& 0 <= i < active.routes.len()
    &&& has_a_role(active.routes[i])
    &&& route_source(active.routes[i], active) != active.id
}

/// The names that the routes to models of other providers were led to.
pub open spec fn copies_in_use(doc: Group, active: ProviderView, all: ProviderMap) -> Set<Seq<char>> {
    Set::new(
        |name: Seq<char>|
            exists|i: int| #[trigger] leads_elsewhere(active, i) && target_of(doc, active, all, i) == name,
    )
}

/// A copy in use after some routes is the one that a route was led to.
proof fn lemma_kept_is_a_target(
    doc: Group,
    active: ProviderView,
    all: ProviderMap,
    j: int,
    name: Seq<char>,
)
    requires
        routed(doc, active, all) is Ok,
        active.routes.len() > 0,
        registry_is_sound(doc),
        models_are_sound(doc),
        0 <= j <= active.routes.len(),
        state_after(doc, active, all, j).kept.contains(name),
    ensures
        copies_in_use(doc, active, all).contains(name),
    decreases j,
{
    if j == 0 {
        assert(active.routes.take(0) =~= Seq::empty());
    } else {
        lemma_states(doc, active, all, j - 1);
        let before = state_after(doc, active, all, j - 1);
        let next = state_after(doc, active, all, j);
        if before.kept.contains(name) {
            lemma_kept_is_a_target(doc, active, all, j - 1, name);
        } else {
            assert(leads_elsewhere(active, j - 1));
            assert(next.resolved.last().1 == name);
            assert(target_of(doc, active, all, j - 1) == name);
        }
    }
}

/// The copies that are left are those that the routes to models of other
/// providers were led to, no more and no fewer, each with its entry in the
/// registry and its model. No model carries the older marker. Of the routes with
/// one role the last counts: that role points to the copy.
pub proof fn law_only_copies_in_use_are_left(doc: Group, active: ProviderView, all: ProviderMap)
    requires
        routed(doc, active, all) is Ok,
        active.routes.len() > 0,
        registry_is_sound(doc),
        models_are_sound(doc),
    ensures
        ({
            let after = routed(doc, active, all)->Ok_0;
            &&& owned(after) == copies_in_use(doc, active, all)
            &&& forall|name: Seq<char>| #[trigger]
                owned(after).contains(name) ==> is_registered(after, name) && has_model(after, name)
            &&& forall|name: Seq<char>| !#[trigger] is_marked(after, name)
            &&& forall|i: int| #[trigger]
                leads_elsewhere(active, i) && is_last_of_its_role(active.routes, i) ==> route_of(
                    after,
                    trimmed(active.routes[i].role),
                ) == Some(Node::fresh_text(target_of(doc, active, all, i)))
        }),
{
    lemma_routed(doc, active, all);
    let n = active.routes.len() as int;
    let state = state_after(doc, active, all, n);
    let after = routed(doc, active, all)->Ok_0;
    let used = copies_in_use(doc, active, all);
    assert forall|name: Seq<char>| #[trigger] state.kept.contains(name) implies used.contains(name) by {
        lemma_kept_is_a_target(doc, active, all, n, name);
    }
    assert forall|name: Seq<char>| #[trigger] used.contains(name) implies state.kept.contains(name) by {
        let i = choose|i: int| #[trigger] leads_elsewhere(active, i) && target_of(doc, active, all, i) == name;
        lemma_states(doc, active, all, i);
        lemma_kept_grows(doc, active, all, i + 1, n, name);
    }
    assert(state.kept =~= used);
    assert forall|name: Seq<char>| #[trigger] owned(after).contains(name) implies is_registered(
        after,
        name,
    ) && has_model(after, name) by {
        assert(state.kept.contains(name));
        assert(registered_source(after, name) == registered_source(state.doc, name));
        assert(after.at("model"@, name) == state.doc.at("model"@, name));
    }
    assert forall|name: Seq<char>| !#[trigger] is_marked(after, name) by {
        if is_marked(after, name) {
            assert(owned(after).contains(name));
            assert(after.at("model"@, name) == state.doc.at("model"@, name));
            assert(!is_marked(state.doc, name));
        }
    }
    assert forall|i: int| #[trigger]
        leads_elsewhere(active, i) && is_last_of_its_role(active.routes, i) implies route_of(
        after,
        trimmed(active.routes[i].role),
    ) == Some(Node::fresh_text(target_of(doc, active, all, i))) by {
        let role = trimmed(active.routes[i].role);
        lemma_role_holds(doc, active, all, i, n);
        lemma_final_route(state, role);
        assert(route_of(after, role) == final_routes(state).get(role));
    }
}

/// Where no two routes have the same role, no copy is left without a role that
/// points to it.
pub proof fn law_every_copy_has_a_role(
    doc: Group,
    active: ProviderView,
    all: ProviderMap,
    name: Seq<char>,
)
    requires
        routed(doc, active, all) is Ok,
        registry_is_sound(doc),
        models_are_sound(doc),
        forall|i: int|
            0 <= i < active.routes.len() && has_a_role(active.routes[i])
                ==> #[trigger] is_last_of_its_role(active.routes, i),
        owned(routed(doc, active, all)->Ok_0).contains(name),
    ensures
        exists|role: Seq<char>| #[trigger]
            route_of(routed(doc, active, all)->Ok_0, role) == Some(Node::fresh_text(name)),
{
    if active.routes.len() > 0 {
        law_only_copies_in_use_are_left(doc, active, all);
        let i = choose|i: int| #[trigger] leads_elsewhere(active, i) && target_of(doc, active, all, i) == name;
        assert(is_last_of_its_role(active.routes, i));
        assert(route_of(routed(doc, active, all)->Ok_0, trimmed(active.routes[i].role)) == Some(
            Node::fresh_text(name),
        ));
    } else {
        law_without_routes_no_copy_is_left(migrated(doc)->0);
    }
}

/// The copy is that of a model that a route of the active provider asks for: the
/// registry names its provider and its name there, and where that provider is at
/// hand the model is as it defines it.
pub open spec fn is_asked_for(
    after: Group,
    active: ProviderView,
    all: ProviderMap,
    name: Seq<char>,
    i: int,
) -> bool {
    let source = route_source(active.routes[i], active);
    let model_id = trimmed(active.routes[i].model_id);
    &&& leads_elsewhere(active, i)
    &&& registered_source(after, name) == Some((source, model_id))
    &&& has_model(after, name)
    &&& all.contains_key(source) ==> copied_model(all[source], model_id) is Ok && after.at(
        "model"@,
        name,
    ) == Some(Node::Table(copied_model(all[source], model_id)->Ok_0))
}

/// A copy in use after some routes is that of a model that one of them asks for.
proof fn lemma_copy_is_asked_for(
    doc: Group,
    active: ProviderView,
    all: ProviderMap,
    j: int,
    name: Seq<char>,
) -> (i: int)
    requires
        routed(doc, active, all) is Ok,
        active.routes.len() > 0,
        registry_is_sound(doc),
        models_are_sound(doc),
        0 <= j <= active.routes.len(),
        state_after(doc, active, all, j).kept.contains(name),
    ensures
        is_asked_for(state_after(doc, active, all, j).doc, active, all, name, i),
    decreases j,
{
    if j == 0 {
        assert(active.routes.take(0) =~= Seq::empty());
        0
    } else {
        lemma_states(doc, active, all, j - 1);
        let start = migrated(doc)->0;
        let before = state_after(doc, active, all, j - 1);
        let next = state_after(doc, active, all, j);
        let route = active.routes[j - 1];
        let source = route_source(route, active);
        let model_id = trimmed(route.model_id);
        if leads_elsewhere(active, j - 1) {
            if all.contains_key(source) {
                lemma_copy_step(start, before, active, all, route);
            } else {
                lemma_found(before.doc, source, model_id);
            }
            if next.resolved.last().1 == name {
                j - 1
            } else {
                assert(next.doc.at("model"@, name) == before.doc.at("model"@, name));
                assert(registered_source(next.doc, name) == registered_source(before.doc, name));
                lemma_copy_is_asked_for(doc, active, all, j - 1, name)
            }
        } else {
            lemma_copy_is_asked_for(doc, active, all, j - 1, name)
        }
    }
}

/// Every copy that is left is that of a model that a route asks for.
pub proof fn law_every_copy_is_asked_for(
    doc: Group,
    active: ProviderView,
    all: ProviderMap,
    name: Seq<char>,
)
    requires
        routed(doc, active, all) is Ok,
        registry_is_sound(doc),
        models_are_sound(doc),
        owned(routed(doc, active, all)->Ok_0).contains(name),
    ensures
        exists|i: int| #[trigger]
            is_asked_for(routed(doc, active, all)->Ok_0, active, all, name, i),
{
    if active.routes.len() > 0 {
        let n = active.routes.len() as int;
        let state = state_after(doc, active, all, n);
        let after = routed(doc, active, all)->Ok_0;
        lemma_routed(doc, active, all);
        let i = lemma_copy_is_asked_for(doc, active, all, n, name);
        assert(after.at("model"@, name) == state.doc.at("model"@, name));
        assert(registered_source(after, name) == registered_source(state.doc, name));
        assert(is_asked_for(after, active, all, name, i));
    } else {
        law_without_routes_no_copy_is_left(migrated(doc)->0);
    }
}

/// A role points to the model that the last route with that role names, if that
/// is a model of the active provider.
pub proof fn law_role_points_to_the_model_of_the_active_provider(
    doc: Group,
    active: ProviderView,
    all: ProviderMap,
    i: int,
)
    requires
        routed(doc, active, all) is Ok,
        registry_is_sound(doc),
        models_are_sound(doc),
        0 <= i < active.routes.len(),
        has_a_role(active.routes[i]),
        route_source(active.routes[i], active) == active.id,
        is_last_of_its_role(active.routes, i),
    ensures
        route_of(routed(doc, active, all)->Ok_0, trimmed(active.routes[i].role)) == Some(
            Node::fresh_text(trimmed(active.routes[i].model_id)),
        ),
{
    let n = active.routes.len() as int;
    let state = state_after(doc, active, all, n);
    let role = trimmed(active.routes[i].role);
    lemma_role_holds(doc, active, all, i, n);
    lemma_states(doc, active, all, i);
    lemma_routed(doc, active, all);
    lemma_final_route(state, role);
    assert(route_of(routed(doc, active, all)->Ok_0, role) == final_routes(state).get(role));
}

/// Of the routes with one role there is a last.
proof fn lemma_last_of_role(routes: Seq<RouteView>, role: Seq<char>, i: int) -> (last: int)
    requires
        0 <= i < routes.len(),
        trimmed(routes[i].role) == role,
    ensures
        i <= last < routes.len(),
        trimmed(routes[last].role) == role,
        is_last_of_its_role(routes, last),
    decreases routes.len() - i,
{
    if is_last_of_its_role(routes, i) {
        i
    } else {
        let next = choose|j: int| i < j < routes.len() && trimmed((#[trigger] routes[j]).role) == trimmed(
            routes[i].role,
        );
        lemma_last_of_role(routes, role, next)
    }
}

/// The copies that following the routes removes.
pub open spec fn removed_copies(doc: Group, active: ProviderView, all: ProviderMap) -> Set<Seq<char>> {
    owned(migrated(doc)->0).difference(owned(routed(doc, active, all)->Ok_0))
}

/// Nothing refers to a copy that was removed: neither of the two selections and
/// no role, unless a route of the active provider asks for that very name.
pub proof fn law_nothing_refers_to_a_removed_copy(doc: Group, active: ProviderView, all: ProviderMap)
    requires
        routed(doc, active, all) is Ok,
        registry_is_sound(doc),
        models_are_sound(doc),
    ensures
        ({
            let after = routed(doc, active, all)->Ok_0;
            let removed = removed_copies(doc, active, all);
            &&& forall|name: Seq<char>| #[trigger] removed.contains(name) ==> after.text_at(
                "models"@,
                "default"@,
            ) != Some(name) && after.text_at("models"@, "web_search"@) != Some(name)
            &&& forall|role: Seq<char>| #[trigger]
                points_to(after, role, removed) ==> exists|i: int|
                    0 <= i < active.routes.len() && has_a_role(#[trigger] active.routes[i]) && trimmed(
                        active.routes[i].role,
                    ) == role && route_source(active.routes[i], active) == active.id && removed.contains(
                        trimmed(active.routes[i].model_id),
                    )
        }),
{
    lemma_names_differ();
    let start = migrated(doc)->0;
    let after = routed(doc, active, all)->Ok_0;
    let removed = removed_copies(doc, active, all);
    law_migration_moves_every_marker(doc);
    if active.routes.len() == 0 {
        let none = Set::<Seq<char>>::empty();
        let b = without_routes_to(start, owned(start));
        law_migration_is_needed_once(start);
        law_without_routes_no_copy_is_left(start);
        law_routes_go_only_if_stale(start, owned(start));
        lemma_agree_get(start, b, set!["subagents"@], MANAGED_REGISTRY_ROOT@);
        lemma_agree_get(start, b, set!["subagents"@], "model"@);
        law_cleanup_removes_only_owned_models(b, none);
        law_selection_is_cleared_only_if_stale(b, "default"@, owned(b).difference(none));
        law_selection_is_cleared_only_if_stale(b, "web_search"@, owned(b).difference(none));
        assert forall|name: Seq<char>| #[trigger] removed.contains(name) implies owned(b).contains(name) by {
            assert(registered_source(b, name) == registered_source(start, name));
        }
        assert forall|role: Seq<char>| !#[trigger] points_to(after, role, removed) by {
            assert(route_of(after, role) == if points_to(start, role, owned(start)) {
                None
            } else {
                route_of(start, role)
            });
        }
    } else {
        lemma_routed(doc, active, all);
        let n = active.routes.len() as int;
        let state = state_after(doc, active, all, n);
        let stale = owned(state.doc).difference(state.kept);
        assert forall|name: Seq<char>| #[trigger] removed.contains(name) implies is_registered(
            state.doc,
            name,
        ) && stale.contains(name) by {
            assert(!is_marked(start, name));
            assert(registered_source(state.doc, name) == registered_source(start, name));
        }
        law_selection_is_cleared_only_if_stale(doc, "default"@, stale);
        law_selection_is_cleared_only_if_stale(doc, "web_search"@, stale);
        assert forall|role: Seq<char>| #[trigger] points_to(after, role, removed) implies exists|i: int|
            0 <= i < active.routes.len() && has_a_role(#[trigger] active.routes[i]) && trimmed(
                active.routes[i].role,
            ) == role && route_source(active.routes[i], active) == active.id && removed.contains(
                trimmed(active.routes[i].model_id),
            ) by {
            let name = route_of(after, role)->0.text()->0;
            assert(route_of(after, role) == final_routes(state).get(role));
            lemma_final_route(state, role);
            if forall|i: int|
                0 <= i < active.routes.len() && has_a_role(#[trigger] active.routes[i]) ==> trimmed(
                    active.routes[i].role,
                ) != role {
                lemma_unnamed_role(doc, active, all, role, n);
                assert(is_registered(state.doc, name));
            } else {
                let first = choose|i: int|
                    0 <= i < active.routes.len() && has_a_role(#[trigger] active.routes[i]) && trimmed(
                        active.routes[i].role,
                    ) == role;
                let i = lemma_last_of_role(active.routes, role, first);
                lemma_role_holds(doc, active, all, i, n);
                lemma_states(doc, active, all, i);
                assert(target_of(doc, active, all, i) == name);
                if leads_elsewhere(active, i) {
                    lemma_kept_grows(doc, active, all, i + 1, n, name);
                }
                assert(has_a_role(active.routes[i]));
            }
        }
    }
}

/// A route to a provider that is not at hand is refused, unless the model has
/// been copied already. A model of the active provider with the same name makes
/// no difference.
pub proof fn law_unknown_provider_is_refused(
    state: RouteState,
    active: ProviderView,
    all: ProviderMap,
    route: RouteView,
)
    requires
        has_a_role(route),
        trimmed(route.model_id).len() > 0,
        route_source(route, active) != active.id,
        !all.contains_key(route_source(route, active)),
        find_registered(state.doc, route_source(route, active), trimmed(route.model_id)) is None,
    ensures
        route_step(state, active, all, route) == Err::<RouteState, FaultView>(
            FaultView::Reported(
                AppErrorView::RouteProviderMissing {
                    role: trimmed(route.role),
                    provider_id: route_source(route, active),
                },
            ),
        ),
{
}

/// A route to a model that its provider does not define is refused. A model of
/// the active provider with the same name makes no difference.
pub proof fn law_unknown_model_is_refused(
    state: RouteState,
    active: ProviderView,
    all: ProviderMap,
    route: RouteView,
)
    requires
        has_a_role(route),
        trimmed(route.model_id).len() > 0,
        route_source(route, active) != active.id,
        all.contains_key(route_source(route, active)),
        !all[route_source(route, active)].is_official(),
        provider_doc(all[route_source(route, active)]) is Ok,
        model_group(
            provider_doc(all[route_source(route, active)])->Ok_0,
            trimmed(route.model_id),
        ) is None,
    ensures
        route_step(state, active, all, route) == Err::<RouteState, FaultView>(
            FaultView::Reported(
                AppErrorView::RouteModelMissing {
                    provider_name: all[route_source(route, active)].name,
                    model_id: trimmed(route.model_id),
                },
            ),
        ),
{
}

/// The first route that cannot be followed decides the error; none behind it is
/// looked at.
pub proof fn law_first_bad_route_is_reported(
    doc: Group,
    active: ProviderView,
    all: ProviderMap,
    i: int,
    state: RouteState,
    fault: FaultView,
)
    requires
        migrated(doc) is Some,
        0 <= i < active.routes.len(),
        route_steps(
            route_start(migrated(doc)->0),
            active,
            all,
            active.routes.take(i),
        ) == Ok::<RouteState, FaultView>(state),
        route_step(state, active, all, active.routes[i]) == Err::<RouteState, FaultView>(fault),
    ensures
        routed(doc, active, all) == Err::<Group, FaultView>(fault),
{
    let start = route_start(migrated(doc)->0);
    let routes = active.routes;
    assert(routes.take(i + 1).drop_last() =~= routes.take(i));
    assert(routes.take(i + 1).last() == routes[i]);
    lemma_route_steps_err(start, active, all, routes, i + 1);
}

/// A copy that stands in the configuration with its entry is found.
pub proof fn lemma_copy_is_found(doc: Group, name: Seq<char>, provider: Seq<char>, model: Seq<char>)
    requires
        registry_is_sound(doc),
        registered_source(doc, name) == Some((provider, model)),
        has_model(doc, name),
    ensures
        find_registered(doc, provider, model) is Some,
{
    let entries = registry(doc)->0;
    let p = |n: Seq<char>| registered_source(doc, n) == Some((provider, model)) && has_model(doc, n);
    lemma_names(entries, name);
    assert(entries.order.contains(name) <==> entries.fields.contains_key(name));
    let names = registry_names(doc);
    assert(names.contains(name));
    lemma_first_where_holds(names, p);
    if first_where(names, p) is None {
        let k = choose|k: int| 0 <= k < names.len() && names[k] == name;
        assert(!p(names[k]));
    }
}

/// Once the model of another provider has been copied, the route to it can be
/// followed without that provider at hand.
pub proof fn law_written_copy_serves_without_its_provider(
    doc: Group,
    active: ProviderView,
    all: ProviderMap,
    i: int,
    state: RouteState,
)
    requires
        routed(doc, active, all) is Ok,
        registry_is_sound(doc),
        models_are_sound(doc),
        0 <= i < active.routes.len(),
        has_a_role(active.routes[i]),
        route_source(active.routes[i], active) != active.id,
        is_last_of_its_role(active.routes, i),
        keeps_its_name(doc, active, all, i),
        state.doc == routed(doc, active, all)->Ok_0,
    ensures
        ({
            let route = active.routes[i];
            let source = route_source(route, active);
            let model_id = trimmed(route.model_id);
            let found = find_registered(state.doc, source, model_id);
            &&& found is Some
            &&& route_step(state, active, Map::empty(), route) == Ok::<RouteState, FaultView>(
                RouteState {
                    doc: state.doc,
                    resolved: state.resolved.push((trimmed(route.role), found->0)),
                    kept: state.kept.insert(found->0),
                },
            )
        }),
{
    let route = active.routes[i];
    law_route_to_another_provider_leads_to_its_model(doc, active, all, i);
    lemma_routed(doc, active, all);
    lemma_copy_is_found(
        state.doc,
        target_of(doc, active, all, i),
        route_source(route, active),
        trimmed(route.model_id),
    );
    lemma_states(doc, active, all, i);
}

/// Putting a profile into a configuration loses no copy: what the registry finds
/// before, it finds afterwards.
pub proof fn law_merge_keeps_copies(
    live: Group,
    profile: Group,
    provider: Seq<char>,
    model: Seq<char>,
)
    requires
        merged(live, profile) is Some,
        forall|name: Seq<char>| !#[trigger] is_marked(live, name),
        find_registered(live, provider, model) is Some,
    ensures
        find_registered(merged(live, profile)->0, provider, model) == find_registered(
            live,
            provider,
            model,
        ),
{
    lemma_names_differ();
    let after = merged(live, profile)->0;
    law_merge_touches_only_the_profile(live, profile);
    lemma_agree_get(live, after, profile_sections(), MANAGED_REGISTRY_ROOT@);
    lemma_found(live, provider, model);
    let p = |n: Seq<char>| registered_source(live, n) == Some((provider, model)) && has_model(live, n);
    let q = |n: Seq<char>|
        registered_source(after, n) == Some((provider, model)) && has_model(after, n);
    let names = registry_names(live);
    assert forall|i: int| 0 <= i < names.len() implies p(#[trigger] names[i]) == q(names[i]) by {
        let name = names[i];
        if registered_source(live, name) is Some {
            assert(is_managed(live, name));
            assert(after.at("model"@, name) == live.at("model"@, name));
        }
    }
    lemma_first_where_same(names, p, q);
    lemma_first_where_holds(names, p);
    let by_marker = |name: Seq<char>|
        match live.at("model"@, name) {
            Some(node) => marker_names(node, provider, model),
            None => false,
        };
    lemma_first_where_holds(model_names(live), by_marker);
    if first_where(names, p) is None {
        let name = find_registered(live, provider, model)->0;
        assert(is_marked(live, name));
    }
}

} // verus!
