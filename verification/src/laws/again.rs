//! Following the same routes a second time changes nothing.
use vstd::prelude::*;
use crate::error::FaultView;
use crate::laws::cleanup::law_cleanup_removes_only_owned_models;
use crate::laws::frame::{
    agree_outside, lemma_agree_get, lemma_agree_put, lemma_agree_trans, lemma_names_differ,
    lemma_put_at_same, lemma_put_same,
};
use crate::laws::registry::{
    law_copy_is_found_again, law_copy_is_written_and_registered, law_migration_is_needed_once,
    law_migration_moves_every_marker, models_are_sound, registry_is_sound,
};
use crate::laws::routes::{
    has_a_role, keeps_its_name, law_only_copies_in_use_are_left,
    law_without_routes_no_copy_is_left, lemma_copied_fields, lemma_copy_holds, lemma_copy_step,
    lemma_found, lemma_local_model_stays, lemma_route_trimmed, lemma_routed, lemma_states,
    state_after, target_of,
};
use crate::provider::{ProviderMap, ProviderView};
use crate::registry::{
    allocated, collapsed, entry_node, find_registered, has_model, is_managed, is_marked,
    is_registered, marker_names, migrated, model_names, models, owned, registered_source,
    registry, registry_names, without_entries, MANAGED_REGISTRY_ROOT, MANAGED_REGISTRY_TABLE,
};
use crate::routes::{
    cleaned, copied_fields, copied_model, final_routes, is_resolved, keeps_route, live_routes,
    roles_to, route_source, route_start, route_step, route_steps, routed, with_copy, with_texts,
    without_any_copy, without_routes_to, without_selection_of, RouteState,
};
use crate::text::{lemma_push_contains, trimmed};
use crate::tree::{
    first_where, lemma_filter_all, lemma_filter_no_duplicates, lemma_filter_same,
    lemma_filter_subset, lemma_first_where_at, lemma_first_where_filter, lemma_first_where_found,
    lemma_first_where_holds, lemma_names, lemma_without_none, lemma_without_well_formed, Group,
    Node,
};

verus! {

// ------------------------------------------------------------- finding a copy

/// The entries of the registry; none where there is no registry.
pub open spec fn entries_of(doc: Group) -> Group {
    match registry(doc) {
        Some(entries) => entries,
        None => Group::empty(),
    }
}

/// The registry gives this source for the name, and the model is there.
pub open spec fn is_copy_of(
    doc: Group,
    provider: Seq<char>,
    model: Seq<char>,
) -> spec_fn(Seq<char>) -> bool {
    |name: Seq<char>|
        registered_source(doc, name) == Some((provider, model)) && has_model(doc, name)
}

/// Without older markers, what is found is the first entry with that source
/// whose model is there.
proof fn lemma_find_is_first(doc: Group, provider: Seq<char>, model: Seq<char>)
    requires
        forall|name: Seq<char>| !#[trigger] is_marked(doc, name),
    ensures
        find_registered(doc, provider, model) == first_where(
            entries_of(doc).order,
            is_copy_of(doc, provider, model),
        ),
{
    let p = is_copy_of(doc, provider, model);
    let by_entry = |name: Seq<char>|
        registered_source(doc, name) == Some((provider, model)) && has_model(doc, name);
    let by_marker = |name: Seq<char>|
        match doc.at("model"@, name) {
            Some(node) => marker_names(node, provider, model),
            None => false,
        };
    assert(p =~= by_entry);
    let entries = entries_of(doc);
    let f = |name: Seq<char>| entries.get(name) is Some;
    assert forall|x: Seq<char>| #[trigger] p(x) implies f(x) by {}
    lemma_first_where_filter(entries.order, f, p);
    lemma_first_where_holds(model_names(doc), by_marker);
    if first_where(registry_names(doc), p) is None {
        match first_where(model_names(doc), by_marker) {
            Some(name) => {
                assert(is_marked(doc, name));
            },
            None => {},
        }
    }
}

/// What is found depends on the registry and the models alone.
proof fn lemma_find_frame(a: Group, b: Group, provider: Seq<char>, model: Seq<char>)
    requires
        forall|name: Seq<char>| !#[trigger] is_marked(a, name),
        a.get(MANAGED_REGISTRY_ROOT@) == b.get(MANAGED_REGISTRY_ROOT@),
        a.get("model"@) == b.get("model"@),
    ensures
        find_registered(a, provider, model) == find_registered(b, provider, model),
{
    assert forall|name: Seq<char>| !#[trigger] is_marked(b, name) by {
        assert(!is_marked(a, name));
    }
    lemma_find_is_first(a, provider, model);
    lemma_find_is_first(b, provider, model);
    assert(is_copy_of(a, provider, model) =~= is_copy_of(b, provider, model));
}

/// A copy is one more entry.
proof fn lemma_copy_entries(
    doc: Group,
    name: Seq<char>,
    model: Group,
    provider: Seq<char>,
    model_id: Seq<char>,
)
    requires
        with_copy(doc, name, model, provider, model_id) is Some,
        registry_is_sound(doc),
    ensures
        ({
            let after = with_copy(doc, name, model, provider, model_id)->0;
            &&& registry(after) is Some
            &&& entries_of(after) == entries_of(doc).put(name, entry_node(provider, model_id))
        }),
{
    lemma_names_differ();
    let placed = doc.put_under("model"@, name, Node::Table(model))->0;
    assert(placed.get(MANAGED_REGISTRY_ROOT@) == doc.get(MANAGED_REGISTRY_ROOT@));
}

/// Writing a copy of one model leaves the copy of another to be found as before.
proof fn lemma_find_stays(
    doc: Group,
    name: Seq<char>,
    model: Group,
    provider: Seq<char>,
    model_id: Seq<char>,
    other_provider: Seq<char>,
    other_model: Seq<char>,
)
    requires
        with_copy(doc, name, model, provider, model_id) is Some,
        registry_is_sound(doc),
        trimmed(provider) == provider,
        trimmed(model_id) == model_id,
        provider.len() > 0,
        model_id.len() > 0,
        forall|n: Seq<char>| !#[trigger] is_marked(doc, n),
        forall|n: Seq<char>| !#[trigger] is_marked(
            with_copy(doc, name, model, provider, model_id)->0,
            n,
        ),
        (provider, model_id) != (other_provider, other_model),
        find_registered(doc, other_provider, other_model) is Some,
        find_registered(doc, other_provider, other_model) != Some(name),
    ensures
        find_registered(
            with_copy(doc, name, model, provider, model_id)->0,
            other_provider,
            other_model,
        ) == find_registered(doc, other_provider, other_model),
{
    let after = with_copy(doc, name, model, provider, model_id)->0;
    let p = is_copy_of(doc, other_provider, other_model);
    let q = is_copy_of(after, other_provider, other_model);
    lemma_find_is_first(doc, other_provider, other_model);
    lemma_find_is_first(after, other_provider, other_model);
    law_copy_is_written_and_registered(doc, name, model, provider, model_id);
    lemma_copy_entries(doc, name, model, provider, model_id);
    let before_order = entries_of(doc).order;
    let after_order = entries_of(after).order;
    let k = lemma_first_where_at(before_order, p);
    assert forall|n: Seq<char>| n != name implies #[trigger] p(n) == q(n) by {
        assert(registered_source(after, n) == registered_source(doc, n));
        assert(after.at("model"@, n) == doc.at("model"@, n));
    }
    assert(!q(name));
    assert(after_order[k] == before_order[k]);
    assert(p(before_order[k]) == q(before_order[k]));
    assert forall|j: int| 0 <= j < k implies !q(#[trigger] after_order[j]) by {
        assert(after_order[j] == before_order[j]);
        if after_order[j] != name {
            assert(p(after_order[j]) == q(after_order[j]));
        }
    }
    lemma_first_where_found(after_order, q, k);
}

/// The entries that are left once copies are removed, where one of them is kept.
proof fn lemma_cleaned_entries(doc: Group, keep: Set<Seq<char>>, name: Seq<char>)
    requires
        registry_is_sound(doc),
        is_registered(doc, name),
        keep.contains(name),
    ensures
        registry(cleaned(doc, keep)) is Some,
        entries_of(cleaned(doc, keep)) == entries_of(doc).without(owned(doc).difference(keep)),
{
    lemma_names_differ();
    let stale = owned(doc).difference(keep);
    let after = cleaned(doc, keep);
    if stale =~= Set::empty() {
        lemma_without_none(entries_of(doc));
    } else {
        let a = doc.without_at("model"@, stale);
        let fewer = without_entries(a, stale);
        let b = collapsed(fewer);
        assert(a.get(MANAGED_REGISTRY_ROOT@) == doc.get(MANAGED_REGISTRY_ROOT@));
        let root = doc.get(MANAGED_REGISTRY_ROOT@)->0.group();
        let entries = entries_of(doc);
        let rest = entries.without(stale);
        lemma_without_well_formed(entries, stale);
        assert(!stale.contains(name));
        assert(rest.get(name) is Some);
        assert(rest.order.contains(name) <==> rest.fields.contains_key(name));
        lemma_names(rest, name);
        assert(rest.names().len() > 0);
        assert(fewer.at(MANAGED_REGISTRY_ROOT@, MANAGED_REGISTRY_TABLE@) == Some(Node::Table(rest)));
        let kept_root = root.put(MANAGED_REGISTRY_TABLE@, Node::Table(rest));
        assert(fewer.get(MANAGED_REGISTRY_ROOT@) == Some(Node::Table(kept_root)));
        assert(kept_root.order.contains(MANAGED_REGISTRY_TABLE@)) by {
            assert(root.order.contains(MANAGED_REGISTRY_TABLE@) <==> root.fields.contains_key(
                MANAGED_REGISTRY_TABLE@,
            ));
        }
        lemma_names(kept_root, MANAGED_REGISTRY_TABLE@);
        assert(kept_root.names().len() > 0);
        assert(b == fewer);
        let c = without_selection_of(b, "default"@, stale);
        assert(c.get(MANAGED_REGISTRY_ROOT@) == b.get(MANAGED_REGISTRY_ROOT@));
        assert(after.get(MANAGED_REGISTRY_ROOT@) == c.get(MANAGED_REGISTRY_ROOT@));
    }
}

/// A copy that is kept is found as before once others are removed.
proof fn lemma_find_survives_cleanup(
    doc: Group,
    keep: Set<Seq<char>>,
    provider: Seq<char>,
    model: Seq<char>,
)
    requires
        registry_is_sound(doc),
        forall|n: Seq<char>| !#[trigger] is_marked(doc, n),
        find_registered(doc, provider, model) is Some,
        keep.contains(find_registered(doc, provider, model)->0),
    ensures
        find_registered(cleaned(doc, keep), provider, model) == find_registered(doc, provider, model),
{
    let name = find_registered(doc, provider, model)->0;
    let after = cleaned(doc, keep);
    let stale = owned(doc).difference(keep);
    lemma_found(doc, provider, model);
    law_cleanup_removes_only_owned_models(doc, keep);
    lemma_cleaned_entries(doc, keep, name);
    assert forall|n: Seq<char>| !#[trigger] is_marked(after, n) by {
        assert(!is_marked(doc, n));
        assert(after.at("model"@, n) == if stale.contains(n) {
            None
        } else {
            doc.at("model"@, n)
        });
    }
    lemma_find_is_first(doc, provider, model);
    lemma_find_is_first(after, provider, model);
    let p = is_copy_of(doc, provider, model);
    let q = is_copy_of(after, provider, model);
    let order = entries_of(doc).order;
    let f = |n: Seq<char>| !stale.contains(n);
    assert forall|n: Seq<char>| #[trigger] q(n) implies f(n) && p(n) by {
        assert(registered_source(after, n) == if stale.contains(n) {
            None
        } else {
            registered_source(doc, n)
        });
        assert(after.at("model"@, n) == if stale.contains(n) {
            None
        } else {
            doc.at("model"@, n)
        });
    }
    lemma_first_where_filter(order, f, q);
    let k = lemma_first_where_at(order, p);
    assert(!stale.contains(name));
    assert(registered_source(after, name) == registered_source(doc, name));
    assert(after.at("model"@, name) == doc.at("model"@, name));
    assert(q(order[k]));
    assert forall|j: int| 0 <= j < k implies !q(#[trigger] order[j]) by {
        assert(!p(order[j]));
    }
    lemma_first_where_found(order, q, k);
}

// ------------------------------------------------------- the result once more

/// The copy that the `i`-th route was led to is found while later routes are
/// followed, and its entry stays as it was written.
proof fn lemma_find_holds(doc: Group, active: ProviderView, all: ProviderMap, i: int, j: int)
    requires
        routed(doc, active, all) is Ok,
        registry_is_sound(doc),
        models_are_sound(doc),
        0 <= i < j <= active.routes.len(),
        has_a_role(active.routes[i]),
        route_source(active.routes[i], active) != active.id,
        keeps_its_name(doc, active, all, i),
    ensures
        ({
            let state = state_after(doc, active, all, j);
            let name = target_of(doc, active, all, i);
            let source = route_source(active.routes[i], active);
            let model_id = trimmed(active.routes[i].model_id);
            &&& find_registered(state.doc, source, model_id) == Some(name)
            &&& all.contains_key(source) ==> entries_of(state.doc).get(name) == Some(
                entry_node(source, model_id),
            )
        }),
    decreases j - i,
{
    let start = migrated(doc)->0;
    let name = target_of(doc, active, all, i);
    let source = route_source(active.routes[i], active);
    let model_id = trimmed(active.routes[i].model_id);
    lemma_states(doc, active, all, j - 1);
    let before = state_after(doc, active, all, j - 1);
    let next = state_after(doc, active, all, j);
    let other = active.routes[j - 1];
    let other_source = route_source(other, active);
    let other_model = trimmed(other.model_id);
    if j > i + 1 {
        lemma_find_holds(doc, active, all, i, j - 1);
        lemma_copy_holds(doc, active, all, i, j - 1);
    }
    if has_a_role(other) && other_source != active.id && all.contains_key(other_source) {
        lemma_copy_step(start, before, active, all, other);
        lemma_route_trimmed(other, active);
        lemma_states(doc, active, all, j);
        let written = allocated(before.doc, other_source, other_model);
        let copy = copied_model(all[other_source], other_model)->Ok_0;
        lemma_copy_entries(before.doc, written, copy, other_source, other_model);
        if j == i + 1 || (other_source == source && other_model == model_id) {
            law_copy_is_found_again(before.doc, copy, other_source, other_model);
        } else {
            if find_registered(before.doc, other_source, other_model) is Some {
                lemma_found(before.doc, other_source, other_model);
            }
            assert(written != name);
            lemma_find_stays(
                before.doc,
                written,
                copy,
                other_source,
                other_model,
                source,
                model_id,
            );
        }
    }
}

/// Writing a copy that stands there already, with its entry, changes nothing.
proof fn lemma_copy_same(
    doc: Group,
    name: Seq<char>,
    model: Group,
    provider: Seq<char>,
    model_id: Seq<char>,
)
    requires
        registry_is_sound(doc),
        doc.at("model"@, name) == Some(Node::Table(model)),
        registry(doc) is Some,
        entries_of(doc).get(name) == Some(entry_node(provider, model_id)),
    ensures
        with_copy(doc, name, model, provider, model_id) == Some(doc),
{
    lemma_put_at_same(doc, "model"@, name);
    let root = doc.get(MANAGED_REGISTRY_ROOT@)->0;
    lemma_put_at_same(root.group(), MANAGED_REGISTRY_TABLE@, name);
    lemma_put_same(doc, MANAGED_REGISTRY_ROOT@);
}

/// The copy that a route was led to, in the result: it is found, and writing it
/// once more changes nothing.
proof fn lemma_copy_in_result(doc: Group, active: ProviderView, all: ProviderMap, i: int)
    requires
        routed(doc, active, all) is Ok,
        registry_is_sound(doc),
        models_are_sound(doc),
        0 <= i < active.routes.len(),
        has_a_role(active.routes[i]),
        route_source(active.routes[i], active) != active.id,
        keeps_its_name(doc, active, all, i),
    ensures
        ({
            let after = routed(doc, active, all)->Ok_0;
            let name = target_of(doc, active, all, i);
            let source = route_source(active.routes[i], active);
            let model_id = trimmed(active.routes[i].model_id);
            &&& find_registered(after, source, model_id) == Some(name)
            &&& all.contains_key(source) ==> copied_model(all[source], model_id) is Ok && with_copy(
                after,
                name,
                copied_model(all[source], model_id)->Ok_0,
                source,
                model_id,
            ) == Some(after)
        }),
{
    lemma_names_differ();
    let n = active.routes.len() as int;
    let state = state_after(doc, active, all, n);
    let after = routed(doc, active, all)->Ok_0;
    let name = target_of(doc, active, all, i);
    let source = route_source(active.routes[i], active);
    let model_id = trimmed(active.routes[i].model_id);
    lemma_states(doc, active, all, n);
    assert(active.routes.take(n) =~= active.routes);
    lemma_find_holds(doc, active, all, i, n);
    lemma_copy_holds(doc, active, all, i, n);
    lemma_routed(doc, active, all);
    let tree = state.doc.put_under("subagents"@, "models"@, Node::Table(final_routes(state)))->0;
    assert(tree.get(MANAGED_REGISTRY_ROOT@) == state.doc.get(MANAGED_REGISTRY_ROOT@));
    assert(tree.get("model"@) == state.doc.get("model"@));
    lemma_find_frame(state.doc, tree, source, model_id);
    assert forall|m: Seq<char>| !#[trigger] is_marked(tree, m) by {
        assert(!is_marked(state.doc, m));
    }
    lemma_find_survives_cleanup(tree, state.kept, source, model_id);
    assert(is_registered(tree, name));
    lemma_cleaned_entries(tree, state.kept, name);
    if all.contains_key(source) {
        let copy = copied_model(all[source], model_id)->Ok_0;
        assert(after.at("model"@, name) == state.doc.at("model"@, name));
        lemma_copy_same(after, name, copy, source, model_id);
    }
}

/// The conditions under which routing once more changes nothing: the names of
/// copies do not collide, and no route to the active provider names a copy.
pub open spec fn routes_are_settled(doc: Group, active: ProviderView, all: ProviderMap) -> bool {
    forall|i: int|
        0 <= i < active.routes.len() && has_a_role(#[trigger] active.routes[i]) ==> if route_source(
            active.routes[i],
            active,
        ) == active.id {
            !is_managed(doc, trimmed(active.routes[i].model_id))
        } else {
            keeps_its_name(doc, active, all, i)
        }
}

/// Following the first `j` routes in the result leads to the same names, and
/// leaves the result as it is.
proof fn lemma_steps_again(doc: Group, active: ProviderView, all: ProviderMap, j: int)
    requires
        routed(doc, active, all) is Ok,
        active.routes.len() > 0,
        registry_is_sound(doc),
        models_are_sound(doc),
        routes_are_settled(doc, active, all),
        0 <= j <= active.routes.len(),
    ensures
        ({
            let after = routed(doc, active, all)->Ok_0;
            let state = state_after(doc, active, all, j);
            route_steps(route_start(after), active, all, active.routes.take(j)) == Ok::<
                RouteState,
                FaultView,
            >(RouteState { doc: after, resolved: state.resolved, kept: state.kept })
        }),
    decreases j,
{
    let after = routed(doc, active, all)->Ok_0;
    let routes = active.routes;
    lemma_states(doc, active, all, j);
    if j == 0 {
        assert(routes.take(0) =~= Seq::empty());
    } else {
        let i = j - 1;
        let route = routes[i];
        lemma_states(doc, active, all, i);
        lemma_steps_again(doc, active, all, i);
        assert(routes.take(j).drop_last() =~= routes.take(i));
        assert(routes.take(j).last() == route);
        let first = state_after(doc, active, all, i);
        let next = state_after(doc, active, all, j);
        let second = RouteState { doc: after, resolved: first.resolved, kept: first.kept };
        let source = route_source(route, active);
        if has_a_role(route) {
            if source == active.id {
                lemma_local_model_stays(doc, active, all, i);
            } else {
                lemma_copy_in_result(doc, active, all, i);
            }
        }
        assert(route_step(second, active, all, route) == Ok::<RouteState, FaultView>(
            RouteState { doc: after, resolved: next.resolved, kept: next.kept },
        ));
    }
}

// ----------------------------------------------------------------- the routes

/// The fields that are copied stand in the order of their names.
proof fn lemma_copied_order(from: Group, names: Seq<Seq<char>>)
    requires
        names.no_duplicates(),
    ensures
        copied_fields(from, names).order == names,
        forall|n: Seq<char>| #[trigger]
            copied_fields(from, names).fields.contains_key(n) <==> names.contains(n),
    decreases names.len(),
{
    if names.len() > 0 {
        let some = names.drop_last();
        let last = names.last();
        assert(names =~= some.push(last));
        assert forall|a: int, b: int| 0 <= a < some.len() && 0 <= b < some.len() && a != b implies some[a]
            != some[b] by {
            assert(names[a] != names[b]);
        }
        lemma_copied_order(from, some);
        if some.contains(last) {
            let k = choose|k: int| 0 <= k < some.len() && some[k] == last;
            assert(names[k] == names[names.len() - 1]);
        }
        assert forall|n: Seq<char>| #[trigger]
            copied_fields(from, names).fields.contains_key(n) <==> names.contains(n) by {
            lemma_push_contains(some, last, n);
        }
    }
}

/// Fields that are the same in two tables are copied alike.
proof fn lemma_copied_same(a: Group, b: Group, names: Seq<Seq<char>>)
    requires
        forall|n: Seq<char>| #[trigger] names.contains(n) ==> a.get(n) == b.get(n),
    ensures
        copied_fields(a, names) == copied_fields(b, names),
    decreases names.len(),
{
    if names.len() > 0 {
        let some = names.drop_last();
        let last = names.last();
        assert(names =~= some.push(last));
        assert forall|n: Seq<char>| #[trigger] some.contains(n) implies a.get(n) == b.get(n) by {
            lemma_push_contains(some, last, n);
            assert(names.contains(n));
        }
        lemma_push_contains(some, last, last);
        assert(names.contains(last));
        lemma_copied_same(a, b, some);
    }
}

/// Every place of the table is taken by something.
spec fn is_full(g: Group) -> bool {
    forall|n: Seq<char>| #[trigger] g.order.contains(n) ==> g.get(n) is Some
}

/// Writing strings touches only their names, and leaves no place empty.
proof fn lemma_texts_touch(
    to: Group,
    pairs: Seq<(Seq<char>, Seq<char>)>,
    roles: Set<Seq<char>>,
)
    requires
        is_full(to),
        forall|r: Seq<char>| #[trigger] is_resolved(pairs, r) ==> roles.contains(r),
    ensures
        agree_outside(to, with_texts(to, pairs), roles),
        is_full(with_texts(to, pairs)),
    decreases pairs.len(),
{
    if pairs.len() > 0 {
        let some = pairs.drop_last();
        let (role, name) = pairs.last();
        assert forall|r: Seq<char>| #[trigger] is_resolved(some, r) implies roles.contains(r) by {
            let k = choose|k: int| 0 <= k < some.len() && (#[trigger] some[k]).0 == r;
            assert(pairs[k].0 == r);
            assert(is_resolved(pairs, r));
        }
        lemma_texts_touch(to, some, roles);
        assert(pairs[pairs.len() - 1].0 == role);
        assert(is_resolved(pairs, role));
        let before = with_texts(to, some);
        let node = Node::fresh_text(name);
        let after = before.put(role, node);
        lemma_agree_put(before, role, node, roles);
        lemma_agree_trans(to, before, after, roles);
        assert forall|n: Seq<char>| #[trigger] after.order.contains(n) implies after.get(n) is Some by {
            lemma_push_contains(before.order, role, n);
            if n != role {
                assert(before.order.contains(n));
            }
        }
    }
}

/// The routes of the result, once more.
proof fn lemma_routes_again(doc: Group, active: ProviderView, all: ProviderMap)
    requires
        routed(doc, active, all) is Ok,
        active.routes.len() > 0,
        registry_is_sound(doc),
        models_are_sound(doc),
        live_routes(doc).well_formed(),
    ensures
        ({
            let after = routed(doc, active, all)->Ok_0;
            let state = state_after(doc, active, all, active.routes.len() as int);
            let second = RouteState { doc: after, resolved: state.resolved, kept: state.kept };
            &&& final_routes(second) == final_routes(state)
            &&& after.at("subagents"@, "models"@) == Some(Node::Table(final_routes(state)))
        }),
{
    broadcast use vstd::seq_lib::group_filter_ensures;

    lemma_names_differ();
    let n = active.routes.len() as int;
    let after = routed(doc, active, all)->Ok_0;
    let start = migrated(doc)->0;
    let state = state_after(doc, active, all, n);
    let second = RouteState { doc: after, resolved: state.resolved, kept: state.kept };
    let two = set!["model"@, MANAGED_REGISTRY_ROOT@];
    assert(active.routes.take(n) =~= active.routes);
    lemma_states(doc, active, all, n);
    lemma_routed(doc, active, all);
    law_migration_moves_every_marker(doc);
    lemma_agree_get(doc, start, two, "subagents"@);
    lemma_agree_get(start, state.doc, two, "subagents"@);
    let live = live_routes(doc);
    assert(live_routes(state.doc) == live);
    let keeps = |r: Seq<char>| keeps_route(state, r);
    let keeps_again = |r: Seq<char>| keeps_route(second, r);
    let roles = Set::new(|r: Seq<char>| is_resolved(state.resolved, r));
    let other = |r: Seq<char>| !roles.contains(r);
    let kept = live.names().filter(keeps);
    let base = copied_fields(live, kept);
    let routes = final_routes(state);
    // the routes of the result
    let tree = state.doc.put_under("subagents"@, "models"@, Node::Table(routes))->0;
    law_cleanup_removes_only_owned_models(tree, state.kept);
    lemma_agree_get(
        tree,
        after,
        set!["model"@, "models"@, MANAGED_REGISTRY_ROOT@],
        "subagents"@,
    );
    assert(after.at("subagents"@, "models"@) == Some(Node::Table(routes)));
    assert(live_routes(after) == routes);
    // what was kept of the old ones
    lemma_filter_no_duplicates(live.order, |r: Seq<char>| live.get(r) is Some);
    lemma_filter_no_duplicates(live.names(), keeps);
    assert forall|r: Seq<char>| #[trigger] kept.contains(r) implies live.get(r) is Some && keeps(r) by {
        lemma_filter_subset(live.names(), keeps, r);
        lemma_names(live, r);
        let k = choose|k: int| 0 <= k < kept.len() && kept[k] == r;
        assert(keeps(live.names().filter(keeps)[k]));
    }
    lemma_copied_order(live, kept);
    assert forall|r: Seq<char>| #[trigger] base.order.contains(r) implies base.get(r) is Some by {
        lemma_copied_fields(live, kept, r);
    }
    lemma_texts_touch(base, state.resolved, roles);
    let there = |r: Seq<char>| routes.get(r) is Some;
    assert forall|j: int| 0 <= j < routes.order.len() implies there(#[trigger] routes.order[j]) by {
        assert(routes.order.contains(routes.order[j]));
    }
    lemma_filter_all(routes.order, there);
    assert(routes.names() == routes.order);
    // they are kept again
    assert forall|j: int| 0 <= j < routes.order.len() implies keeps_again(#[trigger] routes.order[j])
        == other(routes.order[j]) by {
        let r = routes.order[j];
        if other(r) {
            assert(there(r));
            lemma_agree_get(base, routes, roles, r);
            lemma_copied_fields(live, kept, r);
            assert(kept.contains(r));
            assert(keeps(r));
            match live.text(r) {
                Some(name) => {
                    if is_managed(after, name) && !state.kept.contains(name) {
                        assert(!is_managed(state.doc, name));
                        assert(!owned(state.doc).contains(name));
                        assert(after.at("model"@, name) == state.doc.at("model"@, name));
                        assert(!owned(after).contains(name));
                    }
                },
                None => {},
            }
        }
    }
    lemma_filter_same(routes.order, keeps_again, other);
    assert forall|j: int| 0 <= j < kept.len() implies other(#[trigger] kept[j]) by {
        assert(kept.contains(kept[j]));
    }
    lemma_filter_all(kept, other);
    assert(routes.order.filter(other) == base.order.filter(other));
    assert(routes.names().filter(keeps_again) == kept);
    assert forall|r: Seq<char>| #[trigger] kept.contains(r) implies routes.get(r) == live.get(r) by {
        lemma_copied_fields(live, kept, r);
        let k = choose|k: int| 0 <= k < kept.len() && kept[k] == r;
        assert(other(kept[k]));
        lemma_agree_get(base, routes, roles, r);
    }
    lemma_copied_same(routes, live, kept);
}

// -------------------------------------------------------------------- the law

/// Where nothing is kept for other providers, and no older marker is left, there
/// is nothing to remove.
pub proof fn lemma_nothing_to_remove(doc: Group)
    requires
        forall|name: Seq<char>| !#[trigger] is_marked(doc, name),
        owned(doc) == Set::<Seq<char>>::empty(),
    ensures
        without_any_copy(doc) == Some(doc),
{
    law_migration_is_needed_once(doc);
    lemma_no_routes_to_none(doc);
    assert(owned(doc).difference(Set::empty()) =~= Set::empty());
}

/// There are no routes to no model.
pub proof fn lemma_no_routes_to_none(doc: Group)
    ensures
        without_routes_to(doc, Set::empty()) == doc,
{
    match doc.get("subagents"@) {
        Some(subagents) => match subagents.child("models"@) {
            Some(routes) => {
                if routes.is_table_like() {
                    assert(roles_to(routes, Set::empty()) =~= Set::empty());
                    lemma_without_none(routes.group());
                    assert(routes.with_group(routes.group()) == routes);
                    lemma_put_same(subagents.group(), "models"@);
                    lemma_put_same(doc, "subagents"@);
                }
            },
            None => {},
        },
        None => {},
    }
}

/// Following the same routes in the result is good again, leads every role to
/// the same name, and leaves the whole result as it is: models, registry, routes
/// and all else.
pub proof fn law_routing_twice_is_routing_once(doc: Group, active: ProviderView, all: ProviderMap)
    requires
        routed(doc, active, all) is Ok,
        registry_is_sound(doc),
        models_are_sound(doc),
        live_routes(doc).well_formed(),
        routes_are_settled(doc, active, all),
    ensures
        ({
            let after = routed(doc, active, all)->Ok_0;
            &&& routed(after, active, all) == Ok::<Group, FaultView>(after)
            &&& forall|i: int|
                0 <= i < active.routes.len() ==> #[trigger] target_of(after, active, all, i)
                    == target_of(doc, active, all, i)
        }),
{
    let n = active.routes.len() as int;
    let after = routed(doc, active, all)->Ok_0;
    if n > 0 {
        let state = state_after(doc, active, all, n);
        law_only_copies_in_use_are_left(doc, active, all);
        law_migration_is_needed_once(after);
        lemma_steps_again(doc, active, all, n);
        assert(active.routes.take(n) =~= active.routes);
        lemma_routes_again(doc, active, all);
        lemma_put_at_same(after, "subagents"@, "models"@);
        assert(owned(after).difference(state.kept) =~= Set::empty());
        assert forall|i: int| 0 <= i < n implies #[trigger] target_of(after, active, all, i)
            == target_of(doc, active, all, i) by {
            lemma_steps_again(doc, active, all, i + 1);
        }
    } else {
        let start = migrated(doc)->0;
        law_migration_moves_every_marker(doc);
        law_migration_is_needed_once(start);
        law_without_routes_no_copy_is_left(start);
        assert forall|name: Seq<char>| !#[trigger] is_marked(after, name) by {
            assert(!owned(after).contains(name));
        }
        law_migration_is_needed_once(after);
        lemma_nothing_to_remove(after);
    }
}

} // verus!
