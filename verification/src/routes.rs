//! Routing the roles of subagents, to models of the active provider and to
//! copies of models of others.
use vstd::prelude::*;
use vstd::string::*;
use indexmap::IndexMap;
use toml_edit::{DocumentMut, Item};
use crate::edit::{item_text, lookup, lookup_text, put_under, remove_all_at, remove_at, remove_names};
use crate::error::{AppError, AppErrorView, Fault, FaultView};
use crate::provider::{
    find_provider, provider_map, route_view, routes_view, GrokSubagentRoute, Provider, ProviderMap,
    ProviderView, RouteView,
};
use crate::registry::{
    allocate_managed_model_id, allocated, collapsed, find_registered, find_registered_managed_id,
    has_model, is_managed, is_managed_cross_provider_model, list_owned_managed_model_names,
    marker_keys, migrate_legacy_inline_markers, migrated, model_exists, owned,
    remove_managed_registry_entries, strip_legacy_owner_fields, with_entry, without_entries,
    write_managed_registry_entry,
};
use crate::selection::{auth_api_key, auth_key, model_group, provider_config_doc, provider_doc};
use crate::text::{contains_name, lemma_names_of_push, lemma_push_contains, names_of, trimmed};
use crate::toml::{
    document_get, document_put, document_tree, item_get, item_names, item_put, item_tree, text_item,
};
use crate::tree::{Group, Node};

verus! {

// ---------------------------------------------------------------- the model

/// How far the routes have been followed: the configuration so far, the roles
/// with the models that they are routed to, and the copied models in use.
#[verifier::ext_equal]
pub struct RouteState {
    pub doc: Group,
    pub resolved: Seq<(Seq<char>, Seq<char>)>,
    pub kept: Set<Seq<char>>,
}

/// The provider that a route names; the active one where it names none.
pub open spec fn route_source(route: RouteView, active: ProviderView) -> Seq<char> {
    match route.provider_id {
        Some(id) => if trimmed(id).len() > 0 {
            trimmed(id)
        } else {
            active.id
        },
        None => active.id,
    }
}

/// The table of a model with the key of its provider, unless it has one, and
/// without the older markers of ownership.
pub open spec fn with_auth(model: Group, source: ProviderView) -> Group {
    let keyed = if model.get("api_key"@) is Some || model.get("env_key"@) is Some {
        model
    } else {
        match auth_key(source.settings) {
            Some(key) => model.put("api_key"@, Node::fresh_text(key)),
            None => model,
        }
    };
    keyed.without(marker_keys())
}

/// The copy of a model of another provider.
pub open spec fn copied_model(source: ProviderView, model_id: Seq<char>) -> Result<Group, AppErrorView> {
    match provider_doc(source) {
        Ok(doc) => match model_group(doc, model_id) {
            Some(model) => Ok(with_auth(model, source)),
            None => Err(AppErrorView::RouteModelMissing { provider_name: source.name, model_id }),
        },
        Err(error) => Err(error),
    }
}

/// The configuration with the copy of a model and its entry in the registry.
pub open spec fn with_copy(
    doc: Group,
    name: Seq<char>,
    model: Group,
    provider: Seq<char>,
    model_id: Seq<char>,
) -> Option<Group> {
    match doc.put_under("model"@, name, Node::Table(model)) {
        Some(doc) => with_entry(doc, name, provider, model_id),
        None => None,
    }
}

/// Following one route.
pub open spec fn route_step(
    state: RouteState,
    active: ProviderView,
    all: ProviderMap,
    route: RouteView,
) -> Result<RouteState, FaultView> {
    let role = trimmed(route.role);
    let model_id = trimmed(route.model_id);
    let source = route_source(route, active);
    if role.len() == 0 {
        Ok(state)
    } else if model_id.len() == 0 {
        Err(FaultView::Reported(AppErrorView::RouteModelIdEmpty { role }))
    } else if source == active.id {
        if has_model(state.doc, model_id) {
            Ok(RouteState { resolved: state.resolved.push((role, model_id)), ..state })
        } else {
            Err(FaultView::Reported(AppErrorView::RouteLocalModelMissing { role, model_id }))
        }
    } else if !all.contains_key(source) {
        match find_registered(state.doc, source, model_id) {
            Some(name) => Ok(
                RouteState {
                    doc: state.doc,
                    resolved: state.resolved.push((role, name)),
                    kept: state.kept.insert(name),
                },
            ),
            None => Err(
                FaultView::Reported(AppErrorView::RouteProviderMissing { role, provider_id: source }),
            ),
        }
    } else if all[source].is_official() {
        Err(FaultView::Reported(AppErrorView::RouteOfficialSource { role }))
    } else {
        match copied_model(all[source], model_id) {
            Ok(model) => {
                let name = allocated(state.doc, source, model_id);
                match with_copy(state.doc, name, model, source, model_id) {
                    Some(doc) => Ok(
                        RouteState {
                            doc,
                            resolved: state.resolved.push((role, name)),
                            kept: state.kept.insert(name),
                        },
                    ),
                    None => Err(FaultView::NotATable),
                }
            },
            Err(error) => Err(FaultView::Reported(error)),
        }
    }
}

/// Following some routes, one after the other.
pub open spec fn route_steps(
    state: RouteState,
    active: ProviderView,
    all: ProviderMap,
    routes: Seq<RouteView>,
) -> Result<RouteState, FaultView>
    decreases routes.len(),
{
    if routes.len() == 0 {
        Ok(state)
    } else {
        match route_steps(state, active, all, routes.drop_last()) {
            Ok(before) => route_step(before, active, all, routes.last()),
            Err(fault) => Err(fault),
        }
    }
}

/// How far following some routes gets: to their end, or to the first that cannot
/// be followed.
pub open spec fn route_progress(
    state: RouteState,
    active: ProviderView,
    all: ProviderMap,
    routes: Seq<RouteView>,
) -> RouteState
    decreases routes.len(),
{
    if routes.len() == 0 {
        state
    } else {
        match route_steps(state, active, all, routes) {
            Ok(end) => end,
            Err(_) => route_progress(state, active, all, routes.drop_last()),
        }
    }
}

/// The role has been routed.
pub open spec fn is_resolved(resolved: Seq<(Seq<char>, Seq<char>)>, role: Seq<char>) -> bool {
    exists|i: int| 0 <= i < resolved.len() && (#[trigger] resolved[i]).0 == role
}

/// The routes that the configuration has.
pub open spec fn live_routes(doc: Group) -> Group {
    match doc.at("subagents"@, "models"@) {
        Some(Node::Table(routes)) => routes,
        _ => Group::empty(),
    }
}

/// A role keeps the route that it has: it was not routed anew, and it does not
/// point to a copied model that is no longer in use.
pub open spec fn keeps_route(state: RouteState, role: Seq<char>) -> bool {
    &&& !is_resolved(state.resolved, role)
    &&& match live_routes(state.doc).text(role) {
        Some(name) => !is_managed(state.doc, name) || state.kept.contains(name),
        None => true,
    }
}

/// A new table with some fields of another.
pub open spec fn copied_fields(from: Group, names: Seq<Seq<char>>) -> Group
    decreases names.len(),
{
    if names.len() == 0 {
        Group::empty()
    } else {
        copied_fields(from, names.drop_last()).put(names.last(), from.get(names.last())->0)
    }
}

/// The table with some strings in it.
pub open spec fn with_texts(to: Group, pairs: Seq<(Seq<char>, Seq<char>)>) -> Group
    decreases pairs.len(),
{
    if pairs.len() == 0 {
        to
    } else {
        with_texts(to, pairs.drop_last()).put(pairs.last().0, Node::fresh_text(pairs.last().1))
    }
}

/// The routes once all have been followed.
pub open spec fn final_routes(state: RouteState) -> Group {
    let live = live_routes(state.doc);
    with_texts(
        copied_fields(live, live.names().filter(|role: Seq<char>| keeps_route(state, role))),
        state.resolved,
    )
}

/// The roles of a table of routes that point to one of the models.
pub open spec fn roles_to(routes: Node, names: Set<Seq<char>>) -> Set<Seq<char>> {
    Set::new(
        |role: Seq<char>| match routes.child(role) {
            Some(node) => match node.text() {
                Some(name) => names.contains(name),
                None => false,
            },
            None => false,
        },
    )
}

/// The configuration without the routes that point to one of the models.
pub open spec fn without_routes_to(doc: Group, names: Set<Seq<char>>) -> Group {
    match doc.get("subagents"@) {
        Some(subagents) => match subagents.child("models"@) {
            Some(routes) => if routes.is_table_like() {
                doc.put(
                    "subagents"@,
                    subagents.with_group(
                        subagents.group().put(
                            "models"@,
                            routes.with_group(routes.group().without(roles_to(routes, names))),
                        ),
                    ),
                )
            } else {
                doc
            },
            None => doc,
        },
        None => doc,
    }
}

/// The configuration without a selection that names one of the models.
pub open spec fn without_selection_of(doc: Group, key: Seq<char>, names: Set<Seq<char>>) -> Group {
    match doc.text_at("models"@, key) {
        Some(name) => if names.contains(name) {
            doc.without_at("models"@, set![key])
        } else {
            doc
        },
        None => doc,
    }
}

/// The configuration without some copied models: without their tables, their
/// entries in the registry, and a selection that names one of them.
pub open spec fn without_copies(doc: Group, stale: Set<Seq<char>>) -> Group {
    let unregistered = collapsed(without_entries(doc.without_at("model"@, stale), stale));
    without_selection_of(
        without_selection_of(unregistered, "default"@, stale),
        "web_search"@,
        stale,
    )
}

/// The configuration without the copied models that are not to be kept.
pub open spec fn cleaned(doc: Group, keep: Set<Seq<char>>) -> Group {
    let stale = owned(doc).difference(keep);
    if stale =~= Set::empty() {
        doc
    } else {
        without_copies(doc, stale)
    }
}

/// The configuration without any copied model, and without the routes to one.
pub open spec fn without_any_copy(doc: Group) -> Option<Group> {
    match migrated(doc) {
        Some(doc) => Some(cleaned(without_routes_to(doc, owned(doc)), Set::empty())),
        None => None,
    }
}

/// Nothing has been followed yet.
pub open spec fn route_start(doc: Group) -> RouteState {
    RouteState { doc, resolved: Seq::empty(), kept: Set::empty() }
}

/// What has been written by the time that a route is refused: the older markers
/// are moved, and the routes before it are followed.
pub open spec fn routed_until_refused(doc: Group, active: ProviderView, all: ProviderMap) -> Group {
    route_progress(route_start(migrated(doc)->0), active, all, active.routes).doc
}

/// The configuration with the routes of the active provider in it. Where it has
/// none, all copied models go.
pub open spec fn routed(doc: Group, active: ProviderView, all: ProviderMap) -> Result<Group, FaultView> {
    match migrated(doc) {
        Some(doc) => if active.routes.len() == 0 {
            match without_any_copy(doc) {
                Some(tree) => Ok(tree),
                None => Err(FaultView::NotATable),
            }
        } else {
            match route_steps(route_start(doc), active, all, active.routes) {
                Ok(state) => match state.doc.put_under(
                    "subagents"@,
                    "models"@,
                    Node::Table(final_routes(state)),
                ) {
                    Some(tree) => Ok(cleaned(tree, state.kept)),
                    None => Err(FaultView::NotATable),
                },
                Err(fault) => Err(fault),
            }
        },
        None => Err(FaultView::NotATable),
    }
}

// ------------------------------------------------------------------ cleaning

/// The roles of a table of routes that point to one of the models.
fn list_roles_to(routes: &Item, names: &Vec<String>) -> (r: Vec<String>)
    requires
        item_tree(*routes).is_table_like(),
    ensures
        names_of(r@).to_set() == roles_to(item_tree(*routes), names_of(names@).to_set()),
{
    let ghost node = item_tree(*routes);
    let ghost targets = names_of(names@).to_set();
    let all = item_names(routes);
    let ghost listed = names_of(all@);
    let mut found: Vec<String> = Vec::new();
    let mut i: usize = 0;
    while i < all.len()
        invariant
            i <= all.len(),
            node == item_tree(*routes),
            node.is_table_like(),
            targets == names_of(names@).to_set(),
            listed == names_of(all@),
            forall|role: Seq<char>| #[trigger]
                names_of(found@).contains(role) <==> listed.take(i as int).contains(role) && roles_to(
                    node,
                    targets,
                ).contains(role),
        decreases all.len() - i,
    {
        let role = all[i].as_str();
        let ghost before = names_of(found@);
        proof {
            assert(listed.take(i + 1) =~= listed.take(i as int).push(role@));
        }
        let points = match item_text(routes, role) {
            Some(name) => contains_name(names, name),
            None => false,
        };
        assert(points == roles_to(node, targets).contains(role@));
        if points {
            let copy = role.to_owned();
            proof {
                lemma_names_of_push(found@, copy);
            }
            found.push(copy);
        }
        proof {
            assert forall|n: Seq<char>| #[trigger]
                names_of(found@).contains(n) <==> listed.take(i + 1).contains(n) && roles_to(
                    node,
                    targets,
                ).contains(n) by {
                lemma_push_contains(listed.take(i as int), role@, n);
                lemma_push_contains(before, role@, n);
            }
        }
        i += 1;
    }
    proof {
        assert(listed.take(i as int) =~= listed);
        assert forall|role: Seq<char>| roles_to(node, targets).contains(role) implies #[trigger] listed.contains(
            role,
        ) by {
            assert(node.visits(role));
        }
        assert(names_of(found@).to_set() =~= roles_to(node, targets));
    }
    found
}

/// Removes the routes that point to one of the models.
pub fn remove_routes_to(document: &mut DocumentMut, names: &Vec<String>)
    ensures
        document_tree(*final(document)) == without_routes_to(
            document_tree(*old(document)),
            names_of(names@).to_set(),
        ),
{
    let found = match document_get(document, "subagents") {
        Some(subagents) => match item_get(subagents, "models") {
            Some(routes) => if routes.is_table_like() {
                Some((subagents.clone(), routes.clone()))
            } else {
                None
            },
            None => None,
        },
        None => None,
    };
    match found {
        Some((subagents, routes)) => {
            let mut subagents = subagents;
            let mut routes = routes;
            let stale = list_roles_to(&routes, names);
            remove_names(&mut routes, &stale);
            item_put(&mut subagents, "models", routes);
            document_put(document, "subagents", subagents);
        },
        None => {},
    }
}

/// Removes a selection that names one of the models.
pub fn remove_selection_of(document: &mut DocumentMut, key: &str, names: &Vec<String>)
    ensures
        document_tree(*final(document)) == without_selection_of(
            document_tree(*old(document)),
            key@,
            names_of(names@).to_set(),
        ),
{
    let names_one = match lookup_text(document, "models", key) {
        Some(name) => contains_name(names, name),
        None => false,
    };
    if names_one {
        remove_at(document, "models", key);
    }
}

/// Removes the copied models that are not to be kept, and nothing that is not
/// recorded as one.
pub fn cleanup_managed_models(document: &mut DocumentMut, keep: &Vec<String>)
    ensures
        document_tree(*final(document)) == cleaned(
            document_tree(*old(document)),
            names_of(keep@).to_set(),
        ),
{
    let ghost doc = document_tree(*document);
    let all = list_owned_managed_model_names(document);
    let stale = names_outside(&all, keep);
    proof {
        assert(names_of(stale@).to_set() == owned(doc).difference(names_of(keep@).to_set()));
    }
    if stale.len() == 0 {
        proof {
            assert(names_of(stale@) =~= Seq::empty());
            assert(names_of(stale@).to_set() =~= Set::empty());
        }
        return;
    }
    proof {
        assert(names_of(stale@)[0] == stale@[0]@);
        assert(names_of(stale@).to_set().contains(stale@[0]@));
    }
    remove_all_at(document, "model", &stale);
    remove_managed_registry_entries(document, &stale);
    remove_selection_of(document, "default", &stale);
    remove_selection_of(document, "web_search", &stale);
}

/// The names of one list that are not in another.
fn names_outside(all: &Vec<String>, keep: &Vec<String>) -> (r: Vec<String>)
    ensures
        names_of(r@).to_set() == names_of(all@).to_set().difference(names_of(keep@).to_set()),
{
    let ghost listed = names_of(all@);
    let mut found: Vec<String> = Vec::new();
    let mut i: usize = 0;
    while i < all.len()
        invariant
            i <= all.len(),
            listed == names_of(all@),
            forall|name: Seq<char>| #[trigger]
                names_of(found@).contains(name) <==> listed.take(i as int).contains(name) && !names_of(
                    keep@,
                ).contains(name),
        decreases all.len() - i,
    {
        let name = all[i].as_str();
        let ghost before = names_of(found@);
        proof {
            assert(listed.take(i + 1) =~= listed.take(i as int).push(name@));
        }
        if !contains_name(keep, name) {
            let copy = name.to_owned();
            proof {
                lemma_names_of_push(found@, copy);
            }
            found.push(copy);
        }
        proof {
            assert forall|n: Seq<char>| #[trigger]
                names_of(found@).contains(n) <==> listed.take(i + 1).contains(n) && !names_of(
                    keep@,
                ).contains(n) by {
                lemma_push_contains(listed.take(i as int), name@, n);
                lemma_push_contains(before, name@, n);
            }
        }
        i += 1;
    }
    proof {
        assert(listed.take(i as int) =~= listed);
        assert(names_of(found@).to_set() =~= names_of(all@).to_set().difference(names_of(keep@).to_set()));
    }
    found
}

/// Removes the routes of a configuration that point to copied models.
pub fn strip_live_routes_to_managed_models(document: &mut DocumentMut)
    ensures
        document_tree(*final(document)) == without_routes_to(
            document_tree(*old(document)),
            owned(document_tree(*old(document))),
        ),
{
    let all = list_owned_managed_model_names(document);
    remove_routes_to(document, &all);
}

/// Removes all copied models, and the routes that point to one. Where the
/// registry cannot be written, the answer is `false`.
pub fn cleanup_unreferenced_managed_models(document: &mut DocumentMut) -> (r: bool)
    ensures
        match without_any_copy(document_tree(*old(document))) {
            Some(tree) => r && document_tree(*final(document)) == tree,
            None => !r,
        },
{
    if !migrate_legacy_inline_markers(document) {
        return false;
    }
    strip_live_routes_to_managed_models(document);
    let none: Vec<String> = Vec::new();
    proof {
        assert(names_of(none@) =~= Seq::empty());
        assert(names_of(none@).to_set() =~= Set::empty());
    }
    cleanup_managed_models(document, &none);
    true
}

// ------------------------------------------------------------------- routing

/// The model of the roles and the models that they are routed to.
pub open spec fn pairs_of(pairs: Seq<(String, String)>) -> Seq<(Seq<char>, Seq<char>)> {
    pairs.map_values(|pair: (String, String)| (pair.0@, pair.1@))
}

/// How far the routes have been followed.
pub open spec fn state_of(
    document: DocumentMut,
    resolved: Seq<(String, String)>,
    kept: Seq<String>,
) -> RouteState {
    RouteState {
        doc: document_tree(document),
        resolved: pairs_of(resolved),
        kept: names_of(kept).to_set(),
    }
}

/// A model of a provider, as its own configuration defines it.
pub fn extract_model_table_from_provider(source: &Provider, model_id: &str) -> (r: Result<
    Item,
    AppError,
>)
    ensures
        match provider_doc(source@) {
            Ok(doc) => match model_group(doc, model_id@) {
                Some(model) => r is Ok && item_tree(r->Ok_0) == Node::Table(model),
                None => r is Err && r->Err_0@ == (AppErrorView::RouteModelMissing {
                    provider_name: source@.name,
                    model_id: model_id@,
                }),
            },
            Err(error) => r is Err && r->Err_0@ == error,
        },
{
    let document = match provider_config_doc(source) {
        Ok(document) => document,
        Err(error) => {
            return Err(error);
        },
    };
    match lookup(&document, "model", model_id) {
        Some(item) => if item.is_table() {
            return Ok(item.clone());
        },
        None => {},
    }
    Err(
        AppError::RouteModelMissing {
            provider_name: source.name.as_str().to_owned(),
            model_id: model_id.to_owned(),
        },
    )
}

/// Gives the table of a model the key of its provider, unless it has one, and
/// takes the older markers of ownership out of it.
pub fn inject_auth_into_model_table(table: &mut Item, source: &Provider)
    requires
        item_tree(*old(table)) is Table,
    ensures
        item_tree(*final(table)) == Node::Table(
            with_auth(item_tree(*old(table))->Table_0, source@),
        ),
{
    if item_get(table, "api_key").is_none() && item_get(table, "env_key").is_none() {
        match auth_api_key(&source.settings_config) {
            Some(key) => {
                item_put(table, "api_key", text_item(key.as_str()));
            },
            None => {},
        }
    }
    strip_legacy_owner_fields(table);
}

/// Writes the copy of a model and its entry in the registry.
fn write_copy(
    document: &mut DocumentMut,
    name: &str,
    model: Item,
    provider: &str,
    model_id: &str,
) -> (r: bool)
    requires
        item_tree(model) is Table,
    ensures
        match with_copy(
            document_tree(*old(document)),
            name@,
            item_tree(model)->Table_0,
            provider@,
            model_id@,
        ) {
            Some(tree) => r && document_tree(*final(document)) == tree,
            None => !r,
        },
{
    put_under(document, "model", name, model) && write_managed_registry_entry(
        document,
        name,
        provider,
        model_id,
    )
}

/// The provider that a route names; the active one where it names none.
fn source_of_route<'a>(route: &'a GrokSubagentRoute, active: &'a Provider, role: &String) -> (r: &'a str)
    ensures
        r@ == route_source(route_view((*role, *route)), active@),
{
    match &route.provider_id {
        Some(id) => {
            let id = id.as_str().trim();
            if id.is_empty() {
                active.id.as_str()
            } else {
                id
            }
        },
        None => active.id.as_str(),
    }
}

/// Adds a role to those that have been routed.
proof fn lemma_pairs_push(pairs: Seq<(String, String)>, role: String, name: String)
    ensures
        pairs_of(pairs.push((role, name))) == pairs_of(pairs).push((role@, name@)),
{
    assert(pairs_of(pairs.push((role, name))) =~= pairs_of(pairs).push((role@, name@)));
}

/// Adds a name to those that are kept.
proof fn lemma_kept_push(kept: Seq<String>, name: String)
    ensures
        names_of(kept.push(name)).to_set() == names_of(kept).to_set().insert(name@),
{
    lemma_names_of_push(kept, name);
    assert forall|n: Seq<char>| #[trigger]
        names_of(kept.push(name)).to_set().contains(n) <==> names_of(kept).to_set().insert(
            name@,
        ).contains(n) by {
        lemma_push_contains(names_of(kept), name@, n);
    }
    assert(names_of(kept.push(name)).to_set() =~= names_of(kept).to_set().insert(name@));
}

/// Follows one route.
fn follow_route(
    document: &mut DocumentMut,
    resolved: &mut Vec<(String, String)>,
    kept: &mut Vec<String>,
    active: &Provider,
    all_providers: &IndexMap<String, Provider>,
    entry: &(String, GrokSubagentRoute),
) -> (r: Result<(), Fault>)
    ensures
        match route_step(
            state_of(*old(document), old(resolved)@, old(kept)@),
            active@,
            provider_map(*all_providers),
            route_view(*entry),
        ) {
            Ok(state) => r is Ok && state_of(*final(document), final(resolved)@, final(kept)@) == state,
            Err(fault) => r is Err && r->Err_0@ == fault && (fault is Reported ==> document_tree(
                *final(document),
            ) == document_tree(*old(document))),
        },
{
    let role = entry.0.as_str().trim();
    if role.is_empty() {
        return Ok(());
    }
    let model_id = entry.1.model_id.as_str().trim();
    if model_id.is_empty() {
        return Err(Fault::Reported(AppError::RouteModelIdEmpty { role: role.to_owned() }));
    }
    let source_id = source_of_route(&entry.1, active, &entry.0);
    if str::eq(source_id, active.id.as_str()) {
        if !model_exists(document, model_id) {
            return Err(
                Fault::Reported(
                    AppError::RouteLocalModelMissing {
                        role: role.to_owned(),
                        model_id: model_id.to_owned(),
                    },
                ),
            );
        }
        let pair = (role.to_owned(), model_id.to_owned());
        proof {
            lemma_pairs_push(resolved@, pair.0, pair.1);
        }
        resolved.push(pair);
        return Ok(());
    }
    match find_provider(all_providers, source_id) {
        None => match find_registered_managed_id(document, source_id, model_id) {
            Some(name) => {
                let pair = (role.to_owned(), name.as_str().to_owned());
                proof {
                    lemma_pairs_push(resolved@, pair.0, pair.1);
                    lemma_kept_push(kept@, name);
                }
                resolved.push(pair);
                kept.push(name);
                Ok(())
            },
            None => Err(
                Fault::Reported(
                    AppError::RouteProviderMissing {
                        role: role.to_owned(),
                        provider_id: source_id.to_owned(),
                    },
                ),
            ),
        },
        Some(source) => {
            if source.is_official() {
                return Err(Fault::Reported(AppError::RouteOfficialSource { role: role.to_owned() }));
            }
            let mut model = match extract_model_table_from_provider(source, model_id) {
                Ok(model) => model,
                Err(error) => {
                    return Err(Fault::Reported(error));
                },
            };
            inject_auth_into_model_table(&mut model, source);
            let name = allocate_managed_model_id(document, source_id, model_id);
            if !write_copy(document, name.as_str(), model, source_id, model_id) {
                return Err(Fault::NotATable);
            }
            let pair = (role.to_owned(), name.as_str().to_owned());
            proof {
                lemma_pairs_push(resolved@, pair.0, pair.1);
                lemma_kept_push(kept@, name);
            }
            resolved.push(pair);
            kept.push(name);
            Ok(())
        },
    }
}

/// Whether the role has been routed.
fn has_role(resolved: &Vec<(String, String)>, role: &str) -> (r: bool)
    ensures
        r == is_resolved(pairs_of(resolved@), role@),
{
    let ghost pairs = pairs_of(resolved@);
    let mut i: usize = 0;
    while i < resolved.len()
        invariant
            i <= resolved.len(),
            pairs == pairs_of(resolved@),
            forall|j: int| 0 <= j < i ==> (#[trigger] pairs[j]).0 != role@,
        decreases resolved.len() - i,
    {
        assert(pairs[i as int].0 == resolved@[i as int].0@);
        if str::eq(resolved[i].0.as_str(), role) {
            return true;
        }
        i += 1;
    }
    false
}

/// Whether a role keeps the route that it has.
fn role_keeps_route(
    document: &DocumentMut,
    routes: &Item,
    resolved: &Vec<(String, String)>,
    kept: &Vec<String>,
    role: &str,
) -> (r: bool)
    requires
        item_tree(*routes) == Node::Table(live_routes(document_tree(*document))),
    ensures
        r == keeps_route(state_of(*document, resolved@, kept@), role@),
{
    if has_role(resolved, role) {
        return false;
    }
    match item_text(routes, role) {
        Some(name) => !is_managed_cross_provider_model(document, name) || contains_name(kept, name),
        None => true,
    }
}

/// The routes once all have been followed.
fn final_routes_table(
    document: &DocumentMut,
    resolved: &Vec<(String, String)>,
    kept: &Vec<String>,
) -> (r: Item)
    ensures
        item_tree(r) == Node::Table(final_routes(state_of(*document, resolved@, kept@))),
{
    let ghost state = state_of(*document, resolved@, kept@);
    let ghost live = live_routes(state.doc);
    let ghost keeps = |role: Seq<char>| keeps_route(state, role);
    let mut table = toml_edit::table();
    let routes = match lookup(document, "subagents", "models") {
        Some(item) => if item.is_table() {
            Some(item)
        } else {
            None
        },
        None => None,
    };
    match routes {
        Some(routes) => {
            let names = item_names(routes);
            let ghost listed = names_of(names@);
            let mut i: usize = 0;
            proof {
                assert(listed.take(0) =~= Seq::empty());
                assert(listed.take(0).filter(keeps) =~= Seq::empty()) by {
                    reveal(Seq::filter);
                }
            }
            while i < names.len()
                invariant
                    i <= names.len(),
                    state == state_of(*document, resolved@, kept@),
                    live == live_routes(state.doc),
                    keeps == (|role: Seq<char>| keeps_route(state, role)),
                    item_tree(*routes) == Node::Table(live),
                    listed == names_of(names@),
                    listed == live.names(),
                    forall|name: Seq<char>| #[trigger]
                        listed.contains(name) <==> item_tree(*routes).visits(name),
                    item_tree(table) == Node::Table(
                        copied_fields(live, listed.take(i as int).filter(keeps)),
                    ),
                decreases names.len() - i,
            {
                let role = names[i].as_str();
                proof {
                    let next = listed.take(i + 1);
                    assert(next.drop_last() =~= listed.take(i as int));
                    assert(next.last() == role@);
                    assert(listed[i as int] == role@);
                    assert(listed.contains(role@));
                    lemma_filter_push(listed.take(i as int), role@, keeps);
                    assert(next =~= listed.take(i as int).push(role@));
                    let before = listed.take(i as int).filter(keeps);
                    assert(before.push(role@).drop_last() =~= before);
                }
                if role_keeps_route(document, routes, resolved, kept, role) {
                    match item_get(routes, role) {
                        Some(item) => {
                            item_put(&mut table, role, item.clone());
                        },
                        None => {},
                    }
                }
                i += 1;
            }
            assert(listed.take(i as int) =~= listed);
        },
        None => {
            proof {
                assert(live.names() =~= Seq::empty()) by {
                    reveal(Seq::filter);
                }
                assert(live.names().filter(keeps) =~= Seq::empty()) by {
                    reveal(Seq::filter);
                }
            }
        },
    }
    let ghost base = item_tree(table)->Table_0;
    let ghost pairs = pairs_of(resolved@);
    let mut k: usize = 0;
    assert(pairs.take(0) =~= Seq::empty());
    while k < resolved.len()
        invariant
            k <= resolved.len(),
            pairs == pairs_of(resolved@),
            item_tree(table) == Node::Table(with_texts(base, pairs.take(k as int))),
        decreases resolved.len() - k,
    {
        proof {
            let next = pairs.take(k + 1);
            assert(next.drop_last() =~= pairs.take(k as int));
            assert(next.last() == pairs[k as int]);
        }
        item_put(&mut table, resolved[k].0.as_str(), text_item(resolved[k].1.as_str()));
        k += 1;
    }
    assert(pairs.take(k as int) =~= pairs);
    table
}

/// Filtering a list with one more name.
proof fn lemma_filter_push(s: Seq<Seq<char>>, x: Seq<char>, p: spec_fn(Seq<char>) -> bool)
    ensures
        s.push(x).filter(p) == if p(x) {
            s.filter(p).push(x)
        } else {
            s.filter(p)
        },
{
    reveal(Seq::filter);
    assert(s.push(x).drop_last() =~= s);
}

/// Once a route could not be followed, none behind it is.
pub proof fn lemma_route_steps_err(
    state: RouteState,
    active: ProviderView,
    all: ProviderMap,
    routes: Seq<RouteView>,
    i: int,
)
    requires
        0 <= i <= routes.len(),
        route_steps(state, active, all, routes.take(i)) is Err,
    ensures
        route_steps(state, active, all, routes) == route_steps(state, active, all, routes.take(i)),
    decreases routes.len() - i,
{
    if i < routes.len() {
        assert(routes.take(i + 1).drop_last() =~= routes.take(i));
        lemma_route_steps_err(state, active, all, routes, i + 1);
    } else {
        assert(routes.take(i) =~= routes);
    }
}

/// Following routes gets to the first that cannot be followed.
proof fn lemma_progress(
    state: RouteState,
    active: ProviderView,
    all: ProviderMap,
    routes: Seq<RouteView>,
    i: int,
)
    requires
        0 <= i < routes.len(),
        route_steps(state, active, all, routes.take(i)) is Ok,
        route_steps(state, active, all, routes.take(i + 1)) is Err,
    ensures
        route_progress(state, active, all, routes) == route_steps(
            state,
            active,
            all,
            routes.take(i),
        )->Ok_0,
    decreases routes.len() - i,
{
    lemma_route_steps_err(state, active, all, routes, i + 1);
    if i + 1 < routes.len() {
        let rest = routes.drop_last();
        assert(rest.take(i) =~= routes.take(i));
        assert(rest.take(i + 1) =~= routes.take(i + 1));
        lemma_progress(state, active, all, rest, i);
    } else {
        reveal_with_fuel(route_progress, 2);
        assert(routes.drop_last() =~= routes.take(i));
    }
}

/// Puts the routes of the active provider into a configuration.
///
/// A route to a model of the active provider takes it as it is. A route to a
/// model of another provider takes a copy, which the registry records. Where
/// that provider is not at hand, a copy that is there already is taken; there
/// is no fall back to a model of the active provider. Where a route is refused,
/// those before it are in the configuration.
pub fn apply_subagent_routes(
    document: &mut DocumentMut,
    active: &Provider,
    all_providers: &IndexMap<String, Provider>,
) -> (r: Result<(), Fault>)
    ensures
        match routed(document_tree(*old(document)), active@, provider_map(*all_providers)) {
            Ok(tree) => r is Ok && document_tree(*final(document)) == tree,
            Err(fault) => r is Err && r->Err_0@ == fault && (fault is Reported ==> document_tree(
                *final(document),
            ) == routed_until_refused(
                document_tree(*old(document)),
                active@,
                provider_map(*all_providers),
            )),
        },
{
    if !migrate_legacy_inline_markers(document) {
        return Err(Fault::NotATable);
    }
    let routes = match &active.meta {
        Some(meta) => &meta.grok_subagent_routes,
        None => {
            return if cleanup_unreferenced_managed_models(document) {
                Ok(())
            } else {
                Err(Fault::NotATable)
            };
        },
    };
    let ghost views = routes_view(routes@);
    if routes.len() == 0 {
        return if cleanup_unreferenced_managed_models(document) {
            Ok(())
        } else {
            Err(Fault::NotATable)
        };
    }
    let ghost before = document_tree(*old(document));
    let ghost all = provider_map(*all_providers);
    let ghost start = route_start(document_tree(*document));
    let mut resolved: Vec<(String, String)> = Vec::new();
    let mut kept: Vec<String> = Vec::new();
    let mut i: usize = 0;
    proof {
        assert(views.take(0) =~= Seq::empty());
        assert(pairs_of(resolved@) =~= Seq::empty());
        assert(names_of(kept@) =~= Seq::empty());
        assert(names_of(kept@).to_set() =~= Set::empty());
    }
    while i < routes.len()
        invariant
            i <= routes.len(),
            before == document_tree(*old(document)),
            all == provider_map(*all_providers),
            views == routes_view(routes@),
            views == active@.routes,
            views.len() > 0,
            migrated(before) is Some,
            start == route_start(migrated(before)->0),
            route_steps(start, active@, all, views.take(i as int)) == Ok::<RouteState, FaultView>(
                state_of(*document, resolved@, kept@),
            ),
        decreases routes.len() - i,
    {
        proof {
            let next = views.take(i + 1);
            assert(next.drop_last() =~= views.take(i as int));
            assert(next.last() == route_view(routes@[i as int]));
        }
        match follow_route(
            document,
            &mut resolved,
            &mut kept,
            active,
            all_providers,
            &routes[i],
        ) {
            Ok(_) => {},
            Err(fault) => {
                proof {
                    lemma_route_steps_err(start, active@, all, views, i + 1);
                    lemma_progress(start, active@, all, views, i as int);
                }
                return Err(fault);
            },
        }
        i += 1;
    }
    assert(views.take(i as int) =~= views);
    let table = final_routes_table(document, &resolved, &kept);
    if !put_under(document, "subagents", "models", table) {
        return Err(Fault::NotATable);
    }
    cleanup_managed_models(document, &kept);
    Ok(())
}

} // verus!
