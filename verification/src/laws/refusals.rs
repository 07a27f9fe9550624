//! Which routes are followed, and how the others are refused.
use vstd::prelude::*;
use crate::error::{AppErrorView, FaultView};
use crate::laws::answers::{
    can_hold, can_hold_a_profile, can_register, law_markers_can_be_moved_to_a_table,
    law_profile_can_be_put_into_tables, law_some_model_is_selected, lemma_step_is_answered,
};
use crate::laws::frame::{agree_outside, lemma_agree_trans, lemma_names_differ};
use crate::laws::outside::{
    law_migration_touches_nothing_else, lemma_steps_outside, models_can_be_listed,
    registry_is_spared, user_is_spared,
};
use crate::laws::patch::written;
use crate::laws::registry::{
    law_migration_is_needed_once, lemma_beside_trans, models_are_sound, registry_is_sound,
};
use crate::laws::routes::{
    law_without_routes_no_copy_is_left, leads_elsewhere, lemma_copy_step, lemma_found,
    lemma_routed, lemma_states, state_after,
};
use crate::laws::switch::{
    lemma_switched_tree, lemma_written, lemma_written_can_be_listed, provider_reads_as, reads_as,
};
use crate::patch::{patched_model, patched_profile, patched_text, with_each_model, Overrides};
use crate::profile::merged;
use crate::provider::{ProviderMap, ProviderView, RouteView};
use crate::registry::{
    find_registered, has_model, is_managed, is_marked, is_taken, migrated, models, owned,
    registered_source, MANAGED_REGISTRY_ROOT,
};
use crate::routes::{
    copied_model, route_progress, route_source, route_start, route_step, route_steps, routed,
    routed_until_refused, RouteState,
};
use crate::selection::{provider_profile, selected_model};
use crate::text::{is_blank, trimmed};
use crate::toml::{toml_parse, toml_render};
use crate::tree::Group;

verus! {

/// A route that names a provider is one to that provider, whatever white space
/// stands around the name; one that names none, or a blank one, is one to the
/// active provider.
pub proof fn law_route_without_provider_is_one_to_the_active_provider(
    route: RouteView,
    active: ProviderView,
)
    ensures
        route.provider_id is None || is_blank(route.provider_id->0) ==> route_source(route, active)
            == active.id,
        route.provider_id is Some && !is_blank(route.provider_id->0) ==> route_source(route, active)
            == trimmed(route.provider_id->0),
{
}

/// The configuration of a provider has that model, under a header.
pub open spec fn defines(provider: ProviderView, model_id: Seq<char>) -> bool {
    &&& provider.settings.member_text("config"@) is Some
    &&& toml_parse(provider.settings.member_text("config"@)->0) is Ok
    &&& match toml_parse(provider.settings.member_text("config"@)->0)->Ok_0.at("model"@, model_id) {
        Some(node) => node is Table,
        None => false,
    }
}

/// A route with a blank role is passed over.
pub proof fn law_route_without_role_is_passed_over(
    state: RouteState,
    active: ProviderView,
    all: ProviderMap,
    route: RouteView,
)
    requires
        is_blank(route.role),
    ensures
        route_step(state, active, all, route) == Ok::<RouteState, FaultView>(state),
{
}

/// Each route that cannot be followed is refused with an error of its own: one
/// without a model, one to a model of the active provider that is not there, one
/// to the official account, one to a provider without a configuration or with a
/// bad one, one to a model that its provider does not define.
pub proof fn law_bad_route_is_refused(
    state: RouteState,
    active: ProviderView,
    all: ProviderMap,
    route: RouteView,
)
    requires
        !is_blank(route.role),
    ensures
        ({
            let role = trimmed(route.role);
            let model_id = trimmed(route.model_id);
            let source = route_source(route, active);
            let outcome = route_step(state, active, all, route);
            let config = all[source].settings.member_text("config"@);
            &&& model_id.len() == 0 ==> outcome == Err::<RouteState, FaultView>(
                FaultView::Reported(AppErrorView::RouteModelIdEmpty { role }),
            )
            &&& model_id.len() > 0 && source == active.id && !has_model(state.doc, model_id)
                ==> outcome == Err::<RouteState, FaultView>(
                FaultView::Reported(AppErrorView::RouteLocalModelMissing { role, model_id }),
            )
            &&& model_id.len() > 0 && source != active.id && all.contains_key(source) ==> {
                &&& all[source].category == Some("official"@) ==> outcome == Err::<
                    RouteState,
                    FaultView,
                >(FaultView::Reported(AppErrorView::RouteOfficialSource { role }))
                &&& all[source].category != Some("official"@) && config is None ==> outcome == Err::<
                    RouteState,
                    FaultView,
                >(FaultView::Reported(AppErrorView::ConfigMissing))
                &&& all[source].category != Some("official"@) && config is Some && toml_parse(
                    config->0,
                ) is Err ==> outcome == Err::<RouteState, FaultView>(
                    FaultView::Reported(
                        AppErrorView::ConfigTomlInvalid { detail: toml_parse(config->0)->Err_0 },
                    ),
                )
                &&& all[source].category != Some("official"@) && config is Some && toml_parse(
                    config->0,
                ) is Ok && !defines(all[source], model_id) ==> outcome == Err::<RouteState, FaultView>(
                    FaultView::Reported(
                        AppErrorView::RouteModelMissing {
                            provider_name: all[source].name,
                            model_id,
                        },
                    ),
                )
            }
        }),
{
}

/// A route that can be followed whatever the configuration holds beside the models
/// of the user: it has no role; or it names a model of the active provider that is
/// one of the user; or its provider is at hand, is not the official account, and
/// defines the model.
pub open spec fn is_good(doc: Group, active: ProviderView, all: ProviderMap, route: RouteView) -> bool {
    let source = route_source(route, active);
    let model_id = trimmed(route.model_id);
    is_blank(route.role) || (!is_blank(route.model_id) && if source == active.id {
        is_taken(doc, model_id) && has_model(doc, model_id)
    } else {
        all.contains_key(source) && all[source].category != Some("official"@) && defines(
            all[source],
            model_id,
        )
    })
}

/// Good routes are followed.
proof fn lemma_good_routes(
    state: RouteState,
    active: ProviderView,
    all: ProviderMap,
    routes: Seq<RouteView>,
)
    requires
        models_are_sound(state.doc),
        can_register(state.doc),
        can_hold(state.doc, "model"@),
        forall|i: int| 0 <= i < routes.len() ==> is_good(state.doc, active, all, #[trigger] routes[i]),
    ensures
        route_steps(state, active, all, routes) is Ok,
        ({
            let end = route_steps(state, active, all, routes)->Ok_0;
            &&& can_register(end.doc)
            &&& can_hold(end.doc, "model"@)
            &&& end.doc.get("subagents"@) == state.doc.get("subagents"@)
        }),
    decreases routes.len(),
{
    if routes.len() > 0 {
        let some = routes.drop_last();
        let last = routes.last();
        assert forall|i: int| 0 <= i < some.len() implies is_good(
            state.doc,
            active,
            all,
            #[trigger] some[i],
        ) by {
            assert(some[i] == routes[i]);
        }
        lemma_good_routes(state, active, all, some);
        let before = route_steps(state, active, all, some)->Ok_0;
        lemma_steps_outside(state, active, all, some);
        lemma_step_is_answered(before, active, all, last);
        assert(is_good(state.doc, active, all, routes[routes.len() - 1]));
        let model_id = trimmed(last.model_id);
        if is_taken(state.doc, model_id) {
            assert(before.doc.at("model"@, model_id) == state.doc.at("model"@, model_id));
        }
        lemma_good_step(before, active, all, last);
    }
}

/// A good route is followed.
proof fn lemma_good_step(
    state: RouteState,
    active: ProviderView,
    all: ProviderMap,
    route: RouteView,
)
    requires
        can_register(state.doc),
        can_hold(state.doc, "model"@),
        !is_blank(route.role) ==> !is_blank(route.model_id) && ({
            let source = route_source(route, active);
            let model_id = trimmed(route.model_id);
            if source == active.id {
                has_model(state.doc, model_id)
            } else {
                all.contains_key(source) && all[source].category != Some("official"@) && defines(
                    all[source],
                    model_id,
                )
            }
        }),
    ensures
        route_step(state, active, all, route) is Ok,
{
    lemma_step_is_answered(state, active, all, route);
    let source = route_source(route, active);
    let model_id = trimmed(route.model_id);
    if !is_blank(route.role) && source != active.id {
        assert(copied_model(all[source], model_id) is Ok);
    }
}

/// A provider whose routes are all good is written into any configuration whose
/// sections are tables or not there. A route to a model of its own is good if the
/// provider defines it and nothing is kept for another provider under its name.
pub proof fn law_switch_with_good_routes_succeeds(
    existing: Seq<char>,
    live: Group,
    doc: Group,
    provider: ProviderView,
    all: ProviderMap,
    over: Overrides,
)
    requires
        reads_as(existing, live),
        provider_reads_as(provider, doc),
        provider.category != Some("official"@),
        can_hold_a_profile(live),
        can_register(live),
        models_can_be_listed(live),
        over.base_url is Some ==> can_hold(doc, "endpoints"@),
        models(doc) is Some,
        exists|name: Seq<char>|
            (#[trigger] doc.at("model"@, name)) is Some && doc.at("model"@, name)->0 is Table,
        forall|i: int|
            0 <= i < provider.routes.len() && !is_blank((#[trigger] provider.routes[i]).role) ==> {
                let source = route_source(provider.routes[i], provider);
                let model_id = trimmed(provider.routes[i].model_id);
                &&& !is_blank(provider.routes[i].model_id)
                &&& source == provider.id ==> {
                    &&& doc.at("model"@, model_id) is Some
                    &&& doc.at("model"@, model_id)->0 is Table
                    &&& !is_marked(doc, model_id)
                    &&& !is_managed(live, model_id)
                }
                &&& source != provider.id ==> all.contains_key(source) && all[source].category != Some(
                    "official"@,
                ) && defines(all[source], model_id)
            },
    ensures
        patched_text(existing, provider, all, over) is Ok,
{
    lemma_names_differ();
    law_some_model_is_selected(doc);
    let each = with_each_model(doc, |model: Group| patched_model(model, provider, over));
    assert(each.get("endpoints"@) == doc.get("endpoints"@));
    assert(patched_profile(doc, provider, over) is Some);
    let profile = patched_profile(doc, provider, over)->0;
    law_profile_can_be_put_into_tables(live, profile);
    assert(provider_profile(provider) == Ok::<Group, AppErrorView>(doc));
    let tree = written(live, provider, over);
    lemma_written(live, doc, provider, over);
    lemma_written_can_be_listed(live, doc, provider, over);
    law_markers_can_be_moved_to_a_table(tree);
    law_migration_touches_nothing_else(tree);
    let start = migrated(tree)->0;
    law_markers_can_be_moved_to_a_table(start);
    assert forall|i: int| 0 <= i < provider.routes.len() implies is_good(
        start,
        provider,
        all,
        #[trigger] provider.routes[i],
    ) by {
        let route = provider.routes[i];
        let model_id = trimmed(route.model_id);
        if !is_blank(route.role) && route_source(route, provider) == provider.id {
            assert(tree.at("model"@, model_id) == Some(
                doc.at("model"@, model_id)->0.map_table(
                    |model: Group| patched_model(model, provider, over),
                ),
            ));
            assert(is_managed(tree, model_id) <==> is_managed(live, model_id) || is_marked(
                doc,
                model_id,
            ));
            assert(is_taken(tree, model_id));
            assert(is_taken(start, model_id));
        }
    }
    lemma_good_routes(route_start(start), provider, all, provider.routes);
}

/// A source that is not at hand and that the registry gives after some routes, it
/// gave before.
proof fn lemma_source_not_at_hand(
    doc: Group,
    active: ProviderView,
    all: ProviderMap,
    i: int,
    name: Seq<char>,
    source: Seq<char>,
    model_id: Seq<char>,
)
    requires
        routed(doc, active, all) is Ok,
        active.routes.len() > 0,
        registry_is_sound(doc),
        models_are_sound(doc),
        0 <= i <= active.routes.len(),
        registered_source(state_after(doc, active, all, i).doc, name) == Some((source, model_id)),
        !all.contains_key(source),
    ensures
        registered_source(migrated(doc)->0, name) == registered_source(
            state_after(doc, active, all, i).doc,
            name,
        ),
        migrated(doc)->0.at("model"@, name) == state_after(doc, active, all, i).doc.at(
            "model"@,
            name,
        ),
    decreases i,
{
    if i == 0 {
        assert(active.routes.take(0) =~= Seq::empty());
    } else {
        lemma_states(doc, active, all, i - 1);
        let before = state_after(doc, active, all, i - 1);
        let next = state_after(doc, active, all, i);
        let route = active.routes[i - 1];
        if leads_elsewhere(active, i - 1) && all.contains_key(route_source(route, active)) {
            lemma_copy_step(migrated(doc)->0, before, active, all, route);
            let written = next.resolved.last().1;
            assert(name != written);
            assert(next.doc.at("model"@, name) == before.doc.at("model"@, name));
            assert(registered_source(next.doc, name) == registered_source(before.doc, name));
        }
        lemma_source_not_at_hand(doc, active, all, i - 1, name, source, model_id);
    }
}

/// No model carries the older marker.
pub open spec fn has_no_marker(doc: Group) -> bool {
    forall|name: Seq<char>| !#[trigger] is_marked(doc, name)
}

/// A route never falls back to a model of the active provider. Where switching
/// succeeds, each route with a role names a model, and one to another provider is
/// backed by it: the provider is at hand, is not the official account, and defines
/// the model; or it is not at hand, and the configuration held a copy of that
/// model of that provider before.
pub proof fn law_switch_never_falls_back(
    existing: Seq<char>,
    live: Group,
    doc: Group,
    provider: ProviderView,
    all: ProviderMap,
    over: Overrides,
    i: int,
)
    requires
        reads_as(existing, live),
        provider_reads_as(provider, doc),
        provider.category != Some("official"@),
        registry_is_sound(live),
        models_can_be_listed(live),
        0 <= i < provider.routes.len(),
        !is_blank(provider.routes[i].role),
        patched_text(existing, provider, all, over) is Ok,
    ensures
        ({
            let source = route_source(provider.routes[i], provider);
            let model_id = trimmed(provider.routes[i].model_id);
            &&& model_id.len() > 0
            &&& source != provider.id && all.contains_key(source) ==> all[source].category != Some(
                "official"@,
            ) && defines(all[source], model_id)
            &&& source != provider.id && !all.contains_key(source) && has_no_marker(live)
                && has_no_marker(doc) ==> exists|name: Seq<char>|
                (#[trigger] registered_source(live, name)) == Some((source, model_id)) && has_model(
                    live,
                    name,
                )
        }),
{
    lemma_names_differ();
    let after = lemma_switched_tree(existing, live, doc, provider, all, over);
    let tree = written(live, provider, over);
    lemma_written(live, doc, provider, over);
    lemma_states(tree, provider, all, i);
    let before = state_after(tree, provider, all, i);
    let source = route_source(provider.routes[i], provider);
    let model_id = trimmed(provider.routes[i].model_id);
    if source != provider.id && !all.contains_key(source) && has_no_marker(live) && has_no_marker(doc) {
        lemma_no_marker_in_written(live, doc, provider, over);
        law_migration_is_needed_once(tree);
        let name = find_registered(before.doc, source, model_id)->0;
        lemma_found(before.doc, source, model_id);
        lemma_source_not_at_hand(tree, provider, all, i, name, source, model_id);
        assert(registered_source(tree, name) == registered_source(live, name));
        assert(is_managed(live, name));
        assert(tree.at("model"@, name) == live.at("model"@, name));
        assert(registered_source(live, name) == Some((source, model_id)) && has_model(live, name));
    }
}

/// A copy whose provider is not at hand stays as it is: what stands for it in the
/// configuration is what stood there before, with its own address and its own key,
/// whatever the active provider is set to.
pub proof fn law_copy_without_its_provider_stays_as_it_is(
    existing: Seq<char>,
    live: Group,
    doc: Group,
    provider: ProviderView,
    all: ProviderMap,
    over: Overrides,
)
    requires
        reads_as(existing, live),
        provider_reads_as(provider, doc),
        provider.category != Some("official"@),
        registry_is_sound(live),
        models_can_be_listed(live),
        has_no_marker(live),
        has_no_marker(doc),
        patched_text(existing, provider, all, over) is Ok,
    ensures
        exists|after: Group|
            {
                &&& patched_text(existing, provider, all, over) == Ok::<Seq<char>, FaultView>(
                    #[trigger] toml_render(after),
                )
                &&& forall|name: Seq<char>|
                    match #[trigger] registered_source(after, name) {
                        Some((source, model_id)) => !all.contains_key(source) ==> registered_source(
                            live,
                            name,
                        ) == Some((source, model_id)) && after.at("model"@, name) == live.at(
                            "model"@,
                            name,
                        ),
                        None => true,
                    }
            },
{
    lemma_names_differ();
    let after = lemma_switched_tree(existing, live, doc, provider, all, over);
    let tree = written(live, provider, over);
    lemma_written(live, doc, provider, over);
    lemma_no_marker_in_written(live, doc, provider, over);
    law_migration_is_needed_once(tree);
    let n = provider.routes.len() as int;
    assert forall|name: Seq<char>|
        match #[trigger] registered_source(after, name) {
            Some((source, model_id)) => !all.contains_key(source) ==> registered_source(live, name)
                == Some((source, model_id)) && after.at("model"@, name) == live.at("model"@, name),
            None => true,
        } by {
        match registered_source(after, name) {
            Some((source, model_id)) => {
                assert(owned(after).contains(name));
                if n == 0 {
                    law_without_routes_no_copy_is_left(migrated(tree)->0);
                } else if !all.contains_key(source) {
                    lemma_routed(tree, provider, all);
                    let state = state_after(tree, provider, all, n);
                    assert(registered_source(after, name) == registered_source(state.doc, name));
                    assert(after.at("model"@, name) == state.doc.at("model"@, name));
                    lemma_source_not_at_hand(tree, provider, all, n, name, source, model_id);
                    assert(registered_source(tree, name) == registered_source(live, name));
                    assert(is_managed(live, name));
                    assert(tree.at("model"@, name) == live.at("model"@, name));
                }
            },
            None => {},
        }
    }
    assert(patched_text(existing, provider, all, over) == Ok::<Seq<char>, FaultView>(toml_render(after)));
}

/// Where neither the configuration nor the provider has an older marker, none is
/// there once the provider is written.
proof fn lemma_no_marker_in_written(
    live: Group,
    doc: Group,
    provider: ProviderView,
    over: Overrides,
)
    requires
        live.is_sound(),
        doc.is_sound(),
        models_can_be_listed(live),
        provider_profile(provider) == Ok::<Group, AppErrorView>(doc),
        patched_profile(doc, provider, over) is Some,
        merged(live, patched_profile(doc, provider, over)->0) is Some,
        has_no_marker(live),
        has_no_marker(doc),
    ensures
        has_no_marker(written(live, provider, over)),
{
    let tree = written(live, provider, over);
    lemma_written(live, doc, provider, over);
    assert forall|name: Seq<char>| !#[trigger] is_marked(tree, name) by {
        assert(is_managed(tree, name) <==> is_managed(live, name) || is_marked(doc, name));
        assert(!is_marked(live, name));
        assert(!is_marked(doc, name));
        assert(tree.at("model"@, name) == if models(doc) is Some && doc.at("model"@, name) is Some
            && !is_managed(live, name) {
            Some(
                doc.at("model"@, name)->0.map_table(
                    |model: Group| patched_model(model, provider, over),
                ),
            )
        } else {
            live.at("model"@, name)
        });
    }
}

/// What has been written by the time that a route is refused is copies, and their
/// entries in the registry. No other section is touched, and no model of the user.
pub proof fn law_refused_routes_touch_nothing_else(doc: Group, active: ProviderView, all: ProviderMap)
    requires
        migrated(doc) is Some,
    ensures
        ({
            let after = routed_until_refused(doc, active, all);
            &&& agree_outside(doc, after, set!["model"@, MANAGED_REGISTRY_ROOT@])
            &&& registry_is_spared(doc, after)
            &&& user_is_spared(doc, after)
        }),
{
    let start = migrated(doc)->0;
    law_migration_touches_nothing_else(doc);
    lemma_progress_outside(route_start(start), active, all, active.routes);
    let after = routed_until_refused(doc, active, all);
    lemma_agree_trans(doc, start, after, set!["model"@, MANAGED_REGISTRY_ROOT@]);
    if registry_is_sound(doc) {
        lemma_beside_trans(doc, start, after);
    }
}

/// What following routes as far as they go leaves alone.
proof fn lemma_progress_outside(
    state: RouteState,
    active: ProviderView,
    all: ProviderMap,
    routes: Seq<RouteView>,
)
    ensures
        ({
            let end = route_progress(state, active, all, routes);
            &&& agree_outside(state.doc, end.doc, set!["model"@, MANAGED_REGISTRY_ROOT@])
            &&& registry_is_spared(state.doc, end.doc)
            &&& user_is_spared(state.doc, end.doc)
        }),
    decreases routes.len(),
{
    if routes.len() > 0 {
        if route_steps(state, active, all, routes) is Ok {
            lemma_steps_outside(state, active, all, routes);
        } else {
            lemma_progress_outside(state, active, all, routes.drop_last());
        }
    }
}

/// Where a route is refused, switching is, for the same reason.
pub proof fn law_switch_reports_what_the_routes_report(
    existing: Seq<char>,
    live: Group,
    doc: Group,
    provider: ProviderView,
    all: ProviderMap,
    over: Overrides,
)
    requires
        reads_as(existing, live),
        provider_reads_as(provider, doc),
        provider.category != Some("official"@),
        selected_model(doc) is Some,
        patched_profile(doc, provider, over) is Some,
        merged(live, patched_profile(doc, provider, over)->0) is Some,
        routed(written(live, provider, over), provider, all) is Err,
    ensures
        patched_text(existing, provider, all, over) == Err::<Seq<char>, FaultView>(
            routed(written(live, provider, over), provider, all)->Err_0,
        ),
{
}

} // verus!
