//! Which inputs are answered, and how the others are refused.
use vstd::prelude::*;
use crate::error::{AppErrorView, FaultView};
use crate::laws::frame::{lemma_agree_get, lemma_names_differ};
use crate::laws::profile::{law_merge_touches_only_the_profile, profile_sections};
use crate::laws::registry::law_sound_documents_have_sound_tables;
use crate::laws::round_trip::lemma_models_can_be_written;
use crate::laws::switch::{provider_reads_as, reads_as};
use crate::patch::{patched_model, patched_profile, patched_text, with_each_model, Overrides};
use crate::profile::{merged, official, with_models, with_owned_key, with_routes, with_selection};
use crate::provider::{ProviderMap, ProviderView, RouteView};
use crate::registry::{
    allocated, entry_node, has_model, marked_names, marker_text, migrated, migrated_all,
    migrated_one, model_names, models, with_entry, LEGACY_MANAGED_SOURCE_MODEL_KEY,
    LEGACY_MANAGED_SOURCE_PROVIDER_KEY, MANAGED_REGISTRY_ROOT, MANAGED_REGISTRY_TABLE,
};
use crate::routes::{
    copied_model, route_source, route_start, route_step, route_steps, routed, RouteState,
};
use crate::selection::{model_group, selected_model, CC_SWITCH_GROK_MODEL_ID};
use crate::text::{is_blank, trimmed};
use crate::toml::{toml_parse, toml_render};
use crate::tree::{first_where, lemma_first_where_holds, lemma_names, Group, Node};

verus! {

/// A field can be written to that section: it is a table, or not there.
pub open spec fn can_hold(doc: Group, section: Seq<char>) -> bool {
    match doc.get(section) {
        Some(node) => node.is_table_like(),
        None => true,
    }
}

/// An entry can be written to the registry.
pub open spec fn can_register(doc: Group) -> bool {
    &&& can_hold(doc, MANAGED_REGISTRY_ROOT@)
    &&& match doc.at(MANAGED_REGISTRY_ROOT@, MANAGED_REGISTRY_TABLE@) {
        Some(entries) => entries.is_table_like(),
        None => true,
    }
}

/// The four sections that a profile is written to can hold it.
pub open spec fn can_hold_a_profile(doc: Group) -> bool {
    &&& can_hold(doc, "endpoints"@)
    &&& can_hold(doc, "models"@)
    &&& can_hold(doc, "subagents"@)
    &&& can_hold(doc, "model"@)
}

/// One field can be set, and the section stays one that can hold fields.
proof fn lemma_owned_key_can_be_set(live: Group, profile: Group, section: Seq<char>, key: Seq<char>)
    requires
        can_hold(live, section),
    ensures
        with_owned_key(live, profile, section, key) is Some,
        ({
            let after = with_owned_key(live, profile, section, key)->0;
            &&& can_hold(after, section)
            &&& forall|other: Seq<char>| other != section ==> #[trigger] after.get(other) == live.get(other)
        }),
{
}

/// A profile can be put into a configuration whose sections can hold it.
pub proof fn law_profile_can_be_put_into_tables(live: Group, profile: Group)
    requires
        can_hold_a_profile(live),
    ensures
        merged(live, profile) is Some,
        can_hold_a_profile(merged(live, profile)->0),
        merged(live, profile)->0.get(MANAGED_REGISTRY_ROOT@) == live.get(MANAGED_REGISTRY_ROOT@),
{
    lemma_names_differ();
    lemma_owned_key_can_be_set(live, profile, "endpoints"@, "models_base_url"@);
    let a = with_owned_key(live, profile, "endpoints"@, "models_base_url"@)->0;
    lemma_owned_key_can_be_set(a, profile, "models"@, "default"@);
    let b = with_owned_key(a, profile, "models"@, "default"@)->0;
    lemma_owned_key_can_be_set(b, profile, "models"@, "web_search"@);
    let c = with_owned_key(b, profile, "models"@, "web_search"@)->0;
    assert(with_selection(live, profile) == Some(c));
    assert(can_hold_a_profile(c));
    assert(with_routes(c, profile) is Some);
    let d = with_routes(c, profile)->0;
    assert(can_hold_a_profile(d));
    lemma_models_can_be_written(d, profile, model_names(profile));
    let after = merged(live, profile)->0;
    law_merge_touches_only_the_profile(live, profile);
    lemma_agree_get(live, after, profile_sections(), MANAGED_REGISTRY_ROOT@);
    lemma_models_only(d, profile, model_names(profile));
}

/// Writing models touches no other section.
proof fn lemma_models_only(live: Group, profile: Group, names: Seq<Seq<char>>)
    requires
        with_models(live, profile, names) is Some,
    ensures
        forall|other: Seq<char>| other != "model"@ ==> #[trigger] with_models(
            live,
            profile,
            names,
        )->0.get(other) == live.get(other),
    decreases names.len(),
{
    if names.len() > 0 {
        lemma_models_only(live, profile, names.drop_last());
        let before = with_models(live, profile, names.drop_last())->0;
        assert forall|other: Seq<char>| other != "model"@ implies #[trigger] with_models(
            live,
            profile,
            names,
        )->0.get(other) == live.get(other) by {
            assert(before.get(other) == live.get(other));
        }
    }
}

/// An entry can be written, and then another.
proof fn lemma_entry_can_be_written(
    doc: Group,
    name: Seq<char>,
    provider: Seq<char>,
    model: Seq<char>,
)
    requires
        can_register(doc),
    ensures
        with_entry(doc, name, provider, model) is Some,
        can_register(with_entry(doc, name, provider, model)->0),
        forall|other: Seq<char>| other != MANAGED_REGISTRY_ROOT@ ==> #[trigger] with_entry(
            doc,
            name,
            provider,
            model,
        )->0.get(other) == doc.get(other),
{
    let root = doc.writable(MANAGED_REGISTRY_ROOT@, Node::fresh_table())->0;
    let group = root.group().put_under(MANAGED_REGISTRY_TABLE@, name, entry_node(provider, model));
    assert(group is Some);
    let after = doc.put(MANAGED_REGISTRY_ROOT@, root.with_group(group->0));
    assert(after.get(MANAGED_REGISTRY_ROOT@) == Some(root.with_group(group->0)));
    assert(after.at(MANAGED_REGISTRY_ROOT@, MANAGED_REGISTRY_TABLE@) == group->0.get(
        MANAGED_REGISTRY_TABLE@,
    ));
}

/// Older markers can be moved where the registry can be written.
proof fn lemma_markers_can_be_moved(doc: Group, names: Seq<Seq<char>>)
    requires
        can_register(doc),
    ensures
        migrated_all(doc, names) is Some,
        can_register(migrated_all(doc, names)->0),
        can_hold(doc, "model"@) ==> can_hold(migrated_all(doc, names)->0, "model"@),
        migrated_all(doc, names)->0.get("subagents"@) == doc.get("subagents"@),
    decreases names.len(),
{
    lemma_names_differ();
    if names.len() > 0 {
        lemma_markers_can_be_moved(doc, names.drop_last());
        let before = migrated_all(doc, names.drop_last())->0;
        let last = names.last();
        lemma_entry_can_be_written(
            before,
            last,
            marker_text(before, last, LEGACY_MANAGED_SOURCE_PROVIDER_KEY@),
            marker_text(before, last, LEGACY_MANAGED_SOURCE_MODEL_KEY@),
        );
        assert(migrated_one(before, last) is Some);
        let after = migrated_one(before, last)->0;
        assert(after.get("subagents"@) == before.get("subagents"@));
    }
}

/// Older markers can be moved where the registry can be written.
pub proof fn law_markers_can_be_moved_to_a_table(doc: Group)
    requires
        can_register(doc),
    ensures
        migrated(doc) is Some,
        can_register(migrated(doc)->0),
        can_hold(doc, "model"@) ==> can_hold(migrated(doc)->0, "model"@),
        migrated(doc)->0.get("subagents"@) == doc.get("subagents"@),
{
    lemma_markers_can_be_moved(doc, marked_names(doc));
}

/// Following a route needs nothing but tables; if it fails, the reason is reported.
proof fn lemma_steps_are_answered(
    state: RouteState,
    active: ProviderView,
    all: ProviderMap,
    routes: Seq<RouteView>,
)
    requires
        can_register(state.doc),
        can_hold(state.doc, "model"@),
    ensures
        route_steps(state, active, all, routes) is Err ==> route_steps(
            state,
            active,
            all,
            routes,
        )->Err_0 is Reported,
        route_steps(state, active, all, routes) is Ok ==> ({
            let end = route_steps(state, active, all, routes)->Ok_0;
            &&& can_register(end.doc)
            &&& can_hold(end.doc, "model"@)
            &&& end.doc.get("subagents"@) == state.doc.get("subagents"@)
        }),
    decreases routes.len(),
{
    lemma_names_differ();
    if routes.len() > 0 {
        lemma_steps_are_answered(state, active, all, routes.drop_last());
        if route_steps(state, active, all, routes.drop_last()) is Ok {
            let before = route_steps(state, active, all, routes.drop_last())->Ok_0;
            lemma_step_is_answered(before, active, all, routes.last());
        }
    }
}

/// Following one route needs nothing but tables.
pub proof fn lemma_step_is_answered(
    state: RouteState,
    active: ProviderView,
    all: ProviderMap,
    route: RouteView,
)
    requires
        can_register(state.doc),
        can_hold(state.doc, "model"@),
    ensures
        route_step(state, active, all, route) is Err ==> route_step(state, active, all, route)->Err_0 is Reported,
        route_step(state, active, all, route) is Ok ==> ({
            let next = route_step(state, active, all, route)->Ok_0;
            &&& can_register(next.doc)
            &&& can_hold(next.doc, "model"@)
            &&& next.doc.get("subagents"@) == state.doc.get("subagents"@)
        }),
{
    lemma_names_differ();
    let source = route_source(route, active);
    let model_id = trimmed(route.model_id);
    let copied = copied_model(all[source], model_id);
    let name = allocated(state.doc, source, model_id);
    if copied is Ok {
        let node = Node::Table(copied->Ok_0);
        let placed = state.doc.put_under("model"@, name, node);
        assert(placed is Some);
        assert(placed->0.get(MANAGED_REGISTRY_ROOT@) == state.doc.get(MANAGED_REGISTRY_ROOT@));
        assert(placed->0.get("subagents"@) == state.doc.get("subagents"@));
        assert(can_hold(placed->0, "model"@));
        assert(can_register(placed->0));
        lemma_entry_can_be_written(placed->0, name, source, model_id);
        let after = with_entry(placed->0, name, source, model_id)->0;
        assert(after.get("model"@) == placed->0.get("model"@));
        assert(after.get("subagents"@) == placed->0.get("subagents"@));
    }
}

/// The routes of a provider are followed where the models, the roles and the
/// registry can be written, or refused for a reason that is reported. Without
/// routes nothing is refused.
pub proof fn law_routes_into_tables_are_answered(doc: Group, active: ProviderView, all: ProviderMap)
    requires
        can_register(doc),
        can_hold(doc, "model"@),
        can_hold(doc, "subagents"@),
    ensures
        routed(doc, active, all) is Err ==> routed(doc, active, all)->Err_0 is Reported,
        active.routes.len() == 0 ==> routed(doc, active, all) is Ok,
{
    law_markers_can_be_moved_to_a_table(doc);
    let start = migrated(doc)->0;
    law_markers_can_be_moved_to_a_table(start);
    lemma_steps_are_answered(route_start(start), active, all, active.routes);
}

/// A configuration text that is no TOML is reported, whatever the provider.
pub proof fn law_switch_reports_a_bad_text(
    existing: Seq<char>,
    provider: ProviderView,
    all: ProviderMap,
    over: Overrides,
)
    requires
        !is_blank(existing),
        toml_parse(existing) is Err,
    ensures
        patched_text(existing, provider, all, over) == Err::<Seq<char>, FaultView>(
            FaultView::Reported(
                AppErrorView::ExistingTomlInvalid { detail: toml_parse(existing)->Err_0 },
            ),
        ),
{
}

/// A document selects a model exactly if it has one under `[model.*]`.
pub proof fn law_some_model_is_selected(doc: Group)
    requires
        doc.is_sound(),
        doc.get("model"@) is Some ==> doc.get("model"@)->0 is Table,
    ensures
        selected_model(doc) is Some <==> exists|name: Seq<char>|
            (#[trigger] doc.at("model"@, name)) is Some && doc.at("model"@, name)->0 is Table,
{
    law_sound_documents_have_sound_tables(doc);
    let p = |name: Seq<char>| has_model(doc, name);
    let names = model_names(doc);
    lemma_first_where_holds(names, p);
    if exists|name: Seq<char>|
        (#[trigger] doc.at("model"@, name)) is Some && doc.at("model"@, name)->0 is Table {
        let name = choose|name: Seq<char>|
            (#[trigger] doc.at("model"@, name)) is Some && doc.at("model"@, name)->0 is Table;
        let all = models(doc)->0;
        lemma_names(all, name);
        assert(all.order.contains(name) <==> all.fields.contains_key(name));
        let k = choose|k: int| 0 <= k < names.len() && names[k] == name;
        assert(p(names[k]));
    }
    if selected_model(doc) is Some {
        let name = if doc.text_at("models"@, "default"@) is Some && model_group(
            doc,
            doc.text_at("models"@, "default"@)->0,
        ) is Some {
            doc.text_at("models"@, "default"@)->0
        } else if model_group(doc, CC_SWITCH_GROK_MODEL_ID@) is Some {
            CC_SWITCH_GROK_MODEL_ID@
        } else {
            first_where(names, p)->0
        };
        assert(doc.at("model"@, name) is Some);
    }
}

/// A provider whose configuration is missing, is no TOML, or has no model is
/// refused, each with its own error.
pub proof fn law_switch_refuses_a_provider_without_models(
    existing: Seq<char>,
    live: Group,
    provider: ProviderView,
    all: ProviderMap,
    over: Overrides,
)
    requires
        reads_as(existing, live),
        provider.category != Some("official"@),
    ensures
        ({
            let config = provider.settings.member_text("config"@);
            let outcome = patched_text(existing, provider, all, over);
            &&& config is None ==> outcome == Err::<Seq<char>, FaultView>(
                FaultView::Reported(AppErrorView::ConfigMissing),
            )
            &&& config is Some && toml_parse(config->0) is Err ==> outcome == Err::<
                Seq<char>,
                FaultView,
            >(
                FaultView::Reported(
                    AppErrorView::ConfigTomlInvalid { detail: toml_parse(config->0)->Err_0 },
                ),
            )
            &&& config is Some && toml_parse(config->0) is Ok && (forall|name: Seq<char>|
                match #[trigger] toml_parse(config->0)->Ok_0.at("model"@, name) {
                    Some(node) => !(node is Table),
                    None => true,
                }) ==> outcome == Err::<Seq<char>, FaultView>(
                FaultView::Reported(AppErrorView::ProviderModelMissing),
            )
        }),
{
    let config = provider.settings.member_text("config"@);
    if config is Some && toml_parse(config->0) is Ok {
        let doc = toml_parse(config->0)->Ok_0;
        if forall|name: Seq<char>|
            match #[trigger] doc.at("model"@, name) {
                Some(node) => !(node is Table),
                None => true,
            } {
            let p = |name: Seq<char>| has_model(doc, name);
            lemma_first_where_holds(model_names(doc), p);
            match doc.text_at("models"@, "default"@) {
                Some(name) => {
                    assert(model_group(doc, name) is None) by {
                        let node = doc.at("model"@, name);
                    }
                },
                None => {},
            }
            let own = doc.at("model"@, CC_SWITCH_GROK_MODEL_ID@);
            match first_where(model_names(doc), p) {
                Some(name) => {
                    let node = doc.at("model"@, name);
                },
                None => {},
            }
            assert(selected_model(doc) is None);
        }
    }
}

/// A provider with a model is written into any configuration whose sections are
/// tables or not there; if it is refused, the reason is reported, and without
/// routes it is not refused.
pub proof fn law_switch_into_tables_is_answered(
    existing: Seq<char>,
    live: Group,
    doc: Group,
    provider: ProviderView,
    all: ProviderMap,
    over: Overrides,
)
    requires
        reads_as(existing, live),
        provider_reads_as(provider, doc),
        provider.category != Some("official"@),
        can_hold_a_profile(live),
        can_register(live),
        over.base_url is Some ==> can_hold(doc, "endpoints"@),
    ensures
        patched_text(existing, provider, all, over) is Err ==> patched_text(
            existing,
            provider,
            all,
            over,
        )->Err_0 is Reported,
        provider.routes.len() == 0 && models(doc) is Some && (exists|name: Seq<char>|
            (#[trigger] doc.at("model"@, name)) is Some && doc.at("model"@, name)->0 is Table)
            ==> patched_text(existing, provider, all, over) is Ok,
{
    lemma_names_differ();
    if models(doc) is Some {
        law_some_model_is_selected(doc);
    }
    if selected_model(doc) is Some {
        let each = with_each_model(
            doc,
            |model: Group| patched_model(model, provider, over),
        );
        assert(each.get("endpoints"@) == doc.get("endpoints"@));
        assert(patched_profile(doc, provider, over) is Some);
        let profile = patched_profile(doc, provider, over)->0;
        law_profile_can_be_put_into_tables(live, profile);
        law_routes_into_tables_are_answered(merged(live, profile)->0, provider, all);
    }
}

/// The official account is written into any configuration whose models, roles and
/// registry are tables or not there, as `read` has them.
pub proof fn law_official_switch_into_tables_is_answered(
    existing: Seq<char>,
    live: Group,
    read: Group,
    provider: ProviderView,
    all: ProviderMap,
    over: Overrides,
)
    requires
        reads_as(existing, live),
        toml_parse(toml_render(official(live))) == Ok::<Group, Seq<char>>(read),
        provider.category == Some("official"@),
        can_register(read),
        can_hold(read, "model"@),
        can_hold(read, "subagents"@),
    ensures
        patched_text(existing, provider, all, over) is Err ==> patched_text(
            existing,
            provider,
            all,
            over,
        )->Err_0 is Reported,
        provider.routes.len() == 0 && over.base_url is None && over.api_key is None
            ==> patched_text(existing, provider, all, over) is Ok,
{
    law_routes_into_tables_are_answered(read, provider, all);
}

} // verus!
