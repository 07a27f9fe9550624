//! What is not a table is never replaced by one.
use vstd::prelude::*;
use crate::error::FaultView;
use crate::laws::cleanup::{law_routes_go_only_if_stale, law_selection_is_cleared_only_if_stale};
use crate::laws::frame::{lemma_agree_get, lemma_agree_without_at, lemma_names_differ};
use crate::laws::outside::{
    law_migration_touches_nothing_else, law_routing_touches_nothing_else, lemma_forgetting_outside,
    lemma_steps_outside,
};
use crate::laws::patch::written;
use crate::laws::registry::law_migration_is_needed_once;
use crate::laws::routes::routed_sections;
use crate::laws::switch::{lemma_switched_tree, provider_reads_as, reads_as};
use crate::patch::{patched_profile, patched_text, Overrides};
use crate::profile::{merged, merged_text, with_models, with_owned_key, with_routes, with_selection};
use crate::provider::{ProviderMap, ProviderView, RouteView};
use crate::registry::{
    collapsed, is_marked, migrated, model_names, owned, without_entries, MANAGED_REGISTRY_ROOT,
};
use crate::routes::{
    cleaned, final_routes, route_start, route_steps, routed, without_routes_to,
    without_selection_of, RouteState,
};
use crate::text::is_blank;
use crate::toml::{toml_parse, toml_render};
use crate::tree::{Group, Node};

verus! {

/// Under that name stands something other than a table.
pub open spec fn is_a_value(doc: Group, section: Seq<char>) -> bool {
    doc.get(section) is Some && !doc.get(section)->0.is_table_like()
}

/// What is not a table, in the place of a section that a provider is written to,
/// stays as it is.
pub open spec fn values_stay(before: Group, after: Group) -> bool {
    &&& is_a_value(before, "endpoints"@) ==> after.get("endpoints"@) == before.get("endpoints"@)
    &&& is_a_value(before, "models"@) ==> after.get("models"@) == before.get("models"@)
    &&& is_a_value(before, "subagents"@) ==> after.get("subagents"@) == before.get("subagents"@)
    &&& is_a_value(before, "model"@) ==> after.get("model"@) == before.get("model"@)
}

/// Writing models leaves a value alone.
proof fn lemma_models_replace_no_value(live: Group, profile: Group, names: Seq<Seq<char>>)
    requires
        with_models(live, profile, names) is Some,
    ensures
        is_a_value(live, "model"@) ==> with_models(live, profile, names) == Some(live),
        forall|other: Seq<char>| other != "model"@ ==> #[trigger] with_models(
            live,
            profile,
            names,
        )->0.get(other) == live.get(other),
    decreases names.len(),
{
    if names.len() > 0 {
        lemma_models_replace_no_value(live, profile, names.drop_last());
        let before = with_models(live, profile, names.drop_last())->0;
        assert forall|other: Seq<char>| other != "model"@ implies #[trigger] with_models(
            live,
            profile,
            names,
        )->0.get(other) == live.get(other) by {
            assert(before.get(other) == live.get(other));
        }
    }
}

/// A merge replaces no value.
pub proof fn law_merging_replaces_no_value(live: Group, profile: Group)
    requires
        merged(live, profile) is Some,
    ensures
        values_stay(live, merged(live, profile)->0),
{
    lemma_names_differ();
    let a = with_owned_key(live, profile, "endpoints"@, "models_base_url"@)->0;
    let b = with_owned_key(a, profile, "models"@, "default"@)->0;
    let c = with_owned_key(b, profile, "models"@, "web_search"@)->0;
    assert(with_selection(live, profile) == Some(c));
    let d = with_routes(c, profile)->0;
    lemma_models_replace_no_value(d, profile, model_names(profile));
    assert(a.get("models"@) == live.get("models"@));
    assert(c.get("endpoints"@) == a.get("endpoints"@));
    assert(c.get("subagents"@) == live.get("subagents"@));
    assert(d.get("model"@) == live.get("model"@));
    assert(d.get("models"@) == c.get("models"@));
    assert(d.get("endpoints"@) == c.get("endpoints"@));
}

/// Following routes leaves a value in the place of the models alone.
proof fn lemma_steps_replace_no_value(
    state: RouteState,
    active: ProviderView,
    all: ProviderMap,
    routes: Seq<RouteView>,
)
    requires
        route_steps(state, active, all, routes) is Ok,
        is_a_value(state.doc, "model"@),
    ensures
        route_steps(state, active, all, routes)->Ok_0.doc == state.doc,
    decreases routes.len(),
{
    if routes.len() > 0 {
        lemma_steps_replace_no_value(state, active, all, routes.drop_last());
        let before = route_steps(state, active, all, routes.drop_last())->Ok_0;
        assert(before.doc.writable("model"@, Node::fresh_table()) is None);
    }
}

/// Removing copies replaces no value.
proof fn lemma_cleaning_replaces_no_value(doc: Group, keep: Set<Seq<char>>)
    ensures
        ({
            let after = cleaned(doc, keep);
            &&& is_a_value(doc, "models"@) ==> after.get("models"@) == doc.get("models"@)
            &&& is_a_value(doc, "model"@) ==> after.get("model"@) == doc.get("model"@)
            &&& after.get("subagents"@) == doc.get("subagents"@)
        }),
{
    lemma_names_differ();
    let stale = owned(doc).difference(keep);
    if !(stale =~= Set::empty()) {
        let root_only = set![MANAGED_REGISTRY_ROOT@];
        let a = doc.without_at("model"@, stale);
        let b = collapsed(without_entries(a, stale));
        let c = without_selection_of(b, "default"@, stale);
        let after = cleaned(doc, keep);
        lemma_agree_without_at(doc, "model"@, stale, set!["model"@], stale);
        lemma_agree_get(doc, a, set!["model"@], "models"@);
        lemma_agree_get(doc, a, set!["model"@], "subagents"@);
        lemma_forgetting_outside(a, stale);
        lemma_agree_get(a, b, root_only, "models"@);
        lemma_agree_get(a, b, root_only, "model"@);
        lemma_agree_get(a, b, root_only, "subagents"@);
        law_selection_is_cleared_only_if_stale(b, "default"@, stale);
        law_selection_is_cleared_only_if_stale(c, "web_search"@, stale);
        lemma_agree_get(b, c, set!["models"@], "model"@);
        lemma_agree_get(b, c, set!["models"@], "subagents"@);
        lemma_agree_get(c, after, set!["models"@], "model"@);
        lemma_agree_get(c, after, set!["models"@], "subagents"@);
    }
}

/// Following the routes of a provider replaces no value.
pub proof fn law_routing_replaces_no_value(doc: Group, active: ProviderView, all: ProviderMap)
    requires
        routed(doc, active, all) is Ok,
    ensures
        values_stay(doc, routed(doc, active, all)->Ok_0),
{
    lemma_names_differ();
    let two = set!["model"@, MANAGED_REGISTRY_ROOT@];
    let start = migrated(doc)->0;
    let after = routed(doc, active, all)->Ok_0;
    law_migration_touches_nothing_else(doc);
    lemma_agree_get(doc, start, two, "models"@);
    lemma_agree_get(doc, start, two, "subagents"@);
    if is_a_value(doc, "model"@) {
        assert forall|name: Seq<char>| !#[trigger] is_marked(doc, name) by {}
        law_migration_is_needed_once(doc);
    }
    law_routing_touches_nothing_else(doc, active, all);
    lemma_agree_get(doc, after, routed_sections(), "endpoints"@);
    if active.routes.len() == 0 {
        let middle = migrated(start)->0;
        law_migration_touches_nothing_else(start);
        lemma_agree_get(start, middle, two, "models"@);
        lemma_agree_get(start, middle, two, "subagents"@);
        let tree = without_routes_to(middle, owned(middle));
        law_routes_go_only_if_stale(middle, owned(middle));
        lemma_agree_get(middle, tree, set!["subagents"@], "models"@);
        lemma_agree_get(middle, tree, set!["subagents"@], "model"@);
        assert(is_a_value(middle, "subagents"@) ==> tree == middle);
        lemma_cleaning_replaces_no_value(tree, Set::empty());
    } else {
        let state = route_steps(route_start(start), active, all, active.routes)->Ok_0;
        lemma_steps_outside(route_start(start), active, all, active.routes);
        lemma_agree_get(start, state.doc, two, "models"@);
        lemma_agree_get(start, state.doc, two, "subagents"@);
        if is_a_value(start, "model"@) {
            lemma_steps_replace_no_value(route_start(start), active, all, active.routes);
        }
        let tree = state.doc.put_under(
            "subagents"@,
            "models"@,
            Node::Table(final_routes(state)),
        )->0;
        assert(tree.get("models"@) == state.doc.get("models"@));
        assert(tree.get("model"@) == state.doc.get("model"@));
        assert(!is_a_value(state.doc, "subagents"@));
        lemma_cleaning_replaces_no_value(tree, state.kept);
    }
}

/// Switching to a provider replaces no value: what is not a table, in the place of
/// a section that the provider is written to, stays as it is, or the switch has no
/// answer.
pub proof fn law_switch_replaces_no_value(
    existing: Seq<char>,
    live: Group,
    doc: Group,
    provider: ProviderView,
    all: ProviderMap,
    over: Overrides,
)
    requires
        reads_as(existing, live),
        provider_reads_as(provider, doc),
        provider.category != Some("official"@),
        patched_text(existing, provider, all, over) is Ok,
    ensures
        exists|after: Group|
            {
                &&& patched_text(existing, provider, all, over) == Ok::<Seq<char>, FaultView>(
                    #[trigger] toml_render(after),
                )
                &&& values_stay(live, after)
            },
{
    let after = lemma_switched_tree(existing, live, doc, provider, all, over);
    law_merging_replaces_no_value(live, patched_profile(doc, provider, over)->0);
    law_routing_replaces_no_value(written(live, provider, over), provider, all);
    assert(patched_text(existing, provider, all, over) == Ok::<Seq<char>, FaultView>(toml_render(after)));
}

/// Merging a profile replaces no value.
pub proof fn law_merged_text_replaces_no_value(
    existing: Seq<char>,
    live: Group,
    profile: Seq<char>,
    doc: Group,
)
    requires
        reads_as(existing, live),
        !is_blank(profile),
        toml_parse(profile) == Ok::<Group, Seq<char>>(doc),
        merged_text(existing, profile) is Ok,
    ensures
        exists|after: Group|
            {
                &&& merged_text(existing, profile) == Ok::<Seq<char>, FaultView>(
                    #[trigger] toml_render(after),
                )
                &&& values_stay(live, after)
            },
{
    law_merging_replaces_no_value(live, doc);
    assert(merged_text(existing, profile) == Ok::<Seq<char>, FaultView>(
        toml_render(merged(live, doc)->0),
    ));
}

} // verus!
