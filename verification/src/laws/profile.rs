//! Putting a profile into a configuration changes what a profile owns, and
//! nothing else.
use vstd::prelude::*;
use crate::laws::frame::{
    agree_outside, lacks, lemma_agree_get, lemma_agree_more, lemma_agree_put_in, lemma_agree_trans,
    lemma_agree_without_at, lemma_names_differ, lemma_put_at_same, lemma_put_lacks,
    lemma_section_without, lemma_without_at_same, lemma_without_lacking, lemma_without_lacks,
    lemma_without_more_lacks,
};
use crate::profile::{
    merged, official, private, with_models, with_owned_key, with_routes, with_selection,
};
use crate::registry::{is_managed, model_names, models, MANAGED_REGISTRY_ROOT};
use crate::text::lemma_push_contains;
use crate::tree::{
    lemma_filter_no_duplicates, lemma_names, lemma_sound_tables, lemma_without_without, Group, Node,
};

verus! {

/// The sections that a profile owns fields of.
pub open spec fn profile_sections() -> Set<Seq<char>> {
    set!["endpoints"@, "models"@, "subagents"@, "model"@]
}

/// Setting one field as the profile has it.
proof fn lemma_owned_key(live: Group, profile: Group, section: Seq<char>, key: Seq<char>)
    requires
        with_owned_key(live, profile, section, key) is Some,
    ensures
        ({
            let after = with_owned_key(live, profile, section, key)->0;
            &&& agree_outside(live, after, set![section])
            &&& agree_outside(live.section(section), after.section(section), set![key])
            &&& after.at(section, key) == profile.at(section, key)
        }),
{
    match profile.at(section, key) {
        Some(node) => {
            lemma_agree_put_in(live, section, Node::fresh_inline(), key, node, set![section], set![key]);
        },
        None => {
            lemma_agree_without_at(live, section, set![key], set![section], set![key]);
        },
    }
}

/// The address and the selection are those of the profile once it is put in,
/// there or not there; the rest of those sections is left alone, and so is
/// everything else.
pub proof fn law_selection_is_that_of_the_profile(live: Group, profile: Group)
    requires
        with_selection(live, profile) is Some,
    ensures
        ({
            let after = with_selection(live, profile)->0;
            &&& after.at("endpoints"@, "models_base_url"@) == profile.at(
                "endpoints"@,
                "models_base_url"@,
            )
            &&& after.at("models"@, "default"@) == profile.at("models"@, "default"@)
            &&& after.at("models"@, "web_search"@) == profile.at("models"@, "web_search"@)
            &&& agree_outside(live, after, set!["endpoints"@, "models"@])
            &&& agree_outside(
                live.section("endpoints"@),
                after.section("endpoints"@),
                set!["models_base_url"@],
            )
            &&& agree_outside(
                live.section("models"@),
                after.section("models"@),
                set!["default"@, "web_search"@],
            )
        }),
{
    lemma_names_differ();
    let a = with_owned_key(live, profile, "endpoints"@, "models_base_url"@)->0;
    let b = with_owned_key(a, profile, "models"@, "default"@)->0;
    let c = with_owned_key(b, profile, "models"@, "web_search"@)->0;
    let sections = set!["endpoints"@, "models"@];
    let keys = set!["default"@, "web_search"@];
    lemma_owned_key(live, profile, "endpoints"@, "models_base_url"@);
    lemma_owned_key(a, profile, "models"@, "default"@);
    lemma_owned_key(b, profile, "models"@, "web_search"@);
    lemma_agree_get(live, a, set!["endpoints"@], "models"@);
    lemma_agree_get(a, b, set!["models"@], "endpoints"@);
    lemma_agree_get(b, c, set!["models"@], "endpoints"@);
    lemma_agree_get(b.section("models"@), c.section("models"@), set!["web_search"@], "default"@);
    lemma_agree_more(live, a, set!["endpoints"@], sections);
    lemma_agree_more(a, b, set!["models"@], sections);
    lemma_agree_more(b, c, set!["models"@], sections);
    lemma_agree_trans(live, a, b, sections);
    lemma_agree_trans(live, b, c, sections);
    lemma_agree_more(a.section("models"@), b.section("models"@), set!["default"@], keys);
    lemma_agree_more(b.section("models"@), c.section("models"@), set!["web_search"@], keys);
    lemma_agree_trans(live.section("models"@), b.section("models"@), c.section("models"@), keys);
}

/// With the routes of the profile.
proof fn lemma_with_routes(live: Group, profile: Group)
    requires
        with_routes(live, profile) is Some,
    ensures
        ({
            let after = with_routes(live, profile)->0;
            &&& agree_outside(live, after, set!["subagents"@])
            &&& agree_outside(live.section("subagents"@), after.section("subagents"@), set!["models"@])
            &&& match profile.at("subagents"@, "models"@) {
                Some(routes) => after.at("subagents"@, "models"@) == Some(routes),
                None => after == live,
            }
        }),
{
    match profile.at("subagents"@, "models"@) {
        Some(routes) => {
            lemma_agree_put_in(
                live,
                "subagents"@,
                routes.fitting_section(),
                "models"@,
                routes,
                set!["subagents"@],
                set!["models"@],
            );
        },
        None => {},
    }
}

/// Whether a model is kept for another provider shows in the registry and in
/// the table of that model alone.
pub proof fn lemma_managed_frame(a: Group, b: Group, name: Seq<char>)
    requires
        a.get(MANAGED_REGISTRY_ROOT@) == b.get(MANAGED_REGISTRY_ROOT@),
        a.at("model"@, name) == b.at("model"@, name),
    ensures
        is_managed(a, name) == is_managed(b, name),
{
}

/// What a listed model of a profile is.
proof fn lemma_listed_model(profile: Group, name: Seq<char>)
    requires
        model_names(profile).contains(name),
    ensures
        profile.at("model"@, name) is Some,
{
    match models(profile) {
        Some(models) => {
            lemma_names(models, name);
        },
        None => {},
    }
}

/// With some models of the profile.
proof fn lemma_with_models(live: Group, profile: Group, names: Seq<Seq<char>>)
    requires
        with_models(live, profile, names) is Some,
        forall|name: Seq<char>| names.contains(name) ==> #[trigger] profile.at("model"@, name) is Some,
    ensures
        ({
            let after = with_models(live, profile, names)->0;
            &&& agree_outside(live, after, set!["model"@])
            &&& forall|name: Seq<char>| #[trigger]
                after.at("model"@, name) == if names.contains(name) && !is_managed(live, name) {
                    profile.at("model"@, name)
                } else {
                    live.at("model"@, name)
                }
        }),
    decreases names.len(),
{
    lemma_names_differ();
    if names.len() > 0 {
        let some = names.drop_last();
        let last = names.last();
        assert(names =~= some.push(last));
        assert forall|name: Seq<char>| some.contains(name) implies #[trigger] profile.at("model"@, name) is Some by {
            lemma_push_contains(some, last, name);
        }
        lemma_with_models(live, profile, some);
        let before = with_models(live, profile, some)->0;
        let after = with_models(live, profile, names)->0;
        lemma_push_contains(some, last, last);
        lemma_agree_get(live, before, set!["model"@], MANAGED_REGISTRY_ROOT@);
        if before.at("model"@, last) == live.at("model"@, last) {
            lemma_managed_frame(live, before, last);
        }
        if !is_managed(before, last) {
            let node = profile.at("model"@, last)->0;
            lemma_agree_put_in(before, "model"@, Node::fresh_table(), last, node, set!["model"@], set![last]);
            lemma_agree_trans(live, before, after, set!["model"@]);
        }
        assert forall|name: Seq<char>| #[trigger]
            after.at("model"@, name) == if names.contains(name) && !is_managed(live, name) {
                profile.at("model"@, name)
            } else {
                live.at("model"@, name)
            } by {
            lemma_push_contains(some, last, name);
            if name != last {
                assert(after.at("model"@, name) == before.at("model"@, name));
            }
        }
    }
}

/// Putting a profile into a configuration sets its address, its selection, its
/// routes and its models. Every other section is left alone, and in those four
/// every other field. The models of the configuration that the profile does not
/// have stay, and so do those that are kept for other providers.
pub proof fn law_merge_touches_only_the_profile(live: Group, profile: Group)
    requires
        merged(live, profile) is Some,
    ensures
        ({
            let after = merged(live, profile)->0;
            &&& agree_outside(live, after, profile_sections())
            &&& agree_outside(
                live.section("endpoints"@),
                after.section("endpoints"@),
                set!["models_base_url"@],
            )
            &&& agree_outside(
                live.section("models"@),
                after.section("models"@),
                set!["default"@, "web_search"@],
            )
            &&& agree_outside(live.section("subagents"@), after.section("subagents"@), set!["models"@])
            &&& forall|name: Seq<char>| #[trigger]
                after.at("model"@, name) == if model_names(profile).contains(name) && !is_managed(
                    live,
                    name,
                ) {
                    profile.at("model"@, name)
                } else {
                    live.at("model"@, name)
                }
        }),
{
    lemma_merge_steps(live, profile);
    let selected = with_selection(live, profile)->0;
    let routed = with_routes(selected, profile)->0;
    let after = merged(live, profile)->0;
    let all = profile_sections();
    lemma_agree_more(live, selected, set!["endpoints"@, "models"@], all);
    lemma_agree_more(selected, routed, set!["subagents"@], all);
    lemma_agree_more(routed, after, set!["model"@], all);
    lemma_agree_trans(live, selected, routed, all);
    lemma_agree_trans(live, routed, after, all);
    assert forall|name: Seq<char>| #[trigger]
        after.at("model"@, name) == if model_names(profile).contains(name) && !is_managed(live, name) {
            profile.at("model"@, name)
        } else {
            live.at("model"@, name)
        } by {
        lemma_managed_frame(live, routed, name);
    }
}

/// Once a profile is put into a configuration, address and selection are those
/// of the profile, there or not there, and the routes are, if it has any.
pub proof fn law_merge_gives_the_profile(live: Group, profile: Group)
    requires
        merged(live, profile) is Some,
    ensures
        ({
            let after = merged(live, profile)->0;
            &&& after.at("endpoints"@, "models_base_url"@) == profile.at(
                "endpoints"@,
                "models_base_url"@,
            )
            &&& after.at("models"@, "default"@) == profile.at("models"@, "default"@)
            &&& after.at("models"@, "web_search"@) == profile.at("models"@, "web_search"@)
            &&& after.at("subagents"@, "models"@) == match profile.at("subagents"@, "models"@) {
                Some(routes) => Some(routes),
                None => live.at("subagents"@, "models"@),
            }
        }),
{
    lemma_merge_steps(live, profile);
}

/// The three steps of a merge, and what each leaves alone.
proof fn lemma_merge_steps(live: Group, profile: Group)
    requires
        merged(live, profile) is Some,
    ensures
        ({
            let selected = with_selection(live, profile)->0;
            let routed = with_routes(selected, profile)->0;
            let after = merged(live, profile)->0;
            &&& with_selection(live, profile) is Some
            &&& with_routes(selected, profile) is Some
            &&& agree_outside(live, selected, set!["endpoints"@, "models"@])
            &&& agree_outside(selected, routed, set!["subagents"@])
            &&& agree_outside(routed, after, set!["model"@])
            &&& after.get("endpoints"@) == selected.get("endpoints"@)
            &&& after.get("models"@) == selected.get("models"@)
            &&& after.get("subagents"@) == routed.get("subagents"@)
            &&& selected.get("subagents"@) == live.get("subagents"@)
            &&& routed.get("model"@) == live.get("model"@)
            &&& routed.get(MANAGED_REGISTRY_ROOT@) == live.get(MANAGED_REGISTRY_ROOT@)
            &&& selected.at("endpoints"@, "models_base_url"@) == profile.at(
                "endpoints"@,
                "models_base_url"@,
            )
            &&& selected.at("models"@, "default"@) == profile.at("models"@, "default"@)
            &&& selected.at("models"@, "web_search"@) == profile.at("models"@, "web_search"@)
            &&& agree_outside(
                live.section("endpoints"@),
                selected.section("endpoints"@),
                set!["models_base_url"@],
            )
            &&& agree_outside(
                live.section("models"@),
                selected.section("models"@),
                set!["default"@, "web_search"@],
            )
            &&& agree_outside(
                selected.section("subagents"@),
                routed.section("subagents"@),
                set!["models"@],
            )
            &&& match profile.at("subagents"@, "models"@) {
                Some(routes) => routed.at("subagents"@, "models"@) == Some(routes),
                None => routed == selected,
            }
            &&& forall|name: Seq<char>| #[trigger]
                after.at("model"@, name) == if model_names(profile).contains(name) && !is_managed(
                    routed,
                    name,
                ) {
                    profile.at("model"@, name)
                } else {
                    routed.at("model"@, name)
                }
        }),
{
    lemma_names_differ();
    let selected = with_selection(live, profile)->0;
    let routed = with_routes(selected, profile)->0;
    let after = merged(live, profile)->0;
    law_selection_is_that_of_the_profile(live, profile);
    lemma_with_routes(selected, profile);
    assert forall|name: Seq<char>| model_names(profile).contains(name) implies #[trigger] profile.at(
        "model"@,
        name,
    ) is Some by {
        lemma_listed_model(profile, name);
    }
    lemma_with_models(routed, profile, model_names(profile));
    let two = set!["endpoints"@, "models"@];
    lemma_agree_get(live, selected, two, "subagents"@);
    lemma_agree_get(live, selected, two, "model"@);
    lemma_agree_get(live, selected, two, MANAGED_REGISTRY_ROOT@);
    lemma_agree_get(selected, routed, set!["subagents"@], "endpoints"@);
    lemma_agree_get(selected, routed, set!["subagents"@], "models"@);
    lemma_agree_get(selected, routed, set!["subagents"@], "model"@);
    lemma_agree_get(selected, routed, set!["subagents"@], MANAGED_REGISTRY_ROOT@);
    lemma_agree_get(routed, after, set!["model"@], "endpoints"@);
    lemma_agree_get(routed, after, set!["model"@], "models"@);
    lemma_agree_get(routed, after, set!["model"@], "subagents"@);
}

/// The configuration of the official account has no address and no selection.
/// Nothing else is taken out: all models stay, all routes, and all else.
pub proof fn law_official_removes_only_address_and_selection(doc: Group)
    ensures
        official(doc).at("endpoints"@, "models_base_url"@) is None,
        official(doc).at("models"@, "default"@) is None,
        official(doc).at("models"@, "web_search"@) is None,
        agree_outside(doc, official(doc), set!["endpoints"@, "models"@]),
        agree_outside(
            doc.section("endpoints"@),
            official(doc).section("endpoints"@),
            set!["models_base_url"@],
        ),
        agree_outside(
            doc.section("models"@),
            official(doc).section("models"@),
            set!["default"@, "web_search"@],
        ),
{
    lemma_names_differ();
    assert(with_selection(doc, Group::empty()) == Some(official(doc)));
    law_selection_is_that_of_the_profile(doc, Group::empty());
}

/// Removing what the official account does not need a second time changes nothing.
pub proof fn law_official_is_idempotent(doc: Group)
    ensures
        official(official(doc)) == official(doc),
{
    lemma_names_differ();
    let a = doc.without_at("endpoints"@, set!["models_base_url"@]);
    let b = a.without_at("models"@, set!["default"@]);
    let c = b.without_at("models"@, set!["web_search"@]);
    let both = set!["default"@, "web_search"@];
    lemma_without_without(
        doc.section("endpoints"@),
        set!["models_base_url"@],
        set!["models_base_url"@],
    );
    assert(set!["models_base_url"@].union(set!["models_base_url"@]) =~= set!["models_base_url"@]);
    lemma_section_without(doc, "endpoints"@, set!["models_base_url"@]);
    lemma_section_without(a, "models"@, set!["default"@]);
    lemma_section_without(b, "models"@, set!["web_search"@]);
    lemma_without_without(a.section("models"@), set!["default"@], set!["web_search"@]);
    lemma_without_without(a.section("models"@), both, set!["default"@]);
    lemma_without_without(a.section("models"@), both, set!["web_search"@]);
    assert(set!["default"@].union(set!["web_search"@]) =~= both);
    assert(both.union(set!["default"@]) =~= both);
    assert(both.union(set!["web_search"@]) =~= both);
    assert(c.get("endpoints"@) == a.get("endpoints"@));
    lemma_without_at_same(c, "endpoints"@, set!["models_base_url"@]);
    lemma_without_at_same(c, "models"@, set!["default"@]);
    lemma_without_at_same(c, "models"@, set!["web_search"@]);
}

/// Switching usage reports off sets four fields.
pub proof fn law_privacy_sets_four_fields(doc: Group)
    requires
        private(doc) is Some,
    ensures
        ({
            let after = private(doc)->0;
            &&& after.at("features"@, "telemetry"@) == Some(Node::fresh_flag(false))
            &&& after.at("telemetry"@, "trace_upload"@) == Some(Node::fresh_flag(false))
            &&& after.at("telemetry"@, "mixpanel_enabled"@) == Some(Node::fresh_flag(false))
            &&& after.at("harness"@, "disable_codebase_upload"@) == Some(Node::fresh_flag(true))
        }),
{
    lemma_names_differ();
}

/// Switching usage reports off touches three sections, and in them only the
/// fields that it sets.
pub proof fn law_privacy_touches_nothing_else(doc: Group)
    requires
        private(doc) is Some,
    ensures
        ({
            let after = private(doc)->0;
            &&& agree_outside(doc, after, set!["features"@, "telemetry"@, "harness"@])
            &&& agree_outside(doc.section("features"@), after.section("features"@), set!["telemetry"@])
            &&& agree_outside(
                doc.section("telemetry"@),
                after.section("telemetry"@),
                set!["trace_upload"@, "mixpanel_enabled"@],
            )
            &&& agree_outside(
                doc.section("harness"@),
                after.section("harness"@),
                set!["disable_codebase_upload"@],
            )
        }),
{
    lemma_names_differ();
    let all = set!["features"@, "telemetry"@, "harness"@];
    let off = Node::fresh_flag(false);
    let on = Node::fresh_flag(true);
    let braces = Node::fresh_inline();
    let two = set!["trace_upload"@, "mixpanel_enabled"@];
    let a = doc.put_at("features"@, "telemetry"@, off)->0;
    let b = a.put_at("telemetry"@, "trace_upload"@, off)->0;
    let c = b.put_at("telemetry"@, "mixpanel_enabled"@, off)->0;
    let d = c.put_at("harness"@, "disable_codebase_upload"@, on)->0;
    lemma_agree_put_in(doc, "features"@, braces, "telemetry"@, off, all, set!["telemetry"@]);
    lemma_agree_put_in(a, "telemetry"@, braces, "trace_upload"@, off, all, two);
    lemma_agree_put_in(b, "telemetry"@, braces, "mixpanel_enabled"@, off, all, two);
    lemma_agree_put_in(
        c,
        "harness"@,
        braces,
        "disable_codebase_upload"@,
        on,
        all,
        set!["disable_codebase_upload"@],
    );
    lemma_agree_trans(doc, a, b, all);
    lemma_agree_trans(doc, b, c, all);
    lemma_agree_trans(doc, c, d, all);
    lemma_agree_trans(a.section("telemetry"@), b.section("telemetry"@), c.section("telemetry"@), two);
}

/// Switching usage reports off a second time changes nothing.
pub proof fn law_privacy_is_idempotent(doc: Group)
    requires
        private(doc) is Some,
    ensures
        private(private(doc)->0) == private(doc),
{
    let after = private(doc)->0;
    law_privacy_sets_four_fields(doc);
    lemma_put_at_same(after, "features"@, "telemetry"@);
    lemma_put_at_same(after, "telemetry"@, "trace_upload"@);
    lemma_put_at_same(after, "telemetry"@, "mixpanel_enabled"@);
    lemma_put_at_same(after, "harness"@, "disable_codebase_upload"@);
}

/// A field that is not in the profile has no place in the section.
proof fn lemma_owned_key_lacks(live: Group, profile: Group, section: Seq<char>, key: Seq<char>)
    requires
        with_owned_key(live, profile, section, key) is Some,
        profile.at(section, key) is None,
    ensures
        lacks(with_owned_key(live, profile, section, key)->0.section(section), key),
{
    lemma_section_without(live, section, set![key]);
    lemma_without_lacks(live.section(section), set![key], key);
}

/// Setting a field as the profile has it, where it is so already.
proof fn lemma_owned_key_same(live: Group, profile: Group, section: Seq<char>, key: Seq<char>)
    requires
        live.at(section, key) == profile.at(section, key),
        profile.at(section, key) is None ==> lacks(live.section(section), key),
    ensures
        with_owned_key(live, profile, section, key) == Some(live),
{
    match profile.at(section, key) {
        Some(_) => {
            lemma_put_at_same(live, section, key);
        },
        None => {
            lemma_without_lacking(live.section(section), key);
            lemma_without_at_same(live, section, set![key]);
        },
    }
}

/// Putting in models that are there already.
proof fn lemma_with_models_same(live: Group, profile: Group, names: Seq<Seq<char>>)
    requires
        forall|name: Seq<char>| #[trigger]
            names.contains(name) ==> is_managed(live, name) || (live.at("model"@, name) is Some && live.at(
                "model"@,
                name,
            ) == profile.at("model"@, name)),
    ensures
        with_models(live, profile, names) == Some(live),
    decreases names.len(),
{
    if names.len() > 0 {
        let some = names.drop_last();
        let last = names.last();
        assert(names =~= some.push(last));
        assert forall|name: Seq<char>| #[trigger] some.contains(name) implies is_managed(live, name) || (
        live.at("model"@, name) is Some && live.at("model"@, name) == profile.at("model"@, name)) by {
            lemma_push_contains(some, last, name);
            assert(names.contains(name));
        }
        lemma_with_models_same(live, profile, some);
        lemma_push_contains(some, last, last);
        assert(names.contains(last));
        if !is_managed(live, last) {
            lemma_put_at_same(live, "model"@, last);
        }
    }
}

/// Putting a profile in a second time changes nothing.
pub proof fn law_merge_is_idempotent(live: Group, profile: Group)
    requires
        merged(live, profile) is Some,
    ensures
        merged(merged(live, profile)->0, profile) == merged(live, profile),
{
    lemma_names_differ();
    lemma_merge_steps(live, profile);
    let selected = with_selection(live, profile)->0;
    let routed = with_routes(selected, profile)->0;
    let after = merged(live, profile)->0;
    let a = with_owned_key(live, profile, "endpoints"@, "models_base_url"@)->0;
    let b = with_owned_key(a, profile, "models"@, "default"@)->0;
    if profile.at("endpoints"@, "models_base_url"@) is None {
        lemma_owned_key_lacks(live, profile, "endpoints"@, "models_base_url"@);
        assert(selected.get("endpoints"@) == a.get("endpoints"@));
    }
    if profile.at("models"@, "default"@) is None {
        lemma_owned_key_lacks(a, profile, "models"@, "default"@);
        match profile.at("models"@, "web_search"@) {
            Some(node) => {
                lemma_put_lacks(b.section("models"@), "web_search"@, node, "default"@);
            },
            None => {
                lemma_section_without(b, "models"@, set!["web_search"@]);
                lemma_without_more_lacks(b.section("models"@), set!["web_search"@], "default"@);
            },
        }
    }
    if profile.at("models"@, "web_search"@) is None {
        lemma_owned_key_lacks(b, profile, "models"@, "web_search"@);
    }
    lemma_owned_key_same(after, profile, "endpoints"@, "models_base_url"@);
    lemma_owned_key_same(after, profile, "models"@, "default"@);
    lemma_owned_key_same(after, profile, "models"@, "web_search"@);
    if profile.at("subagents"@, "models"@) is Some {
        lemma_put_at_same(after, "subagents"@, "models"@);
    }
    assert forall|name: Seq<char>| #[trigger] model_names(profile).contains(name) implies is_managed(
        after,
        name,
    ) || (after.at("model"@, name) is Some && after.at("model"@, name) == profile.at("model"@, name)) by {
        lemma_listed_model(profile, name);
        lemma_agree_get(routed, after, set!["model"@], MANAGED_REGISTRY_ROOT@);
        if is_managed(routed, name) {
            lemma_managed_frame(routed, after, name);
        }
    }
    lemma_with_models_same(after, profile, model_names(profile));
}

/// The models that a profile adds stand behind those that were there, in the order
/// in which the profile has them, and no model that was there changes its place.
pub proof fn law_merge_keeps_the_order_of_models(live: Group, profile: Group)
    requires
        merged(live, profile) is Some,
        model_names(profile).no_duplicates(),
    ensures
        ({
            let before = models_of(live);
            let after = models_of(merged(live, profile)->0);
            let is_new = |name: Seq<char>|
                !before.fields.contains_key(name) && !is_managed(live, name);
            after.order == before.order + model_names(profile).filter(is_new)
        }),
{
    lemma_names_differ();
    lemma_merge_steps(live, profile);
    let selected = with_selection(live, profile)->0;
    let routed = with_routes(selected, profile)->0;
    let names = model_names(profile);
    lemma_order_of_models(routed, profile, names);
    let before = models_of(live);
    let p = |name: Seq<char>| !before.fields.contains_key(name) && !is_managed(live, name);
    let q = |name: Seq<char>| !before.fields.contains_key(name) && !is_managed(routed, name);
    assert forall|name: Seq<char>| #[trigger] p(name) == q(name) by {
        lemma_managed_frame(live, routed, name);
    }
    assert(p =~= q);
}

/// A sound document lists no model twice.
pub proof fn lemma_models_are_listed_once(doc: Group)
    requires
        doc.is_sound(),
    ensures
        model_names(doc).no_duplicates(),
{
    lemma_sound_tables(doc, "model"@, "model"@);
    match models(doc) {
        Some(all) => {
            let p = |name: Seq<char>| all.get(name) is Some;
            lemma_filter_no_duplicates(all.order, p);
        },
        None => {},
    }
}

/// The contents of the table that the models stand in.
pub open spec fn models_of(doc: Group) -> Group {
    doc.section("model"@)
}

/// The order of models once some of a profile are written.
proof fn lemma_order_of_models(live: Group, profile: Group, names: Seq<Seq<char>>)
    requires
        with_models(live, profile, names) is Some,
        names.no_duplicates(),
        forall|name: Seq<char>| names.contains(name) ==> #[trigger] profile.at("model"@, name) is Some,
    ensures
        ({
            let before = models_of(live);
            let after = models_of(with_models(live, profile, names)->0);
            let is_new = |name: Seq<char>|
                !before.fields.contains_key(name) && !is_managed(live, name);
            &&& after.order == before.order + names.filter(is_new)
            &&& forall|name: Seq<char>| #[trigger]
                after.fields.contains_key(name) <==> before.fields.contains_key(name) || (
                names.contains(name) && !is_managed(live, name))
        }),
    decreases names.len(),
{
    reveal(Seq::filter);
    let before = models_of(live);
    let is_new = |name: Seq<char>| !before.fields.contains_key(name) && !is_managed(live, name);
    if names.len() > 0 {
        let some = names.drop_last();
        let last = names.last();
        assert(names =~= some.push(last));
        assert forall|name: Seq<char>| some.contains(name) implies #[trigger] profile.at("model"@, name) is Some by {
            lemma_push_contains(some, last, name);
        }
        lemma_order_of_models(live, profile, some);
        lemma_with_models(live, profile, some);
        let middle = with_models(live, profile, some)->0;
        let after = with_models(live, profile, names)->0;
        lemma_names_differ();
        lemma_agree_get(live, middle, set!["model"@], MANAGED_REGISTRY_ROOT@);
        assert(!some.contains(last)) by {
            if some.contains(last) {
                let k = choose|k: int| 0 <= k < some.len() && some[k] == last;
                assert(names[k] == names[names.len() - 1]);
            }
        }
        assert(middle.at("model"@, last) == live.at("model"@, last));
        lemma_managed_frame(live, middle, last);
        lemma_push_contains(some, last, last);
        assert(names.filter(is_new) =~= if is_new(last) {
            some.filter(is_new).push(last)
        } else {
            some.filter(is_new)
        });
        if !is_managed(live, last) {
            let table = middle.writable("model"@, Node::fresh_table())->0;
            assert(models_of(after) == table.group().put(last, profile.at("model"@, last)->0));
            assert(table.group() == models_of(middle));
        }
        assert(models_of(after).order =~= before.order + names.filter(is_new));
        assert forall|name: Seq<char>| #[trigger]
            models_of(after).fields.contains_key(name) <==> before.fields.contains_key(name) || (
            names.contains(name) && !is_managed(live, name)) by {
            lemma_push_contains(some, last, name);
            assert(models_of(middle).fields.contains_key(name) <==> before.fields.contains_key(name) || (
            some.contains(name) && !is_managed(live, name)));
        }
    } else {
        assert(before.order + names.filter(is_new) =~= before.order);
    }
}

} // verus!
