//! What merging, the official account, privacy and a release give, from text to
//! text.
use vstd::prelude::*;
use crate::error::{AppErrorView, FaultView};
use crate::import::{released, released_text, taken_over, without_models};
use crate::laws::answers::{
    can_hold, can_hold_a_profile, law_profile_can_be_put_into_tables, law_some_model_is_selected,
};
use crate::laws::cleanup::{law_selection_is_cleared_only_if_stale, route_of};
use crate::laws::frame::{
    agree_outside, lemma_agree_get, lemma_agree_without_at, lemma_names_differ,
};
use crate::laws::import::{law_models_go_with_what_refers_to_them, law_release_touches_nothing_else};
use crate::laws::profile::{
    law_merge_gives_the_profile, law_merge_keeps_the_order_of_models,
    law_merge_touches_only_the_profile, law_official_removes_only_address_and_selection,
    law_privacy_sets_four_fields, law_privacy_touches_nothing_else, lemma_models_are_listed_once,
    profile_sections,
};
use crate::laws::registry::law_sound_documents_have_sound_tables;
use crate::laws::switch::reads_as;
use crate::profile::{merged, merged_text, official, official_text, private, private_text};
use crate::registry::{is_managed, model_names, models};
use crate::text::is_blank;
use crate::toml::{toml_parse, toml_render};
use crate::tree::{lemma_names, Group, Node};

verus! {

/// Merging a profile gives a configuration with the address, the selection, the
/// routes and the models of the profile; an address or a selection that the
/// profile does not have is not there. A model that is kept for another provider
/// stays, and so does everything else. New models stand behind the others, in the
/// order of the profile.
pub proof fn law_merge_gives_what_the_profile_has(
    existing: Seq<char>,
    live: Group,
    profile: Seq<char>,
    doc: Group,
)
    requires
        reads_as(existing, live),
        !is_blank(profile),
        toml_parse(profile) == Ok::<Group, Seq<char>>(doc),
        doc.is_sound(),
        merged_text(existing, profile) is Ok,
    ensures
        exists|after: Group|
            {
                &&& merged_text(existing, profile) == Ok::<Seq<char>, FaultView>(
                    #[trigger] toml_render(after),
                )
                &&& after.at("endpoints"@, "models_base_url"@) == doc.at(
                    "endpoints"@,
                    "models_base_url"@,
                )
                &&& after.at("models"@, "default"@) == doc.at("models"@, "default"@)
                &&& after.at("models"@, "web_search"@) == doc.at("models"@, "web_search"@)
                &&& after.at("subagents"@, "models"@) == match doc.at("subagents"@, "models"@) {
                    Some(routes) => Some(routes),
                    None => live.at("subagents"@, "models"@),
                }
                &&& forall|name: Seq<char>| #[trigger]
                    after.at("model"@, name) == if models(doc) is Some && doc.at("model"@, name) is Some
                        && !is_managed(live, name) {
                        doc.at("model"@, name)
                    } else {
                        live.at("model"@, name)
                    }
                &&& after.section("model"@).order == live.section("model"@).order + model_names(
                    doc,
                ).filter(
                    |name: Seq<char>|
                        !live.section("model"@).fields.contains_key(name) && !is_managed(live, name),
                )
                &&& agree_outside(live, after, profile_sections())
                &&& agree_outside(
                    live.section("endpoints"@),
                    after.section("endpoints"@),
                    set!["models_base_url"@],
                )
                &&& agree_outside(
                    live.section("models"@),
                    after.section("models"@),
                    set!["default"@, "web_search"@],
                )
                &&& agree_outside(
                    live.section("subagents"@),
                    after.section("subagents"@),
                    set!["models"@],
                )
            },
{
    let after = merged(live, doc)->0;
    lemma_models_are_listed_once(doc);
    law_merge_keeps_the_order_of_models(live, doc);
    law_merge_touches_only_the_profile(live, doc);
    law_merge_gives_the_profile(live, doc);
    law_sound_documents_have_sound_tables(doc);
    assert forall|name: Seq<char>| #[trigger]
        after.at("model"@, name) == if models(doc) is Some && doc.at("model"@, name) is Some
            && !is_managed(live, name) {
            doc.at("model"@, name)
        } else {
            live.at("model"@, name)
        } by {
        match models(doc) {
            Some(all) => {
                lemma_names(all, name);
                assert(all.order.contains(name) <==> all.fields.contains_key(name));
            },
            None => {},
        }
    }
    assert(merged_text(existing, profile) == Ok::<Seq<char>, FaultView>(toml_render(after)));
}

/// A blank profile is that of the official account: merging it drops address and
/// selection, and nothing else.
pub proof fn law_merging_a_blank_profile_is_the_official_account(
    existing: Seq<char>,
    profile: Seq<char>,
)
    requires
        is_blank(profile),
        toml_parse(profile) is Ok,
    ensures
        merged_text(existing, profile) == match official_text(existing) {
            Ok(text) => Ok::<Seq<char>, FaultView>(text),
            Err(error) => Err(FaultView::Reported(error)),
        },
{
}

/// A merge is refused if one of the texts is no TOML, or if the profile has no
/// model, each with its own error. It is answered where the sections of the
/// configuration are tables or not there.
pub proof fn law_merge_is_answered_or_refused(existing: Seq<char>, profile: Seq<char>)
    ensures
        !is_blank(existing) && toml_parse(existing) is Err ==> merged_text(existing, profile) == Err::<
            Seq<char>,
            FaultView,
        >(
            FaultView::Reported(
                AppErrorView::ExistingTomlInvalid { detail: toml_parse(existing)->Err_0 },
            ),
        ),
        forall|live: Group| #[trigger]
            reads_as(existing, live) && toml_parse(profile) is Err ==> merged_text(existing, profile)
                == Err::<Seq<char>, FaultView>(
                FaultView::Reported(
                    AppErrorView::ProfileTomlInvalid { detail: toml_parse(profile)->Err_0 },
                ),
            ),
        forall|live: Group, doc: Group|
            #![trigger reads_as(existing, live), doc.is_sound()]
            reads_as(existing, live) && toml_parse(profile) == Ok::<Group, Seq<char>>(doc)
                && doc.is_sound() && !is_blank(profile) && models(doc) is Some ==> {
                let has_model = exists|name: Seq<char>|
                    (#[trigger] doc.at("model"@, name)) is Some && doc.at("model"@, name)->0 is Table;
                &&& !has_model ==> merged_text(existing, profile) == Err::<Seq<char>, FaultView>(
                    FaultView::Reported(AppErrorView::ProfileModelMissing),
                )
                &&& has_model && can_hold_a_profile(live) ==> merged_text(existing, profile) is Ok
            },
{
    assert forall|live: Group, doc: Group|
        #![trigger reads_as(existing, live), doc.is_sound()]
        reads_as(existing, live) && toml_parse(profile) == Ok::<Group, Seq<char>>(doc)
            && doc.is_sound() && !is_blank(profile) && models(doc) is Some implies {
        let has_model = exists|name: Seq<char>|
            (#[trigger] doc.at("model"@, name)) is Some && doc.at("model"@, name)->0 is Table;
        &&& !has_model ==> merged_text(existing, profile) == Err::<Seq<char>, FaultView>(
            FaultView::Reported(AppErrorView::ProfileModelMissing),
        )
        &&& has_model && can_hold_a_profile(live) ==> merged_text(existing, profile) is Ok
    } by {
        law_some_model_is_selected(doc);
        if can_hold_a_profile(live) {
            law_profile_can_be_put_into_tables(live, doc);
        }
    }
}

/// The configuration of the official account has no address and no selection;
/// all else in it is as it was. Every text that is TOML gives one.
pub proof fn law_official_text_drops_address_and_selection(existing: Seq<char>, live: Group)
    requires
        reads_as(existing, live),
    ensures
        exists|after: Group|
            {
                &&& official_text(existing) == Ok::<Seq<char>, AppErrorView>(
                    #[trigger] toml_render(after),
                )
                &&& after.at("endpoints"@, "models_base_url"@) is None
                &&& after.at("models"@, "default"@) is None
                &&& after.at("models"@, "web_search"@) is None
                &&& agree_outside(live, after, set!["endpoints"@, "models"@])
                &&& agree_outside(
                    live.section("endpoints"@),
                    after.section("endpoints"@),
                    set!["models_base_url"@],
                )
                &&& agree_outside(
                    live.section("models"@),
                    after.section("models"@),
                    set!["default"@, "web_search"@],
                )
            },
{
    law_official_removes_only_address_and_selection(live);
    assert(official_text(existing) == Ok::<Seq<char>, AppErrorView>(toml_render(official(live))));
}

/// A text that is no TOML is refused.
pub proof fn law_official_text_reports_a_bad_text(existing: Seq<char>)
    requires
        !is_blank(existing),
        toml_parse(existing) is Err,
    ensures
        official_text(existing) == Err::<Seq<char>, AppErrorView>(
            AppErrorView::ExistingTomlInvalid { detail: toml_parse(existing)->Err_0 },
        ),
{
}

/// Privacy switches four fields, three off and one on, and touches nothing else.
/// It is granted to every text that is TOML with tables in the places of the
/// three sections, or nothing.
pub proof fn law_privacy_text_switches_four_fields(existing: Seq<char>, live: Group)
    requires
        reads_as(existing, live),
        can_hold(live, "features"@),
        can_hold(live, "telemetry"@),
        can_hold(live, "harness"@),
    ensures
        exists|after: Group|
            {
                &&& private_text(existing) == Ok::<Seq<char>, FaultView>(#[trigger] toml_render(after))
                &&& after.at("features"@, "telemetry"@) == Some(Node::fresh_flag(false))
                &&& after.at("telemetry"@, "trace_upload"@) == Some(Node::fresh_flag(false))
                &&& after.at("telemetry"@, "mixpanel_enabled"@) == Some(Node::fresh_flag(false))
                &&& after.at("harness"@, "disable_codebase_upload"@) == Some(Node::fresh_flag(true))
                &&& agree_outside(live, after, set!["features"@, "telemetry"@, "harness"@])
                &&& agree_outside(
                    live.section("features"@),
                    after.section("features"@),
                    set!["telemetry"@],
                )
                &&& agree_outside(
                    live.section("telemetry"@),
                    after.section("telemetry"@),
                    set!["trace_upload"@, "mixpanel_enabled"@],
                )
                &&& agree_outside(
                    live.section("harness"@),
                    after.section("harness"@),
                    set!["disable_codebase_upload"@],
                )
            },
{
    lemma_names_differ();
    let a = live.put_at("features"@, "telemetry"@, Node::fresh_flag(false))->0;
    assert(a.get("telemetry"@) == live.get("telemetry"@));
    assert(a.get("harness"@) == live.get("harness"@));
    let b = a.put_at("telemetry"@, "trace_upload"@, Node::fresh_flag(false))->0;
    assert(can_hold(b, "telemetry"@));
    assert(b.get("harness"@) == live.get("harness"@));
    let c = b.put_at("telemetry"@, "mixpanel_enabled"@, Node::fresh_flag(false))->0;
    assert(c.get("harness"@) == live.get("harness"@));
    assert(private(live) is Some);
    law_privacy_sets_four_fields(live);
    law_privacy_touches_nothing_else(live);
    assert(private_text(existing) == Ok::<Seq<char>, FaultView>(toml_render(private(live)->0)));
}

/// A text that is no TOML is refused.
pub proof fn law_privacy_text_reports_a_bad_text(existing: Seq<char>)
    requires
        !is_blank(existing),
        toml_parse(existing) is Err,
    ensures
        private_text(existing) == Err::<Seq<char>, FaultView>(
            FaultView::Reported(AppErrorView::LiveTomlInvalid { detail: toml_parse(existing)->Err_0 }),
        ),
{
}

/// The model under that name is in the hands of the proxy: it stands under a
/// header, and its key is the placeholder.
pub open spec fn is_redirected(doc: Group, name: Seq<char>) -> bool {
    models(doc) is Some && match doc.at("model"@, name) {
        Some(Node::Table(model)) => model.text("api_key"@) == Some("PROXY_MANAGED"@),
        _ => false,
    }
}

/// A release takes out the models with the placeholder, and with them each of the
/// two selections and each role that names one. The address goes if there was
/// such a model. Everything else stays as it is, all other models, selections and
/// roles among it.
pub proof fn law_release_undoes_a_takeover(text: Seq<char>, doc: Group)
    requires
        toml_parse(text) == Ok::<Group, Seq<char>>(doc),
    ensures
        exists|after: Group|
            {
                &&& released_text(text) == Ok::<Seq<char>, AppErrorView>(#[trigger] toml_render(after))
                &&& (forall|name: Seq<char>| !#[trigger] is_redirected(doc, name)) ==> after == doc
                &&& (exists|name: Seq<char>| #[trigger] is_redirected(doc, name)) ==> after.at(
                    "endpoints"@,
                    "models_base_url"@,
                ) is None
                &&& forall|name: Seq<char>| #[trigger]
                    after.at("model"@, name) == if is_redirected(doc, name) {
                        None
                    } else {
                        doc.at("model"@, name)
                    }
                &&& after.at("models"@, "default"@) == match doc.text_at("models"@, "default"@) {
                    Some(name) => if is_redirected(doc, name) {
                        None
                    } else {
                        doc.at("models"@, "default"@)
                    },
                    None => doc.at("models"@, "default"@),
                }
                &&& after.at("models"@, "web_search"@) == match doc.text_at("models"@, "web_search"@) {
                    Some(name) => if is_redirected(doc, name) {
                        None
                    } else {
                        doc.at("models"@, "web_search"@)
                    },
                    None => doc.at("models"@, "web_search"@),
                }
                &&& forall|role: Seq<char>| #[trigger]
                    route_of(after, role) == match route_of(doc, role) {
                        Some(route) => if route.text() is Some && is_redirected(doc, route.text()->0) {
                            None
                        } else {
                            Some(route)
                        },
                        None => None,
                    }
                &&& agree_outside(doc, after, profile_sections())
                &&& agree_outside(
                    doc.section("endpoints"@),
                    after.section("endpoints"@),
                    set!["models_base_url"@],
                )
                &&& agree_outside(
                    doc.section("models"@),
                    after.section("models"@),
                    set!["default"@, "web_search"@],
                )
                &&& agree_outside(
                    doc.section("subagents"@),
                    after.section("subagents"@),
                    set!["models"@],
                )
            },
{
    lemma_names_differ();
    let names = taken_over(doc);
    let after = released(doc);
    assert forall|name: Seq<char>| #[trigger] names.contains(name) == is_redirected(doc, name) by {}
    law_release_touches_nothing_else(doc);
    if names =~= Set::empty() {
        assert forall|name: Seq<char>| !#[trigger] is_redirected(doc, name) by {
            assert(!Set::<Seq<char>>::empty().contains(name));
            assert(names.contains(name) == is_redirected(doc, name));
        }
    } else {
        let a = without_models(doc, names);
        let three = set!["model"@, "models"@, "subagents"@];
        law_models_go_with_what_refers_to_them(doc, names);
        law_selection_is_cleared_only_if_stale(doc, "default"@, names);
        law_selection_is_cleared_only_if_stale(doc, "web_search"@, names);
        let url = set!["models_base_url"@];
        lemma_agree_without_at(a, "endpoints"@, url, set!["endpoints"@], url);
        lemma_agree_get(a, after, set!["endpoints"@], "models"@);
        if forall|name: Seq<char>| !#[trigger] is_redirected(doc, name) {
            assert forall|name: Seq<char>| !names.contains(name) by {
                assert(names.contains(name) == is_redirected(doc, name));
            }
            assert(names =~= Set::empty());
        }
    }
    assert forall|role: Seq<char>| #[trigger]
        route_of(after, role) == match route_of(doc, role) {
            Some(route) => if route.text() is Some && is_redirected(doc, route.text()->0) {
                None
            } else {
                Some(route)
            },
            None => None,
        } by {
        match route_of(doc, role) {
            Some(route) => match route.text() {
                Some(name) => {
                    assert(names.contains(name) == is_redirected(doc, name));
                },
                None => {},
            },
            None => {},
        }
    }
    assert forall|name: Seq<char>| #[trigger]
        after.at("model"@, name) == if is_redirected(doc, name) {
            None
        } else {
            doc.at("model"@, name)
        } by {
        assert(names.contains(name) == is_redirected(doc, name));
    }
    assert(released_text(text) == Ok::<Seq<char>, AppErrorView>(toml_render(after)));
}

/// A text that is no TOML is refused.
pub proof fn law_release_reports_a_bad_text(text: Seq<char>)
    requires
        toml_parse(text) is Err,
    ensures
        released_text(text) == Err::<Seq<char>, AppErrorView>(
            AppErrorView::LiveTomlInvalid { detail: toml_parse(text)->Err_0 },
        ),
{
}

} // verus!
