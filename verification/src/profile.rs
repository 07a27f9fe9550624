//! Putting a profile into a configuration, and taking it out again.
use vstd::prelude::*;
use vstd::pervasive::unreached;
use toml_edit::DocumentMut;
use crate::edit::{lookup, put_at, put_fitting, put_under, remove_at};
use crate::error::{
    reported, text_outcome, text_result, AppError, AppErrorView, Fault, FaultView,
};
use crate::registry::{is_managed, is_managed_cross_provider_model, list_model_names, model_names};
use crate::selection::{selected_model, selected_model_table};
use crate::text::{is_blank, names_of};
use crate::toml::{
    document_tree, flag_item, parse_document, render_document, toml_parse, toml_render,
};
use crate::tree::{lemma_empty_is_sound, Group, Node};

verus! {

// ---------------------------------------------------------------- the model

/// The configuration that is to be changed; a blank text is an empty one.
pub open spec fn existing_doc(text: Seq<char>) -> Result<Group, AppErrorView> {
    if is_blank(text) {
        Ok(Group::empty())
    } else {
        match toml_parse(text) {
            Ok(doc) => Ok(doc),
            Err(detail) => Err(AppErrorView::ExistingTomlInvalid { detail }),
        }
    }
}

/// A text that reads as a document reads as a sound one.
pub open spec fn reads_soundly(existing: Seq<char>) -> bool {
    existing_doc(existing) is Ok ==> existing_doc(existing)->Ok_0.is_sound()
}

/// The configuration with one field as the profile has it, or without it.
pub open spec fn with_owned_key(
    live: Group,
    profile: Group,
    section: Seq<char>,
    key: Seq<char>,
) -> Option<Group> {
    match profile.at(section, key) {
        Some(node) => live.put_at(section, key, node),
        None => Some(live.without_at(section, set![key])),
    }
}

/// The configuration with the address and the selection of the profile.
pub open spec fn with_selection(live: Group, profile: Group) -> Option<Group> {
    match with_owned_key(live, profile, "endpoints"@, "models_base_url"@) {
        Some(live) => match with_owned_key(live, profile, "models"@, "default"@) {
            Some(live) => with_owned_key(live, profile, "models"@, "web_search"@),
            None => None,
        },
        None => None,
    }
}

/// The configuration with the routes of the profile, if it has any.
pub open spec fn with_routes(live: Group, profile: Group) -> Option<Group> {
    match profile.at("subagents"@, "models"@) {
        Some(routes) => live.put_fitting("subagents"@, "models"@, routes),
        None => Some(live),
    }
}

/// The configuration with some models of the profile. A model that is kept for
/// another provider stays as it is.
pub open spec fn with_models(live: Group, profile: Group, names: Seq<Seq<char>>) -> Option<Group>
    decreases names.len(),
{
    if names.len() == 0 {
        Some(live)
    } else {
        match with_models(live, profile, names.drop_last()) {
            Some(before) => if is_managed(before, names.last()) {
                Some(before)
            } else {
                before.put_under("model"@, names.last(), profile.at("model"@, names.last())->0)
            },
            None => None,
        }
    }
}

/// The configuration with the profile in it; none where a field would have to
/// be written under a name that holds something other than a table.
pub open spec fn merged(live: Group, profile: Group) -> Option<Group> {
    match with_selection(live, profile) {
        Some(selected) => match with_routes(selected, profile) {
            Some(routed) => with_models(routed, profile, model_names(profile)),
            None => None,
        },
        None => None,
    }
}

/// The configuration without address and selection: that of the official account.
pub open spec fn official(doc: Group) -> Group {
    doc.without_at("endpoints"@, set!["models_base_url"@]).without_at(
        "models"@,
        set!["default"@],
    ).without_at("models"@, set!["web_search"@])
}

/// The configuration text without address and selection.
pub open spec fn official_text(text: Seq<char>) -> Result<Seq<char>, AppErrorView> {
    match existing_doc(text) {
        Ok(doc) => Ok(toml_render(official(doc))),
        Err(error) => Err(error),
    }
}

/// The configuration text with the profile in it. The empty profile is that of
/// the official account.
pub open spec fn merged_text(existing: Seq<char>, profile: Seq<char>) -> Result<Seq<char>, FaultView> {
    match existing_doc(existing) {
        Ok(live) => match toml_parse(profile) {
            Ok(doc) => if is_blank(profile) {
                Ok(toml_render(official(live)))
            } else if selected_model(doc) is None {
                Err(FaultView::Reported(AppErrorView::ProfileModelMissing))
            } else {
                match merged(live, doc) {
                    Some(tree) => Ok(toml_render(tree)),
                    None => Err(FaultView::NotATable),
                }
            },
            Err(detail) => Err(FaultView::Reported(AppErrorView::ProfileTomlInvalid { detail })),
        },
        Err(error) => Err(FaultView::Reported(error)),
    }
}

/// The configuration with everything switched off that reports usage.
pub open spec fn private(doc: Group) -> Option<Group> {
    match doc.put_at("features"@, "telemetry"@, Node::fresh_flag(false)) {
        Some(doc) => match doc.put_at("telemetry"@, "trace_upload"@, Node::fresh_flag(false)) {
            Some(doc) => match doc.put_at(
                "telemetry"@,
                "mixpanel_enabled"@,
                Node::fresh_flag(false),
            ) {
                Some(doc) => doc.put_at(
                    "harness"@,
                    "disable_codebase_upload"@,
                    Node::fresh_flag(true),
                ),
                None => None,
            },
            None => None,
        },
        None => None,
    }
}

/// The configuration text with everything switched off that reports usage.
pub open spec fn private_text(text: Seq<char>) -> Result<Seq<char>, FaultView> {
    let doc = if is_blank(text) {
        Ok(Group::empty())
    } else {
        toml_parse(text)
    };
    match doc {
        Ok(doc) => match private(doc) {
            Some(tree) => Ok(toml_render(tree)),
            None => Err(FaultView::NotATable),
        },
        Err(detail) => Err(FaultView::Reported(AppErrorView::LiveTomlInvalid { detail })),
    }
}

// ---------------------------------------------------------------- documents

/// Reads the configuration that is to be changed.
pub fn parse_existing(text: &str) -> (r: Result<DocumentMut, AppError>)
    ensures
        match r {
            Ok(document) => existing_doc(text@) == Ok::<Group, AppErrorView>(document_tree(document))
                && document_tree(document).is_sound(),
            Err(error) => existing_doc(text@) == Err::<Group, AppErrorView>(error@),
        },
{
    if text.trim().is_empty() {
        proof {
            lemma_empty_is_sound();
        }
        return Ok(DocumentMut::new());
    }
    match parse_document(text) {
        Ok(document) => Ok(document),
        Err(detail) => Err(AppError::ExistingTomlInvalid { detail }),
    }
}

/// Sets one field as the profile has it, or removes it.
pub fn set_owned_key(live: &mut DocumentMut, profile: &DocumentMut, section: &str, key: &str) -> (r: bool)
    ensures
        match with_owned_key(
            document_tree(*old(live)),
            document_tree(*profile),
            section@,
            key@,
        ) {
            Some(tree) => r && document_tree(*final(live)) == tree,
            None => !r,
        },
{
    match lookup(profile, section, key) {
        Some(item) => put_at(live, section, key, item.clone()),
        None => {
            remove_at(live, section, key);
            true
        },
    }
}

/// Puts a profile into a configuration. Where a field would have to be written
/// under a name that holds something other than a table, the answer is `false`.
pub fn merge_profile_doc(live: &mut DocumentMut, profile: &DocumentMut) -> (r: bool)
    ensures
        match merged(document_tree(*old(live)), document_tree(*profile)) {
            Some(tree) => r && document_tree(*final(live)) == tree,
            None => !r,
        },
{
    let ghost doc = document_tree(*profile);
    if !set_owned_key(live, profile, "endpoints", "models_base_url") {
        return false;
    }
    if !set_owned_key(live, profile, "models", "default") {
        return false;
    }
    if !set_owned_key(live, profile, "models", "web_search") {
        return false;
    }
    match lookup(profile, "subagents", "models") {
        Some(routes) => {
            if !put_fitting(live, "subagents", "models", routes.clone()) {
                return false;
            }
        },
        None => {},
    }
    let ghost routed = document_tree(*live);
    let names = list_model_names(profile);
    let ghost listed = names_of(names@);
    let mut i: usize = 0;
    assert(listed.take(0) =~= Seq::empty());
    while i < names.len()
        invariant
            i <= names.len(),
            doc == document_tree(*profile),
            listed == names_of(names@),
            listed == model_names(doc),
            forall|name: Seq<char>| #[trigger]
                listed.contains(name) ==> crate::registry::models(doc) is Some
                    && crate::registry::models(doc)->0.get(name) is Some,
            merged(document_tree(*old(live)), doc) == with_models(routed, doc, listed),
            with_models(routed, doc, listed.take(i as int)) == Some(document_tree(*live)),
        decreases names.len() - i,
    {
        let name = names[i].as_str();
        proof {
            assert(listed.take(i + 1).drop_last() =~= listed.take(i as int));
            assert(listed.take(i + 1).last() == name@);
            assert(listed[i as int] == name@);
            assert(listed.contains(name@));
        }
        if !is_managed_cross_provider_model(live, name) {
            match lookup(profile, "model", name) {
                Some(model) => {
                    if !put_under(live, "model", name, model.clone()) {
                        proof {
                            lemma_with_models_none(routed, doc, listed, i + 1);
                        }
                        return false;
                    }
                },
                None => {},
            }
        }
        i += 1;
    }
    assert(listed.take(i as int) =~= listed);
    true
}

/// Once a model could not be written, the merge fails.
proof fn lemma_with_models_none(live: Group, profile: Group, names: Seq<Seq<char>>, i: int)
    requires
        0 <= i <= names.len(),
        with_models(live, profile, names.take(i)) is None,
    ensures
        with_models(live, profile, names) is None,
    decreases names.len() - i,
{
    if i < names.len() {
        assert(names.take(i + 1).drop_last() =~= names.take(i));
        lemma_with_models_none(live, profile, names, i + 1);
    } else {
        assert(names.take(i) =~= names);
    }
}

/// Removes address and selection from a configuration.
pub fn use_official_auth_doc(document: &mut DocumentMut)
    ensures
        document_tree(*final(document)) == official(document_tree(*old(document))),
{
    remove_at(document, "endpoints", "models_base_url");
    remove_at(document, "models", "default");
    remove_at(document, "models", "web_search");
}

/// Switches everything off that reports usage. Where a field would have to be
/// written under a name that holds something other than a table, the answer is
/// `false`.
pub fn apply_privacy_protection_doc(document: &mut DocumentMut) -> (r: bool)
    ensures
        match private(document_tree(*old(document))) {
            Some(tree) => r && document_tree(*final(document)) == tree,
            None => !r,
        },
{
    put_at(document, "features", "telemetry", flag_item(false)) && put_at(
        document,
        "telemetry",
        "trace_upload",
        flag_item(false),
    ) && put_at(document, "telemetry", "mixpanel_enabled", flag_item(false)) && put_at(
        document,
        "harness",
        "disable_codebase_upload",
        flag_item(true),
    )
}

// -------------------------------------------------------------------- texts

/// Removes the address and the selection from a configuration, so that Grok
/// falls back to the account that is logged in. The models stay.
pub fn use_official_auth_config_text(text: &str) -> (r: Result<String, AppError>)
    ensures
        text_result(r) == official_text(text@),
        reads_soundly(text@),
{
    match parse_existing(text) {
        Ok(document) => {
            let mut document = document;
            use_official_auth_doc(&mut document);
            Ok(render_document(&document))
        },
        Err(error) => Err(error),
    }
}

/// The outcome of [`merge_grok_profile_config_text`], or the fault that it has
/// no answer for.
pub(crate) fn merge_outcome(existing_text: &str, profile_text: &str) -> (r: Result<String, Fault>)
    ensures
        text_outcome(r) == merged_text(existing_text@, profile_text@),
        reads_soundly(existing_text@),
{
    let live = match parse_existing(existing_text) {
        Ok(live) => live,
        Err(error) => {
            return Err(Fault::Reported(error));
        },
    };
    let profile = match parse_document(profile_text) {
        Ok(profile) => profile,
        Err(detail) => {
            return Err(Fault::Reported(AppError::ProfileTomlInvalid { detail }));
        },
    };
    if profile_text.trim().is_empty() {
        return match use_official_auth_config_text(existing_text) {
            Ok(text) => Ok(text),
            Err(error) => Err(Fault::Reported(error)),
        };
    }
    if selected_model_table(&profile).is_none() {
        return Err(Fault::Reported(AppError::ProfileModelMissing));
    }
    let mut live = live;
    if merge_profile_doc(&mut live, &profile) {
        Ok(render_document(&live))
    } else {
        Err(Fault::NotATable)
    }
}

/// Puts a profile into a configuration and leaves everything else in it alone.
pub fn merge_grok_profile_config_text(existing_text: &str, profile_text: &str) -> (r: Result<
    String,
    AppError,
>)
    requires
        merged_text(existing_text@, profile_text@) != Err::<Seq<char>, FaultView>(
            FaultView::NotATable,
        ),
    ensures
        text_result(r) == reported(merged_text(existing_text@, profile_text@)),
        reads_soundly(existing_text@),
{
    match merge_outcome(existing_text, profile_text) {
        Ok(text) => Ok(text),
        Err(Fault::Reported(error)) => Err(error),
        Err(Fault::NotATable) => unreached(),
    }
}

/// [`merge_grok_profile_config_text`] where it has an answer; `None` where a
/// field would have to be written under a name that holds something other than
/// a table.
pub fn checked_merge_grok_profile_config_text(existing_text: &str, profile_text: &str) -> (r: Option<
    Result<String, AppError>,
>)
    ensures
        match r {
            Some(answer) => merged_text(existing_text@, profile_text@) != Err::<Seq<char>, FaultView>(
                FaultView::NotATable,
            ) && text_result(answer) == reported(merged_text(existing_text@, profile_text@)),
            None => merged_text(existing_text@, profile_text@) == Err::<Seq<char>, FaultView>(
                FaultView::NotATable,
            ),
        },
{
    match merge_outcome(existing_text, profile_text) {
        Err(Fault::NotATable) => None,
        _ => Some(merge_grok_profile_config_text(existing_text, profile_text)),
    }
}

/// The outcome of [`apply_privacy_protection_config_text`], or the fault that
/// it has no answer for.
pub(crate) fn privacy_outcome(text: &str) -> (r: Result<String, Fault>)
    ensures
        text_outcome(r) == private_text(text@),
{
    let parsed = if text.trim().is_empty() {
        Ok(DocumentMut::new())
    } else {
        parse_document(text)
    };
    match parsed {
        Ok(document) => {
            let mut document = document;
            if apply_privacy_protection_doc(&mut document) {
                Ok(render_document(&document))
            } else {
                Err(Fault::NotATable)
            }
        },
        Err(detail) => Err(Fault::Reported(AppError::LiveTomlInvalid { detail })),
    }
}

/// Switches everything off in a configuration that reports usage.
pub fn apply_privacy_protection_config_text(text: &str) -> (r: Result<String, AppError>)
    requires
        private_text(text@) != Err::<Seq<char>, FaultView>(FaultView::NotATable),
    ensures
        text_result(r) == reported(private_text(text@)),
{
    match privacy_outcome(text) {
        Ok(text) => Ok(text),
        Err(Fault::Reported(error)) => Err(error),
        Err(Fault::NotATable) => unreached(),
    }
}

/// [`apply_privacy_protection_config_text`] where it has an answer; `None`
/// where a field would have to be written under a name that holds something
/// other than a table.
pub fn checked_apply_privacy_protection_config_text(text: &str) -> (r: Option<
    Result<String, AppError>,
>)
    ensures
        match r {
            Some(answer) => private_text(text@) != Err::<Seq<char>, FaultView>(FaultView::NotATable)
                && text_result(answer) == reported(private_text(text@)),
            None => private_text(text@) == Err::<Seq<char>, FaultView>(FaultView::NotATable),
        },
{
    match privacy_outcome(text) {
        Err(Fault::NotATable) => None,
        _ => Some(apply_privacy_protection_config_text(text)),
    }
}

} // verus!
