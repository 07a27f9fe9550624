//! Writing a provider into a configuration.
use vstd::prelude::*;
use vstd::pervasive::unreached;
use vstd::string::*;
use indexmap::IndexMap;
use toml_edit::{DocumentMut, Item};
use crate::edit::put_at;
use crate::error::{
    reported, text_outcome, text_result, AppError, AppErrorView, Fault, FaultView,
};
use crate::profile::{
    existing_doc, merge_profile_doc, merged, official, parse_existing, reads_soundly,
    use_official_auth_config_text,
};
use crate::provider::{no_providers, provider_map, Provider, ProviderMap, ProviderView};
use crate::registry::{list_model_names, model_table, models};
use crate::routes::{apply_subagent_routes, routed};
use crate::selection::{
    api_backend_from_format, auth_api_key, auth_key, backend_of_format, provider_profile,
    provider_profile_doc, GROK_PROXY_TOKEN_PLACEHOLDER,
};
use crate::text::{lemma_take_set, names_of, opt_str};
use crate::toml::{
    document_put, document_tree, item_get, item_put, item_tree, parse_document, render_document,
    text_item, toml_parse, toml_render,
};
use crate::tree::{is_partly_mapped, lemma_mapped_all, lemma_mapped_step, Group, Node};

verus! {

// ---------------------------------------------------------------- the model

/// What the caller sets in place of what the provider says.
pub struct Overrides {
    pub base_url: Option<Seq<char>>,
    pub api_key: Option<Seq<char>>,
    pub api_backend: Option<Seq<char>>,
}

/// A model of the provider, as it is to stand in the configuration. The address
/// is set where the caller gives one. The key of the caller always wins; that of
/// the provider is for a model without a key. The same holds of the backend.
pub open spec fn patched_model(model: Group, provider: ProviderView, over: Overrides) -> Group {
    let addressed = match over.base_url {
        Some(url) => model.put("base_url"@, Node::fresh_text(url)),
        None => model,
    };
    let keyed = match over.api_key {
        Some(key) => addressed.put("api_key"@, Node::fresh_text(key)),
        None => match auth_key(provider.settings) {
            Some(key) => if addressed.get("api_key"@) is None && addressed.get("env_key"@) is None {
                addressed.put("api_key"@, Node::fresh_text(key))
            } else {
                addressed
            },
            None => addressed,
        },
    };
    match over.api_backend {
        Some(backend) => keyed.put("api_backend"@, Node::fresh_text(backend)),
        None => match backend_of_format(provider.api_format) {
            Some(backend) => if keyed.get("api_backend"@) is None {
                keyed.put("api_backend"@, Node::fresh_text(backend))
            } else {
                keyed
            },
            None => keyed,
        },
    }
}

/// The configuration of a provider with `f` applied to each model.
pub open spec fn with_each_model(doc: Group, f: spec_fn(Group) -> Group) -> Group {
    match models(doc) {
        Some(models) => doc.put("model"@, Node::Table(models.map_tables(f))),
        None => doc,
    }
}

/// The configuration of a provider, as it is to be put into another one.
pub open spec fn patched_profile(
    doc: Group,
    provider: ProviderView,
    over: Overrides,
) -> Option<Group> {
    let doc = with_each_model(doc, |model: Group| patched_model(model, provider, over));
    match over.base_url {
        Some(url) => doc.put_at("endpoints"@, "models_base_url"@, Node::fresh_text(url)),
        None => Some(doc),
    }
}

/// The configuration with the provider in it, and its routes.
pub open spec fn patched(
    live: Group,
    provider: ProviderView,
    all: ProviderMap,
    over: Overrides,
) -> Result<Group, FaultView> {
    match provider_profile(provider) {
        Ok(doc) => match patched_profile(doc, provider, over) {
            Some(profile) => match merged(live, profile) {
                Some(tree) => routed(tree, provider, all),
                None => Err(FaultView::NotATable),
            },
            None => Err(FaultView::NotATable),
        },
        Err(error) => Err(FaultView::Reported(error)),
    }
}

/// The configuration of the official account, with its routes. The account has
/// no address and no key of its own that could be replaced.
pub open spec fn patched_official(
    live: Group,
    provider: ProviderView,
    all: ProviderMap,
    over: Overrides,
) -> Result<Group, FaultView> {
    if over.base_url is Some || over.api_key is Some {
        Err(FaultView::Reported(AppErrorView::OfficialProxyUnsupported))
    } else {
        match toml_parse(toml_render(official(live))) {
            Ok(doc) => routed(doc, provider, all),
            Err(detail) => Err(FaultView::Reported(AppErrorView::ExistingTomlInvalid { detail })),
        }
    }
}

/// The configuration text with the provider in it.
pub open spec fn patched_text(
    existing: Seq<char>,
    provider: ProviderView,
    all: ProviderMap,
    over: Overrides,
) -> Result<Seq<char>, FaultView> {
    match existing_doc(existing) {
        Ok(live) => {
            let tree = if provider.is_official() {
                patched_official(live, provider, all, over)
            } else {
                patched(live, provider, all, over)
            };
            match tree {
                Ok(tree) => Ok(toml_render(tree)),
                Err(fault) => Err(fault),
            }
        },
        Err(error) => Err(FaultView::Reported(error)),
    }
}

/// The overrides that the arguments of the functions below stand for.
pub open spec fn overrides(
    base_url: Option<&str>,
    api_key: Option<&str>,
    api_backend: Option<&str>,
) -> Overrides {
    Overrides {
        base_url: opt_str(base_url),
        api_key: opt_str(api_key),
        api_backend: opt_str(api_backend),
    }
}

/// What a takeover by the proxy sets: its address, and the placeholder as key.
pub open spec fn takeover(proxy_base_url: Seq<char>) -> Overrides {
    Overrides {
        base_url: Some(proxy_base_url),
        api_key: Some(GROK_PROXY_TOKEN_PLACEHOLDER@),
        api_backend: None,
    }
}

// ---------------------------------------------------------------- documents

/// Sets the fields of one model.
fn patch_model(
    model: &mut Item,
    provider: &Provider,
    base_url_override: Option<&str>,
    api_key_override: Option<&str>,
    api_backend_override: Option<&str>,
)
    requires
        item_tree(*old(model)) is Table,
    ensures
        item_tree(*final(model)) == Node::Table(
            patched_model(
                item_tree(*old(model))->Table_0,
                provider@,
                overrides(base_url_override, api_key_override, api_backend_override),
            ),
        ),
{
    match base_url_override {
        Some(url) => {
            item_put(model, "base_url", text_item(url));
        },
        None => {},
    }
    match api_key_override {
        Some(key) => {
            item_put(model, "api_key", text_item(key));
        },
        None => match auth_api_key(&provider.settings_config) {
            Some(key) => {
                if item_get(model, "api_key").is_none() && item_get(model, "env_key").is_none() {
                    item_put(model, "api_key", text_item(key.as_str()));
                }
            },
            None => {},
        },
    }
    match api_backend_override {
        Some(backend) => {
            item_put(model, "api_backend", text_item(backend));
        },
        None => {
            let format = match &provider.meta {
                Some(meta) => match &meta.api_format {
                    Some(format) => Some(format.as_str()),
                    None => None,
                },
                None => None,
            };
            match api_backend_from_format(format) {
                Some(backend) => {
                    if item_get(model, "api_backend").is_none() {
                        item_put(model, "api_backend", text_item(backend));
                    }
                },
                None => {},
            }
        },
    }
}

/// Sets the fields of each model.
fn patch_models(
    document: &mut DocumentMut,
    provider: &Provider,
    base_url_override: Option<&str>,
    api_key_override: Option<&str>,
    api_backend_override: Option<&str>,
)
    ensures
        document_tree(*final(document)) == with_each_model(
            document_tree(*old(document)),
            |model: Group|
                patched_model(
                    model,
                    provider@,
                    overrides(base_url_override, api_key_override, api_backend_override),
                ),
        ),
{
    let ghost doc = document_tree(*document);
    let ghost over = overrides(base_url_override, api_key_override, api_backend_override);
    let ghost f = |model: Group| patched_model(model, provider@, over);
    let mut table = match model_table(document) {
        Some(table) => table.clone(),
        None => {
            return;
        },
    };
    let names = list_model_names(document);
    let ghost listed = names_of(names@);
    let ghost before = models(doc)->0;
    let mut i: usize = 0;
    while i < names.len()
        invariant
            i <= names.len(),
            over == overrides(base_url_override, api_key_override, api_backend_override),
            f == (|model: Group| patched_model(model, provider@, over)),
            listed == names_of(names@),
            listed.no_duplicates(),
            forall|name: Seq<char>| #[trigger] listed.contains(name) <==> before.get(name) is Some,
            item_tree(table) is Table,
            is_partly_mapped(item_tree(table)->Table_0, before, f, listed.take(i as int).to_set()),
        decreases names.len() - i,
    {
        let name = names[i].as_str();
        let ghost done = listed.take(i as int).to_set();
        proof {
            assert(listed[i as int] == name@);
            assert(listed.contains(name@));
            assert(!done.contains(name@));
            lemma_mapped_step(item_tree(table)->Table_0, before, f, done, name@);
            lemma_take_set(listed, i as int);
        }
        let found = match item_get(&table, name) {
            Some(item) => if item.is_table() {
                Some(item.clone())
            } else {
                None
            },
            None => None,
        };
        match found {
            Some(model) => {
                let mut model = model;
                patch_model(
                    &mut model,
                    provider,
                    base_url_override,
                    api_key_override,
                    api_backend_override,
                );
                item_put(&mut table, name, model);
            },
            None => {},
        }
        i += 1;
    }
    proof {
        assert(listed.take(i as int) =~= listed);
        assert forall|name: Seq<char>| before.get(name) is Some implies #[trigger] listed.to_set().contains(
            name,
        ) by {
            assert(listed.contains(name));
        }
        lemma_mapped_all(item_tree(table)->Table_0, before, f, listed.to_set());
    }
    document_put(document, "model", table);
}

/// Puts a provider into a configuration, with its routes.
fn patch_document(
    live: &mut DocumentMut,
    provider: &Provider,
    all_providers: &IndexMap<String, Provider>,
    base_url_override: Option<&str>,
    api_key_override: Option<&str>,
    api_backend_override: Option<&str>,
) -> (r: Result<(), Fault>)
    ensures
        match patched(
            document_tree(*old(live)),
            provider@,
            provider_map(*all_providers),
            overrides(base_url_override, api_key_override, api_backend_override),
        ) {
            Ok(tree) => r is Ok && document_tree(*final(live)) == tree,
            Err(fault) => r is Err && r->Err_0@ == fault,
        },
{
    let mut profile = match provider_profile_doc(provider) {
        Ok(profile) => profile,
        Err(error) => {
            return Err(Fault::Reported(error));
        },
    };
    patch_models(
        &mut profile,
        provider,
        base_url_override,
        api_key_override,
        api_backend_override,
    );
    match base_url_override {
        Some(url) => {
            if !put_at(&mut profile, "endpoints", "models_base_url", text_item(url)) {
                return Err(Fault::NotATable);
            }
        },
        None => {},
    }
    if !merge_profile_doc(live, &profile) {
        return Err(Fault::NotATable);
    }
    apply_subagent_routes(live, provider, all_providers)
}

// -------------------------------------------------------------------- texts

/// The outcome of [`patch_config_text_for_provider_with_routes`], or the fault
/// that it has no answer for.
pub(crate) fn patch_outcome(
    existing_text: &str,
    provider: &Provider,
    all_providers: &IndexMap<String, Provider>,
    base_url_override: Option<&str>,
    api_key_override: Option<&str>,
    api_backend_override: Option<&str>,
) -> (r: Result<String, Fault>)
    ensures
        text_outcome(r) == patched_text(
            existing_text@,
            provider@,
            provider_map(*all_providers),
            overrides(base_url_override, api_key_override, api_backend_override),
        ),
        reads_soundly(existing_text@),
{
    let mut live = match parse_existing(existing_text) {
        Ok(live) => live,
        Err(error) => {
            return Err(Fault::Reported(error));
        },
    };
    if provider.is_official() {
        if base_url_override.is_some() || api_key_override.is_some() {
            return Err(Fault::Reported(AppError::OfficialProxyUnsupported));
        }
        let cleaned = match use_official_auth_config_text(existing_text) {
            Ok(cleaned) => cleaned,
            Err(error) => {
                return Err(Fault::Reported(error));
            },
        };
        let mut document = match parse_document(cleaned.as_str()) {
            Ok(document) => document,
            Err(detail) => {
                return Err(Fault::Reported(AppError::ExistingTomlInvalid { detail }));
            },
        };
        return match apply_subagent_routes(&mut document, provider, all_providers) {
            Ok(_) => Ok(render_document(&document)),
            Err(fault) => Err(fault),
        };
    }
    match patch_document(
        &mut live,
        provider,
        all_providers,
        base_url_override,
        api_key_override,
        api_backend_override,
    ) {
        Ok(_) => Ok(render_document(&live)),
        Err(fault) => Err(fault),
    }
}

/// Writes a provider into a configuration: the address, the selection, the
/// routes and the models. Everything else stays as it is.
///
/// The caller can set address, key and backend in place of those of the
/// provider. The other providers define the models that routes refer to.
pub fn patch_config_text_for_provider_with_routes(
    existing_text: &str,
    provider: &Provider,
    all_providers: &IndexMap<String, Provider>,
    base_url_override: Option<&str>,
    api_key_override: Option<&str>,
    api_backend_override: Option<&str>,
) -> (r: Result<String, AppError>)
    requires
        patched_text(
            existing_text@,
            provider@,
            provider_map(*all_providers),
            overrides(base_url_override, api_key_override, api_backend_override),
        ) != Err::<Seq<char>, FaultView>(FaultView::NotATable),
    ensures
        text_result(r) == reported(
            patched_text(
                existing_text@,
                provider@,
                provider_map(*all_providers),
                overrides(base_url_override, api_key_override, api_backend_override),
            ),
        ),
        reads_soundly(existing_text@),
{
    match patch_outcome(
        existing_text,
        provider,
        all_providers,
        base_url_override,
        api_key_override,
        api_backend_override,
    ) {
        Ok(text) => Ok(text),
        Err(Fault::Reported(error)) => Err(error),
        Err(Fault::NotATable) => unreached(),
    }
}

/// [`patch_config_text_for_provider_with_routes`] where it has an answer;
/// `None` where a field would have to be written under a name that holds
/// something other than a table.
pub fn checked_patch_config_text_for_provider_with_routes(
    existing_text: &str,
    provider: &Provider,
    all_providers: &IndexMap<String, Provider>,
    base_url_override: Option<&str>,
    api_key_override: Option<&str>,
    api_backend_override: Option<&str>,
) -> (r: Option<Result<String, AppError>>)
    ensures
        ({
            let outcome = patched_text(
                existing_text@,
                provider@,
                provider_map(*all_providers),
                overrides(base_url_override, api_key_override, api_backend_override),
            );
            match r {
                Some(answer) => outcome != Err::<Seq<char>, FaultView>(FaultView::NotATable)
                    && text_result(answer) == reported(outcome),
                None => outcome == Err::<Seq<char>, FaultView>(FaultView::NotATable),
            }
        }),
{
    match patch_outcome(
        existing_text,
        provider,
        all_providers,
        base_url_override,
        api_key_override,
        api_backend_override,
    ) {
        Err(Fault::NotATable) => None,
        _ => Some(
            patch_config_text_for_provider_with_routes(
                existing_text,
                provider,
                all_providers,
                base_url_override,
                api_key_override,
                api_backend_override,
            ),
        ),
    }
}

/// [`patch_config_text_for_provider_with_routes`] with no other provider at
/// hand: a route to one is good only where the model has been copied already.
pub fn patch_config_text_for_provider(
    existing_text: &str,
    provider: &Provider,
    base_url_override: Option<&str>,
    api_key_override: Option<&str>,
    api_backend_override: Option<&str>,
) -> (r: Result<String, AppError>)
    requires
        patched_text(
            existing_text@,
            provider@,
            Map::empty(),
            overrides(base_url_override, api_key_override, api_backend_override),
        ) != Err::<Seq<char>, FaultView>(FaultView::NotATable),
    ensures
        text_result(r) == reported(
            patched_text(
                existing_text@,
                provider@,
                Map::empty(),
                overrides(base_url_override, api_key_override, api_backend_override),
            ),
        ),
        reads_soundly(existing_text@),
{
    let none = no_providers();
    patch_config_text_for_provider_with_routes(
        existing_text,
        provider,
        &none,
        base_url_override,
        api_key_override,
        api_backend_override,
    )
}

/// [`patch_config_text_for_provider`] where it has an answer; `None` where a
/// field would have to be written under a name that holds something other than
/// a table.
pub fn checked_patch_config_text_for_provider(
    existing_text: &str,
    provider: &Provider,
    base_url_override: Option<&str>,
    api_key_override: Option<&str>,
    api_backend_override: Option<&str>,
) -> (r: Option<Result<String, AppError>>)
    ensures
        ({
            let outcome = patched_text(
                existing_text@,
                provider@,
                Map::empty(),
                overrides(base_url_override, api_key_override, api_backend_override),
            );
            match r {
                Some(answer) => outcome != Err::<Seq<char>, FaultView>(FaultView::NotATable)
                    && text_result(answer) == reported(outcome),
                None => outcome == Err::<Seq<char>, FaultView>(FaultView::NotATable),
            }
        }),
{
    let none = no_providers();
    match patch_outcome(
        existing_text,
        provider,
        &none,
        base_url_override,
        api_key_override,
        api_backend_override,
    ) {
        Err(Fault::NotATable) => None,
        _ => Some(
            patch_config_text_for_provider(
                existing_text,
                provider,
                base_url_override,
                api_key_override,
                api_backend_override,
            ),
        ),
    }
}

/// The configuration text of a provider that is switched to; `None` where a
/// field would have to be written under a name that holds something other than
/// a table.
pub fn provider_live_text(
    existing_text: &str,
    provider: &Provider,
    all_providers: &IndexMap<String, Provider>,
) -> (r: Option<Result<String, AppError>>)
    ensures
        ({
            let outcome = patched_text(
                existing_text@,
                provider@,
                provider_map(*all_providers),
                (Overrides { base_url: None, api_key: None, api_backend: None }),
            );
            match r {
                Some(answer) => outcome != Err::<Seq<char>, FaultView>(FaultView::NotATable)
                    && text_result(answer) == reported(outcome),
                None => outcome == Err::<Seq<char>, FaultView>(FaultView::NotATable),
            }
        }),
{
    checked_patch_config_text_for_provider_with_routes(
        existing_text,
        provider,
        all_providers,
        None,
        None,
        None,
    )
}

/// The configuration text of a provider that the proxy takes over: each of its
/// models gets the address of the proxy, and the placeholder as key. `None`
/// where a field would have to be written under a name that holds something
/// other than a table.
pub fn takeover_live_text(
    existing_text: &str,
    provider: &Provider,
    proxy_base_url: &str,
    all_providers: &IndexMap<String, Provider>,
) -> (r: Option<Result<String, AppError>>)
    ensures
        ({
            let outcome = patched_text(
                existing_text@,
                provider@,
                provider_map(*all_providers),
                takeover(proxy_base_url@),
            );
            match r {
                Some(answer) => outcome != Err::<Seq<char>, FaultView>(FaultView::NotATable)
                    && text_result(answer) == reported(outcome),
                None => outcome == Err::<Seq<char>, FaultView>(FaultView::NotATable),
            }
        }),
{
    checked_patch_config_text_for_provider_with_routes(
        existing_text,
        provider,
        all_providers,
        Some(proxy_base_url),
        Some(GROK_PROXY_TOKEN_PLACEHOLDER),
        None,
    )
}

} // verus!
