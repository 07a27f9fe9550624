//! The model that a configuration selects, and what is read from it.
use vstd::prelude::*;
use vstd::string::*;
use toml_edit::{DocumentMut, Item};
use crate::edit::{item_text, lookup, lookup_text};
use crate::error::{AppError, AppErrorView};
use crate::json::{json_get, json_tree, Json};
use crate::provider::{Provider, ProviderView};
use crate::registry::{has_model, list_model_names, model_names};
use crate::text::{lowered, names_of, opt_str, opt_string, trimmed};
use crate::toml::{document_tree, item_tree, parse_document, toml_parse};
use crate::tree::{first_where, lemma_first_where_found, lemma_first_where_none, Group, Node};

verus! {

/// The name that a model has where the library chooses one.
pub const CC_SWITCH_GROK_MODEL_ID: &'static str = "ccswitch";

/// The key that stands in a configuration while the proxy holds the real one.
pub const GROK_PROXY_TOKEN_PLACEHOLDER: &'static str = "PROXY_MANAGED";

// ---------------------------------------------------------------- the model

/// The table `[model.<name>]`.
pub open spec fn model_group(doc: Group, name: Seq<char>) -> Option<Group> {
    match doc.at("model"@, name) {
        Some(Node::Table(model)) => Some(model),
        _ => None,
    }
}

/// The model that a configuration selects: the default one, else the one with
/// the name that the library chooses, else the first.
pub open spec fn selected_model(doc: Group) -> Option<Group> {
    let active = match doc.text_at("models"@, "default"@) {
        Some(name) => model_group(doc, name),
        None => None,
    };
    let chosen = model_group(doc, CC_SWITCH_GROK_MODEL_ID@);
    if active is Some {
        active
    } else if chosen is Some {
        chosen
    } else {
        match first_where(model_names(doc), |name: Seq<char>| has_model(doc, name)) {
            Some(name) => model_group(doc, name),
            None => None,
        }
    }
}

/// The key of a provider: the first of the known names that holds a string,
/// without white space around it, unless nothing is left.
pub open spec fn auth_key(settings: Json) -> Option<Seq<char>> {
    match settings.member("auth"@) {
        Some(auth) => {
            let found = if auth.member_text("OPENAI_API_KEY"@) is Some {
                auth.member_text("OPENAI_API_KEY"@)
            } else if auth.member_text("XAI_API_KEY"@) is Some {
                auth.member_text("XAI_API_KEY"@)
            } else {
                auth.member_text("GROK_API_KEY"@)
            };
            match found {
                Some(key) => if trimmed(key).len() > 0 {
                    Some(trimmed(key))
                } else {
                    None
                },
                None => None,
            }
        },
        None => None,
    }
}

/// The backend that goes with the format of a provider.
pub open spec fn backend_of_format(format: Option<Seq<char>>) -> Option<Seq<char>> {
    match format {
        Some(format) => {
            let f = lowered(trimmed(format));
            if f == "chat"@ || f == "chat_completions"@ || f == "chat-completions"@ || f == "openai_chat"@
                || f == "openai-chat"@ {
                Some("chat_completions"@)
            } else if f == "responses"@ || f == "openai_responses"@ || f == "openai-responses"@ {
                Some("responses"@)
            } else {
                None
            }
        },
        None => None,
    }
}

/// The format that goes with the backend of a model.
pub open spec fn format_of_backend(backend: Option<Seq<char>>) -> Seq<char> {
    match backend {
        Some(backend) => {
            let b = lowered(trimmed(backend));
            if b == "chat"@ || b == "chat_completions"@ || b == "chat-completions"@ {
                "openai_chat"@
            } else {
                "openai_responses"@
            }
        },
        None => "openai_responses"@,
    }
}

/// The configuration of a provider.
pub open spec fn provider_doc(provider: ProviderView) -> Result<Group, AppErrorView> {
    match provider.settings.member_text("config"@) {
        Some(text) => match toml_parse(text) {
            Ok(doc) => Ok(doc),
            Err(detail) => Err(AppErrorView::ConfigTomlInvalid { detail }),
        },
        None => Err(AppErrorView::ConfigMissing),
    }
}

/// The configuration of a provider, which selects some model.
pub open spec fn provider_profile(provider: ProviderView) -> Result<Group, AppErrorView> {
    match provider_doc(provider) {
        Ok(doc) => if selected_model(doc) is Some {
            Ok(doc)
        } else {
            Err(AppErrorView::ProviderModelMissing)
        },
        Err(error) => Err(error),
    }
}

/// The backend of the model that the configuration in some settings selects.
pub open spec fn backend_in_settings(settings: Json) -> Option<Seq<char>> {
    match settings.member_text("config"@) {
        Some(text) => match toml_parse(text) {
            Ok(doc) => match selected_model(doc) {
                Some(model) => model.text("api_backend"@),
                None => None,
            },
            Err(_) => None,
        },
        None => None,
    }
}

/// The model keeps the placeholder of the proxy as its key.
pub open spec fn has_placeholder(doc: Group, name: Seq<char>) -> bool {
    match model_group(doc, name) {
        Some(model) => model.text("api_key"@) == Some(GROK_PROXY_TOKEN_PLACEHOLDER@),
        None => false,
    }
}

/// Some model under `[model.*]` keeps the placeholder of the proxy as its key.
pub open spec fn any_placeholder(doc: Group) -> bool {
    exists|i: int|
        0 <= i < model_names(doc).len() && has_placeholder(doc, #[trigger] model_names(doc)[i])
}

/// Where a configuration sends its requests: the address of the selected model,
/// else the common one.
pub open spec fn base_url(doc: Group) -> Option<Seq<char>> {
    let of_model = match selected_model(doc) {
        Some(model) => model.text("base_url"@),
        None => None,
    };
    if of_model is Some {
        of_model
    } else {
        doc.text_at("endpoints"@, "models_base_url"@)
    }
}

// ------------------------------------------------------------------ reading

/// `[model.<name>]`, if it is a table under a header.
fn find_model<'a>(document: &'a DocumentMut, name: &str) -> (r: Option<&'a Item>)
    ensures
        match r {
            Some(item) => model_group(document_tree(*document), name@) is Some && item_tree(*item)
                == Node::Table(model_group(document_tree(*document), name@)->0),
            None => model_group(document_tree(*document), name@) is None,
        },
{
    match lookup(document, "model", name) {
        Some(item) => if item.is_table() {
            Some(item)
        } else {
            None
        },
        None => None,
    }
}

/// The model that a configuration selects.
pub fn selected_model_table(document: &DocumentMut) -> (r: Option<&Item>)
    ensures
        match r {
            Some(item) => selected_model(document_tree(*document)) is Some && item_tree(*item)
                == Node::Table(selected_model(document_tree(*document))->0),
            None => selected_model(document_tree(*document)) is None,
        },
{
    let ghost doc = document_tree(*document);
    match lookup_text(document, "models", "default") {
        Some(name) => match find_model(document, name) {
            Some(model) => {
                return Some(model);
            },
            None => {},
        },
        None => {},
    }
    match find_model(document, CC_SWITCH_GROK_MODEL_ID) {
        Some(model) => {
            return Some(model);
        },
        None => {},
    }
    let names = list_model_names(document);
    let ghost listed = names_of(names@);
    let ghost is_model = |name: Seq<char>| has_model(doc, name);
    let mut i: usize = 0;
    while i < names.len()
        invariant
            i <= names.len(),
            doc == document_tree(*document),
            listed == names_of(names@),
            listed == model_names(doc),
            is_model == (|name: Seq<char>| has_model(doc, name)),
            match doc.text_at("models"@, "default"@) {
                Some(name) => model_group(doc, name) is None,
                None => true,
            },
            model_group(doc, CC_SWITCH_GROK_MODEL_ID@) is None,
            forall|j: int| 0 <= j < i ==> !is_model(#[trigger] listed[j]),
        decreases names.len() - i,
    {
        assert(listed[i as int] == names@[i as int]@);
        match find_model(document, names[i].as_str()) {
            Some(model) => {
                proof {
                    lemma_first_where_found(listed, is_model, i as int);
                }
                return Some(model);
            },
            None => {},
        }
        i += 1;
    }
    proof {
        lemma_first_where_none(listed, is_model);
    }
    None
}

/// The key of a provider.
pub fn auth_api_key(settings: &serde_json::Value) -> (r: Option<String>)
    ensures
        opt_string(r) == auth_key(json_tree(*settings)),
{
    let auth = match json_get(settings, "auth") {
        Some(auth) => auth,
        None => {
            return None;
        },
    };
    let found = match json_text_of(auth, "OPENAI_API_KEY") {
        Some(key) => Some(key),
        None => match json_text_of(auth, "XAI_API_KEY") {
            Some(key) => Some(key),
            None => json_text_of(auth, "GROK_API_KEY"),
        },
    };
    match found {
        Some(key) => {
            let key = key.trim();
            if key.is_empty() {
                None
            } else {
                Some(key.to_owned())
            }
        },
        None => None,
    }
}

/// The string under `name` of a JSON object.
pub(crate) fn json_text_of<'a>(value: &'a serde_json::Value, name: &str) -> (r: Option<&'a str>)
    ensures
        opt_str(r) == json_tree(*value).member_text(name@),
{
    match json_get(value, name) {
        Some(member) => member.as_str(),
        None => None,
    }
}

/// The backend that goes with the format of a provider.
pub fn api_backend_from_format(format: Option<&str>) -> (r: Option<&'static str>)
    ensures
        opt_str(r) == backend_of_format(opt_str(format)),
{
    let format = match format {
        Some(format) => format.trim().to_ascii_lowercase(),
        None => {
            return None;
        },
    };
    let f = format.as_str();
    if str::eq(f, "chat") || str::eq(f, "chat_completions") || str::eq(f, "chat-completions") || str::eq(
        f,
        "openai_chat",
    ) || str::eq(f, "openai-chat") {
        Some("chat_completions")
    } else if str::eq(f, "responses") || str::eq(f, "openai_responses") || str::eq(
        f,
        "openai-responses",
    ) {
        Some("responses")
    } else {
        None
    }
}

/// The format that goes with the backend of a model.
pub fn api_format_from_backend(backend: Option<&str>) -> (r: &'static str)
    ensures
        r@ == format_of_backend(opt_str(backend)),
{
    let backend = match backend {
        Some(backend) => backend.trim().to_ascii_lowercase(),
        None => {
            return "openai_responses";
        },
    };
    let b = backend.as_str();
    if str::eq(b, "chat") || str::eq(b, "chat_completions") || str::eq(b, "chat-completions") {
        "openai_chat"
    } else {
        "openai_responses"
    }
}

/// The configuration of a provider.
pub fn provider_config_doc(provider: &Provider) -> (r: Result<DocumentMut, AppError>)
    ensures
        match r {
            Ok(document) => provider_doc(provider@) == Ok::<Group, AppErrorView>(document_tree(document))
                && document_tree(document).is_sound(),
            Err(error) => provider_doc(provider@) == Err::<Group, AppErrorView>(error@),
        },
{
    match json_text_of(&provider.settings_config, "config") {
        Some(text) => match parse_document(text) {
            Ok(document) => Ok(document),
            Err(detail) => Err(AppError::ConfigTomlInvalid { detail }),
        },
        None => Err(AppError::ConfigMissing),
    }
}

/// The configuration of a provider, which selects some model.
pub fn provider_profile_doc(provider: &Provider) -> (r: Result<DocumentMut, AppError>)
    ensures
        match r {
            Ok(document) => provider_profile(provider@) == Ok::<Group, AppErrorView>(
                document_tree(document),
            ) && document_tree(document).is_sound(),
            Err(error) => provider_profile(provider@) == Err::<Group, AppErrorView>(error@),
        },
{
    match provider_config_doc(provider) {
        Ok(document) => {
            if selected_model_table(&document).is_some() {
                Ok(document)
            } else {
                Err(AppError::ProviderModelMissing)
            }
        },
        Err(error) => Err(error),
    }
}

/// The format that a provider speaks, as far as its settings tell.
pub fn infer_api_format_from_settings(settings: &serde_json::Value) -> (r: &'static str)
    ensures
        r@ == format_of_backend(backend_in_settings(json_tree(*settings))),
{
    match json_text_of(settings, "config") {
        Some(text) => match parse_document(text) {
            Ok(document) => api_format_of_document(&document),
            Err(_) => api_format_from_backend(None),
        },
        None => api_format_from_backend(None),
    }
}

/// The format that goes with the model that a configuration selects.
pub fn api_format_of_document(document: &DocumentMut) -> (r: &'static str)
    ensures
        r@ == format_of_backend(
            match selected_model(document_tree(*document)) {
                Some(model) => model.text("api_backend"@),
                None => None,
            },
        ),
{
    match selected_model_table(document) {
        Some(model) => api_format_from_backend(item_text(model, "api_backend")),
        None => api_format_from_backend(None),
    }
}

/// Whether a model keeps the placeholder of the proxy as its key.
pub fn model_has_placeholder(document: &DocumentMut, name: &str) -> (r: bool)
    ensures
        r == has_placeholder(document_tree(*document), name@),
{
    match find_model(document, name) {
        Some(model) => match item_text(model, "api_key") {
            Some(key) => str::eq(key, GROK_PROXY_TOKEN_PLACEHOLDER),
            None => false,
        },
        None => false,
    }
}

/// Whether some model keeps the placeholder of the proxy as its key.
pub fn document_has_proxy_placeholder(document: &DocumentMut) -> (r: bool)
    ensures
        r == any_placeholder(document_tree(*document)),
{
    let ghost doc = document_tree(*document);
    let names = list_model_names(document);
    let ghost listed = names_of(names@);
    let mut i: usize = 0;
    while i < names.len()
        invariant
            i <= names.len(),
            doc == document_tree(*document),
            listed == names_of(names@),
            listed == model_names(doc),
            forall|j: int| 0 <= j < i ==> !has_placeholder(doc, #[trigger] listed[j]),
        decreases names.len() - i,
    {
        assert(listed[i as int] == names@[i as int]@);
        if model_has_placeholder(document, names[i].as_str()) {
            return true;
        }
        i += 1;
    }
    false
}

/// Whether a configuration is in the hands of the proxy.
pub fn config_text_has_proxy_placeholder(text: &str) -> (r: bool)
    ensures
        r == match toml_parse(text@) {
            Ok(doc) => any_placeholder(doc),
            Err(_) => false,
        },
{
    match parse_document(text) {
        Ok(document) => document_has_proxy_placeholder(&document),
        Err(_) => false,
    }
}

/// Where a configuration sends its requests.
pub fn document_base_url(document: &DocumentMut) -> (r: Option<String>)
    ensures
        opt_string(r) == base_url(document_tree(*document)),
{
    let of_model = match selected_model_table(document) {
        Some(model) => item_text(model, "base_url"),
        None => None,
    };
    match of_model {
        Some(url) => Some(url.to_owned()),
        None => match lookup_text(document, "endpoints", "models_base_url") {
            Some(url) => Some(url.to_owned()),
            None => None,
        },
    }
}

/// Where a configuration sends its requests, if it is one.
pub fn active_base_url(text: &str) -> (r: Option<String>)
    ensures
        opt_string(r) == match toml_parse(text@) {
            Ok(doc) => base_url(doc),
            Err(_) => None,
        },
{
    match parse_document(text) {
        Ok(document) => document_base_url(&document),
        Err(_) => None,
    }
}

/// Refuses a text that is no TOML. What it accepts reads as a sound document.
pub fn validate_config_toml(text: &str) -> (r: Result<(), AppError>)
    ensures
        match r {
            Ok(_) => toml_parse(text@) is Ok && toml_parse(text@)->Ok_0.is_sound(),
            Err(error) => toml_parse(text@) is Err && error@ == (AppErrorView::ConfigTomlInvalid {
                detail: toml_parse(text@)->Err_0,
            }),
        },
{
    match parse_document(text) {
        Ok(_) => Ok(()),
        Err(detail) => Err(AppError::ConfigTomlInvalid { detail }),
    }
}

} // verus!
