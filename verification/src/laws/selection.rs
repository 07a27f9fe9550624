//! The selected model, what is read from it, keys, formats and backends.
use vstd::prelude::*;
use crate::error::AppErrorView;
use crate::json::Json;
use crate::laws::registry::law_sound_documents_have_sound_tables;
use crate::laws::texts::is_redirected;
use crate::provider::ProviderView;
use crate::registry::{has_model, model_names, models};
use crate::selection::{
    any_placeholder, auth_key, backend_in_settings, backend_of_format, base_url, format_of_backend,
    has_placeholder, provider_doc, provider_profile, selected_model,
};
use crate::text::{is_blank, is_white_space, lowered, trimmed};
use crate::toml::toml_parse;
use crate::tree::{
    first_where, lemma_first_where_found, lemma_first_where_none, lemma_names, Group, Node,
};

verus! {

/// A text in lower case without white space at its ends.
proof fn lemma_plain(s: Seq<char>)
    requires
        s.len() > 0,
        !is_white_space(s.first()),
        !is_white_space(s.last()),
        forall|i: int| 0 <= i < s.len() ==> !('A' <= #[trigger] s[i] <= 'Z'),
    ensures
        lowered(trimmed(s)) == s,
{
    assert(trimmed(s) == s);
    assert(lowered(s) =~= s);
}

/// Whatever the backend of a model, the format that goes with it has a backend,
/// and that one has the same format.
pub proof fn law_format_of_a_backend_has_that_backend(backend: Option<Seq<char>>)
    ensures
        backend_of_format(Some(format_of_backend(backend))) is Some,
        format_of_backend(backend_of_format(Some(format_of_backend(backend)))) == format_of_backend(
            backend,
        ),
{
    reveal_strlit("openai_chat");
    reveal_strlit("openai_responses");
    reveal_strlit("chat_completions");
    reveal_strlit("responses");
    reveal_strlit("chat");
    reveal_strlit("chat-completions");
    reveal_strlit("openai-chat");
    reveal_strlit("openai-responses");
    lemma_plain("openai_chat"@);
    lemma_plain("openai_responses"@);
    lemma_plain("chat_completions"@);
    lemma_plain("responses"@);
    assert("openai_responses"@.len() == 16);
    assert("chat_completions"@.len() == 16);
    assert("chat-completions"@.len() == 16);
    assert("openai-responses"@.len() == 16);
    assert("openai_responses"@[0] == 'o');
    assert("chat_completions"@[0] == 'c');
    assert("chat-completions"@[0] == 'c');
    assert("chat"@.len() == 4);
    assert("openai_chat"@.len() == 11);
    assert("openai-chat"@.len() == 11);
    assert("responses"@.len() == 9);
}

/// The table of the model under that name.
pub open spec fn table_of(doc: Group, name: Seq<char>) -> Option<Group> {
    match doc.at("model"@, name) {
        Some(Node::Table(model)) => Some(model),
        _ => None,
    }
}

/// The default model is selected if it stands under a header, whatever else does;
/// else the model `ccswitch`; else the first that stands under one.
pub proof fn law_default_model_is_selected(doc: Group)
    ensures
        ({
            let named = doc.text_at("models"@, "default"@);
            let has_default = named is Some && table_of(doc, named->0) is Some;
            let names = model_names(doc);
            &&& has_default ==> selected_model(doc) == table_of(doc, named->0)
            &&& !has_default && table_of(doc, "ccswitch"@) is Some ==> selected_model(doc) == table_of(
                doc,
                "ccswitch"@,
            )
            &&& !has_default && table_of(doc, "ccswitch"@) is None ==> {
                &&& forall|k: int|
                    0 <= k < names.len() && table_of(doc, #[trigger] names[k]) is Some && (forall|j: int|
                        0 <= j < k ==> table_of(doc, #[trigger] names[j]) is None) ==> selected_model(
                        doc,
                    ) == table_of(doc, names[k])
                &&& (forall|k: int| 0 <= k < names.len() ==> table_of(doc, #[trigger] names[k]) is None)
                    ==> selected_model(doc) is None
            }
        }),
{
    let names = model_names(doc);
    let p = |name: Seq<char>| has_model(doc, name);
    assert forall|name: Seq<char>| #[trigger] table_of(doc, name) is Some == p(name) by {}
    assert forall|k: int|
        0 <= k < names.len() && table_of(doc, #[trigger] names[k]) is Some && (forall|j: int|
            0 <= j < k ==> table_of(doc, #[trigger] names[j]) is None) implies first_where(
        names,
        p,
    ) == Some(names[k]) by {
        assert(p(names[k]));
        assert forall|j: int| 0 <= j < k implies !p(#[trigger] names[j]) by {
            assert(table_of(doc, names[j]) is None);
        }
        lemma_first_where_found(names, p, k);
    }
    if forall|k: int| 0 <= k < names.len() ==> table_of(doc, #[trigger] names[k]) is None {
        assert forall|k: int| 0 <= k < names.len() implies !p(#[trigger] names[k]) by {
            assert(table_of(doc, names[k]) is None);
        }
        lemma_first_where_none(names, p);
    }
}

/// Requests go to the address of the selected model; to the common address only
/// where that model has none.
pub proof fn law_address_of_the_selected_model_counts(doc: Group)
    ensures
        match selected_model(doc) {
            Some(model) => model.text("base_url"@) is Some ==> base_url(doc) == model.text("base_url"@),
            None => true,
        },
        match selected_model(doc) {
            Some(model) => model.text("base_url"@) is None,
            None => true,
        } ==> base_url(doc) == doc.text_at("endpoints"@, "models_base_url"@),
{
}

/// The key of a provider is the first of three that is a string, without white
/// space around it: one under another name counts only where those before it are
/// no strings. A blank one is none, even if one behind it is not blank.
pub proof fn law_first_known_key_counts(settings: Json)
    ensures
        settings.member("auth"@) is None ==> auth_key(settings) is None,
        settings.member("auth"@) is Some ==> {
            let auth = settings.member("auth"@)->0;
            let openai = auth.member_text("OPENAI_API_KEY"@);
            let xai = auth.member_text("XAI_API_KEY"@);
            let grok = auth.member_text("GROK_API_KEY"@);
            &&& openai is Some ==> auth_key(settings) == if is_blank(openai->0) {
                None
            } else {
                Some(trimmed(openai->0))
            }
            &&& openai is None && xai is Some ==> auth_key(settings) == if is_blank(xai->0) {
                None
            } else {
                Some(trimmed(xai->0))
            }
            &&& openai is None && xai is None && grok is Some ==> auth_key(settings) == if is_blank(
                grok->0,
            ) {
                None
            } else {
                Some(trimmed(grok->0))
            }
            &&& openai is None && xai is None && grok is None ==> auth_key(settings) is None
        },
{
}

/// A format has the backend `chat_completions` or `responses` under each of the
/// names for it, in any case, with any white space around it; no other has one.
pub proof fn law_formats_with_a_backend(format: Seq<char>)
    ensures
        ({
            let f = lowered(trimmed(format));
            let chat = set![
                "chat"@,
                "chat_completions"@,
                "chat-completions"@,
                "openai_chat"@,
                "openai-chat"@,
            ];
            let responses = set!["responses"@, "openai_responses"@, "openai-responses"@];
            &&& backend_of_format(Some(format)) == Some("chat_completions"@) <==> chat.contains(f)
            &&& backend_of_format(Some(format)) == Some("responses"@) <==> responses.contains(f)
            &&& backend_of_format(Some(format)) is None <==> !chat.contains(f) && !responses.contains(f)
            &&& backend_of_format(None) is None
        }),
{
    reveal_strlit("chat");
    reveal_strlit("chat_completions");
    reveal_strlit("chat-completions");
    reveal_strlit("openai_chat");
    reveal_strlit("openai-chat");
    reveal_strlit("responses");
    reveal_strlit("openai_responses");
    reveal_strlit("openai-responses");
    assert("chat"@.len() == 4);
    assert("openai_chat"@.len() == 11);
    assert("openai-chat"@.len() == 11);
    assert("responses"@.len() == 9);
    assert("chat_completions"@.len() == 16);
    assert("chat-completions"@.len() == 16);
    assert("openai_responses"@.len() == 16);
    assert("openai-responses"@.len() == 16);
    assert("openai_responses"@[0] == 'o');
    assert("openai-responses"@[0] == 'o');
    assert("chat_completions"@[0] == 'c');
    assert("chat-completions"@[0] == 'c');
}

/// A backend that is one of the three names for chat completions, in any case and
/// with any white space around it, goes with the format `openai_chat`; every
/// other, and none, with `openai_responses`.
pub proof fn law_backends_for_chat(backend: Option<Seq<char>>)
    ensures
        ({
            let chat = set!["chat"@, "chat_completions"@, "chat-completions"@];
            let is_chat = backend is Some && chat.contains(lowered(trimmed(backend->0)));
            &&& is_chat ==> format_of_backend(backend) == "openai_chat"@
            &&& !is_chat ==> format_of_backend(backend) == "openai_responses"@
        }),
{
}

/// The format of some settings is that of the backend of the model which their
/// configuration selects; without such a model it is the one for no backend.
pub proof fn law_format_is_that_of_the_selected_model(settings: Json)
    ensures
        ({
            let config = settings.member_text("config"@);
            let reads = config is Some && toml_parse(config->0) is Ok && selected_model(
                toml_parse(config->0)->Ok_0,
            ) is Some;
            &&& reads ==> backend_in_settings(settings) == selected_model(
                toml_parse(config->0)->Ok_0,
            )->0.text("api_backend"@)
            &&& !reads ==> backend_in_settings(settings) is None
        }),
{
}

/// A configuration is in the hands of the proxy exactly if one of its models is.
pub proof fn law_one_redirected_model_is_enough(doc: Group)
    requires
        doc.is_sound(),
    ensures
        any_placeholder(doc) <==> exists|name: Seq<char>| #[trigger] is_redirected(doc, name),
{
    law_sound_documents_have_sound_tables(doc);
    let names = model_names(doc);
    if any_placeholder(doc) {
        let k = choose|k: int| 0 <= k < names.len() && has_placeholder(doc, #[trigger] names[k]);
        assert(models(doc) is Some);
        assert(is_redirected(doc, names[k]));
    }
    if exists|name: Seq<char>| #[trigger] is_redirected(doc, name) {
        let name = choose|name: Seq<char>| #[trigger] is_redirected(doc, name);
        let all = models(doc)->0;
        lemma_names(all, name);
        assert(all.order.contains(name) <==> all.fields.contains_key(name));
        let k = choose|k: int| 0 <= k < names.len() && names[k] == name;
        assert(has_placeholder(doc, names[k]));
    }
}

/// The configuration of a provider is the text in its settings. One that is
/// missing, is no TOML, or selects no model is refused, each with its own error.
pub proof fn law_configuration_of_a_provider(provider: ProviderView)
    ensures
        ({
            let config = provider.settings.member_text("config"@);
            &&& config is None ==> provider_doc(provider) == Err::<Group, AppErrorView>(
                AppErrorView::ConfigMissing,
            )
            &&& config is Some && toml_parse(config->0) is Err ==> provider_doc(provider) == Err::<
                Group,
                AppErrorView,
            >(AppErrorView::ConfigTomlInvalid { detail: toml_parse(config->0)->Err_0 })
            &&& config is Some && toml_parse(config->0) is Ok ==> provider_doc(provider) == Ok::<
                Group,
                AppErrorView,
            >(toml_parse(config->0)->Ok_0)
            &&& provider_doc(provider) is Err ==> provider_profile(provider) == provider_doc(provider)
            &&& provider_doc(provider) is Ok && selected_model(provider_doc(provider)->Ok_0) is Some
                ==> provider_profile(provider) == provider_doc(provider)
            &&& provider_doc(provider) is Ok && selected_model(provider_doc(provider)->Ok_0) is None
                ==> provider_profile(provider) == Err::<Group, AppErrorView>(
                AppErrorView::ProviderModelMissing,
            )
        }),
{
}

} // verus!
