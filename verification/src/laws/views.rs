//! How arguments, results and messages are to be read.
use vstd::prelude::*;
use crate::error::{
    reported, text_outcome, text_result, AppError, AppErrorView, Fault, FaultView,
};
use crate::import::{settings_outcome, settings_result};
use crate::json::{json_tree, Json};
use crate::patch::overrides;
use crate::provider::Provider;
use crate::text::{is_blank, is_white_space, trimmed, trimmed_end, trimmed_start};

verus! {

/// The caller sets what it gives, whatever that is, an empty text among it, and
/// nothing else.
pub proof fn law_caller_sets_what_it_gives(
    base_url: Option<&str>,
    api_key: Option<&str>,
    api_backend: Option<&str>,
)
    ensures
        ({
            let over = overrides(base_url, api_key, api_backend);
            &&& over.base_url is Some <==> base_url is Some
            &&& base_url is Some ==> over.base_url->0 == base_url->0@
            &&& over.api_key is Some <==> api_key is Some
            &&& api_key is Some ==> over.api_key->0 == api_key->0@
            &&& over.api_backend is Some <==> api_backend is Some
            &&& api_backend is Some ==> over.api_backend->0 == api_backend->0@
        }),
{
}

/// A result is handed on as it is, and so is a reported error.
pub proof fn law_results_are_handed_on<T>(value: T, error: AppErrorView)
    ensures
        reported(Ok::<T, FaultView>(value)) == Ok::<T, AppErrorView>(value),
        reported(Err::<T, FaultView>(FaultView::Reported(error))) == Err::<T, AppErrorView>(error),
{
}

/// A text stands for its characters, settings for what they hold, and an error
/// for itself.
pub proof fn law_results_stand_for_themselves(
    text: String,
    settings: serde_json::Value,
    error: AppError,
    fault: Fault,
)
    ensures
        text_result(Ok(text)) == Ok::<Seq<char>, AppErrorView>(text@),
        text_result(Err(error)) == Err::<Seq<char>, AppErrorView>(error@),
        text_outcome(Ok(text)) == Ok::<Seq<char>, FaultView>(text@),
        text_outcome(Err(fault)) == Err::<Seq<char>, FaultView>(fault@),
        settings_result(Ok(settings)) == Ok::<Json, AppErrorView>(json_tree(settings)),
        settings_result(Err(error)) == Err::<Json, AppErrorView>(error@),
        settings_outcome(Ok(settings)) == Ok::<Json, FaultView>(json_tree(settings)),
        settings_outcome(Err(fault)) == Err::<Json, FaultView>(fault@),
{
}

/// A provider is read as it is: nothing in it is trimmed, filled in or left out.
/// One without metadata has no format and no routes.
pub proof fn law_provider_is_read_as_it_is(provider: Provider)
    ensures
        provider@.id == provider.id@,
        provider@.name == provider.name@,
        provider@.settings == json_tree(provider.settings_config),
        provider@.category is Some <==> provider.category is Some,
        provider.category is Some ==> provider@.category->0 == provider.category->0@,
        provider.meta is None ==> provider@.api_format is None && provider@.routes.len() == 0,
        provider.meta is Some ==> {
            let meta = provider.meta->0;
            &&& provider@.api_format is Some <==> meta.api_format is Some
            &&& meta.api_format is Some ==> provider@.api_format->0 == meta.api_format->0@
            &&& provider@.routes.len() == meta.grok_subagent_routes@.len()
            &&& forall|i: int|
                0 <= i < meta.grok_subagent_routes@.len() ==> {
                    let given = meta.grok_subagent_routes@[i];
                    let route = #[trigger] provider@.routes[i];
                    &&& route.role == given.0@
                    &&& route.model_id == given.1.model_id@
                    &&& route.provider_id is Some <==> given.1.provider_id is Some
                    &&& given.1.provider_id is Some ==> route.provider_id->0 == given.1.provider_id->0@
                }
        },
{
}

/// A blank text is one of nothing but white space.
pub proof fn law_blank_is_nothing_but_white_space(s: Seq<char>)
    ensures
        is_blank(s) <==> forall|i: int| 0 <= i < s.len() ==> is_white_space(#[trigger] s[i]),
{
    lemma_start(s);
    lemma_end(trimmed_start(s));
    if is_blank(s) {
        let rest = trimmed_start(s);
        if rest.len() > 0 {
            assert(is_white_space(rest[0]));
        }
        let n = s.len() - rest.len();
        assert forall|i: int| 0 <= i < s.len() implies is_white_space(#[trigger] s[i]) by {
            assert(i < n);
        }
    } else {
        let t = trimmed(s);
        let rest = trimmed_start(s);
        let n = s.len() - rest.len();
        assert(rest.len() > 0);
        assert(s[n] == rest[0]);
        assert(!is_white_space(rest[0]));
    }
}

/// What is left out at the beginning is white space, and what is left does not
/// begin with any.
proof fn lemma_start(s: Seq<char>)
    ensures
        trimmed_start(s).len() <= s.len(),
        trimmed_start(s) == s.skip(s.len() - trimmed_start(s).len()),
        forall|i: int|
            0 <= i < s.len() - trimmed_start(s).len() ==> is_white_space(#[trigger] s[i]),
        trimmed_start(s).len() > 0 ==> !is_white_space(trimmed_start(s)[0]),
    decreases s.len(),
{
    if s.len() > 0 && is_white_space(s.first()) {
        let rest = s.drop_first();
        lemma_start(rest);
        let n = s.len() - trimmed_start(s).len();
        assert(trimmed_start(s) =~= s.skip(n));
        assert forall|i: int| 0 <= i < n implies is_white_space(#[trigger] s[i]) by {
            if i > 0 {
                assert(rest[i - 1] == s[i]);
            }
        }
    } else {
        assert(s.skip(0) =~= s);
    }
}

/// What is left out at the end is white space.
proof fn lemma_end(s: Seq<char>)
    ensures
        trimmed_end(s).len() <= s.len(),
        forall|i: int| trimmed_end(s).len() <= i < s.len() ==> is_white_space(#[trigger] s[i]),
        trimmed_end(s).len() == 0 ==> forall|i: int| 0 <= i < s.len() ==> is_white_space(#[trigger] s[i]),
    decreases s.len(),
{
    if s.len() > 0 && is_white_space(s.last()) {
        let rest = s.drop_last();
        lemma_end(rest);
        assert forall|i: int| trimmed_end(s).len() <= i < s.len() implies is_white_space(
            #[trigger] s[i],
        ) by {
            if i < rest.len() {
                assert(rest[i] == s[i]);
            }
        }
    }
}

/// The text begins with one text and another behind it.
pub open spec fn begins_with(s: Seq<char>, head: Seq<char>, next: Seq<char>) -> bool {
    (head + next).is_prefix_of(s)
}

/// An error on a role names the role in both messages, and one on a text that is
/// no TOML ends with what the parser said. Both messages are given together.
pub proof fn law_messages_say_what_they_are_about(error: AppErrorView)
    ensures
        error.message() == error.zh() + " ("@ + error.en() + ")"@,
        match error {
            AppErrorView::ConfigTomlInvalid { detail } => detail.is_suffix_of(error.zh())
                && detail.is_suffix_of(error.en()),
            AppErrorView::ProfileTomlInvalid { detail } => detail.is_suffix_of(error.zh())
                && detail.is_suffix_of(error.en()),
            AppErrorView::ExistingTomlInvalid { detail } => detail.is_suffix_of(error.zh())
                && detail.is_suffix_of(error.en()),
            AppErrorView::LiveTomlInvalid { detail } => detail.is_suffix_of(error.zh())
                && detail.is_suffix_of(error.en()),
            AppErrorView::RouteModelIdEmpty { role } => begins_with(
                error.en(),
                "Grok subagent role '"@,
                role,
            ) && begins_with(error.zh(), "Grok 子代理角色「"@, role),
            AppErrorView::RouteLocalModelMissing { role, model_id } => begins_with(
                error.en(),
                "Grok subagent role '"@,
                role,
            ) && begins_with(error.zh(), "Grok 子代理角色「"@, role) && (model_id + "]"@).is_suffix_of(
                error.en(),
            ),
            AppErrorView::RouteProviderMissing { role, provider_id } => begins_with(
                error.en(),
                "Grok subagent role '"@,
                role,
            ) && begins_with(error.zh(), "Grok 子代理角色「"@, role) && (provider_id
                + "'"@).is_suffix_of(error.en()),
            AppErrorView::RouteOfficialSource { role } => begins_with(
                error.en(),
                "Grok subagent role '"@,
                role,
            ) && begins_with(error.zh(), "Grok 子代理角色「"@, role),
            AppErrorView::RouteModelMissing { provider_name, model_id } => (model_id
                + "]"@).is_suffix_of(error.en()) && (model_id + "]"@).is_suffix_of(error.zh()),
            _ => true,
        },
{
    match error {
        AppErrorView::ConfigTomlInvalid { detail } => {
            lemma_suffix("Grok config.toml 格式错误: "@, detail);
            lemma_suffix("Invalid Grok config.toml: "@, detail);
        },
        AppErrorView::ProfileTomlInvalid { detail } => {
            lemma_suffix("Grok Profile TOML 格式错误: "@, detail);
            lemma_suffix("Invalid Grok Profile TOML: "@, detail);
        },
        AppErrorView::ExistingTomlInvalid { detail } => {
            lemma_suffix("现有 Grok config.toml 格式错误: "@, detail);
            lemma_suffix("Existing Grok config.toml is invalid: "@, detail);
        },
        AppErrorView::LiveTomlInvalid { detail } => {
            lemma_suffix("Grok config.toml 格式错误: "@, detail);
            lemma_suffix("Invalid Grok config.toml: "@, detail);
        },
        AppErrorView::RouteModelIdEmpty { role } => {
            lemma_prefix("Grok subagent role '"@ + role, "' has an empty model ID"@);
            lemma_prefix("Grok 子代理角色「"@ + role, "」的模型 ID 为空"@);
        },
        AppErrorView::RouteLocalModelMissing { role, model_id } => {
            let middle = "' refers to missing local model [model."@;
            let en = "Grok subagent role '"@ + role;
            lemma_five(en, middle, model_id, "]"@);
            let zh = "Grok 子代理角色「"@ + role;
            lemma_five(zh, "」引用的本供应商模型 [model."@, model_id, "] 不存在"@);
        },
        AppErrorView::RouteProviderMissing { role, provider_id } => {
            let en = "Grok subagent role '"@ + role;
            lemma_five(en, "' refers to missing provider '"@, provider_id, "'"@);
            let zh = "Grok 子代理角色「"@ + role;
            lemma_five(zh, "」引用的供应商「"@, provider_id, "」不存在或已删除"@);
        },
        AppErrorView::RouteOfficialSource { role } => {
            lemma_prefix(
                "Grok subagent role '"@ + role,
                "' cannot route to the official OAuth provider (no standalone model definitions)"@,
            );
            lemma_prefix(
                "Grok 子代理角色「"@ + role,
                "」不能路由到官方 OAuth 供应商（无独立模型定义）"@,
            );
        },
        AppErrorView::RouteModelMissing { provider_name, model_id } => {
            lemma_five(
                "Cross-provider Grok subagent route refers to missing model: provider '"@
                    + provider_name,
                "' has no [model."@,
                model_id,
                "]"@,
            );
            lemma_five(
                "Grok 跨供应商路由引用的模型不存在：供应商「"@ + provider_name,
                "」中没有 [model."@,
                model_id,
                "]"@,
            );
        },
        _ => {},
    }
}

/// A text is the end of one that it stands at the end of.
proof fn lemma_suffix(head: Seq<char>, tail: Seq<char>)
    ensures
        tail.is_suffix_of(head + tail),
{
    assert((head + tail).skip(head.len() as int) =~= tail);
    assert((head + tail).subrange(head.len() as int, (head + tail).len() as int) =~= tail);
}

/// A text is the beginning of one that it stands at the beginning of.
proof fn lemma_prefix(head: Seq<char>, tail: Seq<char>)
    ensures
        head.is_prefix_of(head + tail),
{
    assert((head + tail).subrange(0, head.len() as int) =~= head);
}

/// The beginning and the end of a text of several.
proof fn lemma_five(head: Seq<char>, middle: Seq<char>, last: Seq<char>, tail: Seq<char>)
    ensures
        head.is_prefix_of(head + middle + last + tail),
        (last + tail).is_suffix_of(head + middle + last + tail),
{
    assert(head + middle + last + tail =~= head + (middle + last + tail));
    assert(head + middle + last + tail =~= (head + middle) + (last + tail));
    lemma_prefix(head, middle + last + tail);
    lemma_suffix(head + middle, last + tail);
}

/// What went wrong, as far as the key of an error tells: whether the text of a
/// provider or a profile is bad, or that of a configuration, and so on.
pub open spec fn trouble(error: AppErrorView) -> nat {
    match error {
        AppErrorView::ConfigTomlInvalid { .. } => 0,
        AppErrorView::ProfileTomlInvalid { .. } => 0,
        AppErrorView::ExistingTomlInvalid { .. } => 1,
        AppErrorView::LiveTomlInvalid { .. } => 1,
        AppErrorView::LiveMissing => 2,
        AppErrorView::LiveModelMissing => 3,
        AppErrorView::ConfigMissing => 4,
        AppErrorView::ProviderModelMissing => 5,
        AppErrorView::ProfileModelMissing => 5,
        AppErrorView::OfficialProxyUnsupported => 6,
        AppErrorView::RouteModelIdEmpty { .. } => 7,
        AppErrorView::RouteLocalModelMissing { .. } => 8,
        AppErrorView::RouteProviderMissing { .. } => 9,
        AppErrorView::RouteOfficialSource { .. } => 10,
        AppErrorView::RouteModelMissing { .. } => 11,
    }
}

/// Two errors have the same key exactly if the same went wrong, whatever the names
/// and details in them.
pub proof fn law_key_tells_what_went_wrong(a: AppErrorView, b: AppErrorView)
    ensures
        a.key() == b.key() <==> trouble(a) == trouble(b),
{
    reveal_strlit("provider.grok.config.invalid_toml");
    reveal_strlit("grok.live.invalid_toml");
    reveal_strlit("grok.live.missing");
    reveal_strlit("grok.live.model_missing");
    reveal_strlit("provider.grok.config.missing");
    reveal_strlit("provider.grok.model.missing");
    reveal_strlit("provider.grok.official_proxy_unsupported");
    reveal_strlit("provider.grok.subagent_route.model_id_empty");
    reveal_strlit("provider.grok.subagent_route.local_model_missing");
    reveal_strlit("provider.grok.subagent_route.provider_missing");
    reveal_strlit("provider.grok.subagent_route.official_source_unsupported");
    reveal_strlit("provider.grok.subagent_route.model_missing");
    assert("provider.grok.config.invalid_toml"@.len() == 33);
    assert("grok.live.invalid_toml"@.len() == 22);
    assert("grok.live.missing"@.len() == 17);
    assert("grok.live.model_missing"@.len() == 23);
    assert("provider.grok.config.missing"@.len() == 28);
    assert("provider.grok.model.missing"@.len() == 27);
    assert("provider.grok.official_proxy_unsupported"@.len() == 40);
    assert("provider.grok.subagent_route.model_id_empty"@.len() == 43);
    assert("provider.grok.subagent_route.local_model_missing"@.len() == 48);
    assert("provider.grok.subagent_route.provider_missing"@.len() == 45);
    assert("provider.grok.subagent_route.official_source_unsupported"@.len() == 56);
    assert("provider.grok.subagent_route.model_missing"@.len() == 42);
}

} // verus!
