use grok_config::{
    apply_privacy_protection_config_text, infer_api_format_from_settings,
    is_managed_cross_provider_model, list_owned_managed_model_names,
    managed_cross_provider_model_id, merge_grok_profile_config_text,
    patch_config_text_for_provider, patch_config_text_for_provider_with_routes,
    settings_from_config_text, strip_managed_models_from_doc, use_official_auth_config_text,
    GrokSubagentRoute, Provider, ProviderMeta, GROK_PROXY_TOKEN_PLACEHOLDER,
    LEGACY_MANAGED_OWNER_KEY, LEGACY_MANAGED_SOURCE_PROVIDER_KEY,
    MANAGED_CROSS_PROVIDER_MODEL_PREFIX, MANAGED_REGISTRY_ROOT, MANAGED_REGISTRY_TABLE,
    MANAGED_REG_SOURCE_MODEL, MANAGED_REG_SOURCE_PROVIDER,
};
use indexmap::IndexMap;
use serde_json::Value;
use std::collections::HashSet;
use toml_edit::{DocumentMut, Item};

fn settings(key: &str, config: &str) -> Value {
    let mut auth = serde_json::Map::new();
    auth.insert("OPENAI_API_KEY".to_string(), Value::from(key));
    let mut members = serde_json::Map::new();
    members.insert("auth".to_string(), Value::Object(auth));
    members.insert("config".to_string(), Value::from(config));
    Value::Object(members)
}

fn no_settings() -> Value {
    let mut members = serde_json::Map::new();
    members.insert("auth".to_string(), Value::Object(serde_json::Map::new()));
    members.insert("config".to_string(), Value::from(""));
    Value::Object(members)
}

fn copy_of(provider: &Provider) -> Provider {
    Provider {
        id: provider.id.clone(),
        name: provider.name.clone(),
        settings_config: provider.settings_config.clone(),
        website_url: provider.website_url.clone(),
        category: provider.category.clone(),
        meta: provider.meta.clone(),
    }
}

fn provider() -> Provider {
    let mut provider = Provider::with_id(
        "xai".to_string(),
        "xAI".to_string(),
        settings("xai-key", r#"[endpoints]
models_base_url = "https://api.x.ai/v1"

[models]
default = "fast"
web_search = "search"

[subagents.models]
explore = "fast"
plan = "search"

[model.fast]
model = "grok-4.5"
base_url = "https://api.x.ai/v1"
name = "Grok 4.5"
api_backend = "responses"
context_window = 500000
supports_backend_search = true

[model.search]
model = "grok-4.5"
base_url = "https://api.x.ai/v1"
api_backend = "responses"
supports_backend_search = true
"#),
        None,
    );
    provider.meta = Some(ProviderMeta {
        api_format: Some("openai_responses".to_string()),
        ..Default::default()
    });
    provider
}

fn official_provider() -> Provider {
    let mut provider = Provider::with_id(
        "official".to_string(),
        "Grok Official".to_string(),
        no_settings(),
        None,
    );
    provider.category = Some("official".to_string());
    provider
}

#[test]
fn patch_replaces_provider_sections_and_preserves_unrelated_config() {
    let existing = r#"# keep this user comment
[hints]
project_picker_disabled = true

[models]
default = "cli"
default_reasoning_effort = "high"

[model.cli]
model = "old"
base_url = "https://old.example/v1"
api_key = "old-key"
api_backend = "responses"

[mcp_servers.keep]
url = "https://example.test/mcp"
"#;
    let patched = patch_config_text_for_provider(existing, &provider(), None, None, None)
        .expect("patch Grok config");
    let doc = patched
        .parse::<DocumentMut>()
        .expect("parse patched config");

    assert_eq!(doc["models"]["default"].as_str(), Some("fast"));
    assert_eq!(doc["models"]["web_search"].as_str(), Some("search"));
    assert_eq!(doc["subagents"]["models"]["explore"].as_str(), Some("fast"));
    assert_eq!(doc["subagents"]["models"]["plan"].as_str(), Some("search"));
    assert_eq!(
        doc["models"]["default_reasoning_effort"].as_str(),
        Some("high")
    );
    assert!(doc["model"]["cli"].is_table());
    assert!(patched.contains("# keep this user comment"));
    assert_eq!(doc["model"]["fast"]["api_key"].as_str(), Some("xai-key"));
    assert_eq!(
        doc["endpoints"]["models_base_url"].as_str(),
        Some("https://api.x.ai/v1")
    );
    assert_eq!(
        doc["mcp_servers"]["keep"]["url"].as_str(),
        Some("https://example.test/mcp")
    );
}

#[test]
fn merge_profile_into_global_config_preserves_unmanaged_sections() {
    let existing = r#"[features]
telemetry = false

[models]
default = "old"
default_reasoning_effort = "high"

[model.old]
model = "old-model"
"#;
    let provider = provider();
    let profile = provider.settings_config["config"]
        .as_str()
        .expect("profile config");
    let merged = merge_grok_profile_config_text(existing, profile).expect("merge profile");
    let doc = merged.parse::<DocumentMut>().expect("parse merged config");

    assert_eq!(doc["features"]["telemetry"].as_bool(), Some(false));
    assert_eq!(
        doc["models"]["default_reasoning_effort"].as_str(),
        Some("high")
    );
    assert_eq!(doc["models"]["default"].as_str(), Some("fast"));
    assert!(doc["model"]["old"].is_table());
    assert!(doc["model"]["fast"].is_table());
}

#[test]
fn empty_official_profile_restores_builtin_selection_without_deleting_models() {
    let existing = r#"[models]
default = "custom"

[model.custom]
model = "grok-4.5"
api_key = "secret"
"#;
    let merged = merge_grok_profile_config_text(existing, "").expect("merge official");
    let doc = merged
        .parse::<DocumentMut>()
        .expect("parse official config");

    assert!(doc["models"].get("default").is_none());
    assert!(doc["model"]["custom"].is_table());
}

#[test]
fn live_import_preserves_multi_model_profile_and_moves_shared_key_to_auth() {
    let settings = settings_from_config_text(
        r#"[endpoints]
models_base_url = "https://api.example/v1"

[models]
default = "cli"
web_search = "search"

[subagents.models]
explore = "cli"

[model.cli]
model = "grok-4.5"
base_url = "https://api.example/v1"
api_key = "secret"
api_backend = "chat_completions"

[model.search]
model = "grok-4.5-search"
base_url = "https://api.example/v1"
api_key = "secret"
api_backend = "responses"
supports_backend_search = true
"#,
        None,
    )
    .expect("import Grok config");

    assert_eq!(settings["auth"]["OPENAI_API_KEY"], "secret");
    let config = settings["config"].as_str().expect("config string");
    let config_doc = config
        .parse::<DocumentMut>()
        .expect("parse provider config");
    assert_eq!(config_doc["models"]["default"].as_str(), Some("cli"));
    assert_eq!(config_doc["models"]["web_search"].as_str(), Some("search"));
    assert_eq!(
        config_doc["subagents"]["models"]["explore"].as_str(),
        Some("cli")
    );
    assert!(config_doc["model"]["cli"].is_table());
    assert!(config_doc["model"]["search"].is_table());
    assert!(!config.contains("secret"));
    assert_eq!(infer_api_format_from_settings(&settings), "openai_chat");
}

#[test]
fn takeover_routes_every_profile_model_without_changing_backend() {
    let patched = patch_config_text_for_provider(
        "[features]\ntelemetry = false\n",
        &provider(),
        Some("http://127.0.0.1:15721/grok/v1"),
        Some(GROK_PROXY_TOKEN_PLACEHOLDER),
        None,
    )
    .expect("patch takeover config");
    let doc = patched.parse::<DocumentMut>().expect("parse takeover");
    for name in ["fast", "search"] {
        assert_eq!(
            doc["model"][name]["base_url"].as_str(),
            Some("http://127.0.0.1:15721/grok/v1")
        );
        assert_eq!(
            doc["model"][name]["api_key"].as_str(),
            Some(GROK_PROXY_TOKEN_PLACEHOLDER)
        );
        assert_eq!(
            doc["model"][name]["api_backend"].as_str(),
            Some("responses")
        );
    }
    assert_eq!(doc["features"]["telemetry"].as_bool(), Some(false));
}

#[test]
fn official_oauth_rejects_proxy_takeover() {
    let error = patch_config_text_for_provider(
        "[features]\ntelemetry = false\n",
        &official_provider(),
        Some("http://127.0.0.1:15721/grok/v1"),
        Some(GROK_PROXY_TOKEN_PLACEHOLDER),
        None,
    )
    .expect_err("official OAuth must not bypass takeover");

    assert!(error.message().contains("official OAuth"));
}

#[test]
fn official_auth_removes_only_provider_owned_fields() {
    let cleaned = use_official_auth_config_text(
        r#"[features]
telemetry = false

[models]
default = "custom"
web_search = "custom"
default_reasoning_effort = "high"

[subagents.models]
explore = "grok-build"

[model.custom]
model = "grok-4.5"
api_key = "secret"
"#,
    )
    .expect("clean provider overrides");
    let doc = cleaned
        .parse::<DocumentMut>()
        .expect("parse official config");
    assert!(doc["model"]["custom"].is_table());
    assert!(doc["models"].get("default").is_none());
    assert_eq!(
        doc["models"]["default_reasoning_effort"].as_str(),
        Some("high")
    );
    assert_eq!(
        doc["subagents"]["models"]["explore"].as_str(),
        Some("grok-build")
    );
    assert_eq!(doc["features"]["telemetry"].as_bool(), Some(false));
}

#[test]
fn privacy_protection_preserves_provider_profile() {
    let protected = apply_privacy_protection_config_text(
        &provider().settings_config["config"].as_str().unwrap(),
    )
    .expect("apply privacy protection");
    let doc = protected
        .parse::<DocumentMut>()
        .expect("parse protected config");
    assert_eq!(doc["features"]["telemetry"].as_bool(), Some(false));
    assert_eq!(doc["telemetry"]["trace_upload"].as_bool(), Some(false));
    assert_eq!(doc["telemetry"]["mixpanel_enabled"].as_bool(), Some(false));
    assert_eq!(
        doc["harness"]["disable_codebase_upload"].as_bool(),
        Some(true)
    );
    assert!(doc["model"]["fast"].is_table());
}

fn foreign_provider() -> Provider {
    let mut p = Provider::with_id(
        "openai-compat".to_string(),
        "OpenAI Compat".to_string(),
        settings("foreign-secret-key", r#"[endpoints]
models_base_url = "https://foreign.example/v1"

[models]
default = "cli"

[model.cli]
model = "gpt-proxy"
base_url = "https://foreign.example/v1"
api_backend = "chat_completions"
name = "Foreign CLI"
"#),
        None,
    );
    p.category = Some("third_party".to_string());
    p
}

fn providers_map(active: &Provider, foreign: &Provider) -> IndexMap<String, Provider> {
    let mut map = IndexMap::new();
    map.insert(active.id.clone(), copy_of(active));
    map.insert(foreign.id.clone(), copy_of(foreign));
    map
}

#[test]
fn same_provider_subagent_route_uses_local_model_id() {
    let mut active = provider();
    active.meta = Some(ProviderMeta {
        grok_subagent_routes: Vec::from([(
            "explore".to_string(),
            GrokSubagentRoute {
                provider_id: Some(active.id.clone()),
                model_id: "search".to_string(),
            },
        )]),
        ..Default::default()
    });
    let foreign = foreign_provider();
    let all = providers_map(&active, &foreign);
    let patched = patch_config_text_for_provider_with_routes(
        "[features]\ntelemetry = false\n",
        &active,
        &all,
        None,
        None,
        None,
    )
    .expect("patch");
    let doc = patched.parse::<DocumentMut>().expect("parse");
    assert_eq!(
        doc["subagents"]["models"]["explore"].as_str(),
        Some("search")
    );
    // a route to the active provider makes no copy
    let model_names: Vec<_> = doc["model"]
        .as_table()
        .unwrap()
        .iter()
        .map(|(n, _)| n.to_string())
        .collect();
    assert!(model_names
        .iter()
        .all(|n| !n.starts_with(MANAGED_CROSS_PROVIDER_MODEL_PREFIX)));
}

#[test]
fn foreign_provider_route_materializes_managed_model() {
    let mut active = provider();
    active.meta = Some(ProviderMeta {
        grok_subagent_routes: Vec::from([(
            "plan".to_string(),
            GrokSubagentRoute {
                provider_id: Some("openai-compat".to_string()),
                model_id: "cli".to_string(),
            },
        )]),
        api_format: Some("openai_responses".to_string()),
        ..Default::default()
    });
    let foreign = foreign_provider();
    let all = providers_map(&active, &foreign);
    let patched = patch_config_text_for_provider_with_routes(
        r#"[hints]
keep = true

[model.user_custom]
model = "mine"
"#,
        &active,
        &all,
        None,
        None,
        None,
    )
    .expect("patch foreign");
    let doc = patched.parse::<DocumentMut>().expect("parse");
    let managed_id = managed_cross_provider_model_id("openai-compat", "cli", &HashSet::new());
    assert_eq!(
        doc["subagents"]["models"]["plan"].as_str(),
        Some(managed_id.as_str())
    );
    // ownership stands in the registry, not in [model.*]
    assert!(doc["model"][managed_id.as_str()]
        .as_table()
        .unwrap()
        .get(LEGACY_MANAGED_OWNER_KEY)
        .is_none());
    assert_eq!(
        doc[MANAGED_REGISTRY_ROOT][MANAGED_REGISTRY_TABLE][managed_id.as_str()]
            [MANAGED_REG_SOURCE_PROVIDER]
            .as_str(),
        Some("openai-compat")
    );
    assert_eq!(
        doc[MANAGED_REGISTRY_ROOT][MANAGED_REGISTRY_TABLE][managed_id.as_str()]
            [MANAGED_REG_SOURCE_MODEL]
            .as_str(),
        Some("cli")
    );
    assert_eq!(
        doc["model"][managed_id.as_str()]["base_url"].as_str(),
        Some("https://foreign.example/v1")
    );
    assert_eq!(
        doc["model"][managed_id.as_str()]["api_key"].as_str(),
        Some("foreign-secret-key")
    );
    // models of the user stay
    assert!(doc["model"]["user_custom"].is_table());
    // the key appears in no label
    assert!(doc["model"][managed_id.as_str()]
        .as_table()
        .unwrap()
        .get("name")
        .and_then(Item::as_value)
        .and_then(|v| v.as_str())
        .is_some_and(|n| !n.contains("foreign-secret")));
}

#[test]
fn managed_ids_distinct_for_sources_that_collide_under_sanitize() {
    // identifiers that differ in punctuation alone
    let id_slash = managed_cross_provider_model_id("a/b", "m", &HashSet::new());
    let id_under = managed_cross_provider_model_id("a_b", "m", &HashSet::new());
    assert_ne!(
        id_slash, id_under,
        "digest IDs must differ for a/b vs a_b providers"
    );
    assert!(id_slash.starts_with(MANAGED_CROSS_PROVIDER_MODEL_PREFIX));
    assert!(id_under.starts_with(MANAGED_CROSS_PROVIDER_MODEL_PREFIX));

    let mut active = provider();
    active.meta = Some(ProviderMeta {
        grok_subagent_routes: Vec::from([
            (
                "explore".to_string(),
                GrokSubagentRoute {
                    provider_id: Some("a/b".to_string()),
                    model_id: "m".to_string(),
                },
            ),
            (
                "plan".to_string(),
                GrokSubagentRoute {
                    provider_id: Some("a_b".to_string()),
                    model_id: "m".to_string(),
                },
            ),
        ]),
        ..Default::default()
    });

    let mut p_slash = Provider::with_id(
        "a/b".to_string(),
        "Slash".to_string(),
        settings("slash-key", r#"[model.m]
model = "from-slash"
base_url = "https://slash.example/v1"
api_backend = "responses"
"#),
        None,
    );
    p_slash.category = Some("third_party".to_string());
    let mut p_under = Provider::with_id(
        "a_b".to_string(),
        "Under".to_string(),
        settings("under-key", r#"[model.m]
model = "from-under"
base_url = "https://under.example/v1"
api_backend = "chat_completions"
"#),
        None,
    );
    p_under.category = Some("third_party".to_string());

    let mut all = IndexMap::new();
    all.insert(active.id.clone(), copy_of(&active));
    all.insert(p_slash.id.clone(), p_slash);
    all.insert(p_under.id.clone(), p_under);

    let patched =
        patch_config_text_for_provider_with_routes("", &active, &all, None, None, None)
            .expect("materialize both");
    let doc = patched.parse::<DocumentMut>().expect("parse");
    assert_eq!(
        doc["subagents"]["models"]["explore"].as_str(),
        Some(id_slash.as_str())
    );
    assert_eq!(
        doc["subagents"]["models"]["plan"].as_str(),
        Some(id_under.as_str())
    );
    assert_ne!(id_slash, id_under);
    assert_eq!(
        doc["model"][id_slash.as_str()]["model"].as_str(),
        Some("from-slash")
    );
    assert_eq!(
        doc["model"][id_under.as_str()]["model"].as_str(),
        Some("from-under")
    );
    assert_eq!(
        doc["model"][id_slash.as_str()]["base_url"].as_str(),
        Some("https://slash.example/v1")
    );
    assert_eq!(
        doc["model"][id_under.as_str()]["base_url"].as_str(),
        Some("https://under.example/v1")
    );
    assert!(is_managed_cross_provider_model(&doc, &id_slash));
    assert!(is_managed_cross_provider_model(&doc, &id_under));
}

#[test]
fn managed_model_id_collides_with_user_model_gets_suffix() {
    let mut active = provider();
    active.meta = Some(ProviderMeta {
        grok_subagent_routes: Vec::from([(
            "explore".to_string(),
            GrokSubagentRoute {
                provider_id: Some("openai-compat".to_string()),
                model_id: "cli".to_string(),
            },
        )]),
        ..Default::default()
    });
    let foreign = foreign_provider();
    let all = providers_map(&active, &foreign);
    let preferred = managed_cross_provider_model_id("openai-compat", "cli", &HashSet::new());
    let existing = format!(
        r#"[model.{preferred}]
model = "user-owned"
base_url = "https://user.example/v1"
"#
    );
    let patched =
        patch_config_text_for_provider_with_routes(&existing, &active, &all, None, None, None)
            .expect("patch collision");
    let doc = patched.parse::<DocumentMut>().expect("parse");
    let routed = doc["subagents"]["models"]["explore"]
        .as_str()
        .expect("route");
    assert_ne!(routed, preferred.as_str());
    assert!(routed.starts_with(&format!("{preferred}_m")));
    // the entry of the user is not overwritten
    assert_eq!(
        doc["model"][preferred.as_str()]["model"].as_str(),
        Some("user-owned")
    );
    // a model of the user with the prefix is not owned
    assert!(!is_managed_cross_provider_model(&doc, &preferred));
    assert!(is_managed_cross_provider_model(&doc, routed));
    assert_eq!(
        doc[MANAGED_REGISTRY_ROOT][MANAGED_REGISTRY_TABLE][routed][MANAGED_REG_SOURCE_PROVIDER]
            .as_str(),
        Some("openai-compat")
    );
}

#[test]
fn empty_provider_map_reuses_existing_materialized_foreign_route() {
    let mut active = provider();
    active.meta = Some(ProviderMeta {
        grok_subagent_routes: Vec::from([(
            "plan".to_string(),
            GrokSubagentRoute {
                provider_id: Some("openai-compat".to_string()),
                model_id: "cli".to_string(),
            },
        )]),
        ..Default::default()
    });
    let foreign = foreign_provider();
    let all = providers_map(&active, &foreign);
    let first = patch_config_text_for_provider_with_routes("", &active, &all, None, None, None)
        .expect("first materialize");
    // without the other provider, the copy that is there is reused
    let second =
        patch_config_text_for_provider(&first, &active, None, None, None).expect("empty map");
    let managed_id = managed_cross_provider_model_id("openai-compat", "cli", &HashSet::new());
    let doc = second.parse::<DocumentMut>().expect("parse");
    assert_eq!(
        doc["subagents"]["models"]["plan"].as_str(),
        Some(managed_id.as_str())
    );
    assert!(doc["model"][managed_id.as_str()].is_table());
    assert_eq!(
        doc["model"][managed_id.as_str()]["api_key"].as_str(),
        Some("foreign-secret-key")
    );
}

#[test]
fn invalid_foreign_route_fails_clearly_without_local_fallback() {
    let mut active = provider();
    active.meta = Some(ProviderMeta {
        grok_subagent_routes: Vec::from([(
            "explore".to_string(),
            GrokSubagentRoute {
                provider_id: Some("missing-provider".to_string()),
                model_id: "fast".to_string(), // also the name of a local model
            },
        )]),
        ..Default::default()
    });
    let err = patch_config_text_for_provider_with_routes(
        "",
        &active,
        &IndexMap::new(),
        None,
        None,
        None,
    )
    .expect_err("must fail");
    let msg = err.message();
    assert!(
        msg.contains("missing-provider") || msg.contains("不存在"),
        "error should mention missing provider, got: {msg}"
    );
}

#[test]
fn deleted_foreign_model_fails_without_local_same_name_fallback() {
    let mut active = provider();
    active.meta = Some(ProviderMeta {
        grok_subagent_routes: Vec::from([(
            "explore".to_string(),
            GrokSubagentRoute {
                provider_id: Some("openai-compat".to_string()),
                model_id: "fast".to_string(), // the other provider has no fast, the active one has
            },
        )]),
        ..Default::default()
    });
    let foreign = foreign_provider();
    let all = providers_map(&active, &foreign);
    let err = patch_config_text_for_provider_with_routes("", &active, &all, None, None, None)
        .expect_err("must not fall back to local fast");
    assert!(err.message().contains("model") || err.message().contains("模型"));
}

#[test]
fn provider_switch_preserves_valid_cross_provider_routes() {
    let mut active = provider();
    active.meta = Some(ProviderMeta {
        grok_subagent_routes: Vec::from([(
            "plan".to_string(),
            GrokSubagentRoute {
                provider_id: Some("openai-compat".to_string()),
                model_id: "cli".to_string(),
            },
        )]),
        ..Default::default()
    });
    let foreign = foreign_provider();
    let all = providers_map(&active, &foreign);
    let first = patch_config_text_for_provider_with_routes(
        "[features]\ntelemetry = false\n",
        &active,
        &all,
        None,
        None,
        None,
    )
    .expect("first write");
    // writing again keeps the copy
    let second =
        patch_config_text_for_provider_with_routes(&first, &active, &all, None, None, None)
            .expect("second write");
    let managed_id = managed_cross_provider_model_id("openai-compat", "cli", &HashSet::new());
    let doc = second.parse::<DocumentMut>().expect("parse");
    assert_eq!(
        doc["subagents"]["models"]["plan"].as_str(),
        Some(managed_id.as_str())
    );
    assert!(doc["model"][managed_id.as_str()].is_table());
    assert_eq!(doc["features"]["telemetry"].as_bool(), Some(false));
}

#[test]
fn official_oauth_preserves_foreign_routes_and_user_settings() {
    let mut official = official_provider();
    official.meta = Some(ProviderMeta {
        grok_subagent_routes: Vec::from([(
            "explore".to_string(),
            GrokSubagentRoute {
                provider_id: Some("openai-compat".to_string()),
                model_id: "cli".to_string(),
            },
        )]),
        ..Default::default()
    });
    let foreign = foreign_provider();
    let mut all = IndexMap::new();
    all.insert(official.id.clone(), copy_of(&official));
    all.insert(foreign.id.clone(), foreign);

    let existing = r#"[features]
telemetry = false

[models]
default = "custom"
default_reasoning_effort = "high"

[subagents.models]
explore = "custom"

[model.custom]
model = "grok-4.5"
api_key = "user-secret"
"#;
    let patched =
        patch_config_text_for_provider_with_routes(existing, &official, &all, None, None, None)
            .expect("official with foreign route");
    let doc = patched.parse::<DocumentMut>().expect("parse");
    assert!(doc["models"].get("default").is_none());
    assert_eq!(
        doc["models"]["default_reasoning_effort"].as_str(),
        Some("high")
    );
    assert!(doc["model"]["custom"].is_table());
    assert_eq!(doc["features"]["telemetry"].as_bool(), Some(false));
    let managed_id = managed_cross_provider_model_id("openai-compat", "cli", &HashSet::new());
    assert_eq!(
        doc["subagents"]["models"]["explore"].as_str(),
        Some(managed_id.as_str())
    );
    assert!(doc["model"][managed_id.as_str()].is_table());
}

#[test]
fn cleanup_only_removes_owned_managed_models() {
    let mut active = provider();
    // first with a route to another provider
    active.meta = Some(ProviderMeta {
        grok_subagent_routes: Vec::from([(
            "plan".to_string(),
            GrokSubagentRoute {
                provider_id: Some("openai-compat".to_string()),
                model_id: "cli".to_string(),
            },
        )]),
        ..Default::default()
    });
    let foreign = foreign_provider();
    let all = providers_map(&active, &foreign);
    let with_managed = patch_config_text_for_provider_with_routes(
        r#"[model.ccswitch_xprov_user]
model = "looks-like-managed"
# 无所有权标记，不得清理
"#,
        &active,
        &all,
        None,
        None,
        None,
    )
    .expect("with managed");

    // without the route the copy goes; a model of the user with the prefix stays
    active.meta = Some(ProviderMeta {
        grok_subagent_routes: Vec::new(),
        ..Default::default()
    });
    let cleaned = patch_config_text_for_provider_with_routes(
        &with_managed,
        &active,
        &all,
        None,
        None,
        None,
    )
    .expect("cleanup");
    let doc = cleaned.parse::<DocumentMut>().expect("parse");
    let managed_id = managed_cross_provider_model_id("openai-compat", "cli", &HashSet::new());
    assert!(doc
        .get("model")
        .and_then(|m| m.get(managed_id.as_str()))
        .is_none());
    assert!(doc["model"]["ccswitch_xprov_user"].is_table());
}

/// Clearing the routes takes out role, copy and entry, also where the profile
/// has no `[subagents.models]`; routes and models of the user stay.
#[test]
fn clearing_meta_routes_removes_stale_foreign_role_when_profile_has_no_subagents() {
    // no [subagents.models], so that merging leaves the routes alone
    let mut active = Provider::with_id(
        "xai".to_string(),
        "xAI".to_string(),
        settings("xai-key", r#"[endpoints]
models_base_url = "https://api.x.ai/v1"

[models]
default = "fast"

[model.fast]
model = "grok-4.5"
base_url = "https://api.x.ai/v1"
api_backend = "responses"
"#),
        None,
    );
    active.meta = Some(ProviderMeta {
        api_format: Some("openai_responses".to_string()),
        grok_subagent_routes: Vec::from([(
            "plan".to_string(),
            GrokSubagentRoute {
                provider_id: Some("openai-compat".to_string()),
                model_id: "cli".to_string(),
            },
        )]),
        ..Default::default()
    });
    let foreign = foreign_provider();
    let all = providers_map(&active, &foreign);

    // a route and a model of the user, which must stay
    let existing = r#"[subagents.models]
user_role = "user_custom"

[model.user_custom]
model = "mine"
base_url = "https://user.example/v1"
"#;
    let with_foreign =
        patch_config_text_for_provider_with_routes(existing, &active, &all, None, None, None)
            .expect("write foreign route");
    let managed_id = managed_cross_provider_model_id("openai-compat", "cli", &HashSet::new());
    {
        let doc = with_foreign
            .parse::<DocumentMut>()
            .expect("parse with foreign");
        assert_eq!(
            doc["subagents"]["models"]["plan"].as_str(),
            Some(managed_id.as_str()),
            "precondition: foreign role materialized"
        );
        assert!(doc["model"][managed_id.as_str()].is_table());
        assert!(
            doc[MANAGED_REGISTRY_ROOT][MANAGED_REGISTRY_TABLE][managed_id.as_str()].is_table()
        );
        assert_eq!(
            doc["subagents"]["models"]["user_role"].as_str(),
            Some("user_custom")
        );
    }

    // no routes any more, and still none in the profile
    active.meta = Some(ProviderMeta {
        api_format: Some("openai_responses".to_string()),
        grok_subagent_routes: Vec::new(),
        ..Default::default()
    });
    let cleaned = patch_config_text_for_provider_with_routes(
        &with_foreign,
        &active,
        &all,
        None,
        None,
        None,
    )
    .expect("clear meta routes");
    let doc = cleaned.parse::<DocumentMut>().expect("parse cleaned");

    // role, copy and entry are gone
    assert!(
        doc.get("subagents")
            .and_then(|s| s.get("models"))
            .and_then(|m| m.get("plan"))
            .is_none(),
        "stale foreign role must be removed when meta routes are empty"
    );
    assert!(
        doc.get("model")
            .and_then(|m| m.get(managed_id.as_str()))
            .is_none(),
        "managed foreign model must be deleted"
    );
    assert!(
        doc.get(MANAGED_REGISTRY_ROOT)
            .and_then(|r| r.get(MANAGED_REGISTRY_TABLE))
            .and_then(|t| t.get(managed_id.as_str()))
            .is_none(),
        "registry entry must be deleted"
    );
    // route and model of the user are there
    assert_eq!(
        doc["subagents"]["models"]["user_role"].as_str(),
        Some("user_custom")
    );
    assert!(doc["model"]["user_custom"].is_table());
    assert_eq!(doc["model"]["user_custom"]["model"].as_str(), Some("mine"));
}

#[test]
fn strip_collapses_empty_managed_registry_when_no_owned_models() {
    // an empty registry goes although there is nothing to remove from it
    let text = format!(
        r#"[model.cli]
model = "grok-4.5"
base_url = "https://api.example/v1"
api_key = "secret"

[{MANAGED_REGISTRY_ROOT}.{MANAGED_REGISTRY_TABLE}]
"#
    );
    let mut doc = text.parse::<DocumentMut>().expect("parse");
    assert!(
        doc.get(MANAGED_REGISTRY_ROOT).is_some(),
        "precondition: empty registry root present"
    );
    assert!(
        list_owned_managed_model_names(&doc).is_empty(),
        "precondition: no owned managed models"
    );
    strip_managed_models_from_doc(&mut doc);
    assert!(
        doc.get(MANAGED_REGISTRY_ROOT).is_none(),
        "empty registry must collapse when managed_names is empty"
    );
    assert!(doc["model"]["cli"].is_table());
    assert_eq!(doc["model"]["cli"]["api_key"].as_str(), Some("secret"));
}

#[test]
fn live_import_strips_managed_models_and_keeps_secrets_out_of_config() {
    let managed_id = managed_cross_provider_model_id("openai-compat", "cli", &HashSet::new());
    let settings = settings_from_config_text(
        &format!(
        r#"[endpoints]
models_base_url = "https://api.example/v1"

[models]
default = "cli"

[subagents.models]
explore = "{managed_id}"
plan = "cli"

[model.cli]
model = "grok-4.5"
base_url = "https://api.example/v1"
api_key = "secret"
api_backend = "responses"

[model.{managed_id}]
model = "gpt-proxy"
base_url = "https://foreign.example/v1"
api_key = "foreign-secret-key"
api_backend = "chat_completions"

[{MANAGED_REGISTRY_ROOT}.{MANAGED_REGISTRY_TABLE}.{managed_id}]
{MANAGED_REG_SOURCE_PROVIDER} = "openai-compat"
{MANAGED_REG_SOURCE_MODEL} = "cli"
"#
        ),
        None,
    )
    .expect("import");
    let config = settings["config"].as_str().expect("config");
    assert!(!config.contains(&managed_id));
    assert!(!config.contains("foreign-secret-key"));
    assert!(!config.contains("secret"));
    assert!(!config.contains(MANAGED_REGISTRY_ROOT));
    assert!(config.contains("[model.cli]"));
    let config_doc = config.parse::<DocumentMut>().expect("parse");
    // the route to the copy is gone, the other one stays
    assert!(config_doc
        .get("subagents")
        .and_then(|s| s.get("models"))
        .and_then(|m| m.get("explore"))
        .is_none());
    assert_eq!(
        config_doc["subagents"]["models"]["plan"].as_str(),
        Some("cli")
    );
}

#[test]
fn ownership_not_inferred_from_prefix_alone() {
    let preferred = managed_cross_provider_model_id("openai-compat", "cli", &HashSet::new());
    let text = format!(
        r#"[model.{preferred}]
model = "user-lookalike"
base_url = "https://user.example/v1"
"#
    );
    let doc = text.parse::<DocumentMut>().expect("parse");
    assert!(!is_managed_cross_provider_model(&doc, &preferred));
    assert!(!list_owned_managed_model_names(&doc).contains(&preferred));
}

/// The registry stands outside the tables `[model.*]`, which get no fields that
/// Grok does not know.
#[test]
fn managed_models_use_external_registry_not_model_table_markers() {
    let mut active = provider();
    active.meta = Some(ProviderMeta {
        grok_subagent_routes: Vec::from([(
            "plan".to_string(),
            GrokSubagentRoute {
                provider_id: Some("openai-compat".to_string()),
                model_id: "cli".to_string(),
            },
        )]),
        ..Default::default()
    });
    let foreign = foreign_provider();
    let all = providers_map(&active, &foreign);
    let patched =
        patch_config_text_for_provider_with_routes("", &active, &all, None, None, None)
            .expect("patch");
    assert!(
        !patched.contains(LEGACY_MANAGED_OWNER_KEY),
        "must not write legacy owner keys into model tables"
    );
    assert!(
        !patched.contains(LEGACY_MANAGED_SOURCE_PROVIDER_KEY),
        "must not write legacy source keys into model tables"
    );
    assert!(patched.contains(MANAGED_REGISTRY_ROOT));
    assert!(patched.contains(MANAGED_REGISTRY_TABLE));
}

#[test]
fn takeover_does_not_rewrite_foreign_managed_models() {
    let mut active = provider();
    active.meta = Some(ProviderMeta {
        grok_subagent_routes: Vec::from([(
            "plan".to_string(),
            GrokSubagentRoute {
                provider_id: Some("openai-compat".to_string()),
                model_id: "cli".to_string(),
            },
        )]),
        ..Default::default()
    });
    let foreign = foreign_provider();
    let all = providers_map(&active, &foreign);
    let patched = patch_config_text_for_provider_with_routes(
        "",
        &active,
        &all,
        Some("http://127.0.0.1:15721/grok/v1"),
        Some(GROK_PROXY_TOKEN_PLACEHOLDER),
        None,
    )
    .expect("takeover");
    let doc = patched.parse::<DocumentMut>().expect("parse");
    assert_eq!(
        doc["model"]["fast"]["base_url"].as_str(),
        Some("http://127.0.0.1:15721/grok/v1")
    );
    assert_eq!(
        doc["model"]["fast"]["api_key"].as_str(),
        Some(GROK_PROXY_TOKEN_PLACEHOLDER)
    );
    let managed_id = managed_cross_provider_model_id("openai-compat", "cli", &HashSet::new());
    assert_eq!(
        doc["model"][managed_id.as_str()]["base_url"].as_str(),
        Some("https://foreign.example/v1")
    );
    assert_eq!(
        doc["model"][managed_id.as_str()]["api_key"].as_str(),
        Some("foreign-secret-key")
    );
}
