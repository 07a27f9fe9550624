use grok_config::error::Fault;
use grok_config::routes::apply_subagent_routes;
use grok_config::{
    checked_patch_config_text_for_provider, checked_patch_config_text_for_provider_with_routes,
    checked_settings_from_config_text, cleanup_takeover_config_text,
    config_text_has_proxy_placeholder, is_managed_cross_provider_model,
    list_owned_managed_model_names, patch_config_text_for_provider,
    patch_config_text_for_provider_with_routes, profile_env_key, provider_live_text,
    settings_from_config_text, strip_managed_models_from_doc, takeover_live_text, AppError,
    GrokSubagentRoute, Provider, ProviderMeta,
};
use indexmap::IndexMap;
use serde_json::Value;
use toml_edit::DocumentMut;

const COPY: &str = "ccswitch_xprov_398ac6c65d5c9bd661dc802faae7c32f";

fn parse(text: &str) -> DocumentMut {
    text.parse::<DocumentMut>().expect("TOML")
}

fn settings_of(auth: &[(&str, Value)], config: Option<&str>) -> Value {
    let mut keys = serde_json::Map::new();
    for (name, value) in auth {
        keys.insert(name.to_string(), value.clone());
    }
    let mut members = serde_json::Map::new();
    members.insert("auth".to_string(), Value::Object(keys));
    if let Some(config) = config {
        members.insert("config".to_string(), Value::from(config));
    }
    Value::Object(members)
}

fn provider_of(id: &str, auth: &[(&str, Value)], config: Option<&str>) -> Provider {
    Provider::with_id(
        id.to_string(),
        format!("Name of {id}"),
        settings_of(auth, config),
        None,
    )
}

fn route(role: &str, provider: Option<&str>, model: &str) -> (String, GrokSubagentRoute) {
    (
        role.to_string(),
        GrokSubagentRoute {
            provider_id: provider.map(|p| p.to_string()),
            model_id: model.to_string(),
        },
    )
}

fn active_with(routes: Vec<(String, GrokSubagentRoute)>) -> Provider {
    let mut provider = provider_of(
        "xai",
        &[("OPENAI_API_KEY", Value::from("xai-key"))],
        Some("[models]\ndefault = \"fast\"\n[model.fast]\nmodel = \"grok\"\n"),
    );
    provider.meta = Some(ProviderMeta {
        api_format: Some("openai_chat".to_string()),
        grok_subagent_routes: routes,
    });
    provider
}

fn foreign() -> Provider {
    provider_of(
        "openai-compat",
        &[("OPENAI_API_KEY", Value::from("foreign-key"))],
        Some("[model.cli]\nmodel = \"gpt\"\nbase_url = \"https://f\"\n[model.env]\nmodel = \"gpt\"\nenv_key = \"F_KEY\"\n"),
    )
}

fn map_of(providers: Vec<Provider>) -> IndexMap<String, Provider> {
    let mut map = IndexMap::new();
    for provider in providers {
        map.insert(provider.id.clone(), provider);
    }
    map
}

fn patch(existing: &str, active: &Provider, all: &IndexMap<String, Provider>) -> DocumentMut {
    parse(
        &patch_config_text_for_provider_with_routes(existing, active, all, None, None, None)
            .expect("patch"),
    )
}

fn patch_error(existing: &str, active: &Provider, all: &IndexMap<String, Provider>) -> AppError {
    patch_config_text_for_provider_with_routes(existing, active, all, None, None, None)
        .expect_err("refused")
}

// -------------------------------------------------------------- the provider

#[test]
fn a_provider_gives_key_and_backend_to_models_without() {
    let mut provider = provider_of(
        "p",
        &[("XAI_API_KEY", Value::from("  second  ")), ("GROK_API_KEY", Value::from("third"))],
        Some("[model.a]\nmodel = \"m\"\n[model.b]\napi_key = \"own\"\napi_backend = \"responses\"\n[model.c]\nenv_key = \"E\"\n"),
    );
    provider.meta = Some(ProviderMeta {
        api_format: Some("chat".to_string()),
        ..Default::default()
    });
    let doc = patch("", &provider, &IndexMap::new());
    assert_eq!(doc["model"]["a"]["api_key"].as_str(), Some("second"));
    assert_eq!(doc["model"]["a"]["api_backend"].as_str(), Some("chat_completions"));
    assert_eq!(doc["model"]["b"]["api_key"].as_str(), Some("own"));
    assert_eq!(doc["model"]["b"]["api_backend"].as_str(), Some("responses"));
    assert!(doc["model"]["c"].get("api_key").is_none());
    assert!(doc["model"]["a"].get("base_url").is_none());
}

#[test]
fn overrides_win_over_the_provider() {
    let provider = active_with(Vec::new());
    let text = patch_config_text_for_provider(
        "",
        &provider,
        Some("http://here"),
        Some("key"),
        Some("responses"),
    )
    .expect("patch");
    let doc = parse(&text);
    assert_eq!(doc["endpoints"]["models_base_url"].as_str(), Some("http://here"));
    assert_eq!(doc["model"]["fast"]["base_url"].as_str(), Some("http://here"));
    assert_eq!(doc["model"]["fast"]["api_key"].as_str(), Some("key"));
    assert_eq!(doc["model"]["fast"]["api_backend"].as_str(), Some("responses"));
    assert_eq!(doc["model"]["fast"]["model"].as_str(), Some("grok"));
}

#[test]
fn a_key_that_is_no_string_or_blank_is_none() {
    for auth in [
        vec![("OPENAI_API_KEY", Value::from(" \t"))],
        vec![("OPENAI_API_KEY", Value::from(7))],
        vec![],
    ] {
        let provider = provider_of("p", &auth, Some("[model.a]\nmodel = \"m\"\n"));
        let doc = patch("", &provider, &IndexMap::new());
        assert!(doc["model"]["a"].get("api_key").is_none());
    }
    let provider = provider_of(
        "p",
        &[("OPENAI_API_KEY", Value::from(7)), ("GROK_API_KEY", Value::from("g"))],
        Some("[model.a]\nmodel = \"m\"\n"),
    );
    let doc = patch("", &provider, &IndexMap::new());
    assert_eq!(doc["model"]["a"]["api_key"].as_str(), Some("g"));
}

#[test]
fn a_provider_without_good_configuration_is_refused() {
    let none = IndexMap::new();
    let error = patch_error("", &provider_of("p", &[], None), &none);
    assert!(matches!(error, AppError::ConfigMissing));
    assert_eq!(
        error.message(),
        "Grok 供应商缺少 config 配置 (Grok provider is missing config)"
    );
    let error = patch_error("", &provider_of("p", &[], Some("x =")), &none);
    assert!(matches!(error, AppError::ConfigTomlInvalid { .. }));
    let error = patch_error("", &provider_of("p", &[], Some("x = 1")), &none);
    assert!(matches!(error, AppError::ProviderModelMissing));
    assert_eq!(error.key(), "provider.grok.model.missing");
    let error = patch_error("x =", &active_with(Vec::new()), &none);
    assert!(matches!(error, AppError::ExistingTomlInvalid { .. }));
}

#[test]
fn a_section_that_is_no_table_has_no_answer() {
    let provider = active_with(vec![route("plan", Some("openai-compat"), "cli")]);
    let all = map_of(vec![foreign()]);
    for existing in ["model = 1\n", "models = 1\n", "cc_switch = 1\n", "subagents = 1\n"] {
        assert!(checked_patch_config_text_for_provider_with_routes(
            existing, &provider, &all, None, None, None
        )
        .is_none());
    }
    assert!(checked_patch_config_text_for_provider("model = 1\n", &provider, None, None, None)
        .is_none());
    assert!(matches!(
        checked_patch_config_text_for_provider("", &provider, None, None, None),
        Some(Err(AppError::RouteProviderMissing { .. }))
    ));
    assert!(provider_live_text("model = 1\n", &provider, &all).is_none());
    assert!(takeover_live_text("model = 1\n", &provider, "http://p", &all).is_none());
}

#[test]
fn switching_and_taking_over_write_the_provider() {
    let provider = active_with(Vec::new());
    let all = IndexMap::new();
    let switched = provider_live_text("", &provider, &all).expect("answer").expect("text");
    assert_eq!(parse(&switched)["model"]["fast"]["api_key"].as_str(), Some("xai-key"));
    let taken = takeover_live_text(&switched, &provider, "http://p", &all)
        .expect("answer")
        .expect("text");
    let doc = parse(&taken);
    assert_eq!(doc["model"]["fast"]["api_key"].as_str(), Some("PROXY_MANAGED"));
    assert_eq!(doc["model"]["fast"]["base_url"].as_str(), Some("http://p"));
    assert_eq!(doc["endpoints"]["models_base_url"].as_str(), Some("http://p"));
    let mut official = provider_of("o", &[], Some(""));
    official.category = Some("official".to_string());
    assert!(matches!(
        takeover_live_text("", &official, "http://p", &all),
        Some(Err(AppError::OfficialProxyUnsupported))
    ));
    assert!(matches!(
        provider_live_text("a = 1\n", &official, &all),
        Some(Ok(_))
    ));
}

// ------------------------------------------------------------------ the routes

#[test]
fn roles_models_and_providers_are_trimmed() {
    let all = map_of(vec![foreign()]);
    let provider = active_with(vec![
        route("  plan ", Some(" openai-compat\t"), " cli "),
        route(" ", Some("nobody"), ""),
        route("explore", Some("  "), "fast"),
        route("other", None, "fast"),
    ]);
    let doc = patch("", &provider, &all);
    assert_eq!(doc["subagents"]["models"]["plan"].as_str(), Some(COPY));
    assert_eq!(doc["subagents"]["models"]["explore"].as_str(), Some("fast"));
    assert_eq!(doc["subagents"]["models"]["other"].as_str(), Some("fast"));
    assert_eq!(doc["subagents"]["models"].as_table().expect("table").len(), 3);
    assert_eq!(doc["model"][COPY]["api_key"].as_str(), Some("foreign-key"));
    assert_eq!(doc["model"][COPY]["base_url"].as_str(), Some("https://f"));
    assert_eq!(
        doc["cc_switch"]["managed_xprov"][COPY]["source_provider"].as_str(),
        Some("openai-compat")
    );
    assert_eq!(
        doc["cc_switch"]["managed_xprov"][COPY]["source_model"].as_str(),
        Some("cli")
    );
}

#[test]
fn bad_routes_are_refused_each_with_its_error() {
    let mut official = provider_of("o", &[], Some(""));
    official.category = Some("official".to_string());
    let all = map_of(vec![
        foreign(),
        official,
        provider_of("bare", &[], None),
        provider_of("broken", &[], Some("x =")),
    ]);
    let error = patch_error("", &active_with(vec![route("r", None, " ")]), &all);
    assert!(matches!(error, AppError::RouteModelIdEmpty { .. }));
    assert_eq!(
        error.message(),
        "Grok 子代理角色「r」的模型 ID 为空 (Grok subagent role 'r' has an empty model ID)"
    );
    let error = patch_error("", &active_with(vec![route("r", None, "slow")]), &all);
    assert_eq!(error.key(), "provider.grok.subagent_route.local_model_missing");
    assert_eq!(
        error.message(),
        "Grok 子代理角色「r」引用的本供应商模型 [model.slow] 不存在 (Grok subagent role 'r' refers to missing local model [model.slow])"
    );
    let error = patch_error("", &active_with(vec![route("r", Some("gone"), "fast")]), &all);
    assert_eq!(error.key(), "provider.grok.subagent_route.provider_missing");
    assert_eq!(
        error.message(),
        "Grok 子代理角色「r」引用的供应商「gone」不存在或已删除 (Grok subagent role 'r' refers to missing provider 'gone')"
    );
    let error = patch_error("", &active_with(vec![route("r", Some("o"), "m")]), &all);
    assert_eq!(
        error.key(),
        "provider.grok.subagent_route.official_source_unsupported"
    );
    assert_eq!(
        error.en(),
        "Grok subagent role 'r' cannot route to the official OAuth provider (no standalone model definitions)"
    );
    let error = patch_error(
        "",
        &active_with(vec![route("r", Some("openai-compat"), "fast")]),
        &all,
    );
    assert_eq!(error.key(), "provider.grok.subagent_route.model_missing");
    assert_eq!(
        error.en(),
        "Cross-provider Grok subagent route refers to missing model: provider 'Name of openai-compat' has no [model.fast]"
    );
    assert_eq!(
        error.zh(),
        "Grok 跨供应商路由引用的模型不存在：供应商「Name of openai-compat」中没有 [model.fast]"
    );
    let error = patch_error("", &active_with(vec![route("r", Some("bare"), "m")]), &all);
    assert!(matches!(error, AppError::ConfigMissing));
    let error = patch_error("", &active_with(vec![route("r", Some("broken"), "m")]), &all);
    assert!(matches!(error, AppError::ConfigTomlInvalid { .. }));
}

#[test]
fn the_first_bad_route_is_reported() {
    let provider = active_with(vec![
        route("a", None, "fast"),
        route("b", Some("gone"), "m"),
        route("c", None, ""),
    ]);
    let error = patch_error("", &provider, &IndexMap::new());
    assert!(matches!(error, AppError::RouteProviderMissing { .. }));
}

#[test]
fn a_model_with_a_variable_for_its_key_gets_no_key() {
    let provider = active_with(vec![route("plan", Some("openai-compat"), "env")]);
    let doc = patch("", &provider, &map_of(vec![foreign()]));
    let name = doc["subagents"]["models"]["plan"].as_str().expect("route");
    assert!(doc["model"][name].get("api_key").is_none());
    assert_eq!(doc["model"][name]["env_key"].as_str(), Some("F_KEY"));
}

#[test]
fn a_copy_carries_no_older_marker() {
    let source = provider_of(
        "s",
        &[],
        Some("[model.m]\nmodel = \"x\"\napi_key = \"k\"\ncc_switch_owned = true\ncc_switch_source_provider = \"q\"\ncc_switch_source_model = \"w\"\n"),
    );
    let provider = active_with(vec![route("plan", Some("s"), "m")]);
    let text = patch_config_text_for_provider_with_routes(
        "",
        &provider,
        &map_of(vec![source]),
        None,
        None,
        None,
    )
    .expect("patch");
    assert!(!text.contains("cc_switch_owned"));
    assert!(!text.contains("cc_switch_source_provider"));
    assert!(!text.contains("cc_switch_source_model"));
    assert!(text.contains("api_key = \"k\""));
}

#[test]
fn names_of_the_user_are_stepped_over() {
    let provider = active_with(vec![route("plan", Some("openai-compat"), "cli")]);
    let all = map_of(vec![foreign()]);
    let existing = format!("[model.{COPY}]\nmodel = \"a\"\n[model.{COPY}_m1]\nmodel = \"b\"\n");
    let doc = patch(&existing, &provider, &all);
    let name = format!("{COPY}_m2");
    assert_eq!(doc["subagents"]["models"]["plan"].as_str(), Some(name.as_str()));
    assert_eq!(doc["model"][COPY]["model"].as_str(), Some("a"));
    assert_eq!(doc["model"][format!("{COPY}_m1").as_str()]["model"].as_str(), Some("b"));
    let again = patch(&doc.to_string(), &provider, &all);
    assert_eq!(again["subagents"]["models"]["plan"].as_str(), Some(name.as_str()));
    assert_eq!(list_owned_managed_model_names(&again), vec![name]);
}

#[test]
fn two_roles_share_a_copy_and_keep_the_routes_of_the_user() {
    let all = map_of(vec![foreign()]);
    let provider = active_with(vec![
        route("plan", Some("openai-compat"), "cli"),
        route("explore", Some("openai-compat"), "cli"),
    ]);
    let existing = "[subagents]\nmax = 3\n[subagents.models]\nmine = \"fast\"\nplan = \"old\"\nodd = 5\n";
    let doc = patch(existing, &provider, &all);
    let routes = &doc["subagents"]["models"];
    assert_eq!(routes["plan"].as_str(), Some(COPY));
    assert_eq!(routes["explore"].as_str(), Some(COPY));
    assert_eq!(routes["mine"].as_str(), Some("fast"));
    assert_eq!(routes["odd"].as_integer(), Some(5));
    assert_eq!(doc["subagents"]["max"].as_integer(), Some(3));
    assert_eq!(list_owned_managed_model_names(&doc), vec![COPY.to_string()]);
}

#[test]
fn a_copy_that_is_not_in_use_goes_with_its_route_and_selection() {
    let all = map_of(vec![foreign()]);
    let existing = "[models]\nweb_search = \"old\"\n[subagents.models]\ngone = \"old\"\nmine = \"user\"\n[model.old]\nmodel = \"o\"\n[model.user]\nmodel = \"u\"\n[cc_switch.managed_xprov.old]\nsource_provider = \"x\"\nsource_model = \"y\"\n";
    let provider = active_with(vec![route("plan", Some("openai-compat"), "cli")]);
    let doc = patch(existing, &provider, &all);
    assert!(doc["model"].get("old").is_none());
    assert!(doc["subagents"]["models"].get("gone").is_none());
    assert_eq!(doc["subagents"]["models"]["mine"].as_str(), Some("user"));
    assert!(doc["model"]["user"].is_table());
    assert!(doc["cc_switch"]["managed_xprov"].get("old").is_none());
    assert!(!is_managed_cross_provider_model(&doc, "old"));
    assert!(is_managed_cross_provider_model(&doc, COPY));
}

#[test]
fn each_copy_that_is_left_is_one_that_a_route_was_led_to() {
    let all = map_of(vec![foreign()]);
    let provider = active_with(vec![
        route("plan", Some("openai-compat"), "cli"),
        route("explore", Some("openai-compat"), "env"),
        route("local", None, "fast"),
    ]);
    let existing = "[model.old]\nmodel = \"o\"\n[cc_switch.managed_xprov.old]\nsource_provider = \"x\"\nsource_model = \"y\"\n";
    let doc = patch(existing, &provider, &all);
    let routes = &doc["subagents"]["models"];
    let mut led_to = vec![
        routes["plan"].as_str().expect("plan").to_string(),
        routes["explore"].as_str().expect("explore").to_string(),
    ];
    let mut left = list_owned_managed_model_names(&doc);
    led_to.sort();
    left.sort();
    assert_eq!(left, led_to);
    assert_eq!(routes["local"].as_str(), Some("fast"));
    assert!(doc["model"].get("old").is_none());
}

#[test]
fn of_two_routes_with_one_role_the_last_counts() {
    let all = map_of(vec![foreign()]);
    let provider = active_with(vec![
        route("plan", Some("openai-compat"), "cli"),
        route("plan", Some("openai-compat"), "env"),
    ]);
    let doc = patch("", &provider, &all);
    let left = list_owned_managed_model_names(&doc);
    assert_eq!(left.len(), 2);
    assert!(left.contains(&COPY.to_string()));
    let plan = doc["subagents"]["models"]["plan"].as_str().expect("plan");
    assert_ne!(plan, COPY);
    assert!(left.contains(&plan.to_string()));
}

#[test]
fn nothing_refers_to_a_copy_that_was_removed() {
    let config = "[models]\ndefault = \"old\"\nweb_search = \"old\"\n[subagents.models]\ngone = \"old\"\n[model.old]\nmodel = \"o\"\n[cc_switch.managed_xprov.old]\nsource_provider = \"x\"\nsource_model = \"y\"\n";
    for routes in [vec![route("plan", Some("openai-compat"), "cli")], Vec::new()] {
        let mut doc = parse(config);
        let provider = active_with(routes);
        apply_subagent_routes(&mut doc, &provider, &map_of(vec![foreign()])).expect("routes");
        assert!(doc["model"].get("old").is_none());
        assert!(doc["models"].get("default").is_none());
        assert!(doc["models"].get("web_search").is_none());
        assert!(doc["subagents"]["models"].get("gone").is_none());
    }
}

#[test]
fn older_markers_move_to_the_registry() {
    let marked = "[model.kept]\nmodel = \"k\"\ncc_switch_owned = true\ncc_switch_source_provider = \"openai-compat\"\ncc_switch_source_model = \"cli\"\n[model.vague]\nmodel = \"v\"\ncc_switch_owned = true\n[model.off]\ncc_switch_owned = false\n";
    let provider = active_with(vec![route("plan", Some("openai-compat"), "cli")]);
    let doc = patch(marked, &provider, &map_of(vec![foreign()]));
    assert_eq!(doc["subagents"]["models"]["plan"].as_str(), Some("kept"));
    assert_eq!(doc["model"]["kept"]["model"].as_str(), Some("gpt"));
    assert!(doc["model"]["kept"].get("cc_switch_owned").is_none());
    assert_eq!(
        doc["cc_switch"]["managed_xprov"]["kept"]["source_model"].as_str(),
        Some("cli")
    );
    assert_eq!(doc["model"]["vague"].as_table().expect("table").len(), 1);
    assert_eq!(doc["model"]["off"]["cc_switch_owned"].as_bool(), Some(false));
    assert_eq!(list_owned_managed_model_names(&doc), vec!["kept".to_string()]);
}

#[test]
fn an_older_marker_is_reused_without_its_provider() {
    let marked = "[model.kept]\nmodel = \"k\"\ncc_switch_owned = true\ncc_switch_source_provider = \"openai-compat\"\ncc_switch_source_model = \"cli\"\n";
    let provider = active_with(vec![route("plan", Some("openai-compat"), "cli")]);
    let text =
        patch_config_text_for_provider(marked, &provider, None, None, None).expect("reused");
    let doc = parse(&text);
    assert_eq!(doc["subagents"]["models"]["plan"].as_str(), Some("kept"));
    assert_eq!(doc["model"]["kept"]["model"].as_str(), Some("k"));
}

#[test]
fn writing_a_route_twice_gives_the_same_copy() {
    let all = map_of(vec![foreign()]);
    let provider = active_with(vec![route("plan", Some("openai-compat"), "cli")]);
    let once = patch("[ui]\nx = 1\n", &provider, &all);
    let twice = patch(&once.to_string(), &provider, &all);
    for doc in [once, twice] {
        assert_eq!(doc["subagents"]["models"]["plan"].as_str(), Some(COPY));
        assert_eq!(doc["model"].as_table().expect("table").len(), 2);
        assert_eq!(doc["model"][COPY]["model"].as_str(), Some("gpt"));
        assert_eq!(doc["ui"]["x"].as_integer(), Some(1));
    }
}

#[test]
fn following_the_same_routes_again_changes_nothing() {
    let all = map_of(vec![foreign()]);
    let provider = active_with(vec![
        route("plan", Some("openai-compat"), "cli"),
        route("explore", None, "fast"),
        route("search", Some("openai-compat"), "env"),
    ]);
    let mut doc = parse("# top\n[subagents.models]\nmine = \"fast\" # note\n[model.fast]\nmodel = \"g\"\n[model.old]\ncc_switch_owned = true\ncc_switch_source_provider = \"p\"\ncc_switch_source_model = \"m\"\n");
    apply_subagent_routes(&mut doc, &provider, &all).expect("once");
    let once = doc.to_string();
    assert_eq!(doc["subagents"]["models"]["plan"].as_str(), Some(COPY));
    assert!(doc["model"].get("old").is_none());
    apply_subagent_routes(&mut doc, &provider, &all).expect("twice");
    assert_eq!(doc.to_string(), once);
    let provider = active_with(Vec::new());
    apply_subagent_routes(&mut doc, &provider, &all).expect("none");
    let bare = doc.to_string();
    assert!(list_owned_managed_model_names(&doc).is_empty());
    apply_subagent_routes(&mut doc, &provider, &all).expect("none again");
    assert_eq!(doc.to_string(), bare);
}

#[test]
fn a_refused_route_leaves_those_before_it() {
    let all = map_of(vec![foreign()]);
    let provider = active_with(vec![
        route("plan", Some("openai-compat"), "cli"),
        route("bad", Some("gone"), "m"),
        route("late", Some("openai-compat"), "env"),
    ]);
    let mut doc = parse("[subagents.models]\nmine = \"x\"\n[model.a]\nmodel = \"m\"\n");
    let fault = apply_subagent_routes(&mut doc, &provider, &all).expect_err("refused");
    assert!(matches!(
        fault,
        Fault::Reported(AppError::RouteProviderMissing { .. })
    ));
    assert_eq!(list_owned_managed_model_names(&doc), vec![COPY.to_string()]);
    assert!(doc["model"][COPY].is_table());
    assert_eq!(doc["subagents"]["models"].as_table().expect("table").len(), 1);
}

#[test]
fn an_import_undoes_writing() {
    let config = "[endpoints]\nmodels_base_url = \"u\"\n[models]\ndefault = \"a\"\nweb_search = \"b\"\n[subagents.models]\nplan = \"b\"\n[model.a]\nmodel = \"m\"\napi_backend = \"responses\"\n[model.b]\nmodel = \"n\"\napi_backend = \"chat\"\nlimit = 5\n";
    let mut provider = provider_of("p", &[("XAI_API_KEY", Value::from(" k "))], Some(config));
    provider.meta = Some(ProviderMeta {
        api_format: Some("chat".to_string()),
        ..Default::default()
    });
    let text = patch_config_text_for_provider("", &provider, None, None, None).expect("patch");
    let settings = settings_from_config_text(&text, None).expect("import");
    assert_eq!(settings["auth"]["OPENAI_API_KEY"], "k");
    let doc = parse(settings["config"].as_str().expect("config"));
    assert_eq!(doc["endpoints"]["models_base_url"].as_str(), Some("u"));
    assert_eq!(doc["models"]["default"].as_str(), Some("a"));
    assert_eq!(doc["models"]["web_search"].as_str(), Some("b"));
    assert_eq!(doc["subagents"]["models"]["plan"].as_str(), Some("b"));
    assert_eq!(doc["model"].as_table().expect("table").len(), 2);
    assert_eq!(doc["model"]["a"].as_table().expect("table").len(), 2);
    assert_eq!(doc["model"]["a"]["model"].as_str(), Some("m"));
    assert_eq!(doc["model"]["a"]["api_backend"].as_str(), Some("responses"));
    assert_eq!(doc["model"]["b"].as_table().expect("table").len(), 3);
    assert_eq!(doc["model"]["b"]["limit"].as_integer(), Some(5));
}

#[test]
fn the_official_account_keeps_all_else() {
    let mut official = provider_of("o", &[], Some(""));
    official.category = Some("official".to_string());
    let existing = "# top\n[ui]\nx = 1 # one\n[endpoints]\nmodels_base_url = \"u\"\nother = 2\n[models]\ndefault = \"a\"\n[model.a]\nmodel = \"m\"\n";
    let text = provider_live_text(existing, &official, &IndexMap::new())
        .expect("answer")
        .expect("text");
    assert_eq!(
        text,
        "# top\n[ui]\nx = 1 # one\n[endpoints]\nother = 2\n[models]\n[model.a]\nmodel = \"m\"\n"
    );
}

#[test]
fn what_stands_beside_the_registry_and_the_routes_stays() {
    let all = map_of(vec![foreign()]);
    let existing = "[cc_switch]\nnote = 1\n[subagents]\nmax = 3\n[models]\neffort = \"high\"\n";
    for routes in [vec![route("plan", Some("openai-compat"), "cli")], Vec::new()] {
        let doc = patch(existing, &active_with(routes), &all);
        assert_eq!(doc["cc_switch"]["note"].as_integer(), Some(1));
        assert_eq!(doc["subagents"]["max"].as_integer(), Some(3));
        assert_eq!(doc["models"]["effort"].as_str(), Some("high"));
        assert_eq!(doc["models"]["default"].as_str(), Some("fast"));
        assert!(doc["models"].get("web_search").is_none());
        assert!(doc.get("endpoints").is_none());
    }
}

#[test]
fn a_takeover_leaves_copies_alone_and_a_release_undoes_it() {
    let all = map_of(vec![foreign()]);
    let provider = active_with(vec![route("plan", Some("openai-compat"), "cli")]);
    let taken = takeover_live_text("[model.mine]\nmodel = \"u\"\n", &provider, "http://p", &all)
        .expect("answer")
        .expect("text");
    let doc = parse(&taken);
    assert_eq!(doc["model"][COPY]["base_url"].as_str(), Some("https://f"));
    assert_eq!(doc["model"][COPY]["api_key"].as_str(), Some("foreign-key"));
    assert!(config_text_has_proxy_placeholder(&taken));
    let released = cleanup_takeover_config_text(&taken).expect("release");
    assert!(!config_text_has_proxy_placeholder(&released));
    let doc = parse(&released);
    assert!(doc["model"].get("fast").is_none());
    assert!(doc["models"].get("default").is_none());
    assert!(doc["endpoints"].get("models_base_url").is_none());
    assert_eq!(doc["model"]["mine"]["model"].as_str(), Some("u"));
    assert_eq!(doc["subagents"]["models"]["plan"].as_str(), Some(COPY));
}

// ------------------------------------------------------------------- importing

#[test]
fn the_key_comes_from_the_default_model_or_its_variable() {
    let text = "[models]\ndefault = \"a\"\n[model.a]\nenv_key = \"A_KEY\"\n[model.b]\napi_key = \"b-key\"\n";
    assert_eq!(profile_env_key(text), Some("A_KEY".to_string()));
    let settings = settings_from_config_text(text, Some("from-env".to_string())).expect("import");
    assert_eq!(settings["auth"]["OPENAI_API_KEY"], "from-env");
    assert!(settings["config"].as_str().expect("config").contains("b-key"));
    let settings = settings_from_config_text(text, None).expect("import");
    assert_eq!(settings["auth"]["OPENAI_API_KEY"], "b-key");
    assert!(!settings["config"].as_str().expect("config").contains("b-key"));
    let text = "[models]\ndefault = \"a\"\n[model.a]\napi_key = \"a-key\"\nenv_key = \"A_KEY\"\n[model.b]\napi_key = \"b-key\"\n";
    assert_eq!(profile_env_key(text), None);
    let settings = settings_from_config_text(text, None).expect("import");
    assert_eq!(settings["auth"]["OPENAI_API_KEY"], "a-key");
    assert!(settings["config"].as_str().expect("config").contains("b-key"));
    assert_eq!(profile_env_key("x ="), None);
    assert_eq!(profile_env_key("[model.a]\nenv_key = \"A_KEY\"\n"), None);
    let settings = settings_from_config_text("[model.a]\nmodel = \"m\"\n", None).expect("import");
    assert_eq!(settings["auth"]["OPENAI_API_KEY"], "");
}

#[test]
fn an_import_takes_only_what_a_provider_owns() {
    let text = "[ui]\nx = 1\n[endpoints]\nmodels_base_url = \"u\"\nother = 1\n[models]\ndefault = \"a\"\neffort = \"high\"\n[subagents]\nmax = 3\n[subagents.models]\nplan = \"a\"\n[model.a]\nmodel = \"m\"\n";
    let settings = settings_from_config_text(text, None).expect("import");
    let doc = parse(settings["config"].as_str().expect("config"));
    assert!(doc.get("ui").is_none());
    assert_eq!(doc["endpoints"]["models_base_url"].as_str(), Some("u"));
    assert!(doc["endpoints"].get("other").is_none());
    assert_eq!(doc["models"]["default"].as_str(), Some("a"));
    assert!(doc["models"].get("effort").is_none());
    assert_eq!(doc["subagents"]["models"]["plan"].as_str(), Some("a"));
    assert!(doc["subagents"].get("max").is_none());
    assert_eq!(doc["model"]["a"]["model"].as_str(), Some("m"));
}

#[test]
fn an_import_keeps_routes_in_braces() {
    let text = "[subagents]\nmax = 3\nmodels = { plan = \"a\" }\n[model.a]\nmodel = \"m\"\n";
    let settings = settings_from_config_text(text, None).expect("import");
    let doc = parse(settings["config"].as_str().expect("config"));
    assert!(doc["subagents"].is_inline_table());
    assert_eq!(doc["subagents"]["models"]["plan"].as_str(), Some("a"));
    assert!(doc["subagents"].get("max").is_none());
}

#[test]
fn an_import_owns_no_copy() {
    let text = "[subagents.models]\nplan = \"c\"\n[model.a]\nmodel = \"m\"\n[model.b]\ncc_switch_owned = true\ncc_switch_source_provider = \"p\"\ncc_switch_source_model = \"b\"\n[model.c]\nmodel = \"c\"\n[cc_switch.managed_xprov.c]\nsource_provider = \"p\"\nsource_model = \"m\"\n";
    assert_eq!(list_owned_managed_model_names(&parse(text)).len(), 2);
    let settings = settings_from_config_text(text, None).expect("import");
    let doc = parse(settings["config"].as_str().expect("config"));
    assert!(list_owned_managed_model_names(&doc).is_empty());
    assert!(doc["model"].get("a").is_some());
    assert!(doc["model"].get("b").is_none());
    assert!(doc["model"].get("c").is_none());
}

#[test]
fn a_registry_in_braces_does_not_touch_what_stands_elsewhere() {
    let text = "cc_switch = { note = 1 }\n[ui]\nx = 1\n[models]\neffort = \"high\"\n[subagents]\nmax = 3\n[model.user]\nmodel = \"u\"\n[model.b]\ncc_switch_owned = true\ncc_switch_source_provider = \"p\"\ncc_switch_source_model = \"b\"\n";
    let mut doc = parse(text);
    assert!(strip_managed_models_from_doc(&mut doc));
    assert!(list_owned_managed_model_names(&doc).is_empty());
    assert_eq!(doc["ui"]["x"].as_integer(), Some(1));
    assert_eq!(doc["model"]["user"]["model"].as_str(), Some("u"));
    for routes in [vec![route("plan", Some("openai-compat"), "cli")], Vec::new()] {
        let doc = patch(text, &active_with(routes), &map_of(vec![foreign()]));
        assert_eq!(doc["ui"]["x"].as_integer(), Some(1));
        assert_eq!(doc["models"]["effort"].as_str(), Some("high"));
        assert_eq!(doc["subagents"]["max"].as_integer(), Some(3));
        assert_eq!(doc["model"]["user"]["model"].as_str(), Some("u"));
    }
}

#[test]
fn an_import_drops_a_selection_of_a_copy() {
    let text = "[models]\ndefault = \"c\"\nweb_search = \"a\"\n[model.a]\nmodel = \"m\"\n[model.c]\napi_key = \"c-key\"\n[cc_switch.managed_xprov.c]\nsource_provider = \"p\"\nsource_model = \"m\"\n";
    let settings = settings_from_config_text(text, None).expect("import");
    let doc = parse(settings["config"].as_str().expect("config"));
    assert!(doc["models"].get("default").is_none());
    assert_eq!(doc["models"]["web_search"].as_str(), Some("a"));
    assert!(doc["model"].get("c").is_none());
    assert!(doc.get("cc_switch").is_none());
}

#[test]
fn an_import_is_refused_without_a_model() {
    let error = settings_from_config_text("a = 1", None).expect_err("no model");
    assert!(matches!(error, AppError::LiveModelMissing));
    assert_eq!(
        error.message(),
        "Grok config.toml 中未找到当前模型配置 (The active model is missing from Grok config.toml)"
    );
    let error = settings_from_config_text("a =", None).expect_err("bad");
    assert!(matches!(error, AppError::LiveTomlInvalid { .. }));
    let text = "cc_switch = 1\n[model.a]\ncc_switch_owned = true\ncc_switch_source_provider = \"p\"\ncc_switch_source_model = \"m\"\n";
    assert!(checked_settings_from_config_text(text, None).is_none());
    assert!(matches!(
        checked_settings_from_config_text("[model.a]\n", None),
        Some(Ok(_))
    ));
}

#[test]
fn stripping_keeps_what_else_stands_beside_the_registry() {
    let mut doc = parse("[cc_switch]\nnote = 1\n[cc_switch.managed_xprov.c]\nsource_provider = \"p\"\nsource_model = \"m\"\n[model.c]\nmodel = \"m\"\n");
    assert!(strip_managed_models_from_doc(&mut doc));
    assert_eq!(doc["cc_switch"]["note"].as_integer(), Some(1));
    assert!(doc["cc_switch"].get("managed_xprov").is_none());
    assert!(doc["model"].get("c").is_none());
    let mut doc = parse("cc_switch = 1\n[model.a]\ncc_switch_owned = true\ncc_switch_source_provider = \"p\"\ncc_switch_source_model = \"m\"\n");
    assert!(!strip_managed_models_from_doc(&mut doc));
}

#[test]
fn an_entry_without_a_source_owns_nothing() {
    let doc = parse("[model.c]\nmodel = \"m\"\n[cc_switch.managed_xprov.c]\nsource_provider = \" \"\nsource_model = \"m\"\n");
    assert!(!is_managed_cross_provider_model(&doc, "c"));
    assert!(list_owned_managed_model_names(&doc).is_empty());
}

#[test]
fn settings_are_patched_in_again() {
    let text = "[models]\ndefault = \"a\"\n[model.a]\nmodel = \"m\"\napi_key = \" k \"\n";
    let settings = settings_from_config_text(text, None).expect("import");
    let provider = Provider::with_id("p".to_string(), "P".to_string(), settings, None);
    let doc = patch("", &provider, &IndexMap::new());
    assert_eq!(doc["model"]["a"]["api_key"].as_str(), Some("k"));
    assert_eq!(doc["models"]["default"].as_str(), Some("a"));
}
