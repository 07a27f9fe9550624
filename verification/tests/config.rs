use grok_config::{
    active_base_url, api_format_from_backend, apply_privacy_protection_config_text,
    backup_file_name, backups_to_remove, checked_apply_privacy_protection_config_text,
    checked_merge_grok_profile_config_text, cleanup_takeover_config_text,
    config_text_has_proxy_placeholder, get_grok_backup_dir, get_grok_config_dir,
    get_grok_config_path, infer_api_format_from_settings, managed_cross_provider_model_id,
    merge_grok_profile_config_text, read_grok_config_text, use_official_auth_config_text,
    validate_config_toml, write_grok_config_text, AppError, ConfigDir, ConfigPath, WritePlan,
};
use grok_config::selection::api_backend_from_format;
use grok_config::text::{decimal_text, hex_encode};
use serde_json::Value;
use std::collections::HashSet;
use toml_edit::DocumentMut;

fn parse(text: &str) -> DocumentMut {
    text.parse::<DocumentMut>().expect("TOML")
}

fn config_settings(config: &str) -> Value {
    let mut members = serde_json::Map::new();
    members.insert("config".to_string(), Value::from(config));
    Value::Object(members)
}

// ------------------------------------------------------------------- merging

#[test]
fn merge_leaves_other_sections_and_their_layout_alone() {
    let existing = "# top\n[ui]   # trailing\ntheme = 'dark'\n\n[models]\ndefault = \"old\"\neffort = \"high\" # keep\n";
    let profile = "[models]\ndefault = \"new\"\n\n[model.new]\nmodel = \"m\"\n";
    let merged = merge_grok_profile_config_text(existing, profile).expect("merge");
    assert!(merged.starts_with("# top\n[ui]   # trailing\ntheme = 'dark'\n\n[models]\n"));
    assert!(merged.contains("effort = \"high\" # keep\n"));
    assert_eq!(parse(&merged)["models"]["default"].as_str(), Some("new"));
    assert_eq!(parse(&merged)["model"]["new"]["model"].as_str(), Some("m"));
}

#[test]
fn merge_removes_what_the_profile_does_not_have() {
    let existing = "[endpoints]\nmodels_base_url = \"u\"\nother = 1\n[models]\ndefault = \"a\"\nweb_search = \"b\"\n";
    let profile = "[models]\ndefault = \"x\"\n[model.x]\nmodel = \"m\"\n";
    let doc = parse(&merge_grok_profile_config_text(existing, profile).expect("merge"));
    assert!(doc["endpoints"].get("models_base_url").is_none());
    assert_eq!(doc["endpoints"]["other"].as_integer(), Some(1));
    assert_eq!(doc["models"]["default"].as_str(), Some("x"));
    assert!(doc["models"].get("web_search").is_none());
}

#[test]
fn merge_twice_is_merge_once() {
    let existing = "[models]\nweb_search = \"b\"\n[model.user]\nmodel = \"mine\"\n";
    let profile = "[endpoints]\nmodels_base_url = \"u\"\n[models]\ndefault = \"x\"\n[subagents.models]\nplan = \"x\"\n[model.x]\nmodel = \"m\"\n";
    let once = merge_grok_profile_config_text(existing, profile).expect("once");
    let twice = merge_grok_profile_config_text(&once, profile).expect("twice");
    assert_eq!(once, twice);
}

#[test]
fn merge_never_overwrites_a_registered_copy() {
    let existing = "[model.x]\nmodel = \"copy\"\n[cc_switch.managed_xprov.x]\nsource_provider = \"p\"\nsource_model = \"m\"\n";
    let profile = "[model.x]\nmodel = \"profile\"\n";
    let doc = parse(&merge_grok_profile_config_text(existing, profile).expect("merge"));
    assert_eq!(doc["model"]["x"]["model"].as_str(), Some("copy"));
}

#[test]
fn merge_reports_each_bad_text() {
    let error = merge_grok_profile_config_text("x =", "[model.a]\n").expect_err("existing");
    assert!(matches!(error, AppError::ExistingTomlInvalid { .. }));
    assert_eq!(error.key(), "grok.live.invalid_toml");
    assert!(error.en().starts_with("Existing Grok config.toml is invalid: "));
    assert!(error.zh().starts_with("现有 Grok config.toml 格式错误: "));
    let error = merge_grok_profile_config_text("", "x =").expect_err("profile");
    assert!(matches!(error, AppError::ProfileTomlInvalid { .. }));
    assert_eq!(error.key(), "provider.grok.config.invalid_toml");
    assert!(error.en().starts_with("Invalid Grok Profile TOML: "));
    let error = merge_grok_profile_config_text("", "a = 1").expect_err("no model");
    assert!(matches!(error, AppError::ProfileModelMissing));
    assert_eq!(
        error.message(),
        "Grok Profile 缺少 [model.*] 模型定义 (Grok Profile is missing a [model.*] model definition)"
    );
}

#[test]
fn merge_has_no_answer_where_a_section_is_no_table() {
    let profile = "[models]\ndefault = \"x\"\n[model.x]\nmodel = \"m\"\n";
    assert!(checked_merge_grok_profile_config_text("models = 5\n", profile).is_none());
    assert!(checked_merge_grok_profile_config_text("model = 5\n", profile).is_none());
    assert!(matches!(
        checked_merge_grok_profile_config_text("", profile),
        Some(Ok(_))
    ));
    assert!(matches!(
        checked_merge_grok_profile_config_text("", "x ="),
        Some(Err(AppError::ProfileTomlInvalid { .. }))
    ));
}

#[test]
fn merge_writes_into_a_table_in_braces() {
    let profile = "[models]\ndefault = \"x\"\n[model.x]\nmodel = \"m\"\n";
    let merged = merge_grok_profile_config_text("models = { effort = \"high\" }\n", profile)
        .expect("merge");
    let doc = parse(&merged);
    assert_eq!(doc["models"]["effort"].as_str(), Some("high"));
    assert_eq!(doc["models"]["default"].as_str(), Some("x"));
}

#[test]
fn a_new_section_is_in_braces_unless_it_holds_tables() {
    let profile = "[endpoints]\nmodels_base_url = \"u\"\n[models]\ndefault = \"x\"\n[subagents.models]\nplan = \"x\"\n[model.x]\nmodel = \"m\"\n";
    let merged = merge_grok_profile_config_text("", profile).expect("merge");
    assert!(merged.starts_with("endpoints = { models_base_url = \"u\"}\nmodels = { default = \"x\"}\n"));
    let doc = parse(&merged);
    assert!(doc["subagents"]["models"].is_table());
    assert!(doc["model"]["x"].is_table());
}

#[test]
fn a_new_section_for_models_is_under_a_header_whichever_comes_first() {
    let profile = "[model]\na = { model = \"m\" }\n[model.c]\nmodel = \"k\"\n";
    let doc = parse(&merge_grok_profile_config_text("", profile).expect("merge"));
    assert_eq!(doc["model"]["a"]["model"].as_str(), Some("m"));
    assert!(doc["model"]["c"].is_table());
}

#[test]
fn routes_in_braces_are_merged_in_braces() {
    let profile = "[subagents]\nmodels = { plan = \"x\" }\n[model.x]\nmodel = \"m\"\n";
    let merged = merge_grok_profile_config_text("", profile).expect("merge");
    let doc = parse(&merged);
    assert!(doc["subagents"].is_inline_table());
    assert!(doc["subagents"]["models"].is_inline_table());
    assert_eq!(doc["subagents"]["models"]["plan"].as_str(), Some("x"));
    let merged = merge_grok_profile_config_text("[subagents]\nmax = 3\n", profile).expect("merge");
    let doc = parse(&merged);
    assert!(doc["subagents"].is_table());
    assert_eq!(doc["subagents"]["max"].as_integer(), Some(3));
    assert_eq!(doc["subagents"]["models"]["plan"].as_str(), Some("x"));
}

// ---------------------------------------------------------- official, privacy

#[test]
fn official_text_is_the_text_without_three_fields() {
    let text = "# head\n[endpoints]\nmodels_base_url = \"u\"\n\n[models]\ndefault = \"a\"\neffort = 1\nweb_search = \"b\"\n\n[model.a]\nkey = 'x' # note\n";
    let expected = "# head\n[endpoints]\n\n[models]\neffort = 1\n\n[model.a]\nkey = 'x' # note\n";
    let official = use_official_auth_config_text(text).expect("official");
    assert_eq!(official, expected);
    assert_eq!(
        use_official_auth_config_text(&official).expect("again"),
        expected
    );
    assert_eq!(use_official_auth_config_text(" \n\t").expect("blank"), "");
    assert!(matches!(
        use_official_auth_config_text("x ="),
        Err(AppError::ExistingTomlInvalid { .. })
    ));
}

#[test]
fn privacy_sets_four_fields_and_is_idempotent() {
    let text = "[telemetry]\ntrace_upload = true\nother = 1\n";
    let once = apply_privacy_protection_config_text(text).expect("privacy");
    assert_eq!(
        once,
        "features = { telemetry = false }\nharness = { disable_codebase_upload = true }\n[telemetry]\ntrace_upload = false\nother = 1\nmixpanel_enabled = false\n"
    );
    assert_eq!(
        apply_privacy_protection_config_text(&once).expect("again"),
        once
    );
    assert_eq!(
        apply_privacy_protection_config_text("  ").expect("blank"),
        "features = { telemetry = false }\ntelemetry = { trace_upload = false, mixpanel_enabled = false }\nharness = { disable_codebase_upload = true }\n"
    );
}

#[test]
fn privacy_refuses_bad_text_and_has_no_answer_for_a_number() {
    let error = apply_privacy_protection_config_text("x =").expect_err("bad");
    assert!(matches!(error, AppError::LiveTomlInvalid { .. }));
    assert_eq!(error.key(), "grok.live.invalid_toml");
    assert!(error.en().starts_with("Invalid Grok config.toml: "));
    assert!(checked_apply_privacy_protection_config_text("features = 1\n").is_none());
    assert!(matches!(
        checked_apply_privacy_protection_config_text(""),
        Some(Ok(_))
    ));
}

// ------------------------------------------------------------------- reading

#[test]
fn validation_reports_the_parser() {
    assert!(validate_config_toml("a = 1\n").is_ok());
    let error = validate_config_toml("a = \n").expect_err("bad");
    assert!(matches!(error, AppError::ConfigTomlInvalid { .. }));
    assert_eq!(error.key(), "provider.grok.config.invalid_toml");
    let detail = "a = \n".parse::<DocumentMut>().expect_err("bad").to_string();
    assert_eq!(error.en(), format!("Invalid Grok config.toml: {detail}"));
    assert_eq!(error.zh(), format!("Grok config.toml 格式错误: {detail}"));
    assert_eq!(error.message(), format!("{} ({})", error.zh(), error.en()));
}

#[test]
fn base_url_is_that_of_the_selected_model() {
    let text = "[endpoints]\nmodels_base_url = \"common\"\n[models]\ndefault = \"b\"\n[model.a]\nbase_url = \"ua\"\n[model.b]\nbase_url = \"ub\"\n";
    assert_eq!(active_base_url(text), Some("ub".to_string()));
    let text = "[models]\ndefault = \"gone\"\n[model.a]\nbase_url = \"ua\"\n[model.ccswitch]\nbase_url = \"uc\"\n";
    assert_eq!(active_base_url(text), Some("uc".to_string()));
    let text = "[model.a]\nbase_url = \"ua\"\n[model.b]\nbase_url = \"ub\"\n";
    assert_eq!(active_base_url(text), Some("ua".to_string()));
    let text = "[endpoints]\nmodels_base_url = \"common\"\n[model.a]\nmodel = \"m\"\n";
    assert_eq!(active_base_url(text), Some("common".to_string()));
    assert_eq!(active_base_url("a = 1"), None);
    assert_eq!(active_base_url("a ="), None);
}

#[test]
fn placeholder_is_noticed_on_any_model() {
    assert!(config_text_has_proxy_placeholder(
        "[model.a]\napi_key = \"x\"\n[model.b]\napi_key = \"PROXY_MANAGED\"\n"
    ));
    assert!(!config_text_has_proxy_placeholder("[model.a]\napi_key = \"x\"\n"));
    assert!(!config_text_has_proxy_placeholder(
        "[other.a]\napi_key = \"PROXY_MANAGED\"\n"
    ));
    assert!(!config_text_has_proxy_placeholder("a ="));
}

#[test]
fn formats_and_backends_go_together() {
    for (format, backend) in [
        (" Chat ", "chat_completions"),
        ("CHAT_COMPLETIONS", "chat_completions"),
        ("chat-completions", "chat_completions"),
        ("openai_chat", "chat_completions"),
        ("OpenAI-Chat", "chat_completions"),
        ("\u{2003}responses\u{a0}", "responses"),
        ("openai_responses", "responses"),
        ("openai-responses", "responses"),
    ] {
        assert_eq!(api_backend_from_format(Some(format)), Some(backend));
    }
    assert_eq!(api_backend_from_format(Some("anthropic")), None);
    assert_eq!(api_backend_from_format(None), None);
    assert_eq!(api_format_from_backend(Some(" Chat_Completions")), "openai_chat");
    assert_eq!(api_format_from_backend(Some("chat")), "openai_chat");
    assert_eq!(api_format_from_backend(Some("chat-completions")), "openai_chat");
    assert_eq!(api_format_from_backend(Some("responses")), "openai_responses");
    assert_eq!(api_format_from_backend(Some("openai_chat")), "openai_responses");
    assert_eq!(api_format_from_backend(None), "openai_responses");
    for backend in [Some("chat"), Some("responses"), Some("x"), None] {
        let format = api_format_from_backend(backend);
        let again = api_format_from_backend(api_backend_from_format(Some(format)));
        assert_eq!(format, again);
    }
}

#[test]
fn format_is_inferred_from_the_selected_model() {
    let chat = "[models]\ndefault = \"b\"\n[model.a]\napi_backend = \"responses\"\n[model.b]\napi_backend = \"chat\"\n";
    assert_eq!(infer_api_format_from_settings(&config_settings(chat)), "openai_chat");
    assert_eq!(infer_api_format_from_settings(&config_settings("a =")), "openai_responses");
    assert_eq!(infer_api_format_from_settings(&config_settings("")), "openai_responses");
    assert_eq!(infer_api_format_from_settings(&Value::Null), "openai_responses");
}

// --------------------------------------------------------------- identifiers

#[test]
fn identifiers_are_half_a_digest() {
    let none = HashSet::new();
    assert_eq!(
        managed_cross_provider_model_id("openai-compat", "cli", &none),
        "ccswitch_xprov_398ac6c65d5c9bd661dc802faae7c32f"
    );
    assert_eq!(
        managed_cross_provider_model_id("a/b", "m", &none),
        "ccswitch_xprov_20230c0f4060d6caf1157e90c021502e"
    );
    assert_eq!(
        managed_cross_provider_model_id("a_b", "m", &none),
        "ccswitch_xprov_76d1f74306daa39f4d85ae4b08bd0a4a"
    );
    assert_eq!(managed_cross_provider_model_id("", "", &none).len(), 47);
    let some = HashSet::from(["ccswitch_xprov_398ac6c65d5c9bd661dc802faae7c32f".to_string()]);
    assert_eq!(
        managed_cross_provider_model_id("openai-compat", "cli", &some),
        "ccswitch_xprov_398ac6c65d5c9bd661dc802faae7c32f"
    );
}

#[test]
fn numerals_are_written_out() {
    assert_eq!(hex_encode(&[0x00, 0x0f, 0xa5, 0xff]), "000fa5ff");
    assert_eq!(hex_encode(&[]), "");
    assert_eq!(decimal_text(0), "0");
    assert_eq!(decimal_text(10), "10");
    assert_eq!(decimal_text(18446744073709551615), "18446744073709551615");
}

// ----------------------------------------------------------------- releasing

#[test]
fn release_takes_out_the_takeover_and_nothing_else() {
    let text = "# head\n[endpoints]\nmodels_base_url = \"http://proxy\"\nother = 1\n\n[models]\ndefault = \"a\"\nweb_search = \"b\"\n\n[subagents.models]\nplan = \"a\"\nexplore = \"b\"\n\n[model.a]\napi_key = \"PROXY_MANAGED\"\n\n[model.b]\napi_key = \"own\" # note\n";
    let expected = "# head\n[endpoints]\nother = 1\n\n[models]\nweb_search = \"b\"\n\n[subagents.models]\nexplore = \"b\"\n\n[model.b]\napi_key = \"own\" # note\n";
    let released = cleanup_takeover_config_text(text).expect("release");
    assert_eq!(released, expected);
    assert!(!config_text_has_proxy_placeholder(&released));
    assert_eq!(
        cleanup_takeover_config_text(&released).expect("again"),
        expected
    );
}

#[test]
fn release_needs_a_takeover() {
    let text = "[endpoints]\nmodels_base_url = \"u\"\n[model.a]\napi_key = \"x\"\n";
    assert_eq!(cleanup_takeover_config_text(text).expect("same"), text);
    assert!(matches!(
        cleanup_takeover_config_text("x ="),
        Err(AppError::LiveTomlInvalid { .. })
    ));
}

// ------------------------------------------------------------------- writing

#[test]
fn a_backup_is_made_of_contents_that_change() {
    let text = "a = 1\n";
    assert_eq!(write_grok_config_text(text, None).expect("plan"), WritePlan::Write);
    assert_eq!(
        write_grok_config_text(text, Some(b"a = 1\n")).expect("plan"),
        WritePlan::Write
    );
    assert_eq!(
        write_grok_config_text(text, Some(b"a = 2\n")).expect("plan"),
        WritePlan::BackUpAndWrite
    );
    assert_eq!(
        write_grok_config_text(text, Some(b"a = 1")).expect("plan"),
        WritePlan::BackUpAndWrite
    );
    assert!(matches!(
        write_grok_config_text("a =", Some(b"a = 1\n")),
        Err(AppError::ConfigTomlInvalid { .. })
    ));
}

#[test]
fn a_missing_file_is_refused() {
    assert_eq!(read_grok_config_text(Some("a".to_string())).expect("text"), "a");
    let error = read_grok_config_text(None).expect_err("missing");
    assert!(matches!(error, AppError::LiveMissing));
    assert_eq!(error.key(), "grok.live.missing");
    assert_eq!(
        error.message(),
        "Grok Build 配置文件不存在 (Grok Build configuration file is missing)"
    );
}

#[test]
fn the_newest_backups_are_kept() {
    let mut names: Vec<Vec<u8>> = Vec::new();
    names.push(b"notes.toml".to_vec());
    for day in [11, 3, 7, 1, 12, 5, 2, 9, 8, 4, 10, 6] {
        names.push(backup_file_name(&format!("202501{day:02}-000000-000")).into_bytes());
    }
    names.push(b"config-20250101-000000-000.bak".to_vec());
    names.push(b"config-".to_vec());
    let removed: Vec<String> = backups_to_remove(&names)
        .iter()
        .map(|i| String::from_utf8(names[*i].clone()).expect("name"))
        .collect();
    assert_eq!(
        removed,
        vec![
            "config-20250101-000000-000.toml".to_string(),
            "config-20250102-000000-000.toml".to_string(),
        ]
    );
}

#[test]
fn ten_backups_are_not_too_many() {
    let names: Vec<Vec<u8>> = (0..10).map(|i| format!("config-{i}.toml").into_bytes()).collect();
    assert!(backups_to_remove(&names).is_empty());
    assert!(backups_to_remove(&Vec::new()).is_empty());
    let names: Vec<Vec<u8>> = (0..11).map(|_| b"config-same.toml".to_vec()).collect();
    assert_eq!(backups_to_remove(&names), vec![0]);
}

#[test]
fn the_places_of_files_are_chosen_in_order() {
    let set: Option<&[u8]> = Some(b"/x/config.toml");
    let empty: Option<&[u8]> = Some(b"");
    assert_eq!(get_grok_config_dir(set, set, true), ConfigDir::OfConfigVariable);
    assert_eq!(get_grok_config_dir(empty, set, true), ConfigDir::HomeVariable);
    assert_eq!(get_grok_config_dir(None, empty, true), ConfigDir::Settings);
    assert_eq!(get_grok_config_dir(None, None, false), ConfigDir::UserHome);
    assert_eq!(get_grok_config_path(set), ConfigPath::ConfigVariable);
    assert_eq!(get_grok_config_path(empty), ConfigPath::InConfigDir);
    assert_eq!(get_grok_config_path(None), ConfigPath::InConfigDir);
    assert_eq!(get_grok_backup_dir(), [".grok_switch", "backups"]);
}
