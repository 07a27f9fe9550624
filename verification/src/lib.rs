//! The configuration file of Grok Build, and the providers that are put into it.
//!
//! What a provider owns in the file is its address, its selection of models, the
//! routes of its subagents and its models; nothing else is touched. A route may
//! lead to a model of another provider: a copy of it then stands in the file,
//! and a registry beside it records where the copy comes from.
//!
//! The documents are those of `toml_edit`. [`tree`] is their mathematical
//! model, and [`toml`], [`json`] and [`digest`] hold what is believed of the
//! crates that read, write and hash. Everything else is proved from there.
pub mod backup;
pub mod digest;
pub mod edit;
pub mod error;
pub mod import;
pub mod json;
pub mod laws;
pub mod location;
pub mod patch;
pub mod profile;
pub mod provider;
pub mod registry;
pub mod routes;
pub mod selection;
pub mod text;
pub mod toml;
pub mod tree;

pub use crate::backup::{
    backup_file_name, backups_to_remove, read_grok_config_text, write_grok_config_text, WritePlan,
};
pub use crate::digest::{managed_cross_provider_model_id, MANAGED_CROSS_PROVIDER_MODEL_PREFIX};
pub use crate::error::AppError;
pub use crate::import::{
    checked_settings_from_config_text, cleanup_takeover_config_text, profile_env_key,
    settings_from_config_text, strip_managed_models_from_doc,
};
pub use crate::location::{
    get_grok_backup_dir, get_grok_config_dir, get_grok_config_path, ConfigDir, ConfigPath,
};
pub use crate::patch::{
    checked_patch_config_text_for_provider, checked_patch_config_text_for_provider_with_routes,
    patch_config_text_for_provider, patch_config_text_for_provider_with_routes,
    provider_live_text, takeover_live_text,
};
pub use crate::profile::{
    apply_privacy_protection_config_text, checked_apply_privacy_protection_config_text,
    checked_merge_grok_profile_config_text, merge_grok_profile_config_text,
    use_official_auth_config_text,
};
pub use crate::provider::{GrokSubagentRoute, Provider, ProviderMeta};
pub use crate::registry::{
    is_managed_cross_provider_model, list_owned_managed_model_names, LEGACY_MANAGED_OWNER_KEY,
    LEGACY_MANAGED_SOURCE_MODEL_KEY, LEGACY_MANAGED_SOURCE_PROVIDER_KEY, MANAGED_REGISTRY_ROOT,
    MANAGED_REGISTRY_TABLE, MANAGED_REG_SOURCE_MODEL, MANAGED_REG_SOURCE_PROVIDER,
};
pub use crate::selection::{
    active_base_url, api_format_from_backend, config_text_has_proxy_placeholder,
    infer_api_format_from_settings, validate_config_toml, CC_SWITCH_GROK_MODEL_ID,
    GROK_PROXY_TOKEN_PLACEHOLDER,
};
