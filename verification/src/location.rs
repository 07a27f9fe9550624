//! Where the configuration and its backups are kept.
use vstd::prelude::*;

verus! {

/// The name of the configuration file in its directory.
pub const CONFIG_FILE: &'static str = "config.toml";

/// The name of the configuration directory in the home of the user.
pub const CONFIG_DIR: &'static str = ".grok";

/// Which directory holds the configuration.
#[derive(Clone, Copy, Debug, PartialEq, Eq, Structural)]
pub enum ConfigDir {
    /// The one that holds the file which `GROK_CONFIG` names.
    OfConfigVariable,
    /// The one that `GROK_HOME` names.
    HomeVariable,
    /// The one that the settings name.
    Settings,
    /// [`CONFIG_DIR`] in the home of the user.
    UserHome,
}

/// Which file holds the configuration.
#[derive(Clone, Copy, Debug, PartialEq, Eq, Structural)]
pub enum ConfigPath {
    /// The one that `GROK_CONFIG` names.
    ConfigVariable,
    /// [`CONFIG_FILE`] in the configuration directory.
    InConfigDir,
}

/// An environment variable counts if it is there and not empty.
pub open spec fn is_given(variable: Option<&[u8]>) -> bool {
    variable matches Some(value) && value@.len() > 0
}

fn variable_is_given(variable: Option<&[u8]>) -> (r: bool)
    ensures
        r == is_given(variable),
{
    match variable {
        Some(value) => value.len() > 0,
        None => false,
    }
}

/// Which directory holds the configuration, from the values of `GROK_CONFIG`
/// and `GROK_HOME` and whether the settings name one, in this order.
pub fn get_grok_config_dir(
    grok_config: Option<&[u8]>,
    grok_home: Option<&[u8]>,
    in_settings: bool,
) -> (r: ConfigDir)
    ensures
        r == if is_given(grok_config) {
            ConfigDir::OfConfigVariable
        } else if is_given(grok_home) {
            ConfigDir::HomeVariable
        } else if in_settings {
            ConfigDir::Settings
        } else {
            ConfigDir::UserHome
        },
{
    if variable_is_given(grok_config) {
        ConfigDir::OfConfigVariable
    } else if variable_is_given(grok_home) {
        ConfigDir::HomeVariable
    } else if in_settings {
        ConfigDir::Settings
    } else {
        ConfigDir::UserHome
    }
}

/// Which file holds the configuration, from the value of `GROK_CONFIG`.
pub fn get_grok_config_path(grok_config: Option<&[u8]>) -> (r: ConfigPath)
    ensures
        r == if is_given(grok_config) {
            ConfigPath::ConfigVariable
        } else {
            ConfigPath::InConfigDir
        },
{
    if variable_is_given(grok_config) {
        ConfigPath::ConfigVariable
    } else {
        ConfigPath::InConfigDir
    }
}

/// The directory of the backups, by the names that lead to it from the home of
/// the user.
pub fn get_grok_backup_dir() -> (r: [&'static str; 2])
    ensures
        r[0]@ == ".grok_switch"@,
        r[1]@ == "backups"@,
{
    [".grok_switch", "backups"]
}

} // verus!
