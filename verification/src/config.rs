//! The configuration file: where it is, and what it adds to the command line.
use vstd::prelude::*;

use crate::cli::{CommonConfig, YamlConfig};
use crate::mqtt_client::optional_text;

verus! {

/// A place where the configuration file may be.
#[derive(Debug, Clone, Copy, PartialEq, Eq, Structural)]
pub enum ConfigFile {
    Primary,
    Legacy,
}

impl ConfigFile {
    /// The path of the file below the home directory.
    pub fn path_below_home(self) -> (path: &'static str)
        ensures
            path@ == match self {
                ConfigFile::Primary => ".config/amr/config.yaml"@,
                ConfigFile::Legacy => ".config/acp-mqtt-relay/config.yaml"@,
            },
    {
        match self {
            ConfigFile::Primary => ".config/amr/config.yaml",
            ConfigFile::Legacy => ".config/acp-mqtt-relay/config.yaml",
        }
    }
}

/// The file to read, if there is one. The legacy file only counts where there is no other.
pub fn choose_config_file(primary_exists: bool, legacy_exists: bool) -> (file: Option<ConfigFile>)
    ensures
        file == if primary_exists {
            Some(ConfigFile::Primary)
        } else if legacy_exists {
            Some(ConfigFile::Legacy)
        } else {
            None
        },
{
    if primary_exists {
        Some(ConfigFile::Primary)
    } else if legacy_exists {
        Some(ConfigFile::Legacy)
    } else {
        None
    }
}

/// The setting from the command line where it has one, else the one from the file.
pub open spec fn preferred(
    from_line: Option<Seq<char>>,
    from_file: Option<Seq<char>>,
) -> Option<Seq<char>> {
    if from_line is Some {
        from_line
    } else {
        from_file
    }
}

/// The settings that a file or a command line may hold.
pub struct SettingsView {
    pub broker: Option<Seq<char>>,
    pub username: Option<Seq<char>>,
    pub password: Option<Seq<char>>,
}

/// The settings of a command line.
pub open spec fn line_settings(common: CommonConfig) -> SettingsView {
    SettingsView {
        broker: optional_text(common.broker),
        username: optional_text(common.username),
        password: optional_text(common.password),
    }
}

/// The settings of a file; without a file there are none.
pub open spec fn file_settings(yaml: Option<YamlConfig>) -> SettingsView {
    match yaml {
        Some(yaml) => SettingsView {
            broker: optional_text(yaml.broker),
            username: optional_text(yaml.username),
            password: optional_text(yaml.password),
        },
        None => SettingsView { broker: None, username: None, password: None },
    }
}

/// Each setting from the command line where it has it, else from the file.
pub open spec fn merged(line: SettingsView, file: SettingsView) -> SettingsView {
    SettingsView {
        broker: preferred(line.broker, file.broker),
        username: preferred(line.username, file.username),
        password: preferred(line.password, file.password),
    }
}

/// Fills in from the file what the command line leaves open.
pub fn merge_config(common: &mut CommonConfig, yaml: &Option<YamlConfig>)
    ensures
        line_settings(*final(common)) == merged(line_settings(*old(common)), file_settings(*yaml)),
        final(common).node_id == old(common).node_id,
        final(common).log == old(common).log,
        old(common).broker is Some ==> final(common).broker == old(common).broker,
        old(common).broker is None && *yaml is None ==> final(common).broker is None,
        old(common).broker is None && *yaml is Some ==> match (final(common).broker, yaml->0.broker) {
            (Some(filled), Some(kept)) => filled@ == kept@,
            (None, None) => true,
            _ => false,
        },
        old(common).username is Some ==> final(common).username == old(common).username,
        old(common).username is None && *yaml is None ==> final(common).username is None,
        old(common).username is None && *yaml is Some ==> match (final(common).username, yaml->0.username) {
            (Some(filled), Some(kept)) => filled@ == kept@,
            (None, None) => true,
            _ => false,
        },
        old(common).password is Some ==> final(common).password == old(common).password,
        old(common).password is None && *yaml is None ==> final(common).password is None,
        old(common).password is None && *yaml is Some ==> match (final(common).password, yaml->0.password) {
            (Some(filled), Some(kept)) => filled@ == kept@,
            (None, None) => true,
            _ => false,
        },
{
    if let Some(yaml) = yaml {
        if common.broker.is_none() {
            common.broker = yaml.broker.clone();
        }
        if common.username.is_none() {
            common.username = yaml.username.clone();
        }
        if common.password.is_none() {
            common.password = yaml.password.clone();
        }
    }
}

/// Why a configuration cannot be run.
#[derive(Debug, Clone, Copy, PartialEq, Eq, Structural)]
pub enum ConfigError {
    BrokerMissing,
}

impl ConfigError {
    /// The text that is shown for the error.
    pub fn message(&self) -> (text: String)
        ensures
            text@
                == "MQTT broker is not configured. Provide it via --broker or in the config file."@,
    {
        "MQTT broker is not configured. Provide it via --broker or in the config file.".to_owned()
    }
}

/// Checks that there is a broker to connect to.
pub fn validate_config(common: &CommonConfig) -> (r: Result<(), ConfigError>)
    ensures
        r == if common.broker is Some {
            Ok(())
        } else {
            Err(ConfigError::BrokerMissing)
        },
{
    if common.broker.is_none() {
        return Err(ConfigError::BrokerMissing);
    }
    Ok(())
}

/// The command line has precedence: what it sets, no file changes, and it alone is left without a
/// file.
pub proof fn law_command_line_has_precedence(line: SettingsView, file: SettingsView)
    ensures
        line.broker is Some ==> merged(line, file).broker == line.broker,
        line.username is Some ==> merged(line, file).username == line.username,
        line.password is Some ==> merged(line, file).password == line.password,
        merged(line, file_settings(None)) == line,
{
}

/// What the command line leaves open comes from the file, setting by setting, and from nowhere else.
pub proof fn law_the_file_fills_in(line: SettingsView, file: SettingsView)
    ensures
        line.broker is None ==> merged(line, file).broker == file.broker,
        line.username is None ==> merged(line, file).username == file.username,
        line.password is None ==> merged(line, file).password == file.password,
        merged(SettingsView { broker: None, username: None, password: None }, file) == file,
{
}

/// The settings of a command line and of a file are the texts that they hold, each under its own
/// name, and without a file there are none.
pub proof fn law_settings_are_what_is_written(common: CommonConfig, yaml: YamlConfig)
    ensures
        match common.broker {
            Some(text) => line_settings(common).broker == Some(text@),
            None => line_settings(common).broker is None,
        },
        match common.username {
            Some(text) => line_settings(common).username == Some(text@),
            None => line_settings(common).username is None,
        },
        match common.password {
            Some(text) => line_settings(common).password == Some(text@),
            None => line_settings(common).password is None,
        },
        match yaml.broker {
            Some(text) => file_settings(Some(yaml)).broker == Some(text@),
            None => file_settings(Some(yaml)).broker is None,
        },
        match yaml.username {
            Some(text) => file_settings(Some(yaml)).username == Some(text@),
            None => file_settings(Some(yaml)).username is None,
        },
        match yaml.password {
            Some(text) => file_settings(Some(yaml)).password == Some(text@),
            None => file_settings(Some(yaml)).password is None,
        },
        file_settings(None).broker is None,
        file_settings(None).username is None,
        file_settings(None).password is None,
{
}

/// There is a broker after merging exactly where the command line or the file names one, and
/// merging the same file again changes nothing.
pub proof fn law_merging_settles(line: SettingsView, file: SettingsView)
    ensures
        merged(line, file).broker is Some <==> line.broker is Some || file.broker is Some,
        merged(merged(line, file), file) == merged(line, file),
{
}

} // verus!
