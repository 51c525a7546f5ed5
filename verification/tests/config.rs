use amr::cli::{CommonConfig, YamlConfig};
use amr::config::{
    choose_config_file, merge_config, validate_config, ConfigError, ConfigFile,
};

fn common(broker: Option<&str>, username: Option<&str>, password: Option<&str>) -> CommonConfig {
    CommonConfig {
        node_id: "node".to_string(),
        log: Some("log".to_string()),
        broker: broker.map(str::to_string),
        username: username.map(str::to_string),
        password: password.map(str::to_string),
    }
}

fn file() -> Option<YamlConfig> {
    Some(YamlConfig {
        broker: Some("file-broker".to_string()),
        username: Some("file-user".to_string()),
        password: None,
    })
}

#[test]
fn command_line_settings_win() {
    let mut config = common(Some("line-broker"), None, Some("line-pass"));
    merge_config(&mut config, &file());
    assert_eq!(
        config,
        common(Some("line-broker"), Some("file-user"), Some("line-pass"))
    );
}

#[test]
fn merging_twice_changes_nothing() {
    let mut config = common(None, None, None);
    merge_config(&mut config, &file());
    assert_eq!(config, common(Some("file-broker"), Some("file-user"), None));
    let once = config.clone();
    merge_config(&mut config, &file());
    assert_eq!(config, once);
}

#[test]
fn without_a_file_nothing_is_merged() {
    let mut config = common(None, Some("u"), None);
    merge_config(&mut config, &None);
    assert_eq!(config, common(None, Some("u"), None));
}

#[test]
fn a_broker_is_needed() {
    assert_eq!(validate_config(&common(Some("b"), None, None)), Ok(()));
    assert_eq!(
        validate_config(&common(None, Some("u"), Some("p"))),
        Err(ConfigError::BrokerMissing)
    );
    assert_eq!(
        ConfigError::BrokerMissing.message(),
        "MQTT broker is not configured. Provide it via --broker or in the config file."
    );
}

#[test]
fn the_primary_file_is_preferred() {
    assert_eq!(choose_config_file(true, true), Some(ConfigFile::Primary));
    assert_eq!(choose_config_file(true, false), Some(ConfigFile::Primary));
    assert_eq!(choose_config_file(false, true), Some(ConfigFile::Legacy));
    assert_eq!(choose_config_file(false, false), None);
    assert_eq!(ConfigFile::Primary.path_below_home(), ".config/amr/config.yaml");
    assert_eq!(
        ConfigFile::Legacy.path_below_home(),
        ".config/acp-mqtt-relay/config.yaml"
    );
}
