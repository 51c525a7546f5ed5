use amr::cli::{Cli, CommonConfig, Mode, ModeError};

fn parse(line: &[&str]) -> Result<Cli, amr::cli::UsageError> {
    Cli::try_parse_from(line)
}

#[test]
fn parses_user_mode_with_positional_node_id() {
    let cli = parse(&[
        "amr",
        "my-agent",
        "--broker",
        "localhost",
        "--log",
        "/tmp/amr.log",
    ])
    .unwrap();
    assert_eq!(cli.common.node_id, "my-agent");
    assert_eq!(cli.common.broker.as_deref(), Some("localhost"));
    assert_eq!(
        cli.common.log.as_deref().map(std::path::Path::new),
        Some(std::path::Path::new("/tmp/amr.log"))
    );
    assert!(!cli.serve);
    assert!(matches!(cli.mode().unwrap(), Mode::User(_)));
}

#[test]
fn parses_serve_mode_with_command() {
    let cli = parse(&[
        "amr",
        "--serve",
        "my-agent",
        "--broker",
        "localhost",
        "--command",
        "cat",
    ])
    .unwrap();

    match cli.mode().unwrap() {
        Mode::Work(config) => {
            assert_eq!(config.common.node_id, "my-agent");
            assert_eq!(config.common.broker.as_deref(), Some("localhost"));
            assert_eq!(config.command, "cat");
        }
        Mode::User(_) => panic!("expected work mode"),
    }
}

#[test]
fn rejects_missing_node_id() {
    assert!(parse(&["amr", "--broker", "localhost"]).is_err());
}

#[test]
fn rejects_command_without_serve() {
    assert!(parse(&["amr", "my-agent", "--command", "cat"]).is_err());
}

#[test]
fn serve_requires_command() {
    let cli = parse(&["amr", "--serve", "my-agent", "--broker", "localhost"]).unwrap();
    let error = cli.mode().unwrap_err();
    assert!(error.message().contains("--command"));
}

#[test]
fn all_values_are_read() {
    let cli = parse(&[
        "amr", "node", "--log", "l", "--broker=b", "--username", "u", "--password", "p", "--serve",
        "--command", "c d",
    ])
    .unwrap();
    assert_eq!(
        cli,
        Cli {
            common: CommonConfig {
                node_id: "node".to_string(),
                log: Some("l".to_string()),
                broker: Some("b".to_string()),
                username: Some("u".to_string()),
                password: Some("p".to_string()),
            },
            serve: true,
            command: Some("c d".to_string()),
        }
    );
}

#[test]
fn absent_values_are_none() {
    let cli = parse(&["amr", "node"]).unwrap();
    assert_eq!(cli.common.log, None);
    assert_eq!(cli.common.broker, None);
    assert_eq!(cli.common.username, None);
    assert_eq!(cli.common.password, None);
    assert_eq!(cli.command, None);
    assert!(!cli.serve);
}

#[test]
fn refused_lines_exit_with_two() {
    assert_eq!(parse(&["amr"]).unwrap_err().exit_code, 2);
    assert_eq!(parse(&["amr", "a", "b"]).unwrap_err().exit_code, 2);
    assert_eq!(parse(&["amr", "a", "--nothing"]).unwrap_err().exit_code, 2);
    assert_eq!(parse(&["amr", "a", "--serve", "--serve"]).unwrap_err().exit_code, 2);
    let error = parse(&["amr", "a", "--command", "cat"]).unwrap_err();
    assert_eq!(error.exit_code, 2);
    assert!(error.text.contains("--serve"));
    let error = parse(&["amr", "a", "--log", ""]).unwrap_err();
    assert_eq!(error.exit_code, 2);
    assert!(error.text.contains("--log"));
}

#[test]
fn help_and_version_exit_with_zero() {
    let help = parse(&["amr", "--help"]).unwrap_err();
    assert_eq!(help.exit_code, 0);
    assert!(help.text.contains("ACP-over-MQTT relay"));
    assert!(help.text.contains("<NODE_ID>"));
    assert!(help.text.contains("--command <COMMAND>"));
    let version = parse(&["amr", "--version"]).unwrap_err();
    assert_eq!(version.exit_code, 0);
    assert!(version.text.starts_with("amr "));
}

#[test]
fn mode_refuses_contradictions() {
    let mut cli = parse(&["amr", "node"]).unwrap();
    cli.command = Some("cat".to_string());
    assert_eq!(cli.clone().mode(), Err(ModeError::CommandWithoutServe));
    assert_eq!(
        ModeError::CommandWithoutServe.message(),
        "--command can only be used together with --serve"
    );
    cli.command = None;
    cli.serve = true;
    assert_eq!(cli.mode(), Err(ModeError::CommandRequired));
    assert_eq!(
        ModeError::CommandRequired.message(),
        "--command is required when --serve is set"
    );
}

#[test]
fn texts_name_the_file_of_the_program() {
    let plain = parse(&["amr"]).unwrap_err();
    assert_eq!(
        plain.text,
        "error: the following required arguments were not provided:\n  <NODE_ID>\n\n\
         Usage: amr <NODE_ID>\n\nFor more information, try '--help'.\n"
    );
    assert_ne!(plain.styled, plain.text);
    assert_eq!(parse(&["./target/release/amr"]).unwrap_err(), plain);
    let other = parse(&["relay"]).unwrap_err();
    assert!(other.text.contains("Usage: relay <NODE_ID>"));
    assert_eq!(parse(&["amr", "--version"]).unwrap_err().text, "amr 0.1.0\n");
}
