use ovpnd::command::{parse_command_line, Cli, Commands, ConfigCommand, SessionCommand};

fn parse(line: &str) -> Option<Cli> {
    parse_command_line(line)
}

#[test]
fn parses_config_list() {
    let cli = parse("config list").expect("parses");
    assert!(matches!(
        cli.commands,
        Commands::Config { commands: ConfigCommand::List }
    ));
}

#[test]
fn parses_session_stop_and_status() {
    assert!(matches!(
        parse("session stop").expect("parses").commands,
        Commands::Session { commands: SessionCommand::Stop }
    ));
    assert!(matches!(
        parse("session status").expect("parses").commands,
        Commands::Session { commands: SessionCommand::Status }
    ));
}

#[test]
fn parses_session_start_with_name() {
    let cli = parse("session start --name foo").expect("parses");
    match cli.commands {
        Commands::Session { commands: SessionCommand::Start { name } } => {
            assert_eq!(name, "foo");
        }
        other => panic!("wrong parse: {:?}", other),
    }
}

#[test]
fn parses_import_path_only() {
    let cli = parse("config import --path /tmp/work.conf").expect("parses");
    match cli.commands {
        Commands::Config { commands: ConfigCommand::Import { name, path } } => {
            assert_eq!(name, None);
            assert_eq!(path, "/tmp/work.conf");
        }
        other => panic!("wrong parse: {:?}", other),
    }
}

#[test]
fn parses_import_with_name_either_order() {
    let a = parse("config import --path p --name n").expect("parses");
    let b = parse("config import --name n --path p").expect("parses");
    for cli in [a, b] {
        match cli.commands {
            Commands::Config { commands: ConfigCommand::Import { name, path } } => {
                assert_eq!(name.as_deref(), Some("n"));
                assert_eq!(path, "p");
            }
            other => panic!("wrong parse: {:?}", other),
        }
    }
}

#[test]
fn parses_export_and_delete() {
    match parse("config export --name foo").expect("parses").commands {
        Commands::Config { commands: ConfigCommand::Export { name } } => assert_eq!(name, "foo"),
        other => panic!("wrong parse: {:?}", other),
    }
    match parse("config delete --name bar").expect("parses").commands {
        Commands::Config { commands: ConfigCommand::Delete { name } } => assert_eq!(name, "bar"),
        other => panic!("wrong parse: {:?}", other),
    }
}

#[test]
fn tolerates_extra_whitespace_and_line_ends() {
    let cli = parse("  session   start   --name foo\r\n").expect("parses");
    match cli.commands {
        Commands::Session { commands: SessionCommand::Start { name } } => assert_eq!(name, "foo"),
        other => panic!("wrong parse: {:?}", other),
    }
}

#[test]
fn rejects_invalid_lines() {
    assert!(parse("").is_none());
    assert!(parse("session").is_none());
    assert!(parse("config list extra").is_none());
    assert!(parse("session start").is_none());
    assert!(parse("session start --path foo").is_none());
    assert!(parse("config import --name n").is_none());
    assert!(parse("frobnicate now").is_none());
    assert!(parse("session stop --name x").is_none());
}
