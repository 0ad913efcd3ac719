use rsaver::cli::{parse_args, Cli, Command, ParsedArgs};

fn args(v: &[&str]) -> Vec<String> {
    v.iter().map(|s| s.to_string()).collect()
}

#[test]
fn parse_args_defaults_and_commands() {
    assert_eq!(parse_args(&args(&[])), ParsedArgs::Run(Cli { theme: None, command: None }));
    assert_eq!(parse_args(&args(&["ui"])), ParsedArgs::Run(Cli { theme: None, command: Some(Command::Ui) }));
    assert_eq!(
        parse_args(&args(&["doctor", "--fix"])),
        ParsedArgs::Run(Cli { theme: None, command: Some(Command::Doctor { fix: true }) })
    );
    assert_eq!(
        parse_args(&args(&["--fix", "ui", "doctor"])),
        ParsedArgs::Run(Cli { theme: None, command: Some(Command::Doctor { fix: true }) })
    );
}

#[test]
fn parse_args_themes() {
    assert_eq!(
        parse_args(&args(&["--theme", "dark", "ui"])),
        ParsedArgs::Run(Cli { theme: Some("dark".to_string()), command: Some(Command::Ui) })
    );
    assert_eq!(
        parse_args(&args(&["--theme=light"])),
        ParsedArgs::Run(Cli { theme: Some("light".to_string()), command: None })
    );
    assert_eq!(parse_args(&args(&["--theme"])), ParsedArgs::Error("Error: --theme requires a value".to_string()));
}

#[test]
fn parse_args_help_version_errors() {
    assert_eq!(parse_args(&args(&["-h", "bogus"])), ParsedArgs::Help);
    assert_eq!(parse_args(&args(&["--version"])), ParsedArgs::Version);
    assert_eq!(parse_args(&args(&["ui", "-V"])), ParsedArgs::Version);
    assert_eq!(parse_args(&args(&["bogus", "-h"])), ParsedArgs::Error("Error: unexpected argument 'bogus'".to_string()));
}

#[test]
fn parse_args_documented_subcommands() {
    assert_eq!(parse_args(&args(&["tui"])), ParsedArgs::Run(Cli { theme: None, command: Some(Command::Ui) }));
    assert_eq!(parse_args(&args(&["run"])), ParsedArgs::Run(Cli { theme: None, command: Some(Command::Run) }));
    assert_eq!(parse_args(&args(&["stop"])), ParsedArgs::Run(Cli { theme: None, command: Some(Command::Stop) }));
    assert_eq!(
        parse_args(&args(&["--theme=dark", "toggle-active"])),
        ParsedArgs::Run(Cli { theme: Some("dark".to_string()), command: Some(Command::ToggleActive) })
    );
    assert_eq!(parse_args(&args(&["tuix"])), ParsedArgs::Error("Error: unexpected argument 'tuix'".to_string()));
}
