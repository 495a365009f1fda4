use src_repo::cli::{about, subcommands};

fn command() -> clap::Command {
    let mut command = clap::Command::new("src")
        .about(about())
        .arg_required_else_help(true);
    for (name, help) in subcommands() {
        command = command.subcommand(clap::Command::new(name).about(help));
    }
    command
}

#[test]
fn no_args_is_help() {
    let help_text = "\
Manage git repositories in an organized way

Usage: src [COMMAND]

Commands:
  cd      Change directory
  clone   Clone
  config  Config
  ls      List
  new     New
  rm      Remove
  sync    Sync
  help    Print this message or the help of the given subcommand(s)

Options:
  -h, --help  Print help
";

    let error = command().try_get_matches_from(["src"]).unwrap_err();
    assert_eq!(error.to_string(), help_text);
}

#[test]
fn cd_reports_the_missing_hook() {
    let (level, message) = src_repo::cli::cd();
    assert_eq!(level, src_repo::log::LogLevel::Error);
    assert_eq!(message, "The shell hook has not been initialized.");
}
