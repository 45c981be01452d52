use repo_manager::cli::Commands;
use repo_manager::help::HelpTemplate;

fn top_level_help() -> String {
    clap::Command::new("repo")
        .about("Manage local Git repository placement, metadata, forks, worktrees, and old-path aliases")
        .help_template(<Commands as HelpTemplate>::help_template())
        .render_help()
        .to_string()
}

#[test]
fn top_level_help_uses_grouped_commands_without_duplicate_command_section() {
    let help = top_level_help();

    assert!(help.contains("Command groups:"));
    assert!(help.contains("Repository operations:"));
    assert!(help.contains("check"));
    assert!(!help.contains("repair"));
    assert!(help.contains("Organizational Changes:"));
    assert!(help.contains("Organizational Analysis:"));
    assert!(help.contains("Daemon:"));
    assert!(help.contains("Options:"));
    assert!(!help.contains("\nCommands:\n"));
    assert!(!help.contains("\n    audit"));
    assert!(help.find("Command groups:") < help.find("Options:"));
}

#[test]
fn lib_top_level_help_uses_grouped_commands_without_duplicate_command_section() {
    let help = top_level_help();

    assert!(help.contains("Command groups:"));
    assert!(help.contains("Repository operations:"));
    assert!(help.contains("check"));
    assert!(!help.contains("repair"));
    assert!(help.contains("Organizational Changes:"));
    assert!(help.contains("Organizational Analysis:"));
    assert!(help.contains("Daemon:"));
    assert!(help.contains("Options:"));
    assert!(!help.contains("\nCommands:\n"));
    assert!(!help.contains("\n    audit"));
    assert!(help.find("Command groups:") < help.find("Options:"));
}

#[test]
fn grouped_help_lists_the_daemon_and_no_options() {
    let help = <Commands as HelpTemplate>::help_template();

    assert!(help.contains("Daemon:"));
    assert!(help.contains("daemon"));
    assert!(!help.contains("--"));
}
