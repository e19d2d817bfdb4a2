use aitoolgrep::cli::{Cli, Command, ReplaceArgs, SearchArgs, StatsArgs};

fn search_args(json: bool) -> SearchArgs {
    SearchArgs {
        pattern: "class\\s+\\w+".to_string(),
        path: "./src".to_string(),
        ignore_case: true,
        case_sensitive: false,
        regex: true,
        json,
    }
}

fn replace_args(json: bool) -> ReplaceArgs {
    ReplaceArgs {
        old_text: "oldName".to_string(),
        new_text: "newName".to_string(),
        path: ".".to_string(),
        dry_run: true,
        backup: false,
        json,
    }
}

#[test]
fn wants_json_follows_the_command() {
    assert!(Cli { command: Command::Search(search_args(true)) }.wants_json());
    assert!(!Cli { command: Command::Search(search_args(false)) }.wants_json());
    assert!(Cli { command: Command::Replace(replace_args(true)) }.wants_json());
    assert!(!Cli { command: Command::Replace(replace_args(false)) }.wants_json());
    assert!(Cli { command: Command::Stats(StatsArgs { path: ".".to_string(), json: true }) }.wants_json());
    assert!(!Cli { command: Command::Stats(StatsArgs { path: ".".to_string(), json: false }) }.wants_json());
}

#[test]
fn arguments_become_options() {
    let s = search_args(false).into_options();
    assert_eq!((s.pattern.as_str(), s.path.as_str(), s.ignore_case, s.regex), ("class\\s+\\w+", "./src", true, true));
    let r = replace_args(true).into_options();
    assert_eq!(
        (r.old_text.as_str(), r.new_text.as_str(), r.path.as_str(), r.dry_run, r.backup),
        ("oldName", "newName", ".", true, false)
    );
    let t = StatsArgs { path: "./src".to_string(), json: true }.into_options();
    assert_eq!(t.path, "./src");
}
