use mpdeps::cache::{
    add, apply_clone, cache_dir_path, init, list, repo_path, resolve_root,
    verify_mp_folder_exists, AddOutcome, CacheState, ListOutcome,
};
use mpdeps::dispatch::{needs_url, parse_command, Command};
use mpdeps::manifest::Dependency;
use mpdeps::runner::{
    install_invocation, plan_entry, run_report, EntryOutcome, EntryPlan, InstallResult,
};
use mpdeps::url::repo_name;

fn cache_with(present: bool, folders: &[&str]) -> CacheState {
    CacheState { present, folders: folders.iter().map(|f| f.to_string()).collect() }
}

fn dep(folder: &str, cmd: &str) -> Dependency {
    Dependency { folder_name: folder.to_string(), install_command: cmd.to_string() }
}

#[test]
fn init_is_idempotent() {
    let once = init(cache_with(false, &["kept"]));
    assert!(once.present);
    assert_eq!(once.folders, vec!["kept".to_string()]);
    let twice = init(once);
    assert!(twice.present);
    assert_eq!(twice.folders, vec!["kept".to_string()]);
}

#[test]
fn list_reports_exactly_the_folder_names() {
    let r = list(cache_with(true, &["foo", "bar", "baz"]));
    match r {
        ListOutcome::Found(v) => {
            assert_eq!(v, vec!["foo".to_string(), "bar".to_string(), "baz".to_string()]);
        },
        _ => panic!("expected Found"),
    }
}

#[test]
fn list_reports_none_found_iff_empty() {
    assert!(matches!(list(cache_with(true, &[])), ListOutcome::NoRepos));
    assert!(!matches!(list(cache_with(true, &["one"])), ListOutcome::NoRepos));
}

#[test]
fn list_requires_the_cache() {
    assert!(matches!(list(cache_with(false, &["foo"])), ListOutcome::CacheMissing));
}

#[test]
fn repo_name_is_the_text_after_the_final_slash() {
    assert_eq!(repo_name("https://example.com/org/widget").unwrap(), "widget");
    assert_eq!(repo_name("a/b/c").unwrap(), "c");
    assert!(repo_name("no-slash-here").is_none());
    assert!(repo_name("trailing/slash/").is_none());
    assert!(repo_name("").is_none());
}

#[test]
fn add_clones_a_fresh_name() {
    let cache = cache_with(true, &["foo", "bar"]);
    match add(&cache, "https://example.com/org/widget") {
        AddOutcome::CloneInto(name) => assert_eq!(name, "widget"),
        _ => panic!("expected CloneInto"),
    }
}

#[test]
fn add_refuses_an_existing_folder() {
    let cache = cache_with(true, &["foo", "widget"]);
    assert!(matches!(add(&cache, "https://example.com/org/widget"), AddOutcome::AlreadyExists));
}

#[test]
fn add_refuses_a_url_without_a_name() {
    let cache = cache_with(true, &["foo"]);
    assert!(matches!(add(&cache, "no-slash-here"), AddOutcome::InvalidUrl));
    assert!(matches!(add(&cache, "ends/with/"), AddOutcome::InvalidUrl));
}

#[test]
fn add_requires_the_cache() {
    let cache = cache_with(false, &[]);
    assert!(matches!(add(&cache, "https://example.com/org/widget"), AddOutcome::CacheMissing));
}

#[test]
fn a_clone_adds_exactly_the_new_name() {
    let cache = cache_with(true, &["foo"]);
    let after = apply_clone(cache, "widget".to_string());
    assert!(after.present);
    assert_eq!(after.folders, vec!["foo".to_string(), "widget".to_string()]);
}

#[test]
fn the_gate_reflects_the_observation() {
    assert!(verify_mp_folder_exists(&cache_with(true, &[])));
    assert!(!verify_mp_folder_exists(&cache_with(false, &["x"])));
}

#[test]
fn paths_are_joined_under_the_root() {
    assert_eq!(cache_dir_path("/home/user"), "/home/user/.mp");
    assert_eq!(repo_path("/home/user/.mp", "widget"), "/home/user/.mp/widget");
}

#[test]
fn the_root_prefers_the_primary_variable() {
    assert_eq!(resolve_root(Some("/home/a".to_string()), Some("/users/b".to_string())),
        Some("/home/a".to_string()));
    assert_eq!(resolve_root(None, Some("/users/b".to_string())), Some("/users/b".to_string()));
    assert_eq!(resolve_root(None, None), None);
}

#[test]
fn the_invocation_changes_directory_then_runs_the_command() {
    let d = dep("widget", "make install");
    assert_eq!(install_invocation("/home/u/.mp", &d), "cd /home/u/.mp/widget && make install");
}

#[test]
fn off_windows_the_shell_gets_one_string() {
    let d = dep("widget", "make install");
    match plan_entry("/home/u/.mp", &d, false) {
        EntryPlan::RunShell(s) => assert_eq!(s, "cd /home/u/.mp/widget && make install"),
        _ => panic!("expected RunShell"),
    }
}

#[test]
fn on_windows_the_invocation_is_tokenized() {
    let d = dep("widget", "echo 'a b'");
    match plan_entry("/home/u/.mp", &d, true) {
        EntryPlan::RunArgs(words) => {
            // the very words shlex finds in the composed invocation
            let expected = shlex::split("cd /home/u/.mp/widget && echo 'a b'").unwrap();
            assert_eq!(words, expected);
            assert_eq!(words, vec!["cd", "/home/u/.mp/widget", "&&", "echo", "a b"]);
        },
        _ => panic!("expected RunArgs"),
    }
}

#[test]
fn on_windows_a_bad_invocation_is_skipped_not_fatal() {
    let d = dep("widget", "echo 'unclosed");
    assert!(matches!(plan_entry("/home/u/.mp", &d, true), EntryPlan::SkipBadTokens));
}

#[test]
fn a_failing_entry_does_not_shorten_the_report() {
    let deps = vec![dep("a", "x"), dep("b", "y"), dep("c", "z")];
    let results = vec![
        InstallResult::Exited(0),
        InstallResult::Exited(2),
        InstallResult::Exited(0),
    ];
    let report = run_report(&deps, &results);
    assert_eq!(report.len(), 3);
    assert_eq!(report[0], EntryOutcome::Success);
    assert_eq!(report[1], EntryOutcome::CommandFailed);
    assert_eq!(report[2], EntryOutcome::Success);
}

#[test]
fn every_kind_of_result_is_reported_in_place() {
    let deps = vec![dep("a", "x"), dep("b", "y"), dep("c", "z"), dep("d", "w")];
    let results = vec![
        InstallResult::SpawnError,
        InstallResult::NotRun,
        InstallResult::Exited(1),
        InstallResult::Exited(0),
    ];
    let report = run_report(&deps, &results);
    assert_eq!(
        report,
        vec![
            EntryOutcome::SpawnFailed,
            EntryOutcome::Skipped,
            EntryOutcome::CommandFailed,
            EntryOutcome::Success,
        ]
    );
}

#[test]
fn the_dispatcher_knows_the_five_commands() {
    assert_eq!(parse_command(&"init".to_string()), Command::Init);
    assert_eq!(parse_command(&"add".to_string()), Command::Add);
    assert_eq!(parse_command(&"list".to_string()), Command::List);
    assert_eq!(parse_command(&"rinstall".to_string()), Command::Rinstall);
    assert_eq!(parse_command(&"runAll".to_string()), Command::RunAll);
    assert_eq!(parse_command(&"runall".to_string()), Command::Unknown);
    assert_eq!(parse_command(&"".to_string()), Command::Unknown);
    assert!(needs_url(Command::Add));
    assert!(!needs_url(Command::List));
}
