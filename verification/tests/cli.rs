//! Which store the tool server serves.

use int_tasks::cli::{expand, parse_args, store_folder, Command};

fn to_args(items: &[&str]) -> Vec<String> {
    items.iter().map(|s| s.to_string()).collect()
}

#[test]
fn defaults_to_the_shared_store_when_given_nothing() {
    // The agent and the app must land on the same folder without the user
    // configuring anything.
    assert!(matches!(parse_args(&to_args(&[]), Some("/home/max")).unwrap(), Command::Serve(None)));
    let configured = Some("/teams/intentio/max".to_string());
    assert_eq!(store_folder(None, configured, Some("/home/max")).unwrap(), "/teams/intentio/max");
    assert_eq!(store_folder(Some("~/tasks"), None, Some("/home/max")).unwrap(), "/home/max/tasks");
    assert_eq!(
        store_folder(None, None, None).unwrap_err(),
        "cannot determine a store folder; pass one explicitly"
    );
}

#[test]
fn accepts_an_explicit_folder() {
    match parse_args(&to_args(&["/tmp/store"]), None).unwrap() {
        Command::Serve(Some(root)) => assert_eq!(root, "/tmp/store"),
        other => panic!("{other:?}"),
    }
}

#[test]
fn rejects_unknown_options_and_extra_paths() {
    assert_eq!(parse_args(&to_args(&["--nope"]), None).unwrap_err(), "unknown option: --nope");
    assert_eq!(parse_args(&to_args(&["/a", "/b"]), None).unwrap_err(), "only one store folder can be given");
}

#[test]
fn help_and_version_stop_at_once() {
    assert!(matches!(parse_args(&to_args(&["-h", "--nope"]), None).unwrap(), Command::Help));
    assert!(matches!(parse_args(&to_args(&["--version"]), None).unwrap(), Command::Version));
}

#[test]
fn a_leading_tilde_is_the_home_folder() {
    assert_eq!(expand(" ~ ", Some("/home/max")), "/home/max");
    assert_eq!(expand("~/tasks", Some("/home/max")), "/home/max/tasks");
    assert_eq!(expand("~/tasks", None), "~/tasks");
    assert_eq!(expand("/srv/tasks", Some("/home/max")), "/srv/tasks");
}
