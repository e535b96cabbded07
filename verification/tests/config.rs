use guploadsync::config::{
    absolutize_runtime, default_config_template, default_poll_interval_seconds,
    default_remote_target_folder, expand_tilde, slash_string_to_path, to_absolute, AppConfig,
    ConfigError, PathEnv, PathFacts, PathKind, WatchEntry,
};
use guploadsync::path::LocalPath;

fn path(text: &str) -> LocalPath {
    LocalPath::new(text)
}

fn entry(local: &str, remote: &str) -> WatchEntry {
    WatchEntry { local_path: path(local), remote_name: remote.to_string() }
}

fn config(watch: Vec<WatchEntry>) -> AppConfig {
    AppConfig {
        remote_target_folder: "guploadsync".to_string(),
        poll_interval_seconds: 30,
        watch,
    }
}

fn env() -> PathEnv {
    PathEnv { home: Some(path("/home/u")), current_dir: Some(path("/work")) }
}

fn facts() -> PathFacts {
    PathFacts { kind: PathKind::File, canonical: None, current_dir: Some(path("/work")) }
}

#[test]
fn the_template_is_the_documented_one() {
    let expected = "remote_target_folder = \"guploadsync\"\npoll_interval_seconds = 30\n\n# [[watch]]\n# local_path = \"/home/username/.bashrc\"\n# remote_name = \"dotfiles/bashrc\"\n";
    assert_eq!(default_config_template(), expected);
    assert_eq!(default_remote_target_folder(), "guploadsync");
    assert_eq!(default_poll_interval_seconds(), 30);
}

#[test]
fn normalizing_fills_in_defaults() {
    let mut c = AppConfig {
        remote_target_folder: " / ".to_string(),
        poll_interval_seconds: 0,
        watch: vec![],
    };
    c.normalize(&env(), &vec![]).unwrap();
    assert_eq!(c.remote_target_folder, "guploadsync");
    assert_eq!(c.poll_interval_seconds, 30);
}

#[test]
fn normalizing_brings_entries_into_form() {
    let mut c = config(vec![entry("~/.bashrc", "/dotfiles\\bashrc/"), entry("notes", "n//m")]);
    let found = c.watch_paths(&env());
    assert_eq!(found, vec![Ok(path("/home/u/.bashrc")), Ok(path("/work/notes"))]);
    c.normalize(&env(), &vec![None, Some(path("/real/notes"))]).unwrap();
    assert_eq!(c.watch, vec![entry("/home/u/.bashrc", "dotfiles/bashrc"), entry("/real/notes", "n/m")]);
}

#[test]
fn an_entry_without_a_name_is_refused() {
    let mut c = config(vec![entry("/a", "x/"), entry("/b", " / "), entry("~/c", "z")]);
    let error = c.normalize(&env(), &vec![None, None, None]).unwrap_err();
    assert_eq!(error, ConfigError::EmptyRemoteName { local_path: path("/b") });
    assert_eq!(error.message(), "watch entry with local_path=/b has empty remote_name");
    assert_eq!(c.watch, vec![entry("/a", "x"), entry("/b", ""), entry("~/c", "z")]);
}

#[test]
fn a_tilde_needs_a_home_directory() {
    assert_eq!(expand_tilde(&path("~"), &Some(path("/h"))), Ok(path("/h")));
    assert_eq!(expand_tilde(&path("~/a"), &Some(path("/h"))), Ok(path("/h/a")));
    assert_eq!(expand_tilde(&path("~/~/a"), &Some(path("/h"))), Ok(path("/h/a")));
    assert_eq!(expand_tilde(&path("~a"), &None), Ok(path("~a")));
    let error = expand_tilde(&path("~/a"), &None).unwrap_err();
    assert_eq!(error, ConfigError::NoHomeDirectory);
    assert_eq!(error.message(), "could not determine home directory for ~ expansion");
}

#[test]
fn a_relative_path_needs_a_current_directory() {
    assert_eq!(to_absolute(path("/a"), &None), Ok(path("/a")));
    assert_eq!(to_absolute(path("a"), &Some(path("/w"))), Ok(path("/w/a")));
    let error = to_absolute(path("a"), &None).unwrap_err();
    assert_eq!(error, ConfigError::NoCurrentDirectory);
    assert_eq!(error.message(), "failed to determine current directory");
}

#[test]
fn files_are_known_by_their_canonical_paths() {
    let there = PathFacts {
        kind: PathKind::File,
        canonical: Some(path("/real/a")),
        current_dir: Some(path("/w")),
    };
    let missing = PathFacts { kind: PathKind::Missing, ..there.clone() };
    assert_eq!(absolutize_runtime(&path("/link/a"), &there), path("/real/a"));
    assert_eq!(absolutize_runtime(&path("/link/a"), &missing), path("/link/a"));
    assert_eq!(absolutize_runtime(&path("a"), &there), path("/w/a"));
    let nowhere = PathFacts { current_dir: None, ..there };
    assert_eq!(absolutize_runtime(&path("a"), &nowhere), path("a"));
}

#[test]
fn local_paths_map_to_remote_ones() {
    let c = config(vec![entry("/home/u/docs", "docs"), entry("/home/u/docs/work", "w/x")]);
    let remote = |p: &str| c.local_to_remote(&path(p), &facts());
    assert_eq!(remote("/home/u/docs"), Some("docs".to_string()));
    assert_eq!(remote("/home/u/docs/a/b.txt"), Some("docs/a/b.txt".to_string()));
    assert_eq!(remote("/home/u/docs/work/c"), Some("w/x/c".to_string()));
    assert_eq!(remote("/home/u/docs2/c"), None);
    assert_eq!(remote("elsewhere"), None);
}

#[test]
fn remote_paths_map_to_local_ones() {
    let c = config(vec![entry("/home/u/docs", "docs"), entry("/srv/work", "docs/work")]);
    assert_eq!(c.remote_to_local("docs"), Some(path("/home/u/docs")));
    assert_eq!(c.remote_to_local("/docs//a/b"), Some(path("/home/u/docs/a/b")));
    assert_eq!(c.remote_to_local("docs\\work\\c"), Some(path("/srv/work/c")));
    assert_eq!(c.remote_to_local("docs2"), None);
    assert_eq!(c.remote_to_local(""), None);
}

#[test]
fn of_equal_entries_the_last_one_counts() {
    let c = config(vec![entry("/a", "x"), entry("/a", "y")]);
    assert_eq!(c.local_to_remote(&path("/a/f"), &facts()), Some("y/f".to_string()));
    let d = config(vec![entry("/a", "x"), entry("/b", "x")]);
    assert_eq!(d.remote_to_local("x/f"), Some(path("/b/f")));
}

#[test]
fn mapped_paths_come_back() {
    let c = config(vec![entry("/home/u/docs", "docs"), entry("/srv/work", "work")]);
    for p in ["/home/u/docs/a", "/home/u/docs/a b/ä.txt", "/srv/work", "/srv/work/x/y/z"] {
        let remote = c.local_to_remote(&path(p), &facts()).unwrap();
        assert!(c.remote_to_local(&remote).unwrap().same_as(&path(p)), "{p}");
    }
    for r in ["docs/a", "docs", "work/x/y"] {
        let local = c.remote_to_local(r).unwrap();
        assert_eq!(c.local_to_remote(&local, &facts()).unwrap(), r);
    }
}

#[test]
fn slash_text_becomes_a_relative_path() {
    let raw: Vec<char> = "/a//b/c/".chars().collect();
    assert_eq!(slash_string_to_path(&raw), path("a/b/c"));
    assert_eq!(slash_string_to_path(&[]), path(""));
}
