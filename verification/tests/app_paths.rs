use guploadsync::app_paths::{AppPaths, AppPathsError};
use guploadsync::path::LocalPath;

fn path(text: &str) -> LocalPath {
    LocalPath::new(text)
}

#[test]
fn paths_follow_the_system_folders() {
    let paths = AppPaths::discover(
        Some(path("/home/u")),
        Some(path("/home/u/.config")),
        Some(path("/data")),
    )
    .unwrap();
    assert_eq!(paths.config_dir, path("/home/u/.config/guploadsync"));
    assert_eq!(paths.data_dir, path("/data/guploadsync"));
    assert_eq!(paths.config_file, path("/home/u/.config/guploadsync/config.toml"));
    assert_eq!(paths.db_file, path("/home/u/.config/guploadsync/state.db"));
    assert_eq!(paths.credentials_file, path("/home/u/.config/guploadsync/credentials.json"));
    assert_eq!(paths.token_cache_file, path("/home/u/.config/guploadsync/token_cache.json"));
    assert_eq!(paths.remote_trash_dir, path("/data/guploadsync/remote_trash"));
}

#[test]
fn missing_system_folders_lie_in_the_home_directory() {
    let paths = AppPaths::discover(Some(path("/home/u")), None, None).unwrap();
    assert_eq!(paths.config_file, path("/home/u/.config/guploadsync/config.toml"));
    assert_eq!(paths.remote_trash_dir, path("/home/u/.local/share/guploadsync/remote_trash"));
    assert_eq!(
        paths.ensure_directories(),
        vec![
            path("/home/u/.config/guploadsync"),
            path("/home/u/.local/share/guploadsync"),
            path("/home/u/.local/share/guploadsync/remote_trash")
        ]
    );
}

#[test]
fn without_a_home_directory_there_are_no_paths() {
    let error = AppPaths::discover(None, Some(path("/c")), Some(path("/d"))).unwrap_err();
    assert_eq!(error, AppPathsError::NoHomeDirectory);
    assert_eq!(error.message(), "could not determine home directory");
}

#[test]
fn the_sandbox_is_named_after_the_target_folder() {
    let paths = AppPaths::discover(Some(path("/home/u")), None, None).unwrap();
    assert_eq!(
        paths.remote_sandbox_dir("guploadsync"),
        path("/home/u/.local/share/guploadsync/remote_sandbox/guploadsync")
    );
    assert_eq!(
        paths.remote_sandbox_dir("/a/b/"),
        path("/home/u/.local/share/guploadsync/remote_sandbox/a/b")
    );
}
