use guploadsync::remote::normalize_virtual_path;

fn expected(raw: &str) -> String {
    raw.trim()
        .trim_matches('/')
        .replace('\\', "/")
        .split('/')
        .filter(|segment| !segment.is_empty() && *segment != ".")
        .collect::<Vec<_>>()
        .join("/")
}

#[test]
fn remote_paths_are_normalized() {
    let samples = [
        "", "/", " ", "a", "/a/", "a//b", "a/./b", "./a", "a\\b", "\\a", " /a/b/ ", "/ a", "a/../b",
        "..", ".", "a/.", "\\\\", "dotfiles/bashrc", "ä/ö ü/ß",
    ];
    for raw in samples {
        assert_eq!(normalize_virtual_path(raw), expected(raw), "{raw:?}");
    }
    assert_eq!(normalize_virtual_path("/dotfiles\\.\\bashrc/"), "dotfiles/bashrc");
}

#[test]
fn normalizing_twice_changes_nothing_more() {
    for raw in ["a//b", " /x/y/ ", "\\a\\b", "..", "a/./b"] {
        let once = normalize_virtual_path(raw);
        assert_eq!(normalize_virtual_path(&once), once);
    }
}

#[test]
fn white_space_inside_the_slashes_shows_up_late() {
    assert_eq!(normalize_virtual_path("/ a"), " a");
    assert_eq!(normalize_virtual_path(" a"), "a");
}
