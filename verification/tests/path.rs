use guploadsync::path::{stem_and_extension, Component, LocalPath};
use std::path::Path;

const PATHS: [&str; 34] = [
    "",
    "/",
    "//",
    "///",
    ".",
    "./",
    "..",
    "/..",
    "/.",
    "a",
    "a/",
    "a//",
    "a/.",
    "a/./",
    "a/..",
    "/a",
    "//a",
    "/a/",
    "/a/b",
    "/a//b",
    "/a/./b",
    "./a",
    "././a",
    "a/./b/.",
    "/a/b/",
    "/a/b/..",
    "/a/b.txt",
    "/a/.hidden",
    "/a/b.tar.gz",
    "/a/b.",
    "/a/..b",
    "/home/ä ö/ü",
    "a/b/c/d",
    "/.//./a",
];

fn expected_components(path: &str) -> Vec<String> {
    Path::new(path)
        .components()
        .map(|c| c.as_os_str().to_str().unwrap().to_string())
        .collect()
}

fn ours(path: &LocalPath) -> Vec<String> {
    path.components()
        .into_iter()
        .map(|c| match c {
            Component::RootDir => "/".to_string(),
            Component::CurDir => ".".to_string(),
            Component::ParentDir => "..".to_string(),
            Component::Normal(name) => String::from_utf8(name).unwrap(),
        })
        .collect()
}

fn text(path: &LocalPath) -> &str {
    std::str::from_utf8(&path.bytes).unwrap()
}

#[test]
fn components_are_those_of_the_standard_library() {
    for p in PATHS {
        assert_eq!(ours(&LocalPath::new(p)), expected_components(p), "{p}");
    }
}

#[test]
fn absolute_paths_begin_at_the_root() {
    for p in PATHS {
        assert_eq!(LocalPath::new(p).is_absolute(), Path::new(p).is_absolute(), "{p}");
    }
}

#[test]
fn parents_are_those_of_the_standard_library() {
    for p in PATHS {
        let expected = Path::new(p).parent().map(|q| q.to_str().unwrap().to_string());
        let found = LocalPath::new(p).parent().map(|q| text(&q).to_string());
        assert_eq!(found, expected, "{p}");
    }
}

#[test]
fn file_names_are_those_of_the_standard_library() {
    for p in PATHS {
        let expected = Path::new(p).file_name().map(|n| n.to_str().unwrap().to_string());
        let found = LocalPath::new(p).file_name().map(|n| String::from_utf8(n).unwrap());
        assert_eq!(found, expected, "{p}");
        if let Some(name) = LocalPath::new(p).file_name() {
            let (stem, ext) = stem_and_extension(&name);
            let q = Path::new(p);
            assert_eq!(
                Some(String::from_utf8(stem).unwrap().as_str()),
                q.file_stem().map(|s| s.to_str().unwrap()),
                "{p}"
            );
            assert_eq!(
                ext.map(|e| String::from_utf8(e).unwrap()),
                q.extension().map(|s| s.to_str().unwrap().to_string()),
                "{p}"
            );
        }
    }
}

#[test]
fn joins_and_prefixes_are_those_of_the_standard_library() {
    for p in PATHS {
        for q in PATHS {
            let a = LocalPath::new(p);
            let b = LocalPath::new(q);
            assert_eq!(text(&a.join(&b)), Path::new(p).join(q).to_str().unwrap(), "{p} {q}");
            assert_eq!(text(&a.join_text(q)), Path::new(p).join(q).to_str().unwrap());
            assert_eq!(a.starts_with(&b), Path::new(p).starts_with(q), "{p} {q}");
            assert_eq!(a.same_as(&b), Path::new(p) == Path::new(q), "{p} {q}");
        }
    }
}

#[test]
fn paths_need_not_be_text() {
    let path = LocalPath::from_bytes(vec![b'/', b'a', 0xff, b'b', b'/', b'c']);
    assert_eq!(path.to_text(), "/a\u{fffd}b/c");
    assert_eq!(path.parent().unwrap().bytes, vec![b'/', b'a', 0xff, b'b']);
    assert_eq!(
        path.components(),
        vec![
            Component::RootDir,
            Component::Normal(vec![b'a', 0xff, b'b']),
            Component::Normal(vec![b'c'])
        ]
    );
    assert_eq!(LocalPath::new("/ä").to_text(), "/ä");
}
