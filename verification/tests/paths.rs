use no_useless_path_segments::{may_need_normalization, normalize_path, Component, FilePath};

#[test]
fn test_normalize_path() {
    assert_eq!(normalize_path("./deep//a"), "./deep/a");
    assert_eq!(normalize_path("./../foo"), "../foo");
    assert_eq!(normalize_path("./foo/./bar"), "./foo/bar");
    assert_eq!(normalize_path("./"), ".");
    assert_eq!(normalize_path("../"), "..");
    assert_eq!(normalize_path("./bar/"), "./bar"); // Remove trailing slash
    assert_eq!(normalize_path("./test-module/"), "./test-module"); // Remove trailing slash
}

#[test]
fn normalize_path_resolves_parents() {
    assert_eq!(normalize_path("./foo/../bar"), "./bar");
    assert_eq!(normalize_path("./a/b/../../../c"), "../c");
    assert_eq!(normalize_path("../../a/../b"), "../../b");
    assert_eq!(normalize_path("a/.."), ".");
    assert_eq!(normalize_path("./a/./../."), ".");
    assert_eq!(normalize_path("./\u{e9}t\u{e9}//\u{1f600}/"), "./\u{e9}t\u{e9}/\u{1f600}");
}

#[test]
fn normalize_path_at_the_edges() {
    assert_eq!(normalize_path(""), ".");
    assert_eq!(normalize_path("."), ".");
    assert_eq!(normalize_path(".."), "..");
    assert_eq!(normalize_path("/"), ".");
    assert_eq!(normalize_path("/a"), "a");
    assert_eq!(normalize_path("./..a"), "./..a");
    assert_eq!(normalize_path("./..foo/"), "./..foo");
    assert_eq!(normalize_path("./.."), "..");
    assert_eq!(normalize_path("..a/.."), ".");
    assert_eq!(normalize_path("./..a/.."), ".");
    assert_eq!(normalize_path(".a/../b"), "b");
}

#[test]
fn normal_forms_are_normal() {
    for path in ["./a/../b//c/.", "", "./..a/", "..a/..", "../.././x/", "/a//b", "./"] {
        let normal = normalize_path(path);
        assert_eq!(normalize_path(&normal), normal);
    }
}

#[test]
fn normal_forms_hold_no_redundant_segment() {
    for path in ["./a/../b//c/.", "../../a/./..//", "./x/y/../../..", "a//"] {
        let normal = normalize_path(path);
        let segments: Vec<&str> = normal.split('/').collect();
        assert!(segments[1..].iter().all(|s| !s.is_empty() && *s != "."));
        let climbs = segments.iter().take_while(|s| **s == "..").count();
        assert!(segments[climbs..].iter().all(|s| *s != ".."));
        assert!(normal.len() <= path.len());
    }
}

#[test]
fn normal_forms_of_relative_paths_are_relative() {
    for path in ["./..a/", "./a/..", "../", "./../x", "./.a//b", "./x/../..y"] {
        let normal = normalize_path(path);
        assert!(matches!(normal.split('/').next(), Some("." | "..")), "{}", normal);
    }
}

#[test]
fn need_of_normalization() {
    for path in ["./", "./.", "a/..", "a//b", "a/./b", "a/../b", "../../a", "/"] {
        assert!(may_need_normalization(path), "{}", path);
    }
    for path in ["", ".", "..", "./a", "../a", "./..a", "./.a/b", "/a", "a/...", ".../b"] {
        assert!(!may_need_normalization(path), "{}", path);
    }
}

#[test]
fn no_need_of_normalization_means_no_change() {
    for path in [".", "..", "./a", "../a/b", "a", ".a/..b", "./.a", "./..a", "./.../b"] {
        assert!(!may_need_normalization(path));
        assert_eq!(normalize_path(path), path);
    }
}

fn named(directory: &str, name: &[u8]) -> FilePath {
    FilePath {
        components: vec![
            Component::RootDir,
            Component::Normal(directory.as_bytes().to_vec()),
            Component::Normal(name.to_vec()),
        ],
    }
}

#[test]
fn parts_of_file_names() {
    let cases: [(&[u8], &str, Option<&str>); 8] = [
        (b"foo.js", "foo", Some("js")),
        (b"foo.test.js", "foo.test", Some("js")),
        (b"foo", "foo", None),
        (b".bashrc", ".bashrc", None),
        (b".eslintrc.js", ".eslintrc", Some("js")),
        (b"foo.", "foo", Some("")),
        (b"..foo", ".", Some("foo")),
        ("\u{e9}t\u{e9}.ts".as_bytes(), "\u{e9}t\u{e9}", Some("ts")),
    ];
    for (name, stem, extension) in cases {
        let path = named("src", name);
        assert_eq!(path.file_name(), std::str::from_utf8(name).ok());
        assert_eq!(path.file_stem(), Some(stem));
        assert_eq!(path.extension(), extension);
        let reference = std::path::Path::new(std::str::from_utf8(name).unwrap());
        assert_eq!(reference.file_stem().unwrap().to_str(), Some(stem));
        assert_eq!(reference.extension().map(|e| e.to_str().unwrap()), extension);
    }
}

#[test]
fn file_names_that_are_not_text() {
    let path = named("src", b"foo.\xff");
    assert_eq!(path.file_name(), None);
    assert_eq!(path.file_stem(), Some("foo"));
    assert_eq!(path.extension(), None);
    let path = named("src", b"\xc3.js");
    assert_eq!(path.file_name(), None);
    assert_eq!(path.file_stem(), None);
    assert_eq!(path.extension(), Some("js"));
}

#[test]
fn paths_without_a_file_name() {
    for last in [Component::RootDir, Component::CurDir, Component::ParentDir] {
        let path = FilePath { components: vec![last] };
        assert_eq!(path.file_name(), None);
        assert_eq!(path.file_stem(), None);
        assert_eq!(path.extension(), None);
    }
    assert_eq!(FilePath { components: vec![] }.file_name(), None);
}

#[test]
fn same_paths() {
    assert!(named("src", b"a.js").same_path(&named("src", b"a.js")));
    assert!(!named("src", b"a.js").same_path(&named("src", b"a.jsx")));
    assert!(!named("src", b"a.js").same_path(&named("lib", b"a.js")));
    let relative = FilePath { components: vec![Component::Normal(b"a.js".to_vec())] };
    let climbing = FilePath { components: vec![Component::ParentDir] };
    let prefixed = FilePath { components: vec![Component::Prefix(b"a.js".to_vec())] };
    assert!(!relative.same_path(&named("src", b"a.js")));
    assert!(!relative.same_path(&climbing));
    assert!(!relative.same_path(&prefixed));
    assert!(prefixed.same_path(&prefixed));
}
