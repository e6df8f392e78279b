use no_useless_path_segments::{
    Component, FilePath, ModuleRecord, NoUselessPathSegments, Span,
};

fn path(text: &str) -> FilePath {
    let components = std::path::Path::new(text)
        .components()
        .map(|component| match component {
            std::path::Component::RootDir => Component::RootDir,
            std::path::Component::CurDir => Component::CurDir,
            std::path::Component::ParentDir => Component::ParentDir,
            std::path::Component::Normal(name) => {
                Component::Normal(name.as_encoded_bytes().to_vec())
            }
            std::path::Component::Prefix(prefix) => {
                Component::Prefix(prefix.as_os_str().as_encoded_bytes().to_vec())
            }
        })
        .collect();
    FilePath { components }
}

fn record(own: &str, loaded: &[(&str, &str)]) -> ModuleRecord {
    let mut record = ModuleRecord::new(path(own));
    for (specifier, target) in loaded {
        record.add_loaded_module(specifier.to_string(), path(target));
    }
    record
}

const OWN: &str = "/project/files/foo.js";

fn check(no_useless_index: bool, import_path: &str, loaded: &[(&str, &str)]) -> Option<String> {
    let rule = NoUselessPathSegments { no_useless_index };
    rule.check_path(import_path, &path(OWN), &record(OWN, loaded))
}

fn some(text: &str) -> Option<String> {
    Some(text.to_string())
}

#[test]
fn default_leaves_index_files_alone() {
    assert!(!NoUselessPathSegments::default().no_useless_index);
    let loaded = [("./bar/index.js", "/project/files/bar/index.js")];
    assert_eq!(check(false, "./bar/index.js", &loaded), None);
    assert_eq!(check(true, "./bar/index.js", &loaded), some("./bar"));
}

#[test]
fn index_file_names() {
    for name in [
        "index", "index.js", "index.mjs", "index.cjs", "index.jsx", "index.ts", "index.mts",
        "index.cts", "index.tsx",
    ] {
        assert!(NoUselessPathSegments::is_index_filename(name), "{}", name);
        assert_eq!(NoUselessPathSegments::is_index_with_extension(name), name != "index");
    }
    for name in ["index.foo", "notindex", "index.", "index.d.ts", "Index", "", "index.JS"] {
        assert!(!NoUselessPathSegments::is_index_filename(name), "{}", name);
    }
}

#[test]
fn resolved_index_files() {
    assert!(NoUselessPathSegments::resolved_to_index_file(&path("/path/to/bar/index.js")));
    assert!(!NoUselessPathSegments::resolved_to_index_file(&path("/path/to/foo.js")));
    assert!(!NoUselessPathSegments::resolved_to_index_file(&path("/")));
}

#[test]
fn meaning_of_trailing_slashes() {
    let meaningful = |loaded: &[(&str, &str)]| {
        NoUselessPathSegments::is_trailing_slash_meaningful("./bar/", "./bar", &record(OWN, loaded))
    };
    let index = ("./bar/", "/project/files/bar/index.js");
    let file = ("./bar", "/project/files/bar.js");
    assert!(meaningful(&[index, file]));
    assert!(!meaningful(&[index, ("./bar", "/project/files/bar/index.js")]));
    assert!(meaningful(&[index]));
    assert!(!meaningful(&[("./bar/", "/project/files/bar/main.js")]));
    assert!(meaningful(&[file]));
    assert!(!meaningful(&[]));
}

#[test]
fn different_modules() {
    let different = |loaded: &[(&str, &str)]| {
        NoUselessPathSegments::resolves_to_different_module("a", "b", &record(OWN, loaded))
    };
    assert!(different(&[("a", "/a.js"), ("b", "/b.js")]));
    assert!(!different(&[("a", "/a.js"), ("b", "/a.js")]));
    assert!(!different(&[("a", "/a.js")]));
    assert!(!different(&[("b", "/b.js")]));
}

#[test]
fn later_entries_stand_for_earlier_ones() {
    let record = record(OWN, &[("a", "/a.js"), ("b", "/b.js"), ("a", "/c.js")]);
    assert!(record.get_loaded_module("a").unwrap().same_path(&path("/c.js")));
    assert!(record.get_loaded_module("b").unwrap().same_path(&path("/b.js")));
    assert!(record.get_loaded_module("c").is_none());
    assert!(record.resolved_absolute_path().same_path(&path(OWN)));
}

#[test]
fn requests_are_gathered_by_specifier() {
    let mut record = ModuleRecord::new(path(OWN));
    record.add_requested_module("a".to_string(), Span { start: 1, end: 2 });
    record.add_requested_module("b".to_string(), Span { start: 3, end: 4 });
    record.add_requested_module("a".to_string(), Span { start: 5, end: 5 });
    let requested = record.requested_modules();
    assert_eq!(requested.len(), 2);
    assert_eq!(requested[0].specifier, "a");
    assert_eq!(requested[0].spans, [Span { start: 1, end: 2 }, Span { start: 5, end: 5 }]);
    assert_eq!(requested[1].specifier, "b");
    assert_eq!(requested[1].spans, [Span { start: 3, end: 4 }]);
}

#[test]
fn examples_of_useless_segments() {
    assert_eq!(check(false, "./../bar", &[]), some("../bar"));
    assert_eq!(check(false, "./foo/../bar", &[]), some("./bar"));
    assert_eq!(check(false, "./", &[]), some("."));
    assert_eq!(check(false, "./deep//a", &[]), some("./deep/a"));
}

#[test]
fn examples_of_plain_paths() {
    for import_path in ["../bar", "./bar", ".", "./deep/a"] {
        assert_eq!(check(false, import_path, &[]), None);
        assert_eq!(check(true, import_path, &[]), None);
    }
}

#[test]
fn normal_form_that_leads_elsewhere() {
    let loaded = [("./a/../b", "/project/x/b.js"), ("./b", "/project/files/b.js")];
    assert_eq!(check(false, "./a/../b", &loaded), None);
    let loaded = [("./a/../b", "/project/files/b.js"), ("./b", "/project/files/b.js")];
    assert_eq!(check(false, "./a/../b", &loaded), some("./b"));
}

#[test]
fn normal_form_without_its_index() {
    let target = "/project/files/bar/index.js";
    let loaded = [("./bar/index.js", target)];
    assert_eq!(check(true, "./a/../bar/index.js", &loaded), some("./bar"));
    assert_eq!(check(false, "./a/../bar/index.js", &loaded), some("./bar/index.js"));
    assert_eq!(check(true, "./a/../bar/index.js", &[]), some("./bar/index.js"));
}

#[test]
fn slashes_at_the_end() {
    let target = "/project/files/bar/index.js";
    assert_eq!(check(false, "./bar/", &[("./bar/", target)]), None);
    assert_eq!(check(false, "./bar/", &[("./bar/", target), ("./bar", target)]), some("./bar"));
    assert_eq!(check(false, "./bar//", &[("./bar//", target)]), None);
    assert_eq!(check(false, "./bar//", &[]), some("./bar"));
    assert_eq!(check(false, "./x/../bar/", &[("./x/../bar/", target)]), some("./bar"));
}

#[test]
fn removed_index_files() {
    let removed = |import_path: &str, loaded: &[(&str, &str)]| {
        NoUselessPathSegments::remove_useless_index(import_path, &record(OWN, loaded))
    };
    let index = "/project/files/bar/index.ts";
    assert_eq!(removed("./bar/index.ts", &[("./bar/index.ts", index)]), some("./bar"));
    assert_eq!(removed("./bar/index", &[("./bar/index", index)]), some("./bar"));
    assert_eq!(removed("./index", &[("./index", index)]), some("."));
    assert_eq!(removed("../index.ts", &[("../index.ts", index)]), some(".."));
    assert_eq!(removed("/index", &[("/index", index)]), some("."));
    assert_eq!(
        removed("./bar/index", &[("./bar/index", index), ("./bar/", index)]),
        some("./bar/")
    );
    assert_eq!(
        removed("./bar/index", &[("./bar/index", index), ("./bar/", index), ("./bar", index)]),
        some("./bar")
    );
    assert_eq!(removed("./bar/index.ts", &[]), None);
    assert_eq!(removed("./bar/index.foo", &[("./bar/index.foo", index)]), None);
    assert_eq!(removed("./barindex", &[("./barindex", index)]), None);
    assert_eq!(removed("index", &[("index", index)]), None);
}

#[test]
fn bare_index_files() {
    assert_eq!(NoUselessPathSegments::bare_index_parent("./index"), Some("."));
    assert_eq!(NoUselessPathSegments::bare_index_parent("./index.tsx"), Some("."));
    assert_eq!(NoUselessPathSegments::bare_index_parent("../index"), Some(".."));
    assert_eq!(NoUselessPathSegments::bare_index_parent("../index.cjs"), Some(".."));
    for import_path in ["./bar/index", "index", "./index.foo", "../../index", "./", ""] {
        assert_eq!(NoUselessPathSegments::bare_index_parent(import_path), None);
    }
    let removed = |loaded: &[(&str, &str)]| {
        NoUselessPathSegments::try_remove_bare_index("./index", &record(OWN, loaded))
    };
    assert_eq!(removed(&[("./index", "/i.js"), (".", "/i.js")]), some("."));
    assert_eq!(removed(&[("./index", "/i.js"), (".", "/j.js")]), None);
    assert_eq!(removed(&[("./index", "/i.js")]), None);
    assert_eq!(removed(&[]), None);
}

#[test]
fn self_imports() {
    assert_eq!(check(false, "../files/foo.js", &[("../files/foo.js", OWN)]), some("./foo.js"));
    assert_eq!(check(false, "../files/foo", &[("../files/foo", OWN)]), some("./foo"));
    assert_eq!(check(false, "./foo", &[("./foo", OWN)]), None);
    let rule = NoUselessPathSegments::default();
    let unknown = path("/project/..");
    assert_eq!(rule.suggest_self_import_path("../foo", &unknown, &record(OWN, &[])), None);
    let bare = path("/project/Makefile");
    assert_eq!(
        rule.suggest_self_import_path("../Makefile", &bare, &record(OWN, &[])),
        some("./Makefile")
    );
}

#[test]
fn self_import_of_an_index_file() {
    let own = "/project/files/index.js";
    let known = record(own, &[(".", own), ("./index", own), ("../files/index", own)]);
    for no_useless_index in [false, true] {
        let rule = NoUselessPathSegments { no_useless_index };
        assert_eq!(rule.check_path(".", &path(own), &known), None);
        assert_eq!(rule.check_path(".", &path(own), &record(own, &[(".", own)])), None);
        assert_eq!(rule.check_path(".", &path(own), &record(own, &[])), None);
    }
    let rule = NoUselessPathSegments::default();
    assert_eq!(rule.check_path("../files/index", &path(own), &known), some("./index"));
    let rule = NoUselessPathSegments { no_useless_index: true };
    assert_eq!(rule.suggest_self_import_path("../files/index", &path(own), &known), some("."));
}

#[test]
fn names_that_begin_with_two_dots_stay_relative() {
    assert_eq!(check(false, "./..foo/", &[]), some("./..foo"));
    assert_eq!(check(false, "./..foo//bar", &[]), some("./..foo/bar"));
    assert_eq!(check(false, "./..foo", &[]), None);
}

#[test]
fn fewer_parent_directories() {
    let target = "/project/files/bar.js";
    let loaded = [("../files/bar", target), ("./bar", target)];
    assert_eq!(check(false, "../files/bar", &loaded), some("./bar"));
    assert_eq!(check(false, "../files/bar", &loaded[..1]), None);
    let loaded = [("../files/bar", target), ("./bar", "/project/files/bar/index.js")];
    assert_eq!(check(false, "../files/bar", &loaded), None);

    let import_path = "../../project/files/bar";
    let loaded = [(import_path, target), ("../files/bar", target), ("./bar", target)];
    assert_eq!(check(false, import_path, &loaded), some("../files/bar"));
    let loaded = [(import_path, target), ("./bar", target)];
    assert_eq!(check(false, import_path, &loaded), some("./bar"));

    let loaded = [("..", target), (".", target)];
    assert_eq!(check(false, "..", &loaded), some("."));
    let loaded = [("../files", target), (".", target)];
    assert_eq!(check(false, "../files", &loaded), some("."));

    let index = "/project/files/bar/index.js";
    let loaded = [("../files/bar/index", index), ("./bar/index", index)];
    assert_eq!(check(false, "../files/bar/index", &loaded), some("./bar/index"));
    assert_eq!(check(true, "../files/bar/index", &loaded), some("../files/bar"));
}

#[test]
fn a_climb_that_ends_in_an_index_file() {
    let rule = NoUselessPathSegments { no_useless_index: true };
    let target = "/project/files/bar/index.js";
    let known = record(OWN, &[("../files/bar/index", target), ("./bar/index", target)]);
    assert_eq!(
        rule.try_remove_parent_directories("../files/bar/index", &path(target), &known),
        some("./bar")
    );
    assert_eq!(
        rule.try_simplify_by_resolution("../files/bar/index", &path(OWN), &known),
        some("./bar")
    );
    assert_eq!(rule.maybe_remove_index("./bar/index".to_string(), &known), "./bar");
    assert_eq!(
        NoUselessPathSegments::default().maybe_remove_index("./bar/index".to_string(), &known),
        "./bar/index"
    );
}

#[test]
fn proposals_differ_and_keep_the_module() {
    let target = "/project/files/bar/index.js";
    let loaded = [
        ("./bar/", target),
        ("./bar", target),
        ("../files/bar", target),
        ("../files//bar", target),
        ("./bar/index", target),
    ];
    let known = record(OWN, &loaded);
    for (import_path, _) in loaded {
        for no_useless_index in [false, true] {
            let rule = NoUselessPathSegments { no_useless_index };
            if let Some(proposed) = rule.check_path(import_path, &path(OWN), &known) {
                assert_ne!(proposed, import_path);
                assert!(proposed.starts_with('.'));
                assert!(known.get_loaded_module(&proposed).unwrap().same_path(&path(target)));
            }
        }
    }
}

#[test]
fn normal_forms_are_not_normalized_again() {
    let rule = NoUselessPathSegments::default();
    for import_path in ["./a/../b", "./", "../x//", "./..a/"] {
        let proposed = rule.try_normalize(import_path, &record(OWN, &[])).unwrap();
        assert_eq!(rule.try_normalize(&proposed, &record(OWN, &[])), None);
    }
}
