use no_useless_path_segments::{
    no_useless_path_segments_diagnostic, static_module_name, useless_path_segments_message,
    AstNode, Component, Expression, FilePath, LintContext, ModuleRecord, NoUselessPathSegments,
    Span,
};
use oxc_diagnostics::{OxcDiagnostic, Severity};

fn path(text: &str) -> FilePath {
    let mut components = vec![Component::RootDir];
    for name in text.split('/').skip(1) {
        components.push(Component::Normal(name.as_bytes().to_vec()));
    }
    FilePath { components }
}

/// The files next to `/fixtures/import/malformed.js`, as far as static imports reach them.
fn resolve(specifier: &str) -> Option<&'static str> {
    match specifier {
        "./malformed.js" | "./malformed" => Some("/fixtures/import/malformed.js"),
        "./test-module" => Some("/fixtures/import/test-module/index.js"),
        "./bar" | "./bar.js" => Some("/fixtures/import/bar.js"),
        "./bar/" | "./bar/index" | "./bar/index.js" => Some("/fixtures/import/bar/index.js"),
        "." | "./" | "./index" => Some("/fixtures/import/index.js"),
        ".." | "../" | "../index" | "../index.js" => Some("/fixtures/index.js"),
        "./deep//a" => Some("/fixtures/import/deep/a.js"),
        _ => None,
    }
}

/// The reports on a source text with one import or call in it, for the file `malformed.js`.
fn reports(source: &str, no_useless_index: Option<bool>) -> Vec<OxcDiagnostic> {
    let rule = match no_useless_index {
        Some(no_useless_index) => NoUselessPathSegments { no_useless_index },
        None => NoUselessPathSegments::default(),
    };
    let specifier = source.split('\'').nth(1).unwrap();
    let span = Span { start: 0, end: source.len() as u32 };
    let own = "/fixtures/import/malformed.js";
    let mut module_record = ModuleRecord::new(path(own));
    let mut node = AstNode::Other;
    if source.starts_with("import(") {
        node =
            AstNode::ImportExpression(Expression::StringLiteral(specifier.to_string()), span);
    } else if source.starts_with("import ") {
        module_record.add_requested_module(specifier.to_string(), span);
        if let Some(target) = resolve(specifier) {
            module_record.add_loaded_module(specifier.to_string(), path(target));
        }
    }
    let ctx = LintContext { file_path: path(own), module_record };
    let mut found = rule.run_once(&ctx);
    found.extend(rule.run(&node, &ctx));
    found
}

#[test]
fn test() {
    let pass = vec![
        // CommonJS modules are ignored.
        ("require('./../files/malformed.js')", None),
        // ES modules with default options
        ("import './malformed.js'", None),
        ("import './test-module'", None),
        ("import './bar/'", None),
        ("import './'", None),
        ("import '../'", None),
        ("import '.'", None),
        ("import '..'", None),
        ("import fs from 'fs'", None),
        // ES modules + noUselessIndex
        ("import '../index'", None), // noUselessIndex is false by default
        ("import '../my-custom-index'", Some(true)),
        ("import './bar.js'", Some(true)), // ./bar/index.js exists
        ("import './bar'", Some(true)),
        ("import './bar/'", Some(true)), // ./bar.js exists
        ("import './malformed.js'", Some(true)), // ./malformed directory does not exist
        ("import './malformed'", Some(true)), // ./malformed directory does not exist
        ("import './importType'", Some(true)), // ./importType.js does not exist
        ("import('.')", None),
        ("import('..')", None),
        ("import('fs').then(function(fs) {})", None),
    ];

    let fail = vec![
        // ES modules
        ("import './../files/malformed.js'", None),
        ("import './../files/malformed'", None),
        ("import './deep//a'", None),
        // ES modules + noUselessIndex
        ("import './bar/index.js'", Some(true)), // ./bar.js exists
        ("import './bar/index'", Some(true)),    // ./bar.js exists
        ("import './index'", Some(true)),
        ("import '../index'", Some(true)),
        ("import '../index.js'", Some(true)),
        ("import('./')", None),
        ("import('../')", None),
        ("import('./deep//a')", None),
    ];

    for (source, no_useless_index) in pass {
        assert!(reports(source, no_useless_index).is_empty(), "{}", source);
    }
    for (source, no_useless_index) in fail {
        assert_eq!(reports(source, no_useless_index).len(), 1, "{}", source);
    }
}

#[test]
fn messages_of_reports() {
    let cases = [
        ("import './../files/malformed.js'", None, "./../files/malformed.js", "../files/malformed.js"),
        ("import './../files/malformed'", None, "./../files/malformed", "../files/malformed"),
        ("import './deep//a'", None, "./deep//a", "./deep/a"),
        ("import './bar/index.js'", Some(true), "./bar/index.js", "./bar"),
        ("import './index'", Some(true), "./index", "."),
        ("import '../index.js'", Some(true), "../index.js", ".."),
        ("import('./')", None, "./", "."),
        ("import('../')", None, "../", ".."),
    ];
    for (source, no_useless_index, import_path, proposed) in cases {
        let found = reports(source, no_useless_index);
        assert_eq!(found[0].message, useless_path_segments_message(import_path, proposed));
        assert_eq!(found[0].labels.len(), 1);
        assert_eq!(found[0].labels[0].len(), source.len() as u32);
    }
}

#[test]
fn diagnostic_of_a_report() {
    let span = Span { start: 7, end: 12 };
    let diagnostic = no_useless_path_segments_diagnostic(span, "./../foo", "../foo");
    assert_eq!(
        diagnostic.message,
        "Useless path segments for \"./../foo\", should be \"../foo\""
    );
    assert_eq!(diagnostic.severity, Severity::Warning);
    assert_eq!(diagnostic.labels.len(), 1);
    assert_eq!(diagnostic.labels[0].offset(), 7);
    assert_eq!(diagnostic.labels[0].len(), 5);
    assert_eq!(diagnostic.labels[0].label(), None);
    assert_eq!(diagnostic.help, None);
}

#[test]
fn message_of_a_report() {
    assert_eq!(
        useless_path_segments_message("./", "."),
        "Useless path segments for \"./\", should be \".\""
    );
}

#[test]
fn names_of_modules() {
    let text = |s: &str| s.to_string();
    assert_eq!(static_module_name(&Expression::StringLiteral(text("./a"))), Some("./a"));
    assert_eq!(static_module_name(&Expression::TemplateLiteral(vec![text("./b")])), Some("./b"));
    assert_eq!(
        static_module_name(&Expression::TemplateLiteral(vec![text("./"), text("")])),
        None
    );
    assert_eq!(static_module_name(&Expression::TemplateLiteral(vec![])), None);
    assert_eq!(static_module_name(&Expression::Other), None);
}

#[test]
fn nodes_without_a_report() {
    let ctx = LintContext {
        file_path: path("/project/a.js"),
        module_record: ModuleRecord::new(path("/project/a.js")),
    };
    let rule = NoUselessPathSegments::default();
    let span = Span { start: 0, end: 1 };
    assert!(rule.run(&AstNode::Other, &ctx).is_none());
    assert!(rule.run(&AstNode::ImportExpression(Expression::Other, span), &ctx).is_none());
    let bare = Expression::StringLiteral("lodash//fp/".to_string());
    assert!(rule.run(&AstNode::ImportExpression(bare, span), &ctx).is_none());
    let template = Expression::TemplateLiteral(vec!["./a//b".to_string()]);
    assert!(rule.run(&AstNode::ImportExpression(template, span), &ctx).is_some());
}

#[test]
fn each_place_of_a_request_is_reported() {
    let mut module_record = ModuleRecord::new(path("/project/a.js"));
    let spans = [Span { start: 1, end: 4 }, Span { start: 6, end: 9 }, Span { start: 11, end: 14 }];
    module_record.add_requested_module("./x//y".to_string(), spans[0]);
    module_record.add_requested_module("lodash//fp".to_string(), spans[1]);
    module_record.add_requested_module("./x//y".to_string(), spans[2]);
    module_record.add_requested_module("./z".to_string(), spans[1]);
    let ctx = LintContext { file_path: path("/project/a.js"), module_record };
    let found = NoUselessPathSegments::default().run_once(&ctx);
    assert_eq!(found.len(), 2);
    assert_eq!(found[0].labels[0].offset(), 1);
    assert_eq!(found[1].labels[0].offset(), 11);
    assert_eq!(found[0].message, found[1].message);
}
