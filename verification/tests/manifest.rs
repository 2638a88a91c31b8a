use aevia::diagnostics::AeviaError;
use aevia::manifest::{ancestors, find_project_root, manifest_file, Manifest, ReleaseProfile, TomlValue};

#[test]
fn parse_minimal_manifest() {
    let text = r#"
[package]
name = "demo"
version = "1.0.0"
authors = ["test"]

[profile.release]
opt-level = 3
backend = "rssn-gpu"
dimension-checking = "strict"

[dependencies]
linear_algebra = { version = "1.4", registry = "aevia-central" }
"#;
    let m = Manifest::parse(text).unwrap();
    assert_eq!(m.package.name, "demo");
    assert_eq!(m.profile.release.opt_level, Some(3));
    assert_eq!(m.profile.release.backend.as_deref(), Some("rssn-gpu"));
    assert_eq!(m.dependencies.len(), 1);
}

#[test]
fn manifest_defaults_and_dependency_forms() {
    let text = r#"
[package]
name = "demo"
authors = ["a", 3, "b"]

[profile.release]
opt-level = 300

[dependencies]
zeta = "0.2"
alpha = { registry = "local" }
broken = 5
"#;
    let m = Manifest::parse(text).unwrap();
    assert_eq!(m.package.version, "0.1.0");
    assert_eq!(m.package.authors, vec!["a", "b"]);
    assert_eq!(m.profile.release.opt_level, None);
    assert_eq!(m.profile.release.backend, None);
    assert_eq!(m.profile.release.dimension_checking, None);
    let deps: Vec<(&str, Option<&str>, Option<&str>)> = m
        .dependencies
        .iter()
        .map(|(n, d)| (n.as_str(), d.version.as_deref(), d.registry.as_deref()))
        .collect();
    assert_eq!(deps, vec![("alpha", None, Some("local")), ("zeta", Some("0.2"), None)]);
}

#[test]
fn manifest_errors() {
    assert_eq!(Manifest::parse("[other]\nx = 1\n").unwrap_err(), "missing [package] section");
    assert_eq!(Manifest::parse("[package]\nversion = \"1\"\n").unwrap_err(), "package.name is required");
    assert_eq!(Manifest::parse("package = 3\n").unwrap_err(), "missing [package] section");
    assert!(Manifest::parse("[package\nname = ").is_err());
    let e = AeviaError::Manifest(Manifest::parse("[other]\n").unwrap_err());
    assert_eq!(e.display_string(), "invalid Aevia.toml: missing [package] section");
}

#[test]
fn manifest_from_plain_table() {
    let root = vec![(
        "package".to_string(),
        TomlValue::Table(vec![
            ("name".to_string(), TomlValue::Str("p".to_string())),
            ("version".to_string(), TomlValue::Int(2)),
        ]),
    )];
    let m = Manifest::from_table(&root).unwrap();
    assert_eq!(m.package.name, "p");
    assert_eq!(m.package.version, "0.1.0");
    assert!(m.dependencies.is_empty());
    let r = ReleaseProfile::default();
    assert_eq!(r.opt_level, None);
}

#[test]
fn project_root_search() {
    assert_eq!(ancestors("/a/b/c"), vec!["/a/b/c", "/a/b", "/a", "/"]);
    assert_eq!(ancestors("/"), vec!["/"]);
    assert_eq!(manifest_file("/a/b"), "/a/b/Aevia.toml");
    let dirs = ancestors("/a/b/c");
    let root = find_project_root(&dirs, &vec![false, true, true, false], "/a/b/c").unwrap();
    assert_eq!(root, "/a/b");
    match find_project_root(&dirs, &vec![false; 4], "src").unwrap_err() {
        AeviaError::Message(m) => assert_eq!(m, "no Aevia.toml found in src or any parent directory"),
        other => panic!("unexpected {:?}", other),
    }
}

#[test]
fn repeated_dependency_keeps_its_place() {
    let deps = TomlValue::Table(vec![
        ("a".to_string(), TomlValue::Str("1".to_string())),
        ("b".to_string(), TomlValue::Str("2".to_string())),
        ("a".to_string(), TomlValue::Str("3".to_string())),
    ]);
    let root = vec![
        ("dependencies".to_string(), deps),
        ("package".to_string(), TomlValue::Table(vec![("name".to_string(), TomlValue::Str("p".to_string()))])),
    ];
    let m = Manifest::from_table(&root).unwrap();
    let got: Vec<(&str, Option<&str>)> =
        m.dependencies.iter().map(|(n, d)| (n.as_str(), d.version.as_deref())).collect();
    assert_eq!(got, vec![("a", Some("3")), ("b", Some("2"))]);
}
