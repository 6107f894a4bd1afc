use cargo_override::deps::{
    locate, locate_direct, locate_resolved, registry_of_source, Dependency, LocateError,
};

fn dep(name: &str, requirement: Option<&str>, registry: Option<&str>) -> Dependency {
    Dependency {
        name: name.to_string(),
        requirement: requirement.map(|s| s.to_string()),
        registry: registry.map(|s| s.to_string()),
    }
}

#[test]
fn locate_direct_compatible_version() {
    let direct = vec![dep("foo", Some("1.0.86"), None)];
    let found = locate("foo", "1.0.86", &direct, None, false).unwrap();
    assert_eq!(found.name, "foo");
    assert_eq!(found.requirement.as_deref(), Some("1.0.86"));
}

#[test]
fn locate_direct_incompatible_version() {
    let direct = vec![dep("foo", Some("0.1.0"), None)];
    let err = locate("foo", "0.0.2", &direct, None, false).unwrap_err();
    assert!(matches!(err, LocateError::VersionIncompatible));
}

#[test]
fn locate_direct_incompatible_version_forced() {
    let direct = vec![dep("foo", Some("0.1.0"), None)];
    let found = locate("foo", "0.0.2", &direct, None, true).unwrap();
    assert_eq!(found.name, "foo");
}

#[test]
fn locate_prefers_first_compatible_direct_record() {
    let direct = vec![
        dep("foo", Some("0.1.0"), None),
        dep("foo", Some("1.0"), Some("https://example.com/index")),
    ];
    let found = locate("foo", "1.0.86", &direct, None, false).unwrap();
    assert_eq!(found.registry.as_deref(), Some("https://example.com/index"));
}

#[test]
fn locate_falls_back_to_resolved_records() {
    let direct = vec![dep("bar", Some("1.0"), None)];
    let resolved = vec![dep("foo", None, Some("https://example.com/index"))];
    let found = locate("foo", "1.0.86", &direct, Some(&resolved), false).unwrap();
    assert_eq!(found.name, "foo");
    assert!(found.requirement.is_none());
}

#[test]
fn locate_missing_dependency() {
    let direct = vec![dep("bar", Some("1.0"), None)];
    let resolved = vec![dep("baz", None, None)];
    let err = locate("foo", "1.0.86", &direct, Some(&resolved), false).unwrap_err();
    assert!(matches!(err, LocateError::DependencyNotFound));
    let err = locate("foo", "1.0.86", &direct, None, false).unwrap_err();
    assert!(matches!(err, LocateError::DependencyNotFound));
}

#[test]
fn locate_direct_semver_caret_semantics() {
    // "1.0.40" is a caret requirement: any 1.x.y with x.y at least 0.40
    let direct = vec![dep("anyhow", Some("1.0.40"), None)];
    assert!(locate_direct("anyhow", "1.1.5", &direct, false).unwrap().is_some());
    let err = locate_direct("anyhow", "2.0.0", &direct, false).unwrap_err();
    assert!(matches!(err, LocateError::VersionIncompatible));
}

#[test]
fn locate_direct_prerelease_needs_matching_prerelease() {
    let direct = vec![dep("foo", Some("1.0.0"), None)];
    let err = locate_direct("foo", "1.0.1-alpha.1", &direct, false).unwrap_err();
    assert!(matches!(err, LocateError::VersionIncompatible));
    let direct = vec![dep("foo", Some(">=1.0.1-alpha.0"), None)];
    assert!(locate_direct("foo", "1.0.1-alpha.1", &direct, false).unwrap().is_some());
}

#[test]
fn locate_direct_without_requirement_never_qualifies() {
    let direct = vec![dep("foo", None, None)];
    let err = locate_direct("foo", "1.0.0", &direct, true).unwrap_err();
    assert!(matches!(err, LocateError::VersionIncompatible));
}

#[test]
fn locate_resolved_picks_first_name_match() {
    let resolved = vec![
        dep("foo", None, Some("https://a.example.com/index")),
        dep("foo", None, Some("https://b.example.com/index")),
    ];
    let found = locate_resolved("foo", &resolved).unwrap();
    assert_eq!(found.registry.as_deref(), Some("https://a.example.com/index"));
}

#[test]
fn registry_of_git_source_is_repo_url() {
    let r = registry_of_source(
        Some("git+https://github.com/eopb/cargo-override.git?branch=main"),
        None,
    );
    assert_eq!(r.as_deref(), Some("https://github.com/eopb/cargo-override.git"));

    let r = registry_of_source(Some("git+ssh://git@github.com/o/r"), Some("ignored"));
    assert_eq!(r.as_deref(), Some("ssh://git@github.com/o/r"));
}

#[test]
fn registry_of_plain_source_keeps_declared_registry() {
    let r = registry_of_source(
        Some("registry+https://github.com/rust-lang/crates.io-index"),
        Some("https://example.com/index"),
    );
    assert_eq!(r.as_deref(), Some("https://example.com/index"));
    assert_eq!(registry_of_source(None, None), None);
}
