use cargo_override::registry::{
    get_registry_from_env, lookup_alias, registry_key, resolve, RegistryError,
};

fn pairs(v: &[(&str, &str)]) -> Vec<(String, String)> {
    v.iter().map(|(a, b)| (a.to_string(), b.to_string())).collect()
}

#[test]
fn resolve_default_registry_without_hint() {
    let empty: Vec<(String, String)> = Vec::new();
    assert_eq!(resolve(None, None, &empty, false).unwrap(), "crates-io");
    assert_eq!(resolve(None, None, &empty, true).unwrap(), "crates-io");
    let table = pairs(&[("https://example.com/index", "other")]);
    assert_eq!(resolve(None, None, &table, false).unwrap(), "crates-io");
}

#[test]
fn resolve_default_registry_by_canonical_url() {
    let empty: Vec<(String, String)> = Vec::new();
    let r = resolve(
        None,
        Some("https://github.com/rust-lang/crates.io-index"),
        &empty,
        false,
    );
    assert_eq!(r.unwrap(), "crates-io");
}

#[test]
fn resolve_alias_from_table() {
    let table = pairs(&[
        ("https://dl.example.com/private/index", "private-registry"),
        ("https://other.example.com/index", "other"),
    ]);
    let r = resolve(None, Some("https://dl.example.com/private/index"), &table, false);
    assert_eq!(r.unwrap(), "private-registry");
}

#[test]
fn resolve_hint_agreeing_with_alias() {
    let table = pairs(&[("https://dl.example.com/private/index", "private-registry")]);
    let r = resolve(
        Some("private-registry"),
        Some("https://dl.example.com/private/index"),
        &table,
        false,
    );
    assert_eq!(r.unwrap(), "private-registry");
}

#[test]
fn resolve_conflicting_hint_fails_without_force() {
    let table = pairs(&[("https://dl.example.com/private/index", "private-registry")]);
    let err = resolve(
        Some("my-choice"),
        Some("https://dl.example.com/private/index"),
        &table,
        false,
    )
    .unwrap_err();
    match err {
        RegistryError::Mismatch { hint, found } => {
            assert_eq!(hint, "my-choice");
            assert_eq!(found, "private-registry");
        }
        _ => panic!("expected a registry mismatch"),
    }
}

#[test]
fn resolve_conflicting_hint_wins_under_force() {
    let table = pairs(&[("https://dl.example.com/private/index", "private-registry")]);
    let r = resolve(
        Some("my-choice"),
        Some("https://dl.example.com/private/index"),
        &table,
        true,
    );
    assert_eq!(r.unwrap(), "my-choice");
}

#[test]
fn resolve_unknown_url_without_hint_fails() {
    let empty: Vec<(String, String)> = Vec::new();
    let err = resolve(None, Some("https://nowhere.example.com/index"), &empty, false).unwrap_err();
    match err {
        RegistryError::Unresolved { url } => {
            assert_eq!(url, "https://nowhere.example.com/index");
        }
        _ => panic!("expected an unresolved registry"),
    }
}

#[test]
fn resolve_unknown_url_with_hint_trusts_the_hint() {
    let empty: Vec<(String, String)> = Vec::new();
    let r = resolve(Some("my-choice"), Some("https://nowhere.example.com/index"), &empty, false);
    assert_eq!(r.unwrap(), "my-choice");
}

#[test]
fn resolve_default_registry_conflicting_hint() {
    let empty: Vec<(String, String)> = Vec::new();
    let err = resolve(Some("private-registry"), None, &empty, false).unwrap_err();
    match err {
        RegistryError::Mismatch { hint, found } => {
            assert_eq!(hint, "private-registry");
            assert_eq!(found, "crates-io");
        }
        _ => panic!("expected a registry mismatch"),
    }
    assert_eq!(resolve(Some("private-registry"), None, &empty, true).unwrap(), "crates-io");
}

#[test]
fn find_registry_from_url() {
    let env = pairs(&[
        (
            "CARGO_REGISTRIES_FOO_INDEX",
            "https://github.com/rust-lang/crates.io-index",
        ),
        (
            "CARGO_REGISTRIES_FOO_BAR_INDEX",
            "https://dl.cloudsmith.io/basic/private/registry/cargo/index.git",
        ),
        ("CARGO_REGISTRIES_FOO_BAR_PROTOCOL", "sparse"),
        ("CARGO_TARGET_X86_64_UNKNOWN_LINUX_GNU_RUNNER", "HI"),
    ]);
    assert_eq!(
        get_registry_from_env(&env, "https://github.com/rust-lang/crates.io-index"),
        Some("foo".to_string())
    );
    assert_eq!(
        get_registry_from_env(
            &env,
            "https://dl.cloudsmith.io/basic/private/registry/cargo/index.git"
        ),
        Some("foo-bar".to_string())
    );
    assert_eq!(
        get_registry_from_env(&env, "https://github.com/eopb/cargo-override.git"),
        None
    );
}

#[test]
fn registry_key_naming_convention() {
    assert_eq!(registry_key("CARGO_REGISTRIES_FOO_INDEX"), Some("FOO".to_string()));
    assert_eq!(
        registry_key("CARGO_REGISTRIES_FOO_BAR_INDEX"),
        Some("FOO_BAR".to_string())
    );
    assert_eq!(registry_key("CARGO_REGISTRIES_FOO_PROTOCOL"), None);
    assert_eq!(registry_key("CARGO_HOME"), None);
    assert_eq!(registry_key("XDG_CARGO_REGISTRIES_FOO_INDEX"), None);
}

#[test]
fn lookup_alias_first_binding_wins() {
    let table = pairs(&[
        ("https://a.example.com/index", "first"),
        ("https://a.example.com/index", "second"),
    ]);
    assert_eq!(lookup_alias(&table, "https://a.example.com/index"), Some("first".to_string()));
    assert_eq!(lookup_alias(&table, "https://b.example.com/index"), None);
}

#[test]
fn cargo_flags_frozen_implies_locked_and_offline() {
    let c = cargo_override::Cargo::new(false, false, true);
    assert!(c.locked);
    assert!(c.offline);
    let c = cargo_override::Cargo::new(true, false, false);
    assert!(c.locked);
    assert!(!c.offline);
}
