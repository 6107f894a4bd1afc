use cargo_override::encode::Mode;
use cargo_override::manifest::Manifest;
use cargo_override::patch::PatchError;

fn text(lines: &[&str]) -> String {
    let mut out = String::new();
    for l in lines {
        out.push_str(l);
        out.push('\n');
    }
    out
}

fn test_manifest() -> String {
    text(&[
        "[package]",
        "name = \"package-name\"",
        "version = \"0.1.0\"",
        "edition = \"2021\"",
        "",
        "# See more keys and their definitions at https://doc.rust-lang.org/cargo/reference/manifest.html",
        "",
        "[dependencies]",
        "anyhow = \"1.0.40\"",
        "pathdiff = \"0.2.1\"",
        "custom-package = { git = \"https://link/to/crate\" }",
        "",
        "[patch.crates-io]",
        "anyhow = { git = \"https://github.com/dtolnay/anyhow.git\" }",
        "anyhow-dev = { path = \"../path/to/anyhow\" }",
        "",
        "# This is a patch for a custom package",
        "[patch.\"https://link/to/crate\"]",
        "custom-package = { path = \"../path/to/crate\" }",
    ])
}

#[test]
fn test_patch_manifest_add() {
    let mut manifest = Manifest::parse(&test_manifest()).unwrap();
    manifest
        .add_patch(
            "/path/to/working/dir/",
            "/path/to/working/dir/",
            "crates-io",
            "pathdiff",
            &Mode::Path("../path/to/pathdiff".to_string()),
        )
        .unwrap();
    let expected = text(&[
        "[package]",
        "name = \"package-name\"",
        "version = \"0.1.0\"",
        "edition = \"2021\"",
        "",
        "# See more keys and their definitions at https://doc.rust-lang.org/cargo/reference/manifest.html",
        "",
        "[dependencies]",
        "anyhow = \"1.0.40\"",
        "pathdiff = \"0.2.1\"",
        "custom-package = { git = \"https://link/to/crate\" }",
        "",
        "[patch.crates-io]",
        "anyhow = { git = \"https://github.com/dtolnay/anyhow.git\" }",
        "anyhow-dev = { path = \"../path/to/anyhow\" }",
        "pathdiff = { path = \"../path/to/pathdiff\" }",
        "",
        "# This is a patch for a custom package",
        "[patch.\"https://link/to/crate\"]",
        "custom-package = { path = \"../path/to/crate\" }",
    ]);
    assert_eq!(manifest.serialize(), expected);
}

#[test]
fn test_patch_manifest_remove() {
    let mut manifest = Manifest::parse(&test_manifest()).unwrap();
    let removed = manifest.remove_patch("custom-package").unwrap();
    assert!(removed);
    let expected = text(&[
        "[package]",
        "name = \"package-name\"",
        "version = \"0.1.0\"",
        "edition = \"2021\"",
        "",
        "# See more keys and their definitions at https://doc.rust-lang.org/cargo/reference/manifest.html",
        "",
        "[dependencies]",
        "anyhow = \"1.0.40\"",
        "pathdiff = \"0.2.1\"",
        "custom-package = { git = \"https://link/to/crate\" }",
        "",
        "[patch.crates-io]",
        "anyhow = { git = \"https://github.com/dtolnay/anyhow.git\" }",
        "anyhow-dev = { path = \"../path/to/anyhow\" }",
    ]);
    assert_eq!(manifest.serialize(), expected);

    let mut manifest = Manifest::parse(&test_manifest()).unwrap();
    let removed = manifest.remove_patch("anyhow-dev").unwrap();
    assert!(removed);
    let expected = text(&[
        "[package]",
        "name = \"package-name\"",
        "version = \"0.1.0\"",
        "edition = \"2021\"",
        "",
        "# See more keys and their definitions at https://doc.rust-lang.org/cargo/reference/manifest.html",
        "",
        "[dependencies]",
        "anyhow = \"1.0.40\"",
        "pathdiff = \"0.2.1\"",
        "custom-package = { git = \"https://link/to/crate\" }",
        "",
        "[patch.crates-io]",
        "anyhow = { git = \"https://github.com/dtolnay/anyhow.git\" }",
        "",
        "# This is a patch for a custom package",
        "[patch.\"https://link/to/crate\"]",
        "custom-package = { path = \"../path/to/crate\" }",
    ]);
    assert_eq!(manifest.serialize(), expected);
}

#[test]
fn test_patch_manifest_remove_patch_not_exists() {
    let mut manifest = Manifest::parse(&test_manifest()).unwrap();
    let removed = manifest.remove_patch("non-existing-package").unwrap();
    assert!(!removed);
    assert_eq!(manifest.serialize(), test_manifest());
}

#[test]
fn test_patch_manifest_remove_with_comment() {
    let with_comment = text(&[
        "[package]",
        "name = \"package-name\"",
        "version = \"0.1.0\"",
        "edition = \"2021\"",
        "",
        "# See more keys and their definitions at https://doc.rust-lang.org/cargo/reference/manifest.html",
        "",
        "[patch.crates-io]",
        "anyhow = { path = \"../path/to/anyhow\" }",
    ]);
    let mut manifest = Manifest::parse(&with_comment).unwrap();
    let removed = manifest.remove_patch("anyhow").unwrap();
    assert!(removed);
    let expected = text(&[
        "[package]",
        "name = \"package-name\"",
        "version = \"0.1.0\"",
        "edition = \"2021\"",
    ]);
    assert_eq!(manifest.serialize(), expected);
}

#[test]
fn remove_is_idempotent() {
    let mut manifest = Manifest::parse(&test_manifest()).unwrap();
    assert!(manifest.remove_patch("custom-package").unwrap());
    let after_first = manifest.serialize();
    let removed_again = manifest.remove_patch("custom-package").unwrap();
    assert!(!removed_again);
    assert_eq!(manifest.serialize(), after_first);
}

#[test]
fn add_then_remove_restores_document() {
    let original = test_manifest();
    let mut manifest = Manifest::parse(&original).unwrap();
    manifest
        .add_patch(
            "/work",
            "/work",
            "crates-io",
            "serde",
            &Mode::Path("../serde".to_string()),
        )
        .unwrap();
    assert!(manifest.serialize() != original);
    assert!(manifest.remove_patch("serde").unwrap());
    assert_eq!(manifest.serialize(), original);
}

#[test]
fn add_creates_section_and_remove_restores() {
    let original = text(&[
        "[package]",
        "name = \"package-name\"",
        "version = \"0.1.0\"",
        "edition = \"2021\"",
        "",
        "[dependencies]",
        "anyhow = \"1.0.86\"",
    ]);
    let mut manifest = Manifest::parse(&original).unwrap();
    manifest
        .add_patch(
            "/work",
            "/work",
            "crates-io",
            "anyhow",
            &Mode::Path("anyhow".to_string()),
        )
        .unwrap();
    let expected = text(&[
        "[package]",
        "name = \"package-name\"",
        "version = \"0.1.0\"",
        "edition = \"2021\"",
        "",
        "[dependencies]",
        "anyhow = \"1.0.86\"",
        "",
        "[patch.crates-io]",
        "anyhow = { path = \"anyhow\" }",
    ]);
    assert_eq!(manifest.serialize(), expected);
    assert!(manifest.remove_patch("anyhow").unwrap());
    assert_eq!(manifest.serialize(), original);
}

#[test]
fn add_quotes_registry_named_by_url() {
    let original = text(&["[package]", "name = \"p\"", "version = \"0.1.0\""]);
    let mut manifest = Manifest::parse(&original).unwrap();
    manifest
        .add_patch(
            "/work",
            "/work",
            "https://link/to/crate",
            "custom-package",
            &Mode::Path("../path/to/crate".to_string()),
        )
        .unwrap();
    let expected = text(&[
        "[package]",
        "name = \"p\"",
        "version = \"0.1.0\"",
        "",
        "[patch.\"https://link/to/crate\"]",
        "custom-package = { path = \"../path/to/crate\" }",
    ]);
    assert_eq!(manifest.serialize(), expected);
}

#[test]
fn add_overwrites_existing_entry_in_place() {
    let original = text(&[
        "[patch.crates-io]",
        "anyhow = { path = \"../old\" }",
        "serde = { path = \"../serde\" }",
    ]);
    let mut manifest = Manifest::parse(&original).unwrap();
    manifest
        .add_patch(
            "/work",
            "/work",
            "crates-io",
            "anyhow",
            &Mode::Path("../new".to_string()),
        )
        .unwrap();
    let expected = text(&[
        "[patch.crates-io]",
        "anyhow = { path = \"../new\" }",
        "serde = { path = \"../serde\" }",
    ]);
    assert_eq!(manifest.serialize(), expected);
}

#[test]
fn add_git_reference_forms() {
    let base = text(&["[package]", "name = \"p\"", "version = \"0.1.0\""]);
    let cases: Vec<(Mode, &str)> = vec![
        (
            Mode::Git {
                url: "https://github.com/eopb/redact".to_string(),
                reference: cargo_override::encode::GitReference::DefaultBranch,
            },
            "redact = { git = \"https://github.com/eopb/redact\" }",
        ),
        (
            Mode::Git {
                url: "https://github.com/eopb/redact".to_string(),
                reference: cargo_override::encode::GitReference::Branch("main".to_string()),
            },
            "redact = { git = \"https://github.com/eopb/redact\", branch = \"main\" }",
        ),
        (
            Mode::Git {
                url: "https://github.com/eopb/redact".to_string(),
                reference: cargo_override::encode::GitReference::Tag("v0.1.10".to_string()),
            },
            "redact = { git = \"https://github.com/eopb/redact\", tag = \"v0.1.10\" }",
        ),
        (
            Mode::Git {
                url: "https://github.com/eopb/redact".to_string(),
                reference: cargo_override::encode::GitReference::Rev("931019c".to_string()),
            },
            "redact = { git = \"https://github.com/eopb/redact\", rev = \"931019c\" }",
        ),
    ];
    for (mode, expected_line) in cases {
        let mut manifest = Manifest::parse(&base).unwrap();
        manifest
            .add_patch("/work", "/work", "crates-io", "redact", &mode)
            .unwrap();
        let expected = format!("{}\n[patch.crates-io]\n{}\n", base, expected_line);
        assert_eq!(manifest.serialize(), expected);
    }
}

#[test]
fn add_rejects_patch_redefined_as_value() {
    let original = text(&["patch = 3", "", "[dependencies]", "anyhow = \"1\""]);
    let mut manifest = Manifest::parse(&original).unwrap();
    let err = manifest
        .add_patch(
            "/work",
            "/work",
            "crates-io",
            "anyhow",
            &Mode::Path("anyhow".to_string()),
        )
        .unwrap_err();
    assert!(matches!(err, PatchError::NotATable));
    assert_eq!(manifest.serialize(), original);
}

#[test]
fn remove_rejects_bare_patch_section_with_entries() {
    let original = text(&["[patch]", "anyhow = { path = \"x\" }"]);
    let mut manifest = Manifest::parse(&original).unwrap();
    let err = manifest.remove_patch("anyhow").unwrap_err();
    assert!(matches!(err, PatchError::NotATable));
}

#[test]
fn parse_preserves_text_exactly() {
    let original = test_manifest();
    let manifest = Manifest::parse(&original).unwrap();
    assert_eq!(manifest.serialize(), original);

    let no_trailing_newline = "[package]\nname = \"p\"";
    let manifest = Manifest::parse(no_trailing_newline).unwrap();
    assert_eq!(manifest.serialize(), no_trailing_newline);
}

#[test]
fn parse_rejects_malformed_header() {
    assert!(Manifest::parse("[unclosed\n").is_err());
    assert!(Manifest::parse("[]\n").is_err());
}

#[test]
fn untouched_multi_line_values_are_preserved() {
    let original = text(&[
        "[workspace]",
        "members = [",
        "    \"a\",",
        "    \"b\",",
        "]",
        "",
        "[patch.crates-io]",
        "anyhow = { path = \"../anyhow\" }",
        "serde = { path = \"../serde\" }",
    ]);
    let mut manifest = Manifest::parse(&original).unwrap();
    assert!(manifest.remove_patch("anyhow").unwrap());
    let expected = text(&[
        "[workspace]",
        "members = [",
        "    \"a\",",
        "    \"b\",",
        "]",
        "",
        "[patch.crates-io]",
        "serde = { path = \"../serde\" }",
    ]);
    assert_eq!(manifest.serialize(), expected);
}

#[test]
fn added_values_are_escaped() {
    let original = text(&["[package]", "name = \"p\"", "version = \"0.1.0\""]);
    let mut manifest = Manifest::parse(&original).unwrap();
    manifest
        .add_patch(
            "/w",
            "/w",
            "crates-io",
            "odd",
            &Mode::Path("di\"r\\sub".to_string()),
        )
        .unwrap();
    let expected = text(&[
        "[package]",
        "name = \"p\"",
        "version = \"0.1.0\"",
        "",
        "[patch.crates-io]",
        "odd = { path = \"di\\\"r\\\\sub\" }",
    ]);
    assert_eq!(manifest.serialize(), expected);
}

#[test]
fn add_to_empty_document() {
    let mut manifest = Manifest::parse("").unwrap();
    manifest
        .add_patch("/w", "/w", "crates-io", "anyhow", &Mode::Path("anyhow".to_string()))
        .unwrap();
    let expected = text(&["[patch.crates-io]", "anyhow = { path = \"anyhow\" }"]);
    assert_eq!(manifest.serialize(), expected);
}

#[test]
fn add_into_section_without_entries() {
    let original = text(&["[patch.crates-io]", "", "[dependencies]", "anyhow = \"1\""]);
    let mut manifest = Manifest::parse(&original).unwrap();
    manifest
        .add_patch("/w", "/w", "crates-io", "anyhow", &Mode::Path("anyhow".to_string()))
        .unwrap();
    let expected = text(&[
        "[patch.crates-io]",
        "anyhow = { path = \"anyhow\" }",
        "",
        "[dependencies]",
        "anyhow = \"1\"",
    ]);
    assert_eq!(manifest.serialize(), expected);
}
