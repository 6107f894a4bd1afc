use cargo_override::encode::{
    encode_source, select_mode, Git, GitReference, Mode, ModeError,
};

fn no_git_flags() -> Git {
    Git { branch: None, tag: None, rev: None }
}

#[test]
fn encode_path_same_directory_unchanged() {
    let mode = Mode::Path("../path/to/pathdiff".to_string());
    let rec = encode_source(&mode, "/path/to/working/dir/", "/path/to/working/dir");
    assert_eq!(rec.fields.len(), 1);
    assert_eq!(rec.fields[0].name, "path");
    assert_eq!(rec.fields[0].value, "../path/to/pathdiff");
}

#[test]
fn encode_path_relativised_between_directories() {
    // manifest lives in /work/subdir, the override folder is /work/anyhow
    let mode = Mode::Path("anyhow".to_string());
    let rec = encode_source(&mode, "/work/subdir", "/work");
    assert_eq!(rec.fields[0].name, "path");
    assert_eq!(rec.fields[0].value, "../anyhow");
}

#[test]
fn encode_absolute_path_stays_under_same_root() {
    let mode = Mode::Path("/elsewhere/crate".to_string());
    let rec = encode_source(&mode, "/work/subdir", "/work");
    assert_eq!(rec.fields[0].value, "../../elsewhere/crate");
}

#[test]
fn encode_path_round_trip() {
    // rejoining the encoded relative path to the manifest directory leads
    // back to the absolute form of working_dir/p
    let manifest_dir = "/work/project/member";
    let working_dir = "/work/checkouts";
    let p = "fork/crate";
    let mode = Mode::Path(p.to_string());
    let rec = encode_source(&mode, manifest_dir, working_dir);
    assert_eq!(rec.fields[0].value, "../../checkouts/fork/crate");

    let mut resolved: Vec<&str> = Vec::new();
    for seg in manifest_dir.split('/').chain(rec.fields[0].value.split('/')) {
        match seg {
            "" | "." => {}
            ".." => {
                resolved.pop();
            }
            s => resolved.push(s),
        }
    }
    let rejoined = format!("/{}", resolved.join("/"));
    assert_eq!(rejoined, "/work/checkouts/fork/crate");
}

#[test]
fn encode_git_reference_fields() {
    let url = "https://github.com/eopb/redact".to_string();
    let rec = encode_source(
        &Mode::Git { url: url.clone(), reference: GitReference::DefaultBranch },
        "/w",
        "/w",
    );
    assert_eq!(rec.fields.len(), 1);
    assert_eq!(rec.fields[0].name, "git");
    assert_eq!(rec.fields[0].value, url);

    let rec = encode_source(
        &Mode::Git { url: url.clone(), reference: GitReference::Tag("v0.1.10".to_string()) },
        "/w",
        "/w",
    );
    assert_eq!(rec.fields.len(), 2);
    assert_eq!(rec.fields[1].name, "tag");
    assert_eq!(rec.fields[1].value, "v0.1.10");
}

#[test]
fn select_mode_path() {
    let m = select_mode(Some("../x".to_string()), None, no_git_flags()).unwrap();
    assert!(matches!(m, Mode::Path(p) if p == "../x"));
}

#[test]
fn select_mode_git_with_branch() {
    let flags = Git { branch: Some("main".to_string()), tag: None, rev: None };
    let m = select_mode(None, Some("https://e.com/r".to_string()), flags).unwrap();
    match m {
        Mode::Git { url, reference } => {
            assert_eq!(url, "https://e.com/r");
            assert!(matches!(reference, GitReference::Branch(b) if b == "main"));
        }
        _ => panic!("expected a git mode"),
    }
}

#[test]
fn select_mode_multiple_git_identifiers() {
    let flags = Git {
        branch: Some("main".to_string()),
        tag: Some("v1".to_string()),
        rev: None,
    };
    let err = select_mode(None, Some("https://e.com/r".to_string()), flags).unwrap_err();
    assert!(matches!(err, ModeError::MultipleGitIdentifiers));
}

#[test]
fn select_mode_requires_exactly_one_source() {
    let err = select_mode(None, None, no_git_flags()).unwrap_err();
    assert!(matches!(err, ModeError::NoSource));
    let err = select_mode(
        Some("../x".to_string()),
        Some("https://e.com/r".to_string()),
        no_git_flags(),
    )
    .unwrap_err();
    assert!(matches!(err, ModeError::BothPathAndGit));
}
