//! Turning an override mode into the inline-table record written into the
//! manifest: `{ path = "…" }` for a local directory, `{ git = "…" }` plus at
//! most one of `branch`, `tag` or `rev` for a git source.  A local path is
//! relativised from the manifest's directory when that differs from the
//! working directory.

use vstd::prelude::*;

use crate::paths::{
    build_abs, diff_paths_str, is_abs_path, lemma_parts_clean, lemma_parts_render, no_updirs,
    parts, path_eq, rel_parts, segs_ok, split_parts, str_views,
};

verus! {

/// A git revision selector: a branch, tag or commit, or the repository's
/// default branch when none is given.
#[derive(Debug)]
pub enum GitReference {
    DefaultBranch,
    Branch(String),
    Tag(String),
    Rev(String),
}

/// What the override substitutes for the dependency: a local directory or a
/// git source.
#[derive(Debug)]
pub enum Mode {
    Path(String),
    Git { url: String, reference: GitReference },
}

/// The raw git selector flags, of which at most one may be set.
#[derive(Debug)]
pub struct Git {
    pub branch: Option<String>,
    pub tag: Option<String>,
    pub rev: Option<String>,
}

/// Failure modes of assembling an override mode from raw flags.
#[derive(Debug)]
pub enum ModeError {
    /// More than one of `branch`, `tag` and `rev` was supplied.
    MultipleGitIdentifiers,
    /// Both a path source and a git source were supplied.
    BothPathAndGit,
    /// No source was supplied at all.
    NoSource,
}

/// Pick the git reference the selector flags describe: absence of all three
/// means the default branch; more than one is an error.
pub fn select_reference(flags: Git) -> (r: Result<GitReference, ModeError>)
    ensures
        match r {
            Ok(rf) => match (flags.branch, flags.tag, flags.rev) {
                (None, None, None) => rf is DefaultBranch,
                (Some(b), None, None) => rf matches GitReference::Branch(x) && x == b,
                (None, Some(t), None) => rf matches GitReference::Tag(x) && x == t,
                (None, None, Some(v)) => rf matches GitReference::Rev(x) && x == v,
                _ => false,
            },
            Err(e) => e is MultipleGitIdentifiers && !(match (flags.branch, flags.tag, flags.rev) {
                (None, None, None) => true,
                (Some(_), None, None) => true,
                (None, Some(_), None) => true,
                (None, None, Some(_)) => true,
                _ => false,
            }),
        },
{
    match (flags.branch, flags.tag, flags.rev) {
        (None, None, None) => Ok(GitReference::DefaultBranch),
        (Some(b), None, None) => Ok(GitReference::Branch(b)),
        (None, Some(t), None) => Ok(GitReference::Tag(t)),
        (None, None, Some(v)) => Ok(GitReference::Rev(v)),
        _ => Err(ModeError::MultipleGitIdentifiers),
    }
}

/// Assemble the override mode from the raw source flags: exactly one of a
/// path or a git URL must be given, and git selector flags only beside a git
/// URL.
pub fn select_mode(path: Option<String>, git_url: Option<String>, flags: Git) -> (r: Result<
    Mode,
    ModeError,
>)
    ensures
        match r {
            Ok(m) => match (path, git_url) {
                (Some(p), None) => m matches Mode::Path(q) && q == p,
                (None, Some(u)) => m matches Mode::Git { url, reference } && url == u && (match (
                    flags.branch,
                    flags.tag,
                    flags.rev,
                ) {
                    (None, None, None) => reference is DefaultBranch,
                    (Some(b), None, None) => reference matches GitReference::Branch(x) && x == b,
                    (None, Some(t), None) => reference matches GitReference::Tag(x) && x == t,
                    (None, None, Some(v)) => reference matches GitReference::Rev(x) && x == v,
                    _ => false,
                }),
                _ => false,
            },
            Err(e) => match (path, git_url) {
                (Some(_), Some(_)) => e is BothPathAndGit,
                (None, None) => e is NoSource,
                (Some(_), None) => false,
                (None, Some(_)) => e is MultipleGitIdentifiers && !(match (
                    flags.branch,
                    flags.tag,
                    flags.rev,
                ) {
                    (None, None, None) => true,
                    (Some(_), None, None) => true,
                    (None, Some(_), None) => true,
                    (None, None, Some(_)) => true,
                    _ => false,
                }),
            },
        },
{
    match (git_url, path) {
        (Some(url), None) => match select_reference(flags) {
            Ok(reference) => Ok(Mode::Git { url, reference }),
            Err(e) => Err(e),
        },
        (None, Some(p)) => Ok(Mode::Path(p)),
        (Some(_), Some(_)) => Err(ModeError::BothPathAndGit),
        (None, None) => Err(ModeError::NoSource),
    }
}

/// One `key = "value"` pair of an inline table.
#[derive(Debug)]
pub struct InlineField {
    pub name: String,
    pub value: String,
}

/// The inline table written as an override entry's value.
#[derive(Debug)]
pub struct InlineRecord {
    pub fields: Vec<InlineField>,
}

/// Components of the absolute form of `wd/p`: `p`'s own when `p` is
/// absolute, else the working directory's followed by `p`'s.
pub open spec fn joined_parts(wd: Seq<char>, p: Seq<char>) -> Seq<Seq<char>> {
    if is_abs_path(p) {
        parts(p)
    } else {
        parts(wd) + parts(p)
    }
}

/// The inline fields a mode encodes to, between the given directories: a
/// single `path` field (relativised when the directories differ), or a `git`
/// field followed by at most one reference selector.
pub open spec fn encoded_ok(
    mode: Mode,
    manifest_dir: Seq<char>,
    working_dir: Seq<char>,
    fields: Seq<InlineField>,
) -> bool {
    match mode {
        Mode::Path(p) => fields.len() == 1 && fields[0].name@ == "path"@ && (if parts(manifest_dir)
            == parts(working_dir) {
            fields[0].value@ == p@
        } else {
            parts(fields[0].value@) == rel_parts(
                joined_parts(working_dir, p@),
                parts(manifest_dir),
            )
        }),
        Mode::Git { url, reference } => fields.len() >= 1 && fields[0].name@ == "git"@
            && fields[0].value@ == url@ && (match reference {
            GitReference::DefaultBranch => fields.len() == 1,
            GitReference::Branch(b) => fields.len() == 2 && fields[1].name@ == "branch"@
                && fields[1].value@ == b@,
            GitReference::Tag(t) => fields.len() == 2 && fields[1].name@ == "tag"@
                && fields[1].value@ == t@,
            GitReference::Rev(v) => fields.len() == 2 && fields[1].name@ == "rev"@
                && fields[1].value@ == v@,
        }),
    }
}

/// Encode an override mode as its inline record.
///
/// For a path override the directories must be absolute (canonicalised by the
/// caller when possible); when they differ, the path is rewritten relative to
/// the manifest's directory, which must then be free of `..` components.
pub fn encode_source(mode: &Mode, manifest_dir: &str, working_dir: &str) -> (r: InlineRecord)
    requires
        mode matches Mode::Path(_) ==> is_abs_path(manifest_dir@) && is_abs_path(working_dir@),
        (mode matches Mode::Path(_) && parts(manifest_dir@) != parts(working_dir@))
            ==> no_updirs(parts(manifest_dir@)),
    ensures
        encoded_ok(*mode, manifest_dir@, working_dir@, r.fields@),
{
    match mode {
        Mode::Path(p) => {
            let value: String = if path_eq(manifest_dir, working_dir) {
                p.clone()
            } else {
                let target: Vec<String> = if p.as_str().unicode_len() > 0 && p.as_str().get_char(0)
                    == '/' {
                    split_parts(p.as_str())
                } else {
                    let mut v = split_parts(working_dir);
                    let mut tail = split_parts(p.as_str());
                    v.append(&mut tail);
                    proof {
                        assert(str_views(v@) =~= parts(working_dir@) + parts(p@));
                    }
                    v
                };
                let target_str = build_abs(&target);
                proof {
                    lemma_parts_clean(p@);
                    lemma_parts_clean(working_dir@);
                    assert(segs_ok(str_views(target@))) by {
                        assert(str_views(target@) == joined_parts(working_dir@, p@));
                        if !is_abs_path(p@) {
                            assert(forall|i: int|
                                0 <= i < str_views(target@).len() ==> crate::paths::seg_ok(
                                    str_views(target@)[i],
                                )) by {
                                assert forall|i: int|
                                    0 <= i < str_views(target@).len() implies crate::paths::seg_ok(
                                    str_views(target@)[i],
                                ) by {
                                    let w = parts(working_dir@);
                                    let q = parts(p@);
                                    if i < w.len() {
                                        assert(str_views(target@)[i] == w[i]);
                                    } else {
                                        assert(str_views(target@)[i] == q[i - w.len()]);
                                    }
                                }
                            }
                        }
                    }
                    lemma_parts_render(str_views(target@));
                }
                match diff_paths_str(target_str.as_str(), manifest_dir) {
                    Some(d) => d,
                    None => vstd::pervasive::unreached(),
                }
            };
            let mut fields: Vec<InlineField> = Vec::new();
            fields.push(InlineField { name: "path".to_owned(), value });
            InlineRecord { fields }
        },
        Mode::Git { url, reference } => {
            let mut fields: Vec<InlineField> = Vec::new();
            fields.push(InlineField { name: "git".to_owned(), value: url.clone() });
            match reference {
                GitReference::DefaultBranch => {},
                GitReference::Branch(b) => {
                    fields.push(InlineField { name: "branch".to_owned(), value: b.clone() });
                },
                GitReference::Tag(t) => {
                    fields.push(InlineField { name: "tag".to_owned(), value: t.clone() });
                },
                GitReference::Rev(v) => {
                    fields.push(InlineField { name: "rev".to_owned(), value: v.clone() });
                },
            }
            InlineRecord { fields }
        },
    }
}

} // verus!
