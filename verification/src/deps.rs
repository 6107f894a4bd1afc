//! Picking the dependency record an override applies to.
//!
//! Direct dependencies carry a version requirement range that must accept the
//! version of the crate being substituted in (unless forced); transitively
//! resolved dependencies are already pinned, so a name match suffices.  Also
//! normalises a dependency's declared source URL: a git source is recognised
//! by its `git+` scheme prefix and reduced to the plain repository URL.

use vstd::prelude::*;

use crate::text::{find_first, first_occ, lemma_first_occ_is_match, str_eq};

verus! {

/// The crate an override substitutes in: its name and version, read from its
/// own manifest.
#[derive(Debug)]
pub struct Crate {
    pub name: String,
    pub version: String,
}

/// One dependency edge of the project.  `requirement` is the declared semver
/// range, absent for transitively resolved records; `registry` is an index
/// URL, absent for the implicit default registry.
#[derive(Debug)]
pub struct Dependency {
    pub name: String,
    pub requirement: Option<String>,
    pub registry: Option<String>,
}

/// Failure modes of dependency lookup.
#[derive(Debug)]
pub enum LocateError {
    /// A direct dependency of that name exists, but no version requirement on
    /// it accepts the substituted crate's version.
    VersionIncompatible,
    /// No dependency of that name exists at all.
    DependencyNotFound,
}

/// Whether the semver range `req` accepts `version`: what
/// `semver::VersionReq::matches` returns, a function of the two strings
/// alone.  Malformed ranges or versions accept nothing.
pub uninterp spec fn req_accepts(req: Seq<char>, version: Seq<char>) -> bool;

/// Relies on `semver::VersionReq::parse`, `semver::Version::parse` and
/// `semver::VersionReq::matches`: whether the requirement range accepts the
/// version, including the standard pre-release precedence rules.  A string
/// that does not parse accepts (or is accepted by) nothing.
#[verifier::external_body]
fn requirement_accepts(req: &str, version: &str) -> (r: bool)
    ensures
        r == req_accepts(req@, version@),
{
    match (semver::VersionReq::parse(req), semver::Version::parse(version)) {
        (Ok(rq), Ok(v)) => rq.matches(&v),
        _ => false,
    }
}

/// A direct dependency record can be overridden by a crate of version
/// `version` when it declares a requirement that accepts that version, or
/// when the caller forces the override past the version check.
pub open spec fn qualifies(d: Dependency, version: Seq<char>, force: bool) -> bool {
    match d.requirement {
        Some(r) => req_accepts(r@, version) || force,
        None => false,
    }
}

/// Select the direct dependency record to override: the first record named
/// `name` whose requirement accepts `version` (or any requirement, when
/// `force` is set).  `Ok(None)` when no record has that name; an error when
/// records of that name exist but none qualifies.
pub fn locate_direct<'a>(
    name: &str,
    version: &str,
    direct: &'a Vec<Dependency>,
    force: bool,
) -> (r: Result<Option<&'a Dependency>, LocateError>)
    ensures
        match r {
            Ok(Some(d)) => exists|i: int|
                #![auto]
                0 <= i < direct@.len() && direct@[i].name@ == name@ && qualifies(
                    direct@[i],
                    version@,
                    force,
                ) && *d == direct@[i] && (forall|j: int|
                    0 <= j < i ==> !(direct@[j].name@ == name@ && qualifies(
                        direct@[j],
                        version@,
                        force,
                    ))),
            Ok(None) => forall|i: int| 0 <= i < direct@.len() ==> direct@[i].name@ != name@,
            Err(e) => e is VersionIncompatible && (exists|i: int|
                0 <= i < direct@.len() && direct@[i].name@ == name@) && (forall|i: int|
                0 <= i < direct@.len() && direct@[i].name@ == name@ ==> !qualifies(
                    direct@[i],
                    version@,
                    force,
                )),
        },
{
    let mut seen = false;
    let mut i: usize = 0;
    while i < direct.len()
        invariant
            i <= direct@.len(),
            seen == exists|j: int| 0 <= j < i && direct@[j].name@ == name@,
            forall|j: int|
                0 <= j < i ==> !(direct@[j].name@ == name@ && qualifies(
                    direct@[j],
                    version@,
                    force,
                )),
        decreases direct@.len() - i,
    {
        if str_eq(direct[i].name.as_str(), name) {
            seen = true;
            let q = match &direct[i].requirement {
                Some(req) => requirement_accepts(req.as_str(), version) || force,
                None => false,
            };
            if q {
                return Ok(Some(&direct[i]));
            }
        }
        i = i + 1;
    }
    if seen {
        Err(LocateError::VersionIncompatible)
    } else {
        Ok(None)
    }
}

/// Select the resolved dependency record to override: the first record named
/// `name`, with no version check, since resolved records are pinned by the
/// lock state.
pub fn locate_resolved<'a>(name: &str, resolved: &'a Vec<Dependency>) -> (r: Result<
    &'a Dependency,
    LocateError,
>)
    ensures
        match r {
            Ok(d) => exists|i: int|
                #![auto]
                0 <= i < resolved@.len() && resolved@[i].name@ == name@ && *d == resolved@[i] && (
                forall|j: int| 0 <= j < i ==> resolved@[j].name@ != name@),
            Err(e) => e is DependencyNotFound && forall|i: int|
                0 <= i < resolved@.len() ==> resolved@[i].name@ != name@,
        },
{
    let mut i: usize = 0;
    while i < resolved.len()
        invariant
            i <= resolved@.len(),
            forall|j: int| 0 <= j < i ==> resolved@[j].name@ != name@,
        decreases resolved@.len() - i,
    {
        if str_eq(resolved[i].name.as_str(), name) {
            return Ok(&resolved[i]);
        }
        i = i + 1;
    }
    Err(LocateError::DependencyNotFound)
}

/// Two-tier dependency lookup: prefer a direct record of the crate's name,
/// applying the version-compatibility and force rules; only when no direct
/// record has that name, fall back to the resolved set, where a name match
/// suffices.  Absence of the resolved set when it is needed reads as the
/// dependency not being found.
pub fn locate<'a>(
    name: &str,
    version: &str,
    direct: &'a Vec<Dependency>,
    resolved: Option<&'a Vec<Dependency>>,
    force: bool,
) -> (r: Result<&'a Dependency, LocateError>)
    ensures
        match r {
            Ok(d) => ((exists|i: int|
                #![auto]
                0 <= i < direct@.len() && direct@[i].name@ == name@ && qualifies(
                    direct@[i],
                    version@,
                    force,
                ) && *d == direct@[i] && (forall|j: int|
                    0 <= j < i ==> !(direct@[j].name@ == name@ && qualifies(
                        direct@[j],
                        version@,
                        force,
                    )))) || ((forall|i: int| 0 <= i < direct@.len() ==> direct@[i].name@ != name@)
                && (resolved matches Some(rv) && (exists|i: int|
                #![auto]
                0 <= i < rv@.len() && rv@[i].name@ == name@ && *d == rv@[i] && (forall|j: int|
                    0 <= j < i ==> rv@[j].name@ != name@))))),
            Err(e) => match e {
                LocateError::VersionIncompatible => (exists|i: int|
                    0 <= i < direct@.len() && direct@[i].name@ == name@) && (forall|i: int|
                    0 <= i < direct@.len() && direct@[i].name@ == name@ ==> !qualifies(
                        direct@[i],
                        version@,
                        force,
                    )),
                LocateError::DependencyNotFound => (forall|i: int|
                    0 <= i < direct@.len() ==> direct@[i].name@ != name@) && match resolved {
                    Some(rv) => forall|i: int| 0 <= i < rv@.len() ==> rv@[i].name@ != name@,
                    None => true,
                },
            },
        },
{
    match locate_direct(name, version, direct, force) {
        Ok(Some(d)) => Ok(d),
        Ok(None) => match resolved {
            Some(rv) => locate_resolved(name, rv),
            None => Err(LocateError::DependencyNotFound),
        },
        Err(e) => Err(e),
    }
}

/// A parsed source URL names a git source when its scheme is of the form
/// `git+<transport>`.
pub open spec fn is_git_url_spec(s: Seq<char>) -> bool {
    match first_occ(s, ":"@) {
        Some(c) => {
            let sch = s.take(c);
            match first_occ(sch, "+"@) {
                Some(p) => sch.take(p) == "git"@,
                None => false,
            }
        },
        None => false,
    }
}

/// Recognise a git source URL by its `git+` scheme prefix.
pub fn is_git_url(s: &str) -> (r: bool)
    ensures
        r == is_git_url_spec(s@),
{
    proof {
        reveal_strlit(":");
        reveal_strlit("+");
        reveal_strlit("git");
    }
    match find_first(s, ":") {
        Some(c) => {
            let sch = s.substring_char(0, c);
            proof {
                assert(s@.subrange(0, c as int) =~= s@.take(c as int));
            }
            match find_first(sch, "+") {
                Some(p) => {
                    let head = sch.substring_char(0, p);
                    proof {
                        assert(sch@.subrange(0, p as int) =~= sch@.take(p as int));
                    }
                    str_eq(head, "git")
                },
                None => false,
            }
        },
        None => false,
    }
}

/// The plain repository URL inside a `git+` source URL: everything after the
/// first `+`, up to any `?` query selector.
pub open spec fn repo_url_spec(s: Seq<char>) -> Seq<char> {
    match first_occ(s, "+"@) {
        Some(p) => {
            let rest = s.skip(p + 1);
            match first_occ(rest, "?"@) {
                Some(q) => rest.take(q),
                None => rest,
            }
        },
        None => s,
    }
}

/// Strip the `git+` scheme prefix and any query-string selector from a git
/// source URL.
pub fn as_repo_url(s: &str) -> (r: String)
    requires
        is_git_url_spec(s@),
    ensures
        r@ == repo_url_spec(s@),
{
    proof {
        reveal_strlit("+");
        reveal_strlit("?");
    }
    let n = s.unicode_len();
    match find_first(s, "+") {
        Some(p) => {
            let rest = s.substring_char(p + 1, n);
            proof {
                assert(s@.subrange(p + 1 as int, n as int) =~= s@.skip(p + 1 as int));
            }
            match find_first(rest, "?") {
                Some(q) => {
                    let repo = rest.substring_char(0, q);
                    proof {
                        assert(rest@.subrange(0, q as int) =~= rest@.take(q as int));
                    }
                    repo.to_owned()
                },
                None => rest.to_owned(),
            }
        },
        None => {
            // unreachable: a git source URL holds a `+` inside its scheme
            proof {
                lemma_git_url_has_plus(s@);
            }
            s.to_owned()
        },
    }
}

/// A git source URL contains a `+` (inside its scheme), so the split finds one.
proof fn lemma_git_url_has_plus(s: Seq<char>)
    requires
        is_git_url_spec(s),
    ensures
        first_occ(s, "+"@) is Some,
{
    reveal_strlit("+");
    let c = first_occ(s, ":"@).unwrap();
    let sch = s.take(c);
    lemma_first_occ_is_match(s, ":"@);
    lemma_first_occ_is_match(sch, "+"@);
    let p = first_occ(sch, "+"@).unwrap();
    assert(sch.subrange(p, p + 1) == "+"@);
    assert(0 <= c <= s.len());
    assert(sch.subrange(p, p + 1)[0] == sch[p]);
    assert("+"@[0] == '+');
    assert(sch[p] == '+');
    assert(s[p] == '+');
    assert(s.subrange(p, p + 1) =~= "+"@);
    lemma_first_occ_some_of_match(s, "+"@, p);
}

/// Where the pattern occurs somewhere, `first_occ` finds a position.
proof fn lemma_first_occ_some_of_match(s: Seq<char>, pat: Seq<char>, i: int)
    requires
        0 <= i,
        i + pat.len() <= s.len(),
        s.subrange(i, i + pat.len() as int) == pat,
    ensures
        first_occ(s, pat) is Some,
    decreases s.len(),
{
    if s.len() >= pat.len() && s.take(pat.len() as int) == pat {
    } else {
        assert(i > 0) by {
            if i == 0 {
                assert(s.take(pat.len() as int) =~= s.subrange(0, pat.len() as int));
            }
        }
        assert(s.skip(1).subrange(i - 1, i - 1 + pat.len() as int) =~= s.subrange(
            i,
            i + pat.len() as int,
        ));
        lemma_first_occ_some_of_match(s.skip(1), pat, i - 1);
    }
}


/// The registry a dependency record carries, given its declared source URL
/// (already parsed) and declared registry: a git source wins and is reduced
/// to its plain repository URL; otherwise the declared registry stands.
pub fn registry_of_source(source: Option<&str>, registry: Option<&str>) -> (r: Option<String>)
    ensures
        match source {
            Some(u) => if is_git_url_spec(u@) {
                r matches Some(n) && n@ == repo_url_spec(u@)
            } else {
                match (r, registry) {
                    (Some(n), Some(g)) => n@ == g@,
                    (None, None) => true,
                    _ => false,
                }
            },
            None => match (r, registry) {
                (Some(n), Some(g)) => n@ == g@,
                (None, None) => true,
                _ => false,
            },
        },
{
    match source {
        Some(u) => {
            if is_git_url(u) {
                Some(as_repo_url(u))
            } else {
                match registry {
                    Some(g) => Some(g.to_owned()),
                    None => None,
                }
            }
        },
        None => match registry {
            Some(g) => Some(g.to_owned()),
            None => None,
        },
    }
}

} // verus!
