//! Deciding the symbolic registry name an override is filed under.
//!
//! A dependency may come from the implicit default registry, from the default
//! registry named by its canonical index URL, or from another index URL.  The
//! resolver reconciles the dependency's declared registry, an optional
//! user-supplied hint, and an alias table mapping index URLs to symbolic
//! names (built by the caller from environment variables and configuration).

use vstd::prelude::*;

use crate::text::{find_first, first_occ, str_eq};
use crate::{default_registry, default_registry_index_url, default_registry_name, default_registry_url};

verus! {

/// First name bound to `url` in an alias table of `(index URL, name)` pairs.
pub open spec fn lookup_spec(t: Seq<(String, String)>, url: Seq<char>) -> Option<Seq<char>>
    decreases t.len(),
{
    if t.len() == 0 {
        None
    } else if t[0].0@ == url {
        Some(t[0].1@)
    } else {
        lookup_spec(t.skip(1), url)
    }
}

/// Look `url` up in an alias table; the first matching pair wins.
pub fn lookup_alias(table: &Vec<(String, String)>, url: &str) -> (r: Option<String>)
    ensures
        match r {
            Some(n) => lookup_spec(table@, url@) == Some(n@),
            None => lookup_spec(table@, url@) is None,
        },
{
    proof {
        assert(table@.skip(0) =~= table@);
    }
    let mut i: usize = 0;
    while i < table.len()
        invariant
            i <= table@.len(),
            lookup_spec(table@, url@) == lookup_spec(table@.skip(i as int), url@),
        decreases table@.len() - i,
    {
        proof {
            assert(table@.skip(i as int)[0] == table@[i as int]);
            assert(table@.skip(i as int).skip(1) =~= table@.skip(i as int + 1));
        }
        if str_eq(table[i].0.as_str(), url) {
            let name = table[i].1.clone();
            return Some(name);
        }
        i = i + 1;
    }
    proof {
        assert(table@.skip(table@.len() as int) =~= Seq::<(String, String)>::empty());
    }
    None
}

/// The fixed prefix of environment variables that declare a registry index.
pub open spec fn registries_env_prefix() -> Seq<char> {
    "CARGO_REGISTRIES_"@
}

/// The suffix that closes such a variable's registry name.
pub open spec fn index_env_suffix() -> Seq<char> {
    "_INDEX"@
}

/// Registry name carried by an environment variable key of the form
/// `CARGO_REGISTRIES_{NAME}_INDEX` (everything between the fixed prefix and
/// the first later occurrence of `_INDEX`), if the key has that form.
pub open spec fn registry_key_spec(k: Seq<char>) -> Option<Seq<char>> {
    if k.len() >= registries_env_prefix().len() && k.take(registries_env_prefix().len() as int)
        == registries_env_prefix() {
        let rest = k.skip(registries_env_prefix().len() as int);
        match first_occ(rest, index_env_suffix()) {
            Some(i) => Some(rest.take(i)),
            None => None,
        }
    } else {
        None
    }
}

/// Parse a `CARGO_REGISTRIES_{NAME}_INDEX` environment variable key, giving
/// the raw (not yet normalised) registry name.
pub fn registry_key(input: &str) -> (r: Option<String>)
    ensures
        match r {
            Some(n) => registry_key_spec(input@) == Some(n@),
            None => registry_key_spec(input@) is None,
        },
{
    proof {
        reveal_strlit("CARGO_REGISTRIES_");
        reveal_strlit("_INDEX");
    }
    let prefix = "CARGO_REGISTRIES_";
    let plen = prefix.unicode_len();
    let n = input.unicode_len();
    if n < plen {
        return None;
    }
    let head = input.substring_char(0, plen);
    if !str_eq(head, prefix) {
        return None;
    }
    let rest = input.substring_char(plen, n);
    match find_first(rest, "_INDEX") {
        Some(i) => {
            let name = rest.substring_char(0, i);
            proof {
                assert(rest@.subrange(0, i as int) =~= rest@.take(i as int));
            }
            Some(name.to_owned())
        },
        None => None,
    }
}

/// `s` with every underscore replaced by a dash.
pub open spec fn dashed(s: Seq<char>) -> Seq<char> {
    Seq::new(s.len(), |i: int| if s[i] == '_' { '-' } else { s[i] })
}

/// Replace underscores by dashes, as registry names drawn from environment
/// variable keys are normalised.
pub fn replace_underscores(s: &str) -> (r: String)
    ensures
        r@ == dashed(s@),
{
    let n = s.unicode_len();
    let mut out = String::new();
    let mut i: usize = 0;
    while i < n
        invariant
            n == s@.len(),
            i <= n,
            out@ == dashed(s@).take(i as int),
        decreases n - i,
    {
        let c = s.get_char(i);
        if c == '_' {
            out.append("-");
            proof {
                reveal_strlit("-");
            }
        } else {
            let piece = s.substring_char(i, i + 1);
            out.append(piece);
            proof {
                assert(s@.subrange(i as int, i + 1 as int) =~= seq![s@[i as int]]);
            }
        }
        proof {
            assert(dashed(s@).take(i + 1 as int) =~= dashed(s@).take(i as int) + seq![
                dashed(s@)[i as int],
            ]);
        }
        i = i + 1;
    }
    proof {
        assert(dashed(s@).take(n as int) =~= dashed(s@));
    }
    out
}

/// What `str::to_lowercase` returns: a function of the characters alone.
pub uninterp spec fn lower_of(s: Seq<char>) -> Seq<char>;

/// Relies on `str::to_lowercase`: the Unicode lowercase equivalent of the
/// string, determined by its characters alone.
#[verifier::external_body]
fn to_lowercase(s: &str) -> (r: String)
    ensures
        r@ == lower_of(s@),
{
    s.to_lowercase()
}

/// Normalised symbolic name declared by an environment variable key, if it
/// follows the registry-index naming convention.
pub open spec fn env_alias_spec(k: Seq<char>) -> Option<Seq<char>> {
    match registry_key_spec(k) {
        Some(n) => Some(lower_of(dashed(n))),
        None => None,
    }
}

/// The normalised symbolic name an environment variable key declares, if it
/// follows the `CARGO_REGISTRIES_{NAME}_INDEX` convention: underscores become
/// dashes and the name is lowercased.
pub fn env_alias_name(key: &str) -> (r: Option<String>)
    ensures
        match r {
            Some(n) => env_alias_spec(key@) == Some(n@),
            None => env_alias_spec(key@) is None,
        },
{
    match registry_key(key) {
        Some(name) => {
            let replaced = replace_underscores(name.as_str());
            Some(to_lowercase(replaced.as_str()))
        },
        None => None,
    }
}

/// First environment pair whose key declares a registry whose index equals
/// `url`, yielding that registry's normalised name.
pub open spec fn env_lookup_spec(t: Seq<(String, String)>, url: Seq<char>) -> Option<Seq<char>>
    decreases t.len(),
{
    if t.len() == 0 {
        None
    } else {
        match env_alias_spec(t[0].0@) {
            Some(n) => if t[0].1@ == url {
                Some(n)
            } else {
                env_lookup_spec(t.skip(1), url)
            },
            None => env_lookup_spec(t.skip(1), url),
        }
    }
}

/// Scan environment `(key, value)` pairs for a `CARGO_REGISTRIES_{NAME}_INDEX`
/// entry whose value is `url`; the name is normalised by dashing underscores
/// and lowercasing.
pub fn get_registry_from_env(env: &Vec<(String, String)>, url: &str) -> (r: Option<String>)
    ensures
        match r {
            Some(n) => env_lookup_spec(env@, url@) == Some(n@),
            None => env_lookup_spec(env@, url@) is None,
        },
{
    proof {
        assert(env@.skip(0) =~= env@);
    }
    let mut i: usize = 0;
    while i < env.len()
        invariant
            i <= env@.len(),
            env_lookup_spec(env@, url@) == env_lookup_spec(env@.skip(i as int), url@),
        decreases env@.len() - i,
    {
        proof {
            assert(env@.skip(i as int)[0] == env@[i as int]);
            assert(env@.skip(i as int).skip(1) =~= env@.skip(i as int + 1));
        }
        match registry_key(env[i].0.as_str()) {
            Some(name) => {
                if str_eq(env[i].1.as_str(), url) {
                    let replaced = replace_underscores(name.as_str());
                    let lowered = to_lowercase(replaced.as_str());
                    return Some(lowered);
                }
            },
            None => {},
        }
        i = i + 1;
    }
    proof {
        assert(env@.skip(env@.len() as int) =~= Seq::<(String, String)>::empty());
    }
    None
}

/// Failure modes of registry resolution.
#[derive(Debug)]
pub enum RegistryError {
    /// The user-supplied hint disagrees with the registry the dependency is
    /// known to use.
    Mismatch { hint: String, found: String },
    /// The dependency's index URL is not bound to a name anywhere, and no
    /// hint was supplied.
    Unresolved { url: String },
}

/// A declared registry that is absent or equal to the default registry's
/// canonical index URL means the dependency is on the default registry.
pub open spec fn on_default_registry(depreg: Option<Seq<char>>) -> bool {
    match depreg {
        None => true,
        Some(url) => url == default_registry_index_url(),
    }
}

/// Resolution succeeds in the default-registry case unless an unforced hint
/// names some other registry.
pub open spec fn default_case_ok(hint: Option<Seq<char>>, force: bool) -> bool {
    match hint {
        None => true,
        Some(h) => h == default_registry_name() || force,
    }
}

/// Does resolution succeed?
pub open spec fn resolve_ok(
    hint: Option<Seq<char>>,
    depreg: Option<Seq<char>>,
    t: Seq<(String, String)>,
    force: bool,
) -> bool {
    if on_default_registry(depreg) {
        default_case_ok(hint, force)
    } else {
        match (hint, lookup_spec(t, depreg.unwrap())) {
            (None, Some(_)) => true,
            (Some(h), Some(g)) => h == g || force,
            (Some(_), None) => true,
            (None, None) => false,
        }
    }
}

/// The name resolution succeeds with, when it does: the default registry's
/// name in the default case; the alias-table name when it agrees with the
/// hint or no hint is given; the hint when it is the only source or when a
/// forced hint overrides the inferred name.
pub open spec fn resolve_name(
    hint: Option<Seq<char>>,
    depreg: Option<Seq<char>>,
    t: Seq<(String, String)>,
) -> Seq<char> {
    if on_default_registry(depreg) {
        default_registry_name()
    } else {
        match (hint, lookup_spec(t, depreg.unwrap())) {
            (None, Some(g)) => g,
            (Some(h), Some(g)) => if h == g {
                g
            } else {
                h
            },
            (Some(h), None) => h,
            (None, None) => Seq::empty(),
        }
    }
}

/// View of an optional string argument.
pub open spec fn opt_view(o: Option<&str>) -> Option<Seq<char>> {
    match o {
        Some(s) => Some(s@),
        None => None,
    }
}

/// Decide the symbolic registry name an override belongs under.
///
/// `depreg` is the dependency's declared registry (an index URL), absent for
/// the implicit default registry; `hint` is the user's explicit choice;
/// `table` maps index URLs to symbolic names.  A forced hint wins over a
/// conflicting inferred name; an unforced conflict is an error, as is an
/// unknown URL with no hint.
pub fn resolve(
    hint: Option<&str>,
    depreg: Option<&str>,
    table: &Vec<(String, String)>,
    force: bool,
) -> (r: Result<String, RegistryError>)
    ensures
        match r {
            Ok(n) => resolve_ok(opt_view(hint), opt_view(depreg), table@, force) && n@
                == resolve_name(opt_view(hint), opt_view(depreg), table@),
            Err(e) => !resolve_ok(opt_view(hint), opt_view(depreg), table@, force) && match e {
                RegistryError::Mismatch { hint: h, found: f } => opt_view(hint) == Some(h@) && (
                if on_default_registry(opt_view(depreg)) {
                    f@ == default_registry_name()
                } else {
                    lookup_spec(table@, opt_view(depreg).unwrap()) == Some(f@)
                }),
                RegistryError::Unresolved { url } => !on_default_registry(opt_view(depreg))
                    && opt_view(depreg) == Some(url@) && hint is None && lookup_spec(
                    table@,
                    url@,
                ) is None,
            },
        },
{
    let is_default = match depreg {
        None => true,
        Some(url) => str_eq(url, default_registry_url()),
    };
    if is_default {
        match hint {
            None => Ok(default_registry().to_owned()),
            Some(h) => {
                if str_eq(h, default_registry()) || force {
                    Ok(default_registry().to_owned())
                } else {
                    Err(
                        RegistryError::Mismatch {
                            hint: h.to_owned(),
                            found: default_registry().to_owned(),
                        },
                    )
                }
            },
        }
    } else {
        let url = match depreg {
            Some(u) => u,
            None => "",  // unreachable: is_default covers None
        };
        let guess = lookup_alias(table, url);
        match (hint, guess) {
            (None, Some(g)) => Ok(g),
            (Some(h), Some(g)) => {
                if str_eq(h, g.as_str()) {
                    Ok(g)
                } else if force {
                    Ok(h.to_owned())
                } else {
                    Err(RegistryError::Mismatch { hint: h.to_owned(), found: g })
                }
            },
            (Some(h), None) => Ok(h.to_owned()),
            (None, None) => Err(RegistryError::Unresolved { url: url.to_owned() }),
        }
    }
}

/// Law: a dependency on the implicit default registry, with no hint, always
/// resolves to the default registry's name, whatever the alias table and the
/// force flag.
pub proof fn lemma_resolve_default(t: Seq<(String, String)>, force: bool)
    ensures
        resolve_ok(None, None, t, force),
        resolve_name(None, None, t) == default_registry_name(),
{
}

/// Law: an alias bound to a non-default index URL in the table resolves, with
/// no hint, to that alias, whatever the force flag.
pub proof fn lemma_resolve_alias(
    t: Seq<(String, String)>,
    url: Seq<char>,
    name: Seq<char>,
    force: bool,
)
    requires
        lookup_spec(t, url) == Some(name),
        url != default_registry_index_url(),
    ensures
        resolve_ok(None, Some(url), t, force),
        resolve_name(None, Some(url), t) == name,
{
}

} // verus!
