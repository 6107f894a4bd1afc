//! Dependency override engine: decides under which registry scope an override
//! entry belongs, locates the dependency record being overridden, encodes the
//! replacement source, and performs a format-preserving structural edit of a
//! manifest document.

pub mod deps;
pub mod manifest;
pub mod encode;
pub mod patch;
pub mod paths;
pub mod registry;
pub mod text;

use vstd::prelude::*;

verus! {

/// Symbolic name of the default registry.
pub open spec fn default_registry_name() -> Seq<char> {
    "crates-io"@
}

/// Canonical index URL of the default registry.
pub open spec fn default_registry_index_url() -> Seq<char> {
    "https://github.com/rust-lang/crates.io-index"@
}

/// The default registry's symbolic name, as overrides file it.
pub fn default_registry() -> (r: &'static str)
    ensures
        r@ == default_registry_name(),
{
    "crates-io"
}

/// The canonical index URL under which the default registry is sometimes declared.
pub fn default_registry_url() -> (r: &'static str)
    ensures
        r@ == default_registry_index_url(),
{
    "https://github.com/rust-lang/crates.io-index"
}

/// How the dependency-graph collaborator is invoked: whether the lock state
/// must stay unchanged and whether the network may be used.
#[derive(Clone, Copy)]
pub struct Cargo {
    pub locked: bool,
    pub offline: bool,
}

impl Cargo {
    /// `frozen` implies both `locked` and `offline`.
    pub fn new(locked: bool, offline: bool, frozen: bool) -> (r: Self)
        ensures
            r.locked == (locked || frozen),
            r.offline == (offline || frozen),
    {
        Cargo { locked: locked || frozen, offline: offline || frozen }
    }
}

} // verus!
