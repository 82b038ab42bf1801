//! The cluster operator's configuration and entry point.

use vstd::prelude::*;

verus! {

/// The namespaces the operator works in.
#[derive(Clone, Debug, PartialEq, Eq)]
pub enum Namespace {
    /// One namespace.
    Single(String),
    /// Every namespace.
    ClusterWide,
}

/// Parse the namespace option: the empty string means cluster wide.
pub fn namespace_mode_parser(value: &str) -> (r: Result<Namespace, String>)
    ensures
        value@.len() == 0 ==> r == Ok::<Namespace, String>(Namespace::ClusterWide),
        value@.len() > 0 ==> r is Ok && (r->Ok_0 matches Namespace::Single(ns) && ns@ == value@),
{
    if value.unicode_len() == 0 {
        Ok(Namespace::ClusterWide)
    } else {
        Ok(Namespace::Single(value.to_owned()))
    }
}

/// The operator's configuration.
#[derive(Clone, Debug)]
pub struct Config {
    /// The namespaces to work in.
    pub namespace: Namespace,
    /// The address the operator's server listens on.
    pub listen_addr: String,
    /// Whether to install or overwrite the schema regardless of what the
    /// platform holds; off means fail closed.
    pub create_crd: bool,
    /// Whether the storage version may be migrated automatically.
    pub auto_migration: bool,
    /// The platform's DNS suffix.
    pub cluster_suffix: String,
    /// The longest gap between accepted heartbeats, in seconds.
    pub heartbeat_period: u64,
    /// How many failed recoveries are attempted per member.
    pub unreachable_thresh: usize,
}

/// The cluster operator: holds its configuration; the runtime drives it.
#[derive(Clone, Debug)]
pub struct Operator {
    /// The operator's configuration.
    pub config: Config,
}

impl Operator {
    /// An operator with the given configuration.
    pub fn new(config: Config) -> (r: Operator)
        ensures
            r.config == config,
    {
        Operator { config }
    }
}

} // verus!
