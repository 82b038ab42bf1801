//! The deployment operator's configuration and entry point: the variant of
//! the control plane that manages bare numeric schema versions.

use vstd::prelude::*;

verus! {

/// The deployment operator's configuration.
#[derive(Clone, Debug)]
pub struct Config {
    /// The address the server listens on.
    pub listen_addr: String,
    /// The namespace deployed to.
    pub namespace: String,
    /// Whether to work across all namespaces instead.
    pub cluster_wide: bool,
    /// Whether to install or overwrite the schema regardless of what the
    /// platform holds; off means fail closed.
    pub create_crd: bool,
    /// The platform's DNS suffix.
    pub cluster_suffix: String,
}

/// The deployment operator: holds its configuration; the runtime drives it.
#[derive(Clone, Debug)]
pub struct Operator {
    /// The operator's configuration.
    pub config: Config,
}

impl Operator {
    /// An operator with the given configuration.
    pub fn new(config: Config) -> (r: Operator)
        ensures
            r.config == config,
    {
        Operator { config }
    }
}

} // verus!
