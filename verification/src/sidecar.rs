//! The sidecar's entry points: the agent that runs beside every member.

use vstd::prelude::*;

verus! {

/// The sidecar: holds its configuration; the runtime drives its loops.
#[derive(Clone, Debug)]
pub struct Sidecar {
    /// The sidecar's configuration.
    pub config: crate::types::Config,
}

impl Sidecar {
    /// A sidecar with the given configuration.
    pub fn new(config: crate::types::Config) -> (r: Sidecar)
        ensures
            r.config == config,
    {
        Sidecar { config }
    }
}

/// The early sidecar entry point over the flat configuration shape.
#[derive(Clone, Debug)]
pub struct Operator {
    /// The sidecar's configuration.
    pub config: crate::config::Config,
}

impl Operator {
    /// A sidecar with the given configuration.
    pub fn new(config: crate::config::Config) -> (r: Operator)
        ensures
            r.config == config,
    {
        Operator { config }
    }
}

} // verus!
