//! The sidecar's early configuration shape: a flat member table, a check
//! interval and the backup storage.

use vstd::prelude::*;

verus! {

/// Where snapshots are stored.
#[derive(Clone, Debug)]
pub enum Backup {
    /// An object-store location with its access credential name.
    S3 {
        /// The object-store path.
        path: String,
        /// The credential secret's name.
        secret: String,
    },
    /// A mounted persistent volume.
    PV {
        /// The mounted path.
        path: String,
    },
}

/// The sidecar's configuration.
#[derive(Clone, Debug)]
pub struct Config {
    /// The name of this member.
    pub name: String,
    /// The member table: name and address of every member.
    pub members: Vec<(String, String)>,
    /// Seconds between cluster health checks.
    pub check_interval_secs: u64,
    /// Where snapshots are stored, when backups are wanted.
    pub backup: Option<Backup>,
}

impl Config {
    /// A configuration from its parts.
    pub fn new(
        name: String,
        members: Vec<(String, String)>,
        check_interval_secs: u64,
        backup: Option<Backup>,
    ) -> (r: Config)
        ensures
            r.name == name,
            r.members == members,
            r.check_interval_secs == check_interval_secs,
            r.backup == backup,
    {
        Config { name, members, check_interval_secs, backup }
    }
}

} // verus!
