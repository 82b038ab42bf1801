//! Control-plane library for operating a distributed key-value store on a
//! container platform: schema version algebra, snapshot naming, admission
//! validation, desired-state materialization, heartbeat supervision and the
//! sidecar reconcile state machine.

/// The sidecar's early flat configuration shape.
pub mod config;
/// The cluster custom resource and its admission validation.
pub mod crd;
/// The deployment operator's configuration and entry point.
pub mod deploy;
/// The volume health decision.
pub mod health;
/// Heartbeat records reported by sidecars.
pub mod heartbeat;
/// Desired-state materialization of platform objects.
pub mod manager;
/// Schema version labels and migration decisions.
pub mod migration;
/// The fleet supervisor that watches heartbeats and remediates members.
pub mod monitor;
/// The cluster operator's configuration and entry point.
pub mod operator;
/// Parsers for structured command-line values.
pub mod parse;
/// The sidecar reconcile state machine and member-handle decisions.
pub mod reconcile;
/// Membership rendezvous for sidecars.
pub mod registry;
/// The sidecar's entry points.
pub mod sidecar;
/// Snapshot metadata and canonical snapshot file names.
pub mod snapshot;
/// Verified text utilities shared by the other modules.
pub mod text;
/// Sidecar configuration and state types.
pub mod types;
