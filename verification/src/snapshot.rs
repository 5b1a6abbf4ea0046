//! Snapshots of a code graph: making one, reading what it says of itself, and
//! installing one.
pub mod config;
pub mod create;
pub mod install;
pub mod meta;

pub use crate::snapshot::create::create;
pub use crate::snapshot::install::{resolve_snapshot_source, try_install};
pub use crate::snapshot::meta::{inspect, SnapshotMeta};
