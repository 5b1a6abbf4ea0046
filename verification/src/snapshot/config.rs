//! What `.code-graph.toml` may say.
use vstd::prelude::*;

verus! {

/// The configuration of a project.
pub struct CodeGraphConfig {
    pub snapshot: SnapshotConfig,
}

/// What the configuration says of snapshots.
pub struct SnapshotConfig {
    /// Where the project's snapshot is.
    pub url: Option<String>,
    /// Whether snapshots are not to be used.
    pub disabled: bool,
}

impl Default for SnapshotConfig {
    fn default() -> (r: Self)
        ensures
            r.url is None,
            !r.disabled,
    {
        SnapshotConfig { url: None, disabled: false }
    }
}

impl Default for CodeGraphConfig {
    fn default() -> (r: Self)
        ensures
            r.snapshot.url is None,
            !r.snapshot.disabled,
    {
        CodeGraphConfig { snapshot: SnapshotConfig::default() }
    }
}

} // verus!
