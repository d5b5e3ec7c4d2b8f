//! A point-in-time backup engine: it snapshots a source directory tree into a
//! timestamped zip archive and prunes old archives under a retention policy.
//!
//! The library holds the engine's logic: the path filter, the snapshot plan,
//! archive naming, archive construction, and retention selection. File and
//! thread plumbing around it lives outside the library.

use vstd::prelude::*;

pub mod archive;
pub mod filter;
pub mod namer;
pub mod retention;
pub mod settings;
pub mod snapshot;
pub mod text;

pub use settings::Settings;

verus! {

/// The engine's state while embedded in a host: the resolved backup folder
/// and the settings loaded from persistence, each absent until initialized.
pub struct ConfigBackup {
    pub backup_folder: Option<String>,
    pub settings: Option<Settings>,
}

impl ConfigBackup {
    /// A fresh engine with nothing resolved yet.
    pub fn new() -> (r: ConfigBackup)
        ensures
            r.backup_folder is None,
            r.settings is None,
    {
        ConfigBackup { backup_folder: None, settings: None }
    }
}

/// On unload the engine hands back whatever settings it holds, for the host
/// to persist; it keeps nothing.
pub fn unload(c: ConfigBackup) -> (r: Option<Settings>)
    ensures
        r == c.settings,
{
    c.settings
}

} // verus!
