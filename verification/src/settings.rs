use vstd::prelude::*;

verus! {

/// User-facing configuration, an immutable snapshot per operation: the
/// engine re-reads it for each run rather than caching it.
/// `backups_to_keep` counts the most recent archives the pruner leaves
/// alone; zero means "delete all on prune".
pub struct Settings {
    pub target_folder: String,
    pub backup_on_launch: bool,
    pub delete_old_on_launch: bool,
    pub backups_to_keep: i32,
}

/// The default destination folder: the `nexus-configs` subfolder of the
/// platform's documents folder, or a bare relative `nexus-configs` when no
/// documents folder is known.
pub open spec fn default_target_spec(documents: Option<Seq<char>>) -> Seq<char> {
    match documents {
        Some(d) => d + "/nexus-configs"@,
        None => "nexus-configs"@,
    }
}

/// Relies on `dirs_next::document_dir`: the platform's documents folder,
/// when the platform reports one with a representable path. The answer
/// depends on the environment, so nothing more is promised of it.
#[verifier::external_body]
fn documents_dir() -> (r: Option<String>) {
    dirs_next::document_dir().and_then(|p| p.to_str().map(|s| s.to_string()))
}

/// Join the documents folder, when known, with the engine's folder name.
pub fn default_target_folder(documents: Option<String>) -> (r: String)
    ensures
        r@ == default_target_spec(documents.deep_view()),
{
    match documents {
        Some(d) => d.concat("/nexus-configs"),
        None => String::from_str("nexus-configs"),
    }
}

impl Settings {
    /// The defaults used when no settings file exists yet: no automatic
    /// work on launch, five archives kept, the destination under the
    /// platform's documents folder.
    pub fn default() -> (r: Settings)
        ensures
            r.backup_on_launch == false,
            r.delete_old_on_launch == false,
            r.backups_to_keep == 5,
            exists|d: Option<Seq<char>>| r.target_folder@ == default_target_spec(d),
    {
        let d = documents_dir();
        let ghost dv = d.deep_view();
        let target = default_target_folder(d);
        assert(target@ == default_target_spec(dv));
        Settings {
            target_folder: target,
            backup_on_launch: false,
            delete_old_on_launch: false,
            backups_to_keep: 5,
        }
    }
}

impl Clone for Settings {
    fn clone(&self) -> (r: Settings)
        ensures
            r.target_folder@ == self.target_folder@,
            r.backup_on_launch == self.backup_on_launch,
            r.delete_old_on_launch == self.delete_old_on_launch,
            r.backups_to_keep == self.backups_to_keep,
    {
        Settings {
            target_folder: self.target_folder.clone(),
            backup_on_launch: self.backup_on_launch,
            delete_old_on_launch: self.delete_old_on_launch,
            backups_to_keep: self.backups_to_keep,
        }
    }
}

} // verus!
