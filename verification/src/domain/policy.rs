use vstd::prelude::*;

verus! {

/// Filesystem access policy for constraining tool/agent operations.
#[derive(Debug, Clone)]
pub struct FilesystemPolicy {
    /// Allowed root directories. Empty means deny all.
    pub allowed_roots: Vec<String>,
    /// If true, no write operations allowed.
    pub read_only: bool,
    /// If true, existing files can be overwritten.
    pub allow_overwrite: bool,
    /// If true, create backup files before writing.
    pub create_backups: bool,
}

/// The default policy: the working directory as the only root, writes
/// and overwrites allowed, no backups.
pub open spec fn is_default_policy(p: FilesystemPolicy) -> bool {
    &&& p.allowed_roots@.len() == 1
    &&& p.allowed_roots@[0]@ == "."@
    &&& !p.read_only
    &&& p.allow_overwrite
    &&& !p.create_backups
}

impl Default for FilesystemPolicy {
    /// The working directory as the only root, writes and overwrites allowed,
    /// no backups.
    fn default() -> (r: Self)
        ensures
            is_default_policy(r),
    {
        let mut roots: Vec<String> = Vec::new();
        roots.push(String::from_str("."));
        FilesystemPolicy { allowed_roots: roots, read_only: false, allow_overwrite: true, create_backups: false }
    }
}

} // verus!
