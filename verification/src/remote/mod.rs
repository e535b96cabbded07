//! The remote side: what every store offers, and the stores.
use vstd::prelude::*;

use crate::events::{RemoteChange, RemoteFileMeta};
use crate::failure::Failure;
use crate::path::LocalPath;
use crate::virtual_path::{normalize, normalized};

pub mod fs_laws;
pub mod fs_remote;
pub mod google_drive;

pub use fs_remote::FsRemoteStore;
pub use google_drive::folders::GoogleDriveRemoteStore;

verus! {

/// A store that files are synced into.
pub trait RemoteStore: Send + Sync {
    /// Makes the folder that everything is kept in.
    fn ensure_sandbox(&self) -> Result<(), Failure>;

    /// Stores a local file under the given remote path.
    fn upload_or_update(&self, virtual_path: &str, local_path: &LocalPath) -> Result<
        RemoteFileMeta,
        Failure,
    >;

    /// Fetches a remote file to the given local path.
    fn download_to_local(&self, virtual_path: &str, local_path: &LocalPath) -> Result<
        RemoteFileMeta,
        Failure,
    >;

    /// Moves a remote file.
    fn rename(&self, from_virtual_path: &str, to_virtual_path: &str) -> Result<
        RemoteFileMeta,
        Failure,
    >;

    /// Moves a remote file to the remote trash.
    fn trash(&self, virtual_path: &str) -> Result<(), Failure>;

    /// What changed since the last poll.
    fn poll_changes(&self) -> Result<Vec<RemoteChange>, Failure>;

    /// What is known of a remote file, if there is one.
    fn get_metadata(&self, virtual_path: &str) -> Result<Option<RemoteFileMeta>, Failure>;
}

/// Brings a remote path into the form it is kept in.
pub fn normalize_virtual_path(raw: &str) -> (s: String)
    ensures
        s@ == normalized(raw@),
{
    normalize(raw)
}

} // verus!
