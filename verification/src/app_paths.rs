//! Where the program keeps its files.
use vstd::prelude::*;
use vstd::utf8::encode_utf8;

use crate::meta::APP_FOLDER_NAME;
use crate::path::{pushed, LocalPath};
use crate::text::{from_chars, to_chars, trim, trimmed, CharClass};

verus! {

/// The files and folders that the program uses.
#[derive(Debug, Clone, PartialEq, Eq)]
pub struct AppPaths {
    pub config_dir: LocalPath,
    pub data_dir: LocalPath,
    pub config_file: LocalPath,
    pub db_file: LocalPath,
    pub credentials_file: LocalPath,
    pub token_cache_file: LocalPath,
    pub remote_trash_dir: LocalPath,
}

/// Why the paths could not be told.
#[derive(Debug, Clone, Copy, PartialEq, Eq, Structural)]
pub enum AppPathsError {
    /// The user's home directory is not known.
    NoHomeDirectory,
}

impl AppPathsError {
    /// The error in words.
    pub fn message(&self) -> (s: String)
        ensures
            s@ == "could not determine home directory"@,
    {
        "could not determine home directory".to_owned()
    }
}

/// What stands at `name` below `dir`.
pub open spec fn below(dir: Seq<u8>, name: &str) -> Seq<u8> {
    pushed(dir, encode_utf8(name@))
}

/// A root folder: the one that the system names, or `fallback` below the home
/// directory.
pub open spec fn root_dir(
    named: Option<LocalPath>,
    home: LocalPath,
    fallback: &str,
) -> Seq<u8> {
    match named {
        Some(dir) => dir@,
        None => below(home@, fallback),
    }
}

/// The folder that stands for a remote target folder.
pub open spec fn sandbox_dir(data_dir: Seq<u8>, remote_target_folder: Seq<char>) -> Seq<u8> {
    pushed(
        below(data_dir, "remote_sandbox"),
        encode_utf8(trimmed(remote_target_folder, CharClass::One('/'))),
    )
}

impl AppPaths {
    /// The paths for the given home, configuration and local data folders.
    /// Without a home directory there are none; a missing configuration or
    /// data folder is replaced by the usual one below the home directory.
    pub fn discover(
        home_dir: Option<LocalPath>,
        config_dir: Option<LocalPath>,
        data_local_dir: Option<LocalPath>,
    ) -> (r: Result<Self, AppPathsError>)
        ensures
            home_dir is None <==> r is Err,
            r is Err ==> r->Err_0 == AppPathsError::NoHomeDirectory,
            r is Ok ==> {
                let paths = r->Ok_0;
                let config = below(
                    root_dir(config_dir, home_dir->0, ".config"),
                    APP_FOLDER_NAME,
                );
                let data = below(
                    root_dir(data_local_dir, home_dir->0, ".local/share"),
                    APP_FOLDER_NAME,
                );
                &&& paths.config_dir@ == config
                &&& paths.data_dir@ == data
                &&& paths.config_file@ == below(config, "config.toml")
                &&& paths.db_file@ == below(config, "state.db")
                &&& paths.credentials_file@ == below(config, "credentials.json")
                &&& paths.token_cache_file@ == below(config, "token_cache.json")
                &&& paths.remote_trash_dir@ == below(data, "remote_trash")
            },
    {
        let home = match home_dir {
            Some(home) => home,
            None => {
                return Err(AppPathsError::NoHomeDirectory);
            },
        };
        let config_root = match config_dir {
            Some(dir) => dir,
            None => home.join_text(".config"),
        };
        let data_root = match data_local_dir {
            Some(dir) => dir,
            None => home.join_text(".local/share"),
        };
        let config_dir = config_root.join_text(APP_FOLDER_NAME);
        let data_dir = data_root.join_text(APP_FOLDER_NAME);
        Ok(
            AppPaths {
                config_file: config_dir.join_text("config.toml"),
                db_file: config_dir.join_text("state.db"),
                credentials_file: config_dir.join_text("credentials.json"),
                token_cache_file: config_dir.join_text("token_cache.json"),
                remote_trash_dir: data_dir.join_text("remote_trash"),
                config_dir,
                data_dir,
            },
        )
    }

    /// The folders that must be there before anything else, in the order in
    /// which they are made.
    pub fn ensure_directories(&self) -> (r: Vec<LocalPath>)
        ensures
            r@.len() == 3,
            r@[0]@ == self.config_dir@,
            r@[1]@ == self.data_dir@,
            r@[2]@ == self.remote_trash_dir@,
    {
        let mut r: Vec<LocalPath> = Vec::new();
        r.push(self.config_dir.clone());
        r.push(self.data_dir.clone());
        r.push(self.remote_trash_dir.clone());
        r
    }

    /// The folder that stands for the remote target folder of this name.
    pub fn remote_sandbox_dir(&self, remote_target_folder: &str) -> (r: LocalPath)
        ensures
            r@ == sandbox_dir(self.data_dir@, remote_target_folder@),
    {
        let chars = to_chars(remote_target_folder);
        let name = from_chars(trim(chars.as_slice(), CharClass::One('/')));
        self.data_dir.join_text("remote_sandbox").join_text(name.as_str())
    }
}

} // verus!
