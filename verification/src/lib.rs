//! The verified core of a selective, sandboxed sync daemon.
pub mod app_paths;
pub mod config;
pub mod config_laws;
pub mod encoding;
pub mod events;
pub mod failure;
pub mod hash_utils;
pub mod keyed;
pub mod local_watcher;
pub mod mapping_laws;
pub mod meta;
pub mod path;
pub mod path_map;
pub mod remote;
pub mod remote_poller;
pub mod state_db;
pub mod sync_engine;
pub mod text;
pub mod text_laws;
pub mod virtual_path;
