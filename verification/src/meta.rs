//! The project's names.
use vstd::prelude::*;

verus! {

/// The name of the project.
pub const PROJECT_NAME: &'static str = "PenguinSyncyGoogle";

/// The language that the project is written in.
pub const PROGRAMMING_LANGUAGE: &'static str = "Rust";

/// The operating system that the project is made for.
pub const OPERATING_SYSTEM: &'static str = "Linux";

/// The folder, below the user's configuration and data folders, that holds
/// the program's files.
pub const APP_FOLDER_NAME: &'static str = "guploadsync";

} // verus!
