use vstd::prelude::*;

use crate::model::{
    BlenderRepoPath, InstalledBlenderVersion, LaunchArgument, ProjectFile, PythonScript,
};
use crate::table::Table;

verus! {

/// The installation roots, keyed by directory path.
pub type BlenderRepoPathRepository = Table<BlenderRepoPath>;

/// The installed builds, keyed by executable path.
pub type InstalledBlenderVersionRepository = Table<InstalledBlenderVersion>;

/// The launch-argument sets, keyed by argument string.
pub type LaunchArgumentRepository = Table<LaunchArgument>;

/// The project files, keyed by file path.
pub type ProjectFileRepository = Table<ProjectFile>;

/// The scripts, keyed by script path.
pub type PythonScriptRepository = Table<PythonScript>;

} // verus!
