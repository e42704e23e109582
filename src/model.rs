use vstd::prelude::*;

use crate::defaults::Flagged;
use crate::table::Record;

verus! {

/// A directory under which installed builds are discovered.
pub struct BlenderRepoPath {
    pub id: String,
    pub repo_directory_path: String,
    pub is_default: bool,
    pub created: String,
    pub modified: String,
    pub accessed: String,
}

/// One entry of the remote list of downloadable builds.
pub struct DownloadableBlenderVersion {
    pub url: String,
    pub app: String,
    pub version: String,
    pub risk_id: String,
    pub branch: String,
    pub patch: Option<String>,
    pub hash: String,
    pub platform: String,
    pub architecture: String,
    pub bitness: i32,
    pub file_mtime: i64,
    pub file_name: String,
    pub file_size: i64,
    pub file_extension: String,
    pub release_cycle: String,
    pub checksum: String,
}

/// One discovered or installed executable.
pub struct InstalledBlenderVersion {
    pub id: String,
    pub version: String,
    pub variant_type: String,
    pub download_url: Option<String>,
    pub is_default: bool,
    pub installation_directory_path: String,
    pub executable_file_path: String,
    pub created: String,
    pub modified: String,
    pub accessed: String,
}

/// A reusable set of command-line flags.
pub struct LaunchArgument {
    pub id: String,
    pub is_default: bool,
    pub argument_string: String,
    pub last_used_project_file_id: Option<String>,
    pub last_used_python_script_id: Option<String>,
    pub created: String,
    pub modified: String,
    pub accessed: String,
}

/// A user document with the categories ("series") it was found under,
/// kept as a JSON list of strings.
pub struct ProjectFile {
    pub id: String,
    pub file_path: String,
    pub file_name: String,
    pub associated_series_json: String,
    pub last_used_blender_version_id: Option<String>,
    pub created: String,
    pub modified: String,
    pub accessed: String,
}

/// A script file handed to a launch through `--python`.
pub struct PythonScript {
    pub id: String,
    pub script_file_path: String,
    pub created: String,
    pub modified: String,
    pub accessed: String,
}

/// An application user.
pub struct User {
    pub id: i64,
    pub name: String,
    pub email: Option<String>,
}

impl Clone for DownloadableBlenderVersion {
    fn clone(&self) -> (r: Self)
        ensures
            r == *self,
    {
        DownloadableBlenderVersion {
            url: self.url.clone(),
            app: self.app.clone(),
            version: self.version.clone(),
            risk_id: self.risk_id.clone(),
            branch: self.branch.clone(),
            patch: self.patch.clone(),
            hash: self.hash.clone(),
            platform: self.platform.clone(),
            architecture: self.architecture.clone(),
            bitness: self.bitness,
            file_mtime: self.file_mtime,
            file_name: self.file_name.clone(),
            file_size: self.file_size,
            file_extension: self.file_extension.clone(),
            release_cycle: self.release_cycle.clone(),
            checksum: self.checksum.clone(),
        }
    }
}

impl Clone for User {
    fn clone(&self) -> (r: Self)
        ensures
            r == *self,
    {
        User { id: self.id, name: self.name.clone(), email: self.email.clone() }
    }
}

impl Record for BlenderRepoPath {
    open spec fn id_of(&self) -> Seq<char> {
        self.id@
    }

    open spec fn key_of(&self) -> Seq<char> {
        self.repo_directory_path@
    }

    open spec fn update_of(&self, prev: &Self, e: &Self, now: Seq<char>) -> bool {
        &&& self.id == prev.id
        &&& self.repo_directory_path == e.repo_directory_path
        &&& self.is_default == e.is_default
        &&& self.created == prev.created
        &&& self.modified@ == now
        &&& self.accessed@ == now
    }

    proof fn lemma_update_of(&self, prev: &Self, e: &Self, now: Seq<char>) {
    }

    fn id(&self) -> (r: &String) {
        &self.id
    }

    fn key(&self) -> (r: &String) {
        &self.repo_directory_path
    }

    fn duplicate(&self) -> (r: Self) {
        BlenderRepoPath {
            id: self.id.clone(),
            repo_directory_path: self.repo_directory_path.clone(),
            is_default: self.is_default,
            created: self.created.clone(),
            modified: self.modified.clone(),
            accessed: self.accessed.clone()
        }
    }

    fn apply_update(&self, e: &Self, now: &String) -> (r: Self) {
        BlenderRepoPath {
            id: self.id.clone(),
            repo_directory_path: e.repo_directory_path.clone(),
            is_default: e.is_default,
            created: self.created.clone(),
            modified: now.clone(),
            accessed: now.clone()
        }
    }
}

impl Record for InstalledBlenderVersion {
    open spec fn id_of(&self) -> Seq<char> {
        self.id@
    }

    open spec fn key_of(&self) -> Seq<char> {
        self.executable_file_path@
    }

    open spec fn update_of(&self, prev: &Self, e: &Self, now: Seq<char>) -> bool {
        &&& self.id == prev.id
        &&& self.version == e.version
        &&& self.variant_type == e.variant_type
        &&& self.download_url == e.download_url
        &&& self.is_default == e.is_default
        &&& self.installation_directory_path == e.installation_directory_path
        &&& self.executable_file_path == e.executable_file_path
        &&& self.created == prev.created
        &&& self.modified@ == now
        &&& self.accessed@ == now
    }

    proof fn lemma_update_of(&self, prev: &Self, e: &Self, now: Seq<char>) {
    }

    fn id(&self) -> (r: &String) {
        &self.id
    }

    fn key(&self) -> (r: &String) {
        &self.executable_file_path
    }

    fn duplicate(&self) -> (r: Self) {
        InstalledBlenderVersion {
            id: self.id.clone(),
            version: self.version.clone(),
            variant_type: self.variant_type.clone(),
            download_url: self.download_url.clone(),
            is_default: self.is_default,
            installation_directory_path: self.installation_directory_path.clone(),
            executable_file_path: self.executable_file_path.clone(),
            created: self.created.clone(),
            modified: self.modified.clone(),
            accessed: self.accessed.clone()
        }
    }

    fn apply_update(&self, e: &Self, now: &String) -> (r: Self) {
        InstalledBlenderVersion {
            id: self.id.clone(),
            version: e.version.clone(),
            variant_type: e.variant_type.clone(),
            download_url: e.download_url.clone(),
            is_default: e.is_default,
            installation_directory_path: e.installation_directory_path.clone(),
            executable_file_path: e.executable_file_path.clone(),
            created: self.created.clone(),
            modified: now.clone(),
            accessed: now.clone()
        }
    }
}

impl Record for LaunchArgument {
    open spec fn id_of(&self) -> Seq<char> {
        self.id@
    }

    open spec fn key_of(&self) -> Seq<char> {
        self.argument_string@
    }

    open spec fn update_of(&self, prev: &Self, e: &Self, now: Seq<char>) -> bool {
        &&& self.id == prev.id
        &&& self.is_default == e.is_default
        &&& self.argument_string == e.argument_string
        &&& self.last_used_project_file_id == e.last_used_project_file_id
        &&& self.last_used_python_script_id == e.last_used_python_script_id
        &&& self.created == prev.created
        &&& self.modified@ == now
        &&& self.accessed@ == now
    }

    proof fn lemma_update_of(&self, prev: &Self, e: &Self, now: Seq<char>) {
    }

    fn id(&self) -> (r: &String) {
        &self.id
    }

    fn key(&self) -> (r: &String) {
        &self.argument_string
    }

    fn duplicate(&self) -> (r: Self) {
        LaunchArgument {
            id: self.id.clone(),
            is_default: self.is_default,
            argument_string: self.argument_string.clone(),
            last_used_project_file_id: self.last_used_project_file_id.clone(),
            last_used_python_script_id: self.last_used_python_script_id.clone(),
            created: self.created.clone(),
            modified: self.modified.clone(),
            accessed: self.accessed.clone()
        }
    }

    fn apply_update(&self, e: &Self, now: &String) -> (r: Self) {
        LaunchArgument {
            id: self.id.clone(),
            is_default: e.is_default,
            argument_string: e.argument_string.clone(),
            last_used_project_file_id: e.last_used_project_file_id.clone(),
            last_used_python_script_id: e.last_used_python_script_id.clone(),
            created: self.created.clone(),
            modified: now.clone(),
            accessed: now.clone()
        }
    }
}

impl Record for ProjectFile {
    open spec fn id_of(&self) -> Seq<char> {
        self.id@
    }

    open spec fn key_of(&self) -> Seq<char> {
        self.file_path@
    }

    open spec fn update_of(&self, prev: &Self, e: &Self, now: Seq<char>) -> bool {
        &&& self.id == prev.id
        &&& self.file_path == e.file_path
        &&& self.file_name == e.file_name
        &&& self.associated_series_json == e.associated_series_json
        &&& self.last_used_blender_version_id == e.last_used_blender_version_id
        &&& self.created == prev.created
        &&& self.modified@ == now
        &&& self.accessed@ == now
    }

    proof fn lemma_update_of(&self, prev: &Self, e: &Self, now: Seq<char>) {
    }

    fn id(&self) -> (r: &String) {
        &self.id
    }

    fn key(&self) -> (r: &String) {
        &self.file_path
    }

    fn duplicate(&self) -> (r: Self) {
        ProjectFile {
            id: self.id.clone(),
            file_path: self.file_path.clone(),
            file_name: self.file_name.clone(),
            associated_series_json: self.associated_series_json.clone(),
            last_used_blender_version_id: self.last_used_blender_version_id.clone(),
            created: self.created.clone(),
            modified: self.modified.clone(),
            accessed: self.accessed.clone()
        }
    }

    fn apply_update(&self, e: &Self, now: &String) -> (r: Self) {
        ProjectFile {
            id: self.id.clone(),
            file_path: e.file_path.clone(),
            file_name: e.file_name.clone(),
            associated_series_json: e.associated_series_json.clone(),
            last_used_blender_version_id: e.last_used_blender_version_id.clone(),
            created: self.created.clone(),
            modified: now.clone(),
            accessed: now.clone()
        }
    }
}

impl Record for PythonScript {
    open spec fn id_of(&self) -> Seq<char> {
        self.id@
    }

    open spec fn key_of(&self) -> Seq<char> {
        self.script_file_path@
    }

    open spec fn update_of(&self, prev: &Self, e: &Self, now: Seq<char>) -> bool {
        &&& self.id == prev.id
        &&& self.script_file_path == e.script_file_path
        &&& self.created == prev.created
        &&& self.modified@ == now
        &&& self.accessed@ == now
    }

    proof fn lemma_update_of(&self, prev: &Self, e: &Self, now: Seq<char>) {
    }

    fn id(&self) -> (r: &String) {
        &self.id
    }

    fn key(&self) -> (r: &String) {
        &self.script_file_path
    }

    fn duplicate(&self) -> (r: Self) {
        PythonScript {
            id: self.id.clone(),
            script_file_path: self.script_file_path.clone(),
            created: self.created.clone(),
            modified: self.modified.clone(),
            accessed: self.accessed.clone()
        }
    }

    fn apply_update(&self, e: &Self, now: &String) -> (r: Self) {
        PythonScript {
            id: self.id.clone(),
            script_file_path: e.script_file_path.clone(),
            created: self.created.clone(),
            modified: now.clone(),
            accessed: now.clone()
        }
    }
}

impl Flagged for BlenderRepoPath {
    open spec fn flag_of(&self) -> bool {
        self.is_default
    }

    open spec fn flag_set(&self, prev: &Self, f: bool) -> bool {
        &&& self.id == prev.id
        &&& self.repo_directory_path == prev.repo_directory_path
        &&& self.is_default == f
        &&& self.created == prev.created
        &&& self.modified == prev.modified
        &&& self.accessed == prev.accessed
    }

    open spec fn reflagged(&self, prev: &Self, f: bool, now: Seq<char>) -> bool {
        &&& self.id == prev.id
        &&& self.repo_directory_path == prev.repo_directory_path
        &&& self.is_default == f
        &&& self.created == prev.created
        &&& self.modified@ == now
        &&& self.accessed@ == now
    }

    proof fn lemma_flag_set(&self, prev: &Self, f: bool) {
    }

    proof fn lemma_reflagged(&self, prev: &Self, e: &Self, f: bool, now: Seq<char>) {
    }

    proof fn lemma_reflagged_flag(&self, prev: &Self, f: bool, now: Seq<char>) {
    }

    fn flag(&self) -> (r: bool) {
        self.is_default
    }

    fn with_flag(&self, f: bool) -> (r: Self) {
        BlenderRepoPath {
            id: self.id.clone(),
            repo_directory_path: self.repo_directory_path.clone(),
            is_default: f,
            created: self.created.clone(),
            modified: self.modified.clone(),
            accessed: self.accessed.clone()
        }
    }
}

impl Flagged for InstalledBlenderVersion {
    open spec fn flag_of(&self) -> bool {
        self.is_default
    }

    open spec fn flag_set(&self, prev: &Self, f: bool) -> bool {
        &&& self.id == prev.id
        &&& self.version == prev.version
        &&& self.variant_type == prev.variant_type
        &&& self.download_url == prev.download_url
        &&& self.is_default == f
        &&& self.installation_directory_path == prev.installation_directory_path
        &&& self.executable_file_path == prev.executable_file_path
        &&& self.created == prev.created
        &&& self.modified == prev.modified
        &&& self.accessed == prev.accessed
    }

    open spec fn reflagged(&self, prev: &Self, f: bool, now: Seq<char>) -> bool {
        &&& self.id == prev.id
        &&& self.version == prev.version
        &&& self.variant_type == prev.variant_type
        &&& self.download_url == prev.download_url
        &&& self.is_default == f
        &&& self.installation_directory_path == prev.installation_directory_path
        &&& self.executable_file_path == prev.executable_file_path
        &&& self.created == prev.created
        &&& self.modified@ == now
        &&& self.accessed@ == now
    }

    proof fn lemma_flag_set(&self, prev: &Self, f: bool) {
    }

    proof fn lemma_reflagged(&self, prev: &Self, e: &Self, f: bool, now: Seq<char>) {
    }

    proof fn lemma_reflagged_flag(&self, prev: &Self, f: bool, now: Seq<char>) {
    }

    fn flag(&self) -> (r: bool) {
        self.is_default
    }

    fn with_flag(&self, f: bool) -> (r: Self) {
        InstalledBlenderVersion {
            id: self.id.clone(),
            version: self.version.clone(),
            variant_type: self.variant_type.clone(),
            download_url: self.download_url.clone(),
            is_default: f,
            installation_directory_path: self.installation_directory_path.clone(),
            executable_file_path: self.executable_file_path.clone(),
            created: self.created.clone(),
            modified: self.modified.clone(),
            accessed: self.accessed.clone()
        }
    }
}

impl Flagged for LaunchArgument {
    open spec fn flag_of(&self) -> bool {
        self.is_default
    }

    open spec fn flag_set(&self, prev: &Self, f: bool) -> bool {
        &&& self.id == prev.id
        &&& self.is_default == f
        &&& self.argument_string == prev.argument_string
        &&& self.last_used_project_file_id == prev.last_used_project_file_id
        &&& self.last_used_python_script_id == prev.last_used_python_script_id
        &&& self.created == prev.created
        &&& self.modified == prev.modified
        &&& self.accessed == prev.accessed
    }

    open spec fn reflagged(&self, prev: &Self, f: bool, now: Seq<char>) -> bool {
        &&& self.id == prev.id
        &&& self.is_default == f
        &&& self.argument_string == prev.argument_string
        &&& self.last_used_project_file_id == prev.last_used_project_file_id
        &&& self.last_used_python_script_id == prev.last_used_python_script_id
        &&& self.created == prev.created
        &&& self.modified@ == now
        &&& self.accessed@ == now
    }

    proof fn lemma_flag_set(&self, prev: &Self, f: bool) {
    }

    proof fn lemma_reflagged(&self, prev: &Self, e: &Self, f: bool, now: Seq<char>) {
    }

    proof fn lemma_reflagged_flag(&self, prev: &Self, f: bool, now: Seq<char>) {
    }

    fn flag(&self) -> (r: bool) {
        self.is_default
    }

    fn with_flag(&self, f: bool) -> (r: Self) {
        LaunchArgument {
            id: self.id.clone(),
            is_default: f,
            argument_string: self.argument_string.clone(),
            last_used_project_file_id: self.last_used_project_file_id.clone(),
            last_used_python_script_id: self.last_used_python_script_id.clone(),
            created: self.created.clone(),
            modified: self.modified.clone(),
            accessed: self.accessed.clone()
        }
    }
}

} // verus!
