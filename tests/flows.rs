use blendio::builds::{download_and_install_blender_version, uninstall_and_delete_installed_blender_version_data};
use blendio::clock::{current_timestamp, new_record_ids};
use blendio::discovery::{
    insert_and_refresh_installed_blender_versions, insert_installed_blender_version, parse_version_and_variant,
    refresh_installed_blender_versions, LauncherCandidate, LAUNCHER_FILE_NAME,
};
use blendio::error::CommandError;
use blendio::feed::{get_downloadable_blender_version_data, PlatformTarget};
use blendio::launch::{assemble_launch_arguments, launch_blender_version_with_launch_args, open_blend_file};
use blendio::listing::{fetch_blend_files, fetch_installed_blender_versions};
use blendio::model::{DownloadableBlenderVersion, InstalledBlenderVersion};
use blendio::repository::{
    BlenderRepoPathRepository, InstalledBlenderVersionRepository, LaunchArgumentRepository,
    ProjectFileRepository, PythonScriptRepository,
};
use blendio::roots::{delete_blender_version_installation_location, insert_blender_version_installation_location};
use blendio::arguments::{insert_launch_argument, insert_python_script};
use blendio::project_files::insert_blend_file;

fn candidate(root: &str, name: &str) -> LauncherCandidate {
    let dir = format!("{}/{}", root, name);
    LauncherCandidate {
        executable_file_path: format!("{}/{}", dir, LAUNCHER_FILE_NAME),
        directory_path: dir,
        directory_name: name.to_string(),
    }
}

fn ids(n: usize, tag: &str) -> Vec<String> {
    (0..n).map(|i| format!("{}{}", tag, i)).collect()
}

fn build_at(id: &str, dir: &str) -> InstalledBlenderVersion {
    InstalledBlenderVersion {
        id: id.to_string(),
        version: "4.0".to_string(),
        variant_type: "stable".to_string(),
        download_url: None,
        is_default: false,
        installation_directory_path: dir.to_string(),
        executable_file_path: format!("{}/{}", dir, LAUNCHER_FILE_NAME),
        created: "t0".to_string(),
        modified: "t0".to_string(),
        accessed: "t0".to_string(),
    }
}

fn remote(version: &str, platform: &str, arch: &str, ext: &str, bits: i32) -> DownloadableBlenderVersion {
    DownloadableBlenderVersion {
        url: format!("https://example.org/blender-{}.{}", version, ext),
        app: "Blender".to_string(),
        version: version.to_string(),
        risk_id: "stable".to_string(),
        branch: "main".to_string(),
        patch: None,
        hash: "abc".to_string(),
        platform: platform.to_string(),
        architecture: arch.to_string(),
        bitness: bits,
        file_mtime: 1,
        file_name: format!("blender-{}", version),
        file_size: 10,
        file_extension: ext.to_string(),
        release_cycle: "lts".to_string(),
        checksum: "c".to_string(),
    }
}

#[test]
fn directory_name_gives_version_and_variant() {
    assert_eq!(
        parse_version_and_variant("blender-4.1.0-stable+abc123"),
        ("4.1.0".to_string(), "stable".to_string())
    );
    assert_eq!(
        parse_version_and_variant("blender-3.6-lts"),
        ("3.6".to_string(), "lts".to_string())
    );
}

#[test]
fn directory_name_without_pattern_gives_empty_fields() {
    assert_eq!(parse_version_and_variant("my-builds"), (String::new(), String::new()));
    assert_eq!(parse_version_and_variant(""), (String::new(), String::new()));
}

#[test]
fn empty_root_then_one_build_directory() {
    let mut roots = BlenderRepoPathRepository::new();
    let mut builds = InstalledBlenderVersionRepository::new();
    let now = "t1".to_string();
    insert_blender_version_installation_location(&mut roots, "/opt/blender-builds", &"r1".to_string(), &now).unwrap();
    let rep = refresh_installed_blender_versions(&mut builds, &vec![], &vec![], &vec![], &now).unwrap();
    assert_eq!(rep.inserted.len(), 0);
    assert_eq!(builds.len(), 0);
    let found = vec![candidate("/opt/blender-builds", "blender-4.1.0-stable")];
    let rep = refresh_installed_blender_versions(&mut builds, &found, &ids(1, "b"), &vec![], &now).unwrap();
    assert_eq!(rep.inserted.len(), 1);
    let all = builds.fetch(None, None, None);
    assert_eq!(all.len(), 1);
    assert_eq!(all[0].version, "4.1.0");
    assert_eq!(all[0].variant_type, "stable");
    assert_eq!(
        all[0].executable_file_path,
        format!("/opt/blender-builds/blender-4.1.0-stable/{}", LAUNCHER_FILE_NAME)
    );
    assert_eq!(all[0].installation_directory_path, "/opt/blender-builds/blender-4.1.0-stable");
    assert!(!all[0].is_default);
    assert_eq!(all[0].download_url, None);
}

#[test]
fn second_refresh_changes_nothing() {
    let mut builds = InstalledBlenderVersionRepository::new();
    let now = "t1".to_string();
    let found = vec![
        candidate("/r", "blender-4.1.0-stable"),
        candidate("/r", "blender-3.6.2-lts"),
        candidate("/r", "blender-3.6.2-lts"),
    ];
    let missing = vec!["/gone/blender-launcher.exe".to_string()];
    builds.insert(build_at("old", "/gone")).unwrap();
    let first = refresh_installed_blender_versions(&mut builds, &found, &ids(3, "a"), &missing, &now).unwrap();
    assert_eq!(first.inserted.len(), 2);
    assert_eq!(first.removed, vec!["old".to_string()]);
    let before: Vec<String> = builds.fetch(None, None, None).into_iter().map(|b| b.id).collect();
    let second = refresh_installed_blender_versions(&mut builds, &found, &ids(3, "z"), &missing, &now).unwrap();
    assert!(second.inserted.is_empty());
    assert!(second.removed.is_empty());
    let after: Vec<String> = builds.fetch(None, None, None).into_iter().map(|b| b.id).collect();
    assert_eq!(before, after);
}

#[test]
fn refresh_removes_only_the_orphan() {
    let mut builds = InstalledBlenderVersionRepository::new();
    builds.insert(build_at("keep1", "/r/a")).unwrap();
    builds.insert(build_at("orphan", "/r/b")).unwrap();
    builds.insert(build_at("keep2", "/r/c")).unwrap();
    let missing = vec![format!("/r/b/{}", LAUNCHER_FILE_NAME)];
    let rep = refresh_installed_blender_versions(&mut builds, &vec![], &vec![], &missing, &"t1".to_string()).unwrap();
    assert_eq!(rep.removed, vec!["orphan".to_string()]);
    let left: Vec<String> = builds.fetch(None, None, None).into_iter().map(|b| b.id).collect();
    assert_eq!(left, vec!["keep1".to_string(), "keep2".to_string()]);
}

#[test]
fn refresh_with_reused_id_is_refused() {
    let mut builds = InstalledBlenderVersionRepository::new();
    builds.insert(build_at("a0", "/r/x")).unwrap();
    let found = vec![candidate("/r", "blender-4.1.0-stable")];
    let r = refresh_installed_blender_versions(&mut builds, &found, &vec!["a0".to_string()], &vec![], &"t".to_string());
    assert!(matches!(r, Err(CommandError::Storage(_))));
}

#[test]
fn refresh_with_fresh_identifiers_registers_candidates() {
    let mut builds = InstalledBlenderVersionRepository::new();
    let found = vec![candidate("/r", "blender-4.1.0-stable"), candidate("/r", "blender-4.2.1-beta")];
    let rep = insert_and_refresh_installed_blender_versions(&mut builds, &found, &vec![]).unwrap();
    assert_eq!(rep.inserted.len(), 2);
    assert_ne!(rep.inserted[0].id, rep.inserted[1].id);
    assert_eq!(rep.inserted[1].variant_type, "beta");
}

#[test]
fn new_identifiers_are_uuids() {
    let v = new_record_ids(3);
    assert_eq!(v.len(), 3);
    assert!(v.iter().all(|s| s.len() == 36));
    assert_ne!(v[0], v[1]);
    assert!(!current_timestamp().is_empty());
}

#[test]
fn deleting_a_root_removes_the_builds_under_it() {
    let mut roots = BlenderRepoPathRepository::new();
    let mut builds = InstalledBlenderVersionRepository::new();
    insert_blender_version_installation_location(&mut roots, "/opt/builds", &"r1".to_string(), &"t".to_string()).unwrap();
    insert_blender_version_installation_location(&mut roots, "/srv", &"r2".to_string(), &"t".to_string()).unwrap();
    builds.insert(build_at("in1", "/opt/builds/blender-4.1.0-stable")).unwrap();
    builds.insert(build_at("out", "/home/me/blender-3.6-lts")).unwrap();
    builds.insert(build_at("in2", "/opt/builds/blender-4.2.0-beta")).unwrap();
    let removed = delete_blender_version_installation_location(&mut roots, &mut builds, "r1").unwrap();
    assert_eq!(removed, vec!["in1".to_string(), "in2".to_string()]);
    let left: Vec<String> = builds.fetch(None, None, None).into_iter().map(|b| b.id).collect();
    assert_eq!(left, vec!["out".to_string()]);
    let roots_left: Vec<String> = roots.fetch(None, None, None).into_iter().map(|r| r.id).collect();
    assert_eq!(roots_left, vec!["r2".to_string()]);
}

#[test]
fn deleting_an_unknown_root_is_not_found() {
    let mut roots = BlenderRepoPathRepository::new();
    let mut builds = InstalledBlenderVersionRepository::new();
    assert_eq!(
        delete_blender_version_installation_location(&mut roots, &mut builds, "r9"),
        Err(CommandError::NotFound)
    );
}

#[test]
fn registering_a_root_twice_keeps_one() {
    let mut roots = BlenderRepoPathRepository::new();
    insert_blender_version_installation_location(&mut roots, "/opt", &"r1".to_string(), &"t".to_string()).unwrap();
    insert_blender_version_installation_location(&mut roots, "/opt", &"r2".to_string(), &"t".to_string()).unwrap();
    assert_eq!(roots.len(), 1);
}

#[test]
fn launch_arguments_scenario() {
    let tokens = vec!["--factory-startup".to_string(), "--no-win".to_string()];
    let args = assemble_launch_arguments(Some("/tmp/proj.blend"), Some(&tokens), Some("/tmp/s.py"));
    assert_eq!(args, vec!["/tmp/proj.blend", "--factory-startup", "--no-win", "--python", "/tmp/s.py"]);
}

#[test]
fn script_after_python_flag_is_appended_alone() {
    let tokens = vec!["--python".to_string(), "/a.py".to_string()];
    let args = assemble_launch_arguments(None, Some(&tokens), Some("/b.py"));
    assert_eq!(args, vec!["--python", "/a.py", "/b.py"]);
    assert!(assemble_launch_arguments(None, None, None).is_empty());
}

#[test]
fn open_file_plans_the_full_argument_list() {
    let mut files = ProjectFileRepository::new();
    let mut builds = InstalledBlenderVersionRepository::new();
    let mut arguments = LaunchArgumentRepository::new();
    let mut scripts = PythonScriptRepository::new();
    let t = "t1".to_string();
    insert_blend_file(&mut files, "/tmp/proj.blend", Some("proj.blend"), &"f1".to_string(), &t).unwrap();
    builds.insert(build_at("b1", "/opt/b")).unwrap();
    insert_launch_argument(&mut arguments, "--factory-startup   --no-win", None, None, &"a1".to_string(), &t).unwrap();
    insert_python_script(&mut scripts, "/tmp/s.py", &"s1".to_string(), &t).unwrap();
    let now = "t2".to_string();
    let plan = open_blend_file(&mut files, &mut builds, &mut arguments, &mut scripts, "f1", "b1", Some("a1"), Some("s1"), &now).unwrap();
    assert_eq!(plan.executable_file_path, format!("/opt/b/{}", LAUNCHER_FILE_NAME));
    assert_eq!(plan.arguments, vec!["/tmp/proj.blend", "--factory-startup", "--no-win", "--python", "/tmp/s.py"]);
    let f = &files.fetch(Some("f1"), None, None)[0];
    assert_eq!(f.last_used_blender_version_id, Some("b1".to_string()));
    assert_eq!(f.accessed, "t2");
    assert_eq!(builds.fetch(Some("b1"), None, None)[0].accessed, "t2");
    assert_eq!(arguments.fetch(Some("a1"), None, None)[0].accessed, "t2");
    assert_eq!(scripts.fetch(Some("s1"), None, None)[0].accessed, "t2");
}

#[test]
fn launch_with_unknown_ids_is_not_found() {
    let mut builds = InstalledBlenderVersionRepository::new();
    let mut arguments = LaunchArgumentRepository::new();
    let mut scripts = PythonScriptRepository::new();
    let t = "t".to_string();
    assert_eq!(
        launch_blender_version_with_launch_args(&mut builds, &mut arguments, &mut scripts, "b1", None, None, &t).err(),
        Some(CommandError::NotFound)
    );
    builds.insert(build_at("b1", "/opt/b")).unwrap();
    assert_eq!(
        launch_blender_version_with_launch_args(&mut builds, &mut arguments, &mut scripts, "b1", Some("a9"), None, &t).err(),
        Some(CommandError::NotFound)
    );
    assert_eq!(
        launch_blender_version_with_launch_args(&mut builds, &mut arguments, &mut scripts, "b1", None, Some("s9"), &t).err(),
        Some(CommandError::NotFound)
    );
    let plan = launch_blender_version_with_launch_args(&mut builds, &mut arguments, &mut scripts, "b1", None, None, &t).unwrap();
    assert!(plan.arguments.is_empty());
}

#[test]
fn install_adds_then_rewrites_in_place() {
    let mut builds = InstalledBlenderVersionRepository::new();
    let meta = remote("4.1.0", "linux", "x86_64", "xz", 64);
    let exe = format!("/dl/blender-4.1.0/{}", LAUNCHER_FILE_NAME);
    download_and_install_blender_version(&mut builds, &meta, "/dl/blender-4.1.0", &exe, &"i1".to_string(), &"t1".to_string()).unwrap();
    let r = &builds.fetch(None, None, None)[0];
    assert_eq!(r.version, "4.1.0");
    assert_eq!(r.variant_type, "lts");
    assert_eq!(r.download_url, Some(meta.url.clone()));
    let meta2 = remote("4.1.1", "linux", "x86_64", "xz", 64);
    download_and_install_blender_version(&mut builds, &meta2, "/dl/blender-4.1.0", &exe, &"i2".to_string(), &"t2".to_string()).unwrap();
    let all = builds.fetch(None, None, None);
    assert_eq!(all.len(), 1);
    assert_eq!(all[0].id, "i1");
    assert_eq!(all[0].version, "4.1.1");
    assert_eq!(all[0].modified, "t2");
    assert_eq!(all[0].created, "t1");
}

#[test]
fn uninstall_gives_the_removed_build() {
    let mut builds = InstalledBlenderVersionRepository::new();
    builds.insert(build_at("b1", "/opt/b")).unwrap();
    let b = uninstall_and_delete_installed_blender_version_data(&mut builds, "b1").unwrap();
    assert_eq!(b.installation_directory_path, "/opt/b");
    assert_eq!(builds.len(), 0);
    assert_eq!(
        uninstall_and_delete_installed_blender_version_data(&mut builds, "b1").err(),
        Some(CommandError::NotFound)
    );
}

#[test]
fn remote_list_is_filtered_to_the_platform() {
    let list = vec![
        remote("4.1.0", "linux", "x86_64", "xz", 64),
        remote("4.1.0", "windows", "amd64", "zip", 64),
        remote("4.0.0", "linux", "x86_64", "xz", 32),
        remote("3.6.0", "linux", "x86_64", "xz", 64),
    ];
    let target = PlatformTarget {
        bitness: 64,
        platform: "linux".to_string(),
        architecture: "x86_64".to_string(),
        file_extension: "xz".to_string(),
    };
    let got: Vec<String> = get_downloadable_blender_version_data(&list, &target).into_iter().map(|d| d.version).collect();
    assert_eq!(got, vec!["4.1.0".to_string(), "3.6.0".to_string()]);
}

#[test]
fn listings_run_highest_first() {
    let mut builds = InstalledBlenderVersionRepository::new();
    for (id, v) in [("a", "3.6.0"), ("b", "4.1.0"), ("c", "4.0.2")] {
        let mut b = build_at(id, &format!("/r/{}", id));
        b.version = v.to_string();
        builds.insert(b).unwrap();
    }
    let order: Vec<String> = fetch_installed_blender_versions(&builds, None, None, None).into_iter().map(|b| b.version).collect();
    assert_eq!(order, vec!["4.1.0", "4.0.2", "3.6.0"]);
    let mut files = ProjectFileRepository::new();
    insert_blend_file(&mut files, "/a.blend", Some("a.blend"), &"f1".to_string(), &"2024-01-01".to_string()).unwrap();
    insert_blend_file(&mut files, "/b.blend", Some("b.blend"), &"f2".to_string(), &"2024-03-01".to_string()).unwrap();
    let order: Vec<String> = fetch_blend_files(&files, None, None, None).into_iter().map(|f| f.id).collect();
    assert_eq!(order, vec!["f2", "f1"]);
}

#[test]
fn single_build_insert_parses_its_directory_name() {
    let mut builds = InstalledBlenderVersionRepository::new();
    let c = candidate("/opt/b", "blender-4.1.0-stable+abc123");
    assert_eq!(insert_installed_blender_version(&mut builds, &c, &"b1".to_string(), &"t".to_string()), Ok(()));
    let odd = candidate("/opt/b", "my-custom-build");
    assert_eq!(insert_installed_blender_version(&mut builds, &odd, &"b2".to_string(), &"t".to_string()), Ok(()));
    let rows = builds.fetch(None, None, None);
    assert_eq!((rows[0].version.as_str(), rows[0].variant_type.as_str()), ("4.1.0", "stable"));
    assert_eq!(rows[0].installation_directory_path, "/opt/b/blender-4.1.0-stable+abc123");
    assert_eq!((rows[1].version.as_str(), rows[1].variant_type.as_str()), ("", ""));
    let again = candidate("/opt/c", "blender-4.2.0-beta");
    assert_eq!(
        insert_installed_blender_version(&mut builds, &again, &"b1".to_string(), &"t".to_string()),
        Err(CommandError::Storage(blendio::table::StoreError::DuplicateId))
    );
    assert_eq!(builds.len(), 2);
}

#[test]
fn failed_launch_touches_nothing() {
    let mut files = ProjectFileRepository::new();
    let mut builds = InstalledBlenderVersionRepository::new();
    let mut arguments = LaunchArgumentRepository::new();
    let mut scripts = PythonScriptRepository::new();
    insert_blend_file(&mut files, "/tmp/p.blend", Some("p.blend"), &"f1".to_string(), &"t0".to_string()).unwrap();
    builds.insert(build_at("b1", "/opt/b")).unwrap();
    let r = open_blend_file(&mut files, &mut builds, &mut arguments, &mut scripts, "f1", "b1", Some("a9"), None, &"t5".to_string());
    assert_eq!(r.err(), Some(CommandError::NotFound));
    let f = &files.fetch(Some("f1"), None, None)[0];
    assert_eq!(f.accessed, "t0");
    assert_eq!(f.last_used_blender_version_id, None);
    assert_eq!(builds.fetch(Some("b1"), None, None)[0].accessed, "t0");
    let r = launch_blender_version_with_launch_args(&mut builds, &mut arguments, &mut scripts, "b1", None, Some("s9"), &"t5".to_string());
    assert!(r.is_err());
    assert_eq!(builds.fetch(Some("b1"), None, None)[0].accessed, "t0");
}
