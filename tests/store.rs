use blendio::arguments::{insert_launch_argument, insert_python_script};
use blendio::defaults::set_default;
use blendio::error::CommandError;
use blendio::model::{BlenderRepoPath, InstalledBlenderVersion};
use blendio::project_files::insert_blend_file;
use blendio::repository::{
    BlenderRepoPathRepository, InstalledBlenderVersionRepository, LaunchArgumentRepository,
    ProjectFileRepository, PythonScriptRepository,
};
use blendio::table::StoreError;

fn build(id: &str, exe: &str, dir: &str) -> InstalledBlenderVersion {
    InstalledBlenderVersion {
        id: id.to_string(),
        version: "4.1.0".to_string(),
        variant_type: "stable".to_string(),
        download_url: None,
        is_default: false,
        installation_directory_path: dir.to_string(),
        executable_file_path: exe.to_string(),
        created: "t0".to_string(),
        modified: "t0".to_string(),
        accessed: "t0".to_string(),
    }
}

fn root(id: &str, path: &str, is_default: bool) -> BlenderRepoPath {
    BlenderRepoPath {
        id: id.to_string(),
        repo_directory_path: path.to_string(),
        is_default,
        created: "t0".to_string(),
        modified: "t0".to_string(),
        accessed: "t0".to_string(),
    }
}

fn defaults_of(t: &BlenderRepoPathRepository) -> Vec<(String, bool)> {
    t.fetch(None, None, None).into_iter().map(|r| (r.id, r.is_default)).collect()
}

#[test]
fn insert_then_fetch_by_id_round_trip() {
    let mut t = InstalledBlenderVersionRepository::new();
    let mut b = build("b1", "/opt/a/blender-launcher.exe", "/opt/a");
    b.download_url = Some("https://example.org/b.zip".to_string());
    assert_eq!(t.insert(build("b0", "/opt/z/blender-launcher.exe", "/opt/z")), Ok(true));
    assert_eq!(t.insert(b), Ok(true));
    let got = t.fetch(Some("b1"), None, None);
    assert_eq!(got.len(), 1);
    let r = &got[0];
    assert_eq!(r.id, "b1");
    assert_eq!(r.version, "4.1.0");
    assert_eq!(r.variant_type, "stable");
    assert_eq!(r.download_url, Some("https://example.org/b.zip".to_string()));
    assert!(!r.is_default);
    assert_eq!(r.installation_directory_path, "/opt/a");
    assert_eq!(r.executable_file_path, "/opt/a/blender-launcher.exe");
    assert_eq!(r.created, "t0");
}

#[test]
fn same_executable_path_inserted_twice_keeps_one_build() {
    let mut t = InstalledBlenderVersionRepository::new();
    assert_eq!(t.insert(build("b1", "/opt/a/blender-launcher.exe", "/opt/a")), Ok(true));
    assert_eq!(t.insert(build("b2", "/opt/a/blender-launcher.exe", "/opt/a")), Ok(false));
    assert_eq!(t.fetch(None, None, Some("/opt/a/blender-launcher.exe")).len(), 1);
    assert_eq!(t.len(), 1);
}

#[test]
fn same_project_path_inserted_twice_keeps_one_file() {
    let mut t = ProjectFileRepository::new();
    let now = "t1".to_string();
    assert_eq!(insert_blend_file(&mut t, "/p/a.blend", Some("a.blend"), &"f1".to_string(), &now), Ok(()));
    assert_eq!(insert_blend_file(&mut t, "/p/a.blend", Some("a.blend"), &"f2".to_string(), &now), Ok(()));
    let rows = t.fetch(None, None, Some("/p/a.blend"));
    assert_eq!(rows.len(), 1);
    assert_eq!(rows[0].id, "f1");
    assert_eq!(rows[0].associated_series_json, "[]");
}

#[test]
fn same_argument_string_inserted_twice_keeps_one_set() {
    let mut t = LaunchArgumentRepository::new();
    let a = insert_launch_argument(&mut t, "--factory-startup", None, None, &"a1".to_string(), &"t1".to_string());
    let b = insert_launch_argument(&mut t, "--factory-startup", Some("f9"), None, &"a2".to_string(), &"t2".to_string());
    assert_eq!(a, Ok("a1".to_string()));
    assert_eq!(b, Ok("a1".to_string()));
    assert_eq!(t.len(), 1);
    let row = &t.fetch(Some("a1"), None, None)[0];
    assert_eq!(row.accessed, "t2");
    assert_eq!(row.modified, "t2");
    assert_eq!(row.created, "t1");
}

#[test]
fn same_script_path_inserted_twice_keeps_one_script() {
    let mut t = PythonScriptRepository::new();
    let a = insert_python_script(&mut t, "/tmp/s.py", &"s1".to_string(), &"t1".to_string()).unwrap();
    let b = insert_python_script(&mut t, "/tmp/s.py", &"s2".to_string(), &"t2".to_string()).unwrap();
    assert_eq!(a.id, "s1");
    assert_eq!(b.id, "s1");
    assert_eq!(t.len(), 1);
    assert_eq!(t.fetch(None, None, None)[0].accessed, "t2");
}

#[test]
fn insert_with_used_id_is_refused() {
    let mut t = InstalledBlenderVersionRepository::new();
    assert_eq!(t.insert(build("b1", "/a/x", "/a")), Ok(true));
    assert_eq!(t.insert(build("b1", "/b/x", "/b")), Err(StoreError::DuplicateId));
    assert_eq!(t.len(), 1);
}

#[test]
fn fetch_honours_id_then_limit_then_key() {
    let mut t = InstalledBlenderVersionRepository::new();
    for (i, p) in ["/a/x", "/b/x", "/c/x"].iter().enumerate() {
        t.insert(build(&format!("b{}", i), p, "/")).unwrap();
    }
    assert_eq!(t.fetch(Some("b2"), Some(1), Some("/a/x"))[0].id, "b2");
    let limited = t.fetch(None, Some(2), Some("/c/x"));
    assert_eq!(limited.iter().map(|r| r.id.as_str()).collect::<Vec<_>>(), vec!["b0", "b1"]);
    assert_eq!(t.fetch(None, None, Some("/b/x"))[0].id, "b1");
    assert_eq!(t.fetch(None, None, None).len(), 3);
    assert_eq!(t.fetch(None, Some(-1), None).len(), 3);
    assert_eq!(t.fetch(None, Some(10), None).len(), 3);
    assert_eq!(t.fetch(None, Some(0), None).len(), 0);
    assert!(t.fetch(Some("nope"), None, None).is_empty());
}

#[test]
fn update_rewrites_fields_and_times() {
    let mut t = InstalledBlenderVersionRepository::new();
    t.insert(build("b1", "/a/x", "/a")).unwrap();
    let mut e = build("b1", "/a/y", "/a2");
    e.version = "4.2.0".to_string();
    e.created = "ignored".to_string();
    assert_eq!(t.update(&e, &"t9".to_string()), Ok(()));
    let r = &t.fetch(Some("b1"), None, None)[0];
    assert_eq!(r.version, "4.2.0");
    assert_eq!(r.executable_file_path, "/a/y");
    assert_eq!(r.installation_directory_path, "/a2");
    assert_eq!(r.created, "t0");
    assert_eq!(r.modified, "t9");
    assert_eq!(r.accessed, "t9");
}

#[test]
fn update_of_unknown_id_changes_nothing() {
    let mut t = InstalledBlenderVersionRepository::new();
    t.insert(build("b1", "/a/x", "/a")).unwrap();
    assert_eq!(t.update(&build("zz", "/q", "/q"), &"t9".to_string()), Ok(()));
    assert_eq!(t.len(), 1);
    assert_eq!(t.fetch(None, None, None)[0].modified, "t0");
}

#[test]
fn update_onto_another_rows_key_is_refused() {
    let mut t = InstalledBlenderVersionRepository::new();
    t.insert(build("b1", "/a/x", "/a")).unwrap();
    t.insert(build("b2", "/b/x", "/b")).unwrap();
    assert_eq!(t.update(&build("b2", "/a/x", "/b"), &"t9".to_string()), Err(StoreError::DuplicateKey));
    assert_eq!(t.fetch(Some("b2"), None, None)[0].executable_file_path, "/b/x");
}

#[test]
fn delete_removes_only_that_row() {
    let mut t = InstalledBlenderVersionRepository::new();
    t.insert(build("b1", "/a/x", "/a")).unwrap();
    t.insert(build("b2", "/b/x", "/b")).unwrap();
    t.delete("b1");
    t.delete("missing");
    let ids: Vec<String> = t.fetch(None, None, None).into_iter().map(|r| r.id).collect();
    assert_eq!(ids, vec!["b2".to_string()]);
}

#[test]
fn set_default_leaves_only_the_target_flagged() {
    let mut t = BlenderRepoPathRepository::new();
    t.insert(root("r1", "/a", true)).unwrap();
    t.insert(root("r2", "/b", true)).unwrap();
    t.insert(root("r3", "/c", false)).unwrap();
    assert_eq!(set_default(&mut t, "r3", true, &"t5".to_string()), Ok(()));
    assert_eq!(
        defaults_of(&t),
        vec![("r1".to_string(), false), ("r2".to_string(), false), ("r3".to_string(), true)]
    );
    assert_eq!(t.fetch(Some("r3"), None, None)[0].modified, "t5");
    assert_eq!(set_default(&mut t, "r1", true, &"t6".to_string()), Ok(()));
    assert_eq!(defaults_of(&t).iter().filter(|(_, d)| *d).count(), 1);
    assert_eq!(set_default(&mut t, "r1", false, &"t7".to_string()), Ok(()));
    assert_eq!(defaults_of(&t).iter().filter(|(_, d)| *d).count(), 0);
}

#[test]
fn set_default_rewrites_only_changed_rows() {
    let mut t = BlenderRepoPathRepository::new();
    t.insert(root("r1", "/a", false)).unwrap();
    t.insert(root("r2", "/b", true)).unwrap();
    set_default(&mut t, "r2", true, &"t5".to_string()).unwrap();
    assert_eq!(t.fetch(Some("r1"), None, None)[0].modified, "t0");
    assert_eq!(t.fetch(Some("r2"), None, None)[0].modified, "t0");
}

#[test]
fn set_default_of_unknown_id_clears_every_flag() {
    let mut t = BlenderRepoPathRepository::new();
    t.insert(root("r1", "/a", true)).unwrap();
    t.insert(root("r2", "/b", false)).unwrap();
    assert_eq!(set_default(&mut t, "nope", true, &"t5".to_string()), Ok(()));
    assert!(defaults_of(&t).iter().all(|(_, d)| !*d));
}

#[test]
fn clearing_unknown_id_is_not_found() {
    let mut t = BlenderRepoPathRepository::new();
    t.insert(root("r1", "/a", true)).unwrap();
    assert_eq!(set_default(&mut t, "nope", false, &"t5".to_string()), Err(CommandError::NotFound));
    assert_eq!(defaults_of(&t), vec![("r1".to_string(), true)]);
}
