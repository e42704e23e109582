use blendio::error::CommandError;
use blendio::project_files::{
    new_project_file_arguments, delete_blend_file, insert_and_refresh_blend_files, insert_blend_file, merge_series,
    project_file_name, reconcile_manifest_entry, refresh_project_file_category, ManifestCategory,
    ManifestEntry,
};
use blendio::repository::ProjectFileRepository;

fn entry(path: &str, exists: bool) -> ManifestEntry {
    let name = path.rsplit('/').next().map(|s| s.to_string());
    ManifestEntry { file_path: path.to_string(), exists, file_name: name }
}

#[test]
fn series_are_merged_and_sorted() {
    let list = vec!["4.2".to_string(), "3.6".to_string()];
    assert_eq!(merge_series(&list, "4.0"), Some(vec!["3.6".to_string(), "4.0".to_string(), "4.2".to_string()]));
    assert_eq!(merge_series(&list, "3.6"), None);
    assert_eq!(merge_series(&vec![], "4.1"), Some(vec!["4.1".to_string()]));
}

#[test]
fn new_file_on_disk_gets_a_row_tagged_with_its_category() {
    let mut files = ProjectFileRepository::new();
    let r = reconcile_manifest_entry(&mut files, "4.1", &entry("/p/a.blend", true), &"f1".to_string(), &"t".to_string());
    assert_eq!(r, Ok(true));
    let row = &files.fetch(None, None, Some("/p/a.blend"))[0];
    assert_eq!(row.associated_series_json, "[\"4.1\"]");
    assert_eq!(row.file_name, "a.blend");
}

#[test]
fn known_file_gains_the_category() {
    let mut files = ProjectFileRepository::new();
    reconcile_manifest_entry(&mut files, "4.1", &entry("/p/a.blend", true), &"f1".to_string(), &"t".to_string()).unwrap();
    reconcile_manifest_entry(&mut files, "3.6", &entry("/p/a.blend", true), &"f2".to_string(), &"t2".to_string()).unwrap();
    reconcile_manifest_entry(&mut files, "4.1", &entry("/p/a.blend", true), &"f3".to_string(), &"t3".to_string()).unwrap();
    let rows = files.fetch(None, None, None);
    assert_eq!(rows.len(), 1);
    assert_eq!(rows[0].associated_series_json, "[\"3.6\",\"4.1\"]");
    assert_eq!(rows[0].modified, "t2");
}

#[test]
fn file_gone_from_disk_loses_row_and_line() {
    let mut files = ProjectFileRepository::new();
    insert_blend_file(&mut files, "/p/gone.blend", Some("gone.blend"), &"f1".to_string(), &"t".to_string()).unwrap();
    let r = reconcile_manifest_entry(&mut files, "4.1", &entry("/p/gone.blend", false), &"f2".to_string(), &"t".to_string());
    assert_eq!(r, Ok(false));
    assert_eq!(files.len(), 0);
}

#[test]
fn unreadable_series_list_is_reported() {
    let mut files = ProjectFileRepository::new();
    insert_blend_file(&mut files, "/p/a.blend", Some("a.blend"), &"f1".to_string(), &"t".to_string()).unwrap();
    let mut row = files.fetch(Some("f1"), None, None).remove(0);
    row.associated_series_json = "not json".to_string();
    files.update(&row, &"t".to_string()).unwrap();
    let r = reconcile_manifest_entry(&mut files, "4.1", &entry("/p/a.blend", true), &"f2".to_string(), &"t".to_string());
    assert_eq!(r, Err(CommandError::InvalidSeriesList));
}

#[test]
fn path_without_file_name_is_reported() {
    let mut files = ProjectFileRepository::new();
    let e = ManifestEntry { file_path: "/".to_string(), exists: true, file_name: None };
    assert_eq!(reconcile_manifest_entry(&mut files, "4.1", &e, &"f".to_string(), &"t".to_string()), Err(CommandError::NoFileName));
    assert_eq!(insert_blend_file(&mut files, "/", None, &"f".to_string(), &"t".to_string()), Err(CommandError::NoFileName));
}

#[test]
fn category_list_keeps_only_files_on_disk() {
    let mut files = ProjectFileRepository::new();
    let entries = vec![entry("/p/a.blend", true), entry("/p/b.blend", false), entry("/p/c.blend", true)];
    let ids = vec!["f1".to_string(), "f2".to_string(), "f3".to_string()];
    let text = refresh_project_file_category(&mut files, "4.1", &entries, &ids, &"t".to_string()).unwrap();
    assert_eq!(text, "/p/a.blend\n/p/c.blend\n");
    assert_eq!(files.len(), 2);
}

#[test]
fn full_refresh_then_sweep() {
    let mut files = ProjectFileRepository::new();
    insert_blend_file(&mut files, "/p/old.blend", Some("old.blend"), &"f0".to_string(), &"t".to_string()).unwrap();
    let cats = vec![
        ManifestCategory { series: "4.1".to_string(), entries: vec![entry("/p/a.blend", true)], ids: vec!["f1".to_string()] },
        ManifestCategory { series: "3.6".to_string(), entries: vec![entry("/p/a.blend", true), entry("/p/x.blend", false)], ids: vec!["f2".to_string(), "f3".to_string()] },
    ];
    let texts = insert_and_refresh_blend_files(&mut files, &cats, &vec!["/p/old.blend".to_string()], &"t".to_string()).unwrap();
    assert_eq!(texts, vec!["/p/a.blend\n".to_string(), "/p/a.blend\n".to_string()]);
    let rows = files.fetch(None, None, None);
    assert_eq!(rows.len(), 1);
    assert_eq!(rows[0].associated_series_json, "[\"3.6\",\"4.1\"]");
}

#[test]
fn delete_gives_the_removed_file() {
    let mut files = ProjectFileRepository::new();
    insert_blend_file(&mut files, "/p/a.blend", Some("a.blend"), &"f1".to_string(), &"t".to_string()).unwrap();
    assert_eq!(delete_blend_file(&mut files, "f1").unwrap().file_path, "/p/a.blend");
    assert_eq!(delete_blend_file(&mut files, "f1").err(), Some(CommandError::NotFound));
}

#[test]
fn project_names_end_in_blend() {
    assert_eq!(project_file_name("scene"), "scene.blend");
    assert_eq!(project_file_name("scene.blend"), "scene.blend");
    assert_eq!(project_file_name(""), ".blend");
}

#[test]
fn new_project_arguments_save_the_file() {
    let args = new_project_file_arguments("/p/scene.blend");
    assert_eq!(args[0], "--background");
    assert_eq!(args[1], "--python-expr");
    assert_eq!(
        args[2],
        "\nimport bpy\nblend_file_path=r\"/p/scene.blend\"\nbpy.ops.wm.save_as_mainfile(filepath=blend_file_path)\n"
    );
}

#[test]
fn refresh_stops_at_the_first_failing_line() {
    let mut files = ProjectFileRepository::new();
    let cats = vec![ManifestCategory {
        series: "4.1".to_string(),
        entries: vec![entry("/p/a.blend", true), ManifestEntry { file_path: "/".to_string(), exists: true, file_name: None }, entry("/p/c.blend", true)],
        ids: vec!["f1".to_string(), "f2".to_string(), "f3".to_string()],
    }];
    let r = insert_and_refresh_blend_files(&mut files, &cats, &vec![], &"t".to_string());
    assert_eq!(r, Err(CommandError::NoFileName));
    assert_eq!(files.len(), 1);
}
