//! The project validator and the staleness comparator, over snapshot
//! trees: every missing sub-folder is reported, zero cameras fail, and
//! the size threshold is sharp.

use baker::breadcrumbs::FileInfo;
use baker::codec::serialize_breadcrumbs;
use baker::fstree::{FsDir, FsFile, compute_dir_size};
use baker::staleness::{is_stale, scan_current_files, scan_live_files};
use baker::updater::{UpdatePlan, plan_breadcrumbs_update};
use baker::validator::validate_project_folder;

fn file(name: &str, size: u64) -> FsFile {
    FsFile { name: name.to_string(), size, content: None }
}

fn dir(name: &str, files: Vec<FsFile>, dirs: Vec<FsDir>) -> FsDir {
    FsDir { name: name.to_string(), files, dirs }
}

fn project_tree() -> FsDir {
    dir(
        "proj",
        vec![],
        vec![
            dir(
                "Footage",
                vec![],
                vec![dir("Camera 1", vec![file("a.mov", 4000)], vec![])],
            ),
            dir("Graphics", vec![], vec![]),
            dir("Renders", vec![], vec![]),
            dir("Projects", vec![], vec![]),
            dir("Scripts", vec![], vec![]),
        ],
    )
}

#[test]
fn valid_project_passes() {
    let v = validate_project_folder(Some(&project_tree()));
    assert!(v.is_valid);
    assert_eq!(v.errors.len(), 0);
    assert_eq!(v.camera_count, 1);
}

#[test]
fn missing_folder_reported_when_path_does_not_exist() {
    let v = validate_project_folder(None);
    assert!(!v.is_valid);
    assert_eq!(v.errors, vec!["Folder does not exist".to_string()]);
    assert_eq!(v.camera_count, 0);
}

#[test]
fn all_missing_subfolders_are_enumerated() {
    // Only Renders exists: the other four are each reported, and the
    // zero-camera error is additive.
    let d = dir("p", vec![], vec![dir("Renders", vec![], vec![])]);
    let v = validate_project_folder(Some(&d));
    assert!(!v.is_valid);
    assert_eq!(
        v.errors,
        vec![
            "Missing required subfolder: Footage".to_string(),
            "Missing required subfolder: Graphics".to_string(),
            "Missing required subfolder: Projects".to_string(),
            "Missing required subfolder: Scripts".to_string(),
            "No Camera folders found in Footage directory".to_string(),
        ]
    );
}

#[test]
fn zero_cameras_fail_even_with_all_subfolders() {
    let mut d = project_tree();
    // Empty the Footage folder: all five required sub-folders still
    // exist.
    d.dirs[0].dirs.clear();
    let v = validate_project_folder(Some(&d));
    assert!(!v.is_valid);
    assert_eq!(
        v.errors,
        vec!["No Camera folders found in Footage directory".to_string()]
    );
    assert_eq!(v.camera_count, 0);
}

#[test]
fn camera_count_ignores_other_footage_folders() {
    let mut d = project_tree();
    d.dirs[0].dirs.push(dir("Camera 2", vec![], vec![]));
    d.dirs[0].dirs.push(dir("Notes", vec![], vec![]));
    let v = validate_project_folder(Some(&d));
    assert_eq!(v.camera_count, 2);
    assert!(v.is_valid);
}

fn fresh_sidecar_of(d: &FsDir) -> baker::breadcrumbs::BreadcrumbsFile {
    match plan_breadcrumbs_update(Some(d), "/media", true, "2024-01-01T00:00:00Z") {
        UpdatePlan::Write { sidecar, .. } => sidecar,
        _ => panic!("expected a write plan"),
    }
}

#[test]
fn fresh_sidecar_is_not_stale_twice() {
    let d = project_tree();
    let b = fresh_sidecar_of(&d);
    // No filesystem change between two runs: false both times.
    assert!(!is_stale(&b, &d));
    assert!(!is_stale(&b, &d));
}

#[test]
fn size_delta_boundary_is_sharp() {
    let d = project_tree();
    let mut b = fresh_sidecar_of(&d);
    let live = compute_dir_size(&d);
    // A delta of exactly 1023 bytes is absorbed...
    b.folder_size_bytes = Some(live + 1023);
    assert!(!is_stale(&b, &d));
    // ...a delta of exactly 1024 bytes is stale.
    b.folder_size_bytes = Some(live + 1024);
    assert!(is_stale(&b, &d));
    // The boundary is symmetric where the recorded size is larger than
    // the delta.
    b.folder_size_bytes = Some(live + 1023);
    assert!(!is_stale(&b, &d));
    // A sidecar that records no size is never stale on account of
    // size.
    b.folder_size_bytes = None;
    assert!(!is_stale(&b, &d));
}

#[test]
fn added_file_makes_sidecar_stale() {
    let mut d = project_tree();
    let b = fresh_sidecar_of(&d);
    // A new file appears after the sidecar was written: count
    // mismatch.
    d.dirs[0].dirs[0].files.push(file("b.mov", 5000));
    assert!(is_stale(&b, &d));
}

#[test]
fn renamed_file_makes_sidecar_stale() {
    let mut d = project_tree();
    let b = fresh_sidecar_of(&d);
    d.dirs[0].dirs[0].files[0].name = "renamed.mov".to_string();
    assert!(is_stale(&b, &d));
}

#[test]
fn reordered_files_are_not_stale() {
    let mut d = project_tree();
    d.dirs[0].dirs[0].files.push(file("b.mov", 0));
    let b = fresh_sidecar_of(&d);
    // The same files in another enumeration order are no change.
    d.dirs[0].dirs[0].files.reverse();
    assert!(!is_stale(&b, &d));
}

#[test]
fn hidden_files_are_ignored() {
    let mut d = project_tree();
    let b = fresh_sidecar_of(&d);
    assert_eq!(b.files.len(), 1);
    d.dirs[0].dirs[0].files.push(file(".DS_Store", 100));
    let live = scan_live_files(&d);
    assert_eq!(live.len(), 1);
}

#[test]
fn scan_current_files_sorts_by_camera_then_name() {
    let d = dir(
        "p",
        vec![],
        vec![dir(
            "Footage",
            vec![],
            vec![
                dir(
                    "Camera 2",
                    vec![file("z.mov", 1), file("a.mov", 1)],
                    vec![],
                ),
                dir("Camera 1", vec![file("m.mov", 1)], vec![]),
            ],
        )],
    );
    let files = scan_current_files(&d);
    let keys: Vec<(i32, &str)> = files.iter().map(|f| (f.camera, f.name.as_str())).collect();
    assert_eq!(keys, vec![(1, "m.mov"), (2, "a.mov"), (2, "z.mov")]);
    assert_eq!(files[0].path, "Footage/Camera 1/m.mov");
}

#[test]
fn unparseable_sidecar_counts_as_invalid_not_stale() {
    let mut d = project_tree();
    d.files.push(FsFile {
        name: "breadcrumbs.json".to_string(),
        size: 9,
        content: Some("not json".to_string()),
    });
    let eval = baker::scanner::evaluate_folder(&d, "/proj".to_string(), "t");
    assert!(!eval.has_breadcrumbs);
    assert!(eval.invalid_breadcrumbs);
    assert!(!eval.stale_breadcrumbs);
}

#[test]
fn matching_sidecar_is_not_stale_through_the_codec() {
    let mut d = project_tree();
    let b = fresh_sidecar_of(&d);
    let text = serialize_breadcrumbs(&b);
    d.files.push(FsFile {
        name: "breadcrumbs.json".to_string(),
        size: text.len() as u64,
        content: Some(text),
    });
    // Adding the sidecar file itself changes the folder size by less
    // than the threshold here, so the folder stays fresh.
    let eval = baker::scanner::evaluate_folder(&d, "/proj".to_string(), "t");
    assert!(eval.has_breadcrumbs);
    assert!(!eval.invalid_breadcrumbs);
    assert!(!eval.stale_breadcrumbs);
}

#[test]
fn recorded_files_survive_the_codec() {
    let d = project_tree();
    let b = fresh_sidecar_of(&d);
    assert_eq!(
        b.files,
        vec![FileInfo {
            camera: 1,
            name: "a.mov".to_string(),
            path: "Footage/Camera 1/a.mov".to_string(),
        }]
    );
}

#[test]
fn camera_folder_names_parse_like_integers() {
    // `Camera 01` and `Camera 1` both carry camera number 1; a folder
    // whose suffix is not a number contributes no files.
    let d = dir(
        "p",
        vec![],
        vec![dir(
            "Footage",
            vec![],
            vec![
                dir("Camera 01", vec![file("a.mov", 1)], vec![]),
                dir("Camera x", vec![file("b.mov", 1)], vec![]),
                dir("Camera 2", vec![file("c.mov", 1)], vec![]),
            ],
        )],
    );
    let files = scan_current_files(&d);
    let keys: Vec<(i32, &str)> = files.iter().map(|f| (f.camera, f.name.as_str())).collect();
    assert_eq!(keys, vec![(1, "a.mov"), (2, "c.mov")]);
    // All three names start with `Camera `, so all three count as
    // camera folders for validation.
    let v = validate_project_folder(Some(&d));
    assert_eq!(v.camera_count, 3);
}
