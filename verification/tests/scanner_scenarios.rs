//! Whole scans over snapshot trees: discovery of valid projects, the
//! sidecar flags, the skip rules, the depth limit, and the registry.

use baker::fstree::{FsDir, FsFile};
use baker::registry::{RegistryError, ScanState};
use baker::scanner::{
    ScanOptions, ScanRequestError, scan_tree, should_skip_directory, validate_scan_request,
};
use baker::updater::{UpdatePlan, plan_breadcrumbs_update};

fn file(name: &str, size: u64) -> FsFile {
    FsFile { name: name.to_string(), size, content: None }
}

fn dir(name: &str, files: Vec<FsFile>, dirs: Vec<FsDir>) -> FsDir {
    FsDir { name: name.to_string(), files, dirs }
}

fn project_tree(name: &str) -> FsDir {
    dir(
        name,
        vec![],
        vec![
            dir(
                "Footage",
                vec![],
                vec![dir("Camera 1", vec![file("a.mov", 4000)], vec![])],
            ),
            dir("Graphics", vec![], vec![]),
            dir("Renders", vec![], vec![]),
            dir("Projects", vec![], vec![]),
            dir("Scripts", vec![], vec![]),
        ],
    )
}

fn options(max_depth: i32, include_hidden: bool) -> ScanOptions {
    ScanOptions { max_depth, include_hidden, create_missing: false, backup_originals: false }
}

#[test]
fn scan_reports_valid_root_project() {
    // Root folder /proj with the five sub-folders, one camera folder
    // with one file, and no sidecar.
    let root = project_tree("proj");
    let r = scan_tree(&root, "/proj", &options(3, false), "t0", "t1", Vec::new());
    assert_eq!(r.projects.len(), 1);
    let p = &r.projects[0];
    assert_eq!(p.path, "/proj");
    assert!(p.is_valid);
    assert!(!p.has_breadcrumbs);
    assert!(!p.invalid_breadcrumbs);
    assert!(!p.stale_breadcrumbs);
    assert_eq!(p.camera_count, 1);
    assert_eq!(r.valid_projects, 1);
    assert_eq!(r.end_time.as_deref(), Some("t1"));
    assert_eq!(r.errors.len(), 0);
}

fn sidecar_text(d: &FsDir) -> String {
    match plan_breadcrumbs_update(Some(d), "/media", true, "tw") {
        UpdatePlan::Write { sidecar, .. } => baker::codec::serialize_breadcrumbs(&sidecar),
        _ => panic!("expected a write plan"),
    }
}

#[test]
fn scan_reports_fresh_sidecar_as_not_stale() {
    let mut root = project_tree("proj");
    let text = sidecar_text(&root);
    root.files.push(FsFile {
        name: "breadcrumbs.json".to_string(),
        size: text.len() as u64,
        content: Some(text),
    });
    let r = scan_tree(&root, "/proj", &options(3, false), "t0", "t1", Vec::new());
    assert_eq!(r.projects.len(), 1);
    let p = &r.projects[0];
    assert!(p.is_valid);
    assert!(p.has_breadcrumbs);
    assert!(!p.stale_breadcrumbs);
}

#[test]
fn scan_reports_stale_sidecar_after_new_file() {
    let mut root = project_tree("proj");
    let text = sidecar_text(&root);
    root.files.push(FsFile {
        name: "breadcrumbs.json".to_string(),
        size: text.len() as u64,
        content: Some(text),
    });
    // A new file appears after the sidecar was written: file-count
    // mismatch makes the sidecar stale.
    root.dirs[0].dirs[0].files.push(file("b.mov", 5000));
    let r = scan_tree(&root, "/proj", &options(3, false), "t0", "t1", Vec::new());
    assert_eq!(r.projects.len(), 1);
    assert!(r.projects[0].stale_breadcrumbs);
}

#[test]
fn scan_finds_nested_projects_and_stops_beneath_them() {
    // shows/season1 is a valid project; a folder beneath a recorded
    // project is never visited.
    let inner_extra = project_tree("hidden-inside");
    let mut season = project_tree("season1");
    season.dirs.push(inner_extra);
    let shows = dir("shows", vec![], vec![season]);
    let root = dir("root", vec![], vec![shows]);
    let r = scan_tree(&root, "/root", &options(5, false), "t0", "t1", Vec::new());
    assert_eq!(r.projects.len(), 1);
    assert_eq!(r.projects[0].path, "/root/shows/season1");
    assert_eq!(r.valid_projects, 1);
    // root, shows, season1 were counted; the project's own sub-folders
    // were not.
    assert_eq!(r.total_folders, 2);
}

#[test]
fn scan_skips_hidden_and_infrastructure_folders() {
    let mut hidden_project = project_tree(".archive");
    hidden_project.name = ".archive".to_string();
    let infra = dir("node_modules", vec![], vec![project_tree("dep")]);
    let root = dir("root", vec![], vec![hidden_project, infra]);
    let r = scan_tree(&root, "/root", &options(5, false), "t0", "t1", Vec::new());
    assert_eq!(r.projects.len(), 0);
    assert_eq!(r.total_folders, 0);

    // With hidden folders included, the dot-prefixed project is found.
    let r2 = scan_tree(&root, "/root", &options(5, true), "t0", "t1", Vec::new());
    assert_eq!(r2.projects.len(), 1);
    assert_eq!(r2.projects[0].path, "/root/.archive");
}

#[test]
fn scan_respects_depth_limit() {
    let deep = dir("a", vec![], vec![dir("b", vec![], vec![project_tree("proj")])]);
    let root = dir("root", vec![], vec![deep]);
    // The project sits at depth 3; a depth-1 scan never reaches it.
    let r = scan_tree(&root, "/root", &options(1, false), "t0", "t1", Vec::new());
    assert_eq!(r.projects.len(), 0);
    // A depth-3 scan finds it.
    let r2 = scan_tree(&root, "/root", &options(3, false), "t0", "t1", Vec::new());
    assert_eq!(r2.projects.len(), 1);
    assert_eq!(r2.projects[0].path, "/root/a/b/proj");
}

#[test]
fn scan_does_not_descend_into_partial_skeletons() {
    // A folder holding a Footage sub-folder but nothing else is a dead
    // end: not recorded, not descended into.
    let skeleton = dir(
        "half-built",
        vec![],
        vec![dir("Footage", vec![], vec![]), dir("stuff", vec![], vec![project_tree("p")])],
    );
    let root = dir("root", vec![], vec![skeleton]);
    let r = scan_tree(&root, "/root", &options(5, false), "t0", "t1", Vec::new());
    assert_eq!(r.projects.len(), 0);
}

#[test]
fn scan_accumulates_folder_sizes() {
    let root = project_tree("proj");
    let r = scan_tree(&root, "/proj", &options(3, false), "t0", "t1", Vec::new());
    assert_eq!(r.total_folder_size, 4000);
}

#[test]
fn should_skip_directory_matches_patterns() {
    assert!(should_skip_directory("node_modules"));
    assert!(should_skip_directory("my-node_modules-cache"));
    assert!(should_skip_directory(".git"));
    assert!(should_skip_directory("build"));
    assert!(should_skip_directory("__pycache__"));
    assert!(should_skip_directory(".DS_Store"));
    assert!(!should_skip_directory("Footage"));
    assert!(!should_skip_directory("Camera 1"));
    // The temp pattern matches by containment.
    assert!(should_skip_directory("my-temp-files"));
}

#[test]
fn scan_request_validation() {
    assert_eq!(
        validate_scan_request(false, false, 3).unwrap_err(),
        ScanRequestError::RootMissing
    );
    assert_eq!(
        validate_scan_request(true, false, 3).unwrap_err(),
        ScanRequestError::RootNotDirectory
    );
    assert_eq!(
        validate_scan_request(true, true, 0).unwrap_err(),
        ScanRequestError::DepthTooSmall
    );
    assert!(validate_scan_request(true, true, 1).is_ok());
    assert_eq!(
        ScanRequestError::RootMissing.message(),
        "Root path does not exist"
    );
    assert_eq!(
        ScanRequestError::DepthTooSmall.message(),
        "Max depth must be at least 1"
    );
}

#[test]
fn registry_stores_fetches_and_cancels() {
    let mut state = ScanState::new();
    let root = project_tree("proj");
    let mut result = scan_tree(&root, "/proj", &options(3, false), "t0", "t1", Vec::new());
    result.end_time = None;
    state.insert("scan-1".to_string(), result);

    assert_eq!(state.get("nope").unwrap_err(), RegistryError::NotFound);
    assert_eq!(RegistryError::NotFound.message(), "Scan ID not found");
    assert_eq!(state.get("scan-1").unwrap().end_time, None);

    // Cancelling stamps an end time on a running scan...
    assert!(state.cancel("scan-1", "t9").is_ok());
    assert_eq!(state.get("scan-1").unwrap().end_time.as_deref(), Some("t9"));
    // ...and an already-ended scan reports not-found, untouched.
    assert_eq!(state.cancel("scan-1", "t10").unwrap_err(), RegistryError::NotFound);
    assert_eq!(state.get("scan-1").unwrap().end_time.as_deref(), Some("t9"));
    assert_eq!(state.cancel("nope", "t9").unwrap_err(), RegistryError::NotFound);
}

#[test]
fn registry_insert_replaces_same_id() {
    let mut state = ScanState::new();
    let root = project_tree("proj");
    let r1 = scan_tree(&root, "/proj", &options(3, false), "t0", "t1", Vec::new());
    let r2 = scan_tree(&root, "/other", &options(3, false), "t2", "t3", Vec::new());
    state.insert("id".to_string(), r1);
    state.insert("id".to_string(), r2);
    assert_eq!(state.get("id").unwrap().root_path, "/other");
    assert_eq!(state.scans.len(), 1);
}
