//! The sidecar updater: creation, refresh, the append-once audit
//! suffix, skip and refusal decisions, and batch bookkeeping.

use baker::fstree::{FsDir, FsFile};
use baker::updater::{
    BatchUpdateResult, UpdatePlan, UpdateRefusal, plan_breadcrumbs_update,
};

fn file(name: &str, size: u64) -> FsFile {
    FsFile { name: name.to_string(), size, content: None }
}

fn dir(name: &str, files: Vec<FsFile>, dirs: Vec<FsDir>) -> FsDir {
    FsDir { name: name.to_string(), files, dirs }
}

fn project_tree(name: &str) -> FsDir {
    dir(
        name,
        vec![],
        vec![
            dir(
                "Footage",
                vec![],
                vec![dir("Camera 1", vec![file("a.mov", 4000)], vec![])],
            ),
            dir("Graphics", vec![], vec![]),
            dir("Renders", vec![], vec![]),
            dir("Projects", vec![], vec![]),
            dir("Scripts", vec![], vec![]),
        ],
    )
}

fn written(plan: UpdatePlan) -> (baker::breadcrumbs::BreadcrumbsFile, bool) {
    match plan {
        UpdatePlan::Write { sidecar, created } => (sidecar, created),
        _ => panic!("expected a write plan"),
    }
}

#[test]
fn missing_path_is_refused() {
    match plan_breadcrumbs_update(None, "/media", true, "t") {
        UpdatePlan::Refused(r) => {
            assert_eq!(r, UpdateRefusal::MissingPath);
            assert_eq!(r.message(), "Path does not exist");
        },
        _ => panic!("expected a refusal"),
    }
}

#[test]
fn missing_sidecar_skipped_unless_creation_requested() {
    let d = project_tree("proj");
    match plan_breadcrumbs_update(Some(&d), "/media", false, "t") {
        UpdatePlan::Skip => {},
        _ => panic!("expected a skip"),
    }
    let (sidecar, created) = written(plan_breadcrumbs_update(Some(&d), "/media", true, "t"));
    assert!(created);
    assert_eq!(sidecar.project_title, "proj");
    assert_eq!(sidecar.parent_folder, "/media");
    assert_eq!(sidecar.created_by, "Baker");
    assert_eq!(sidecar.number_of_cameras, 1);
    assert_eq!(sidecar.files.len(), 1);
    assert_eq!(sidecar.folder_size_bytes, Some(4000));
    assert_eq!(sidecar.scanned_by.as_deref(), Some("Baker"));
    assert_eq!(sidecar.last_modified.as_deref(), Some("t"));
}

#[test]
fn invalid_project_is_refused() {
    let d = dir("p", vec![], vec![]);
    match plan_breadcrumbs_update(Some(&d), "/media", true, "t") {
        UpdatePlan::Refused(r) => {
            assert_eq!(r, UpdateRefusal::InvalidStructure);
            assert_eq!(r.message(), "Invalid project structure");
        },
        _ => panic!("expected a refusal"),
    }
}

#[test]
fn unreadable_sidecar_is_refused() {
    let mut d = project_tree("proj");
    d.files.push(FsFile { name: "breadcrumbs.json".to_string(), size: 10, content: None });
    match plan_breadcrumbs_update(Some(&d), "/media", false, "t") {
        UpdatePlan::Refused(r) => {
            assert_eq!(r, UpdateRefusal::UnreadableExisting);
            assert_eq!(r.message(), "Failed to read existing breadcrumbs");
        },
        _ => panic!("expected a refusal"),
    }
}

#[test]
fn corrupted_sidecar_is_replaced_fresh() {
    let mut d = project_tree("proj");
    d.files.push(FsFile {
        name: "breadcrumbs.json".to_string(),
        size: 8,
        content: Some("not json".to_string()),
    });
    let (sidecar, created) = written(plan_breadcrumbs_update(Some(&d), "/media", false, "t"));
    // A corrupted sidecar is replaced, but counts as an update of an
    // existing file, not a creation.
    assert!(!created);
    assert_eq!(sidecar.created_by, "Baker");
}

#[test]
fn update_appends_suffix_once() {
    let mut d = project_tree("proj");
    let (first, created) = written(plan_breadcrumbs_update(Some(&d), "/media", true, "t1"));
    assert!(created);
    let mut existing = first;
    existing.created_by = "Alice".to_string();
    let text = baker::codec::serialize_breadcrumbs(&existing);
    d.files.push(FsFile {
        name: "breadcrumbs.json".to_string(),
        size: text.len() as u64,
        content: Some(text),
    });

    // First refresh: the audit suffix is appended.
    let (second, created2) = written(plan_breadcrumbs_update(Some(&d), "/media", false, "t2"));
    assert!(!created2);
    assert_eq!(second.created_by, "Alice - updated by Baker");
    assert_eq!(second.last_modified.as_deref(), Some("t2"));

    // Second refresh in a row: the suffix is appended once, not
    // duplicated.
    let text2 = baker::codec::serialize_breadcrumbs(&second);
    d.files.pop();
    d.files.push(FsFile {
        name: "breadcrumbs.json".to_string(),
        size: text2.len() as u64,
        content: Some(text2),
    });
    let (third, _) = written(plan_breadcrumbs_update(Some(&d), "/media", false, "t3"));
    assert_eq!(third.created_by, "Alice - updated by Baker");
}

#[test]
fn refresh_keeps_cards_and_videos() {
    let mut d = project_tree("proj");
    let (mut existing, _) = written(plan_breadcrumbs_update(Some(&d), "/media", true, "t1"));
    existing.trello_card_url = Some("https://trello.com/c/abcd1234/x".to_string());
    let text = baker::codec::serialize_breadcrumbs(&existing);
    d.files.push(FsFile {
        name: "breadcrumbs.json".to_string(),
        size: text.len() as u64,
        content: Some(text),
    });
    d.dirs[0].dirs[0].files.push(file("b.mov", 1000));
    let (refreshed, _) = written(plan_breadcrumbs_update(Some(&d), "/media", false, "t2"));
    // The file list was re-recorded, the card URL kept.
    assert_eq!(refreshed.files.len(), 2);
    assert_eq!(
        refreshed.trello_card_url.as_deref(),
        Some("https://trello.com/c/abcd1234/x")
    );
    assert_eq!(refreshed.creation_date_time, existing.creation_date_time);
}

#[test]
fn batch_result_bookkeeping() {
    let mut r = BatchUpdateResult::new();
    r.record_success("/a".to_string(), true);
    r.record_success("/b".to_string(), false);
    r.record_failure("/c".to_string(), "Path does not exist".to_string());
    assert_eq!(r.successful, vec!["/a".to_string(), "/b".to_string()]);
    assert_eq!(r.created, vec!["/a".to_string()]);
    assert_eq!(r.updated, vec!["/b".to_string()]);
    assert_eq!(r.failed.len(), 1);
    assert_eq!(r.failed[0].path, "/c");
    assert_eq!(r.failed[0].error, "Path does not exist");
}
