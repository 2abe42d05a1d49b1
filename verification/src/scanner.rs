//! The recursive scanner: walks a directory-tree snapshot depth first,
//! skips hidden and infrastructure folders, evaluates every surviving
//! folder with the validator, the sidecar reader and the staleness
//! comparator, and accumulates the scan result.

use vstd::prelude::*;

use crate::breadcrumbs::BreadcrumbsView;
use crate::codec::spec_parse_breadcrumbs;
use crate::fstree::{FsDir, dir_size, find_file, has_subdir, sat_u64};
use crate::staleness::spec_is_stale;
use crate::strutil::contains_seq;
use crate::validator::{camera_count, sat_i32, spec_is_valid, spec_validation_errors};

verus! {

/// Milliseconds that must pass between two progress notifications.
pub const PROGRESS_UPDATE_INTERVAL_MS: u64 = 100;

/// A scan-time snapshot of one visited folder.
#[derive(Debug, Clone, PartialEq)]
pub struct ProjectFolder {
    pub path: String,
    pub name: String,
    pub is_valid: bool,
    pub has_breadcrumbs: bool,
    pub stale_breadcrumbs: bool,
    pub last_scanned: String,
    pub camera_count: i32,
    pub validation_errors: Vec<String>,
    pub invalid_breadcrumbs: bool,
}

/// Abstract value of a [`ProjectFolder`].
pub ghost struct ProjectFolderView {
    pub path: Seq<char>,
    pub name: Seq<char>,
    pub is_valid: bool,
    pub has_breadcrumbs: bool,
    pub stale_breadcrumbs: bool,
    pub last_scanned: Seq<char>,
    pub camera_count: int,
    pub validation_errors: Seq<Seq<char>>,
    pub invalid_breadcrumbs: bool,
}

impl View for ProjectFolder {
    type V = ProjectFolderView;

    open spec fn view(&self) -> ProjectFolderView {
        ProjectFolderView {
            path: self.path@,
            name: self.name@,
            is_valid: self.is_valid,
            has_breadcrumbs: self.has_breadcrumbs,
            stale_breadcrumbs: self.stale_breadcrumbs,
            last_scanned: self.last_scanned@,
            camera_count: self.camera_count as int,
            validation_errors: self.validation_errors@.map_values(|s: String| s@),
            invalid_breadcrumbs: self.invalid_breadcrumbs,
        }
    }
}

/// One filesystem error recorded during a scan.
#[derive(Debug, Clone, PartialEq, Eq)]
pub struct ScanError {
    pub path: String,
    pub kind: String,
    pub message: String,
    pub timestamp: String,
}

/// Abstract value of a [`ScanError`].
pub ghost struct ScanErrorView {
    pub path: Seq<char>,
    pub kind: Seq<char>,
    pub message: Seq<char>,
    pub timestamp: Seq<char>,
}

impl View for ScanError {
    type V = ScanErrorView;

    open spec fn view(&self) -> ScanErrorView {
        ScanErrorView {
            path: self.path@,
            kind: self.kind@,
            message: self.message@,
            timestamp: self.timestamp@,
        }
    }
}

/// Caller-supplied scan configuration.
#[derive(Debug, Clone, PartialEq, Eq)]
pub struct ScanOptions {
    /// Greatest recursion depth; must be at least one.
    pub max_depth: i32,
    /// Whether to descend into hidden (dot-prefixed) folders.
    pub include_hidden: bool,
    /// Whether a batch update creates missing sidecars.
    pub create_missing: bool,
    /// Whether a batch update backs up a sidecar before overwriting it.
    pub backup_originals: bool,
}

/// One full scan run.
#[derive(Debug, Clone, PartialEq)]
pub struct ScanResult {
    pub start_time: String,
    pub end_time: Option<String>,
    pub root_path: String,
    pub total_folders: i32,
    pub valid_projects: i32,
    pub updated_breadcrumbs: i32,
    pub created_breadcrumbs: i32,
    pub total_folder_size: u64,
    pub errors: Vec<ScanError>,
    pub projects: Vec<ProjectFolder>,
}

/// Abstract value of a [`ScanResult`].
pub ghost struct ScanResultView {
    pub start_time: Seq<char>,
    pub end_time: Option<Seq<char>>,
    pub root_path: Seq<char>,
    pub total_folders: int,
    pub valid_projects: int,
    pub updated_breadcrumbs: int,
    pub created_breadcrumbs: int,
    pub total_folder_size: u64,
    pub errors: Seq<ScanErrorView>,
    pub projects: Seq<ProjectFolderView>,
}

impl View for ScanResult {
    type V = ScanResultView;

    open spec fn view(&self) -> ScanResultView {
        ScanResultView {
            start_time: self.start_time@,
            end_time: crate::media::opt_str_view(&self.end_time),
            root_path: self.root_path@,
            total_folders: self.total_folders as int,
            valid_projects: self.valid_projects as int,
            updated_breadcrumbs: self.updated_breadcrumbs as int,
            created_breadcrumbs: self.created_breadcrumbs as int,
            total_folder_size: self.total_folder_size,
            errors: self.errors@.map_values(|e: ScanError| e@),
            projects: self.projects@.map_values(|p: ProjectFolder| p@),
        }
    }
}

/// A progress notification payload.
#[derive(Debug, Clone, PartialEq, Eq)]
pub struct ScanProgressEvent {
    pub scan_id: String,
    pub folders_scanned: i32,
    pub total_folders: i32,
    pub current_path: String,
    pub projects_found: i32,
}

/// Decides whether enough time has passed since the last progress
/// notification that a new one is due.
pub fn should_emit_progress(elapsed_ms: u64) -> (r: bool)
    ensures
        r == (elapsed_ms >= PROGRESS_UPDATE_INTERVAL_MS),
{
    elapsed_ms >= PROGRESS_UPDATE_INTERVAL_MS
}

/// The names that mark infrastructure directories a scan never
/// descends into.
pub open spec fn skip_patterns() -> Seq<Seq<char>> {
    seq![
        "node_modules"@,
        ".git"@,
        ".svn"@,
        ".hg"@,
        "vendor"@,
        "build"@,
        "dist"@,
        "target"@,
        ".cache"@,
        "tmp"@,
        "temp"@,
        "__pycache__"@,
        ".DS_Store"@,
    ]
}

/// A directory is skipped when its name contains any of the
/// infrastructure markers.
pub open spec fn spec_should_skip(name: Seq<char>) -> bool {
    exists|i: int| 0 <= i < skip_patterns().len() && contains_seq(name, #[trigger] skip_patterns()[i])
}

/// Decides whether a directory name marks an infrastructure directory
/// that the scan skips.
pub fn should_skip_directory(name: &str) -> (r: bool)
    ensures
        r == spec_should_skip(name@),
{
    let chars = crate::strutil::to_char_vec(name);
    let r = crate::strutil::contains_chars(&chars, "node_modules") || crate::strutil::contains_chars(
        &chars,
        ".git",
    ) || crate::strutil::contains_chars(&chars, ".svn") || crate::strutil::contains_chars(
        &chars,
        ".hg",
    ) || crate::strutil::contains_chars(&chars, "vendor") || crate::strutil::contains_chars(
        &chars,
        "build",
    ) || crate::strutil::contains_chars(&chars, "dist") || crate::strutil::contains_chars(
        &chars,
        "target",
    ) || crate::strutil::contains_chars(&chars, ".cache") || crate::strutil::contains_chars(
        &chars,
        "tmp",
    ) || crate::strutil::contains_chars(&chars, "temp") || crate::strutil::contains_chars(
        &chars,
        "__pycache__",
    ) || crate::strutil::contains_chars(&chars, ".DS_Store");
    proof {
        if r {
            assert(spec_should_skip(name@)) by {
                if contains_seq(name@, "node_modules"@) {
                    assert(skip_patterns()[0] == "node_modules"@);
                } else if contains_seq(name@, ".git"@) {
                    assert(skip_patterns()[1] == ".git"@);
                } else if contains_seq(name@, ".svn"@) {
                    assert(skip_patterns()[2] == ".svn"@);
                } else if contains_seq(name@, ".hg"@) {
                    assert(skip_patterns()[3] == ".hg"@);
                } else if contains_seq(name@, "vendor"@) {
                    assert(skip_patterns()[4] == "vendor"@);
                } else if contains_seq(name@, "build"@) {
                    assert(skip_patterns()[5] == "build"@);
                } else if contains_seq(name@, "dist"@) {
                    assert(skip_patterns()[6] == "dist"@);
                } else if contains_seq(name@, "target"@) {
                    assert(skip_patterns()[7] == "target"@);
                } else if contains_seq(name@, ".cache"@) {
                    assert(skip_patterns()[8] == ".cache"@);
                } else if contains_seq(name@, "tmp"@) {
                    assert(skip_patterns()[9] == "tmp"@);
                } else if contains_seq(name@, "temp"@) {
                    assert(skip_patterns()[10] == "temp"@);
                } else if contains_seq(name@, "__pycache__"@) {
                    assert(skip_patterns()[11] == "__pycache__"@);
                } else {
                    assert(skip_patterns()[12] == ".DS_Store"@);
                }
            }
        } else {
            assert(!spec_should_skip(name@)) by {
                assert(forall|i: int|
                    0 <= i < skip_patterns().len() ==> !contains_seq(
                        name@,
                        #[trigger] skip_patterns()[i],
                    ));
            }
        }
    }
    r
}

/// The sidecar of a folder, when one exists and parses.
pub open spec fn parsed_breadcrumbs(d: FsDir) -> Option<BreadcrumbsView> {
    match find_file(d, "breadcrumbs.json"@) {
        Some(f) => match f.content {
            Some(text) => spec_parse_breadcrumbs(text@),
            None => None,
        },
        None => None,
    }
}

/// A folder has breadcrumbs when the sidecar file exists and parses.
pub open spec fn spec_has_breadcrumbs(d: FsDir) -> bool {
    parsed_breadcrumbs(d) is Some
}

/// A folder has invalid breadcrumbs when the sidecar file exists but
/// cannot be read or parsed — a state distinct from having none.
pub open spec fn spec_invalid_breadcrumbs(d: FsDir) -> bool {
    match find_file(d, "breadcrumbs.json"@) {
        Some(f) => match f.content {
            Some(text) => spec_parse_breadcrumbs(text@) is None,
            None => true,
        },
        None => false,
    }
}

/// A folder's sidecar is reported stale when it exists, parses, and the
/// staleness comparator finds it out of date; a missing or unparseable
/// sidecar is never stale.
pub open spec fn spec_stale_breadcrumbs(d: FsDir) -> bool {
    match parsed_breadcrumbs(d) {
        Some(b) => spec_is_stale(b, d),
        None => false,
    }
}

/// How one visited folder is recorded.
pub open spec fn folder_eval(d: FsDir, path: Seq<char>, now: Seq<char>) -> ProjectFolderView {
    ProjectFolderView {
        path: path,
        name: d.name@,
        is_valid: spec_is_valid(d),
        has_breadcrumbs: spec_has_breadcrumbs(d),
        stale_breadcrumbs: spec_stale_breadcrumbs(d),
        last_scanned: now,
        camera_count: sat_i32(camera_count(d)) as int,
        validation_errors: spec_validation_errors(d),
        invalid_breadcrumbs: spec_invalid_breadcrumbs(d),
    }
}

/// Evaluates one folder: validity, camera count, sidecar state and
/// staleness.
pub fn evaluate_folder(d: &FsDir, path: String, now: &str) -> (r: ProjectFolder)
    ensures
        r@ == folder_eval(*d, path@, now@),
{
    let validation = crate::validator::validate_project_folder(Some(d));
    let parsed = match crate::fstree::find_file_exec(d, "breadcrumbs.json") {
        Some(f) => match f.content.as_ref() {
            Some(text) => crate::codec::parse_breadcrumbs(text.as_str()),
            None => None,
        },
        None => None,
    };
    let invalid_breadcrumbs = match crate::fstree::find_file_exec(d, "breadcrumbs.json") {
        Some(f) => match f.content.as_ref() {
            Some(_) => parsed.is_none(),
            None => true,
        },
        None => false,
    };
    let (has_breadcrumbs, stale_breadcrumbs) = match parsed.as_ref() {
        Some(b) => (true, crate::staleness::is_stale(b, d)),
        None => (false, false),
    };
    ProjectFolder {
        path,
        name: d.name.clone(),
        is_valid: validation.is_valid,
        has_breadcrumbs,
        stale_breadcrumbs,
        last_scanned: now.to_owned(),
        camera_count: validation.camera_count,
        validation_errors: validation.errors,
        invalid_breadcrumbs,
    }
}

/// The running totals of a walk.
pub ghost struct ScanAcc {
    pub total_folders: int,
    pub valid_projects: int,
    pub total_size: u64,
    pub projects: Seq<ProjectFolderView>,
}

/// What a 32-bit counter does on one more item: counts it while it
/// fits.
pub open spec fn sat_inc(n: int) -> int {
    if n >= i32::MAX {
        n
    } else {
        n + 1
    }
}

/// The path of a child folder: the parent's path, a separator, the
/// child's name.
pub open spec fn child_path(prefix: Seq<char>, name: Seq<char>) -> Seq<char> {
    prefix + "/"@ + name
}

/// A folder is recorded when it is a valid project or carries a
/// sidecar, valid or invalid.
pub open spec fn should_record(d: FsDir) -> bool {
    spec_is_valid(d) || spec_has_breadcrumbs(d) || spec_invalid_breadcrumbs(d)
}

/// An unrecorded folder is descended into only when it has validation
/// errors and holds neither a `Footage` nor a `Graphics` sub-folder —
/// a partially built project skeleton is a dead end.
pub open spec fn should_recurse(d: FsDir) -> bool {
    !should_record(d) && spec_validation_errors(d).len() > 0 && !has_subdir(d, "Footage"@)
        && !has_subdir(d, "Graphics"@)
}

/// Recording one folder: the valid-project counter moves when it is
/// valid, its size joins the running total, and its record is appended.
pub open spec fn record_folder(d: FsDir, path: Seq<char>, now: Seq<char>, acc: ScanAcc) -> ScanAcc {
    ScanAcc {
        total_folders: acc.total_folders,
        valid_projects: if spec_is_valid(d) {
            sat_inc(acc.valid_projects)
        } else {
            acc.valid_projects
        },
        total_size: crate::fstree::sat_add_u64(acc.total_size, sat_u64(dir_size(d))),
        projects: acc.projects.push(folder_eval(d, path, now)),
    }
}

/// Visiting a directory at a given depth: nothing beyond the depth
/// limit, otherwise its children in order.
pub open spec fn visit_dir(
    d: FsDir,
    depth: int,
    max_depth: int,
    include_hidden: bool,
    prefix: Seq<char>,
    now: Seq<char>,
    acc: ScanAcc,
) -> ScanAcc
    decreases d, 0int,
{
    if depth > max_depth {
        acc
    } else {
        visit_children(d.dirs@, depth, max_depth, include_hidden, prefix, now, acc)
    }
}

/// Visiting a directory's children, left to right.
pub open spec fn visit_children(
    ds: Seq<FsDir>,
    depth: int,
    max_depth: int,
    include_hidden: bool,
    prefix: Seq<char>,
    now: Seq<char>,
    acc: ScanAcc,
) -> ScanAcc
    decreases ds, 0int,
{
    if ds.len() == 0 {
        acc
    } else {
        visit_child(
            ds.last(),
            depth,
            max_depth,
            include_hidden,
            prefix,
            now,
            visit_children(ds.drop_last(), depth, max_depth, include_hidden, prefix, now, acc),
        )
    }
}

/// Visiting one child: hidden and infrastructure folders are skipped
/// without counting; every other folder is counted, then recorded, or
/// descended into, or left as a dead end.
pub open spec fn visit_child(
    child: FsDir,
    depth: int,
    max_depth: int,
    include_hidden: bool,
    prefix: Seq<char>,
    now: Seq<char>,
    acc: ScanAcc,
) -> ScanAcc
    decreases child, 1int,
{
    if (!include_hidden && crate::staleness::is_hidden(child.name@)) || spec_should_skip(
        child.name@,
    ) {
        acc
    } else {
        let acc1 = ScanAcc { total_folders: sat_inc(acc.total_folders), ..acc };
        let path = child_path(prefix, child.name@);
        if should_record(child) {
            record_folder(child, path, now, acc1)
        } else if should_recurse(child) {
            visit_dir(child, depth + 1, max_depth, include_hidden, path, now, acc1)
        } else {
            acc1
        }
    }
}

/// A whole scan over a snapshot: the root folder is evaluated first,
/// exactly like any visited folder, then its children are walked depth
/// first.  The end stamp is set and the given read errors are carried
/// into the result.
pub open spec fn spec_scan(
    root: FsDir,
    root_path: Seq<char>,
    max_depth: int,
    include_hidden: bool,
    start_time: Seq<char>,
    now: Seq<char>,
    errors: Seq<ScanErrorView>,
) -> ScanResultView {
    let acc0 = ScanAcc { total_folders: 0, valid_projects: 0, total_size: 0, projects: Seq::empty() };
    let acc1 = if should_record(root) {
        record_folder(root, root_path, now, acc0)
    } else {
        acc0
    };
    let acc2 = visit_children(root.dirs@, 0, max_depth, include_hidden, root_path, now, acc1);
    ScanResultView {
        start_time: start_time,
        end_time: Some(now),
        root_path: root_path,
        total_folders: acc2.total_folders,
        valid_projects: acc2.valid_projects,
        updated_breadcrumbs: 0,
        created_breadcrumbs: 0,
        total_folder_size: acc2.total_size,
        errors: errors,
        projects: acc2.projects,
    }
}

/// The running totals of a walk, as the walk carries them.
pub struct ScanAccExec {
    pub total_folders: i32,
    pub valid_projects: i32,
    pub total_size: u64,
    pub projects: Vec<ProjectFolder>,
}

impl View for ScanAccExec {
    type V = ScanAcc;

    open spec fn view(&self) -> ScanAcc {
        ScanAcc {
            total_folders: self.total_folders as int,
            valid_projects: self.valid_projects as int,
            total_size: self.total_size,
            projects: self.projects@.map_values(|p: ProjectFolder| p@),
        }
    }
}

/// Counts one more item on a 32-bit counter, saturating.
fn sat_inc_exec(n: i32) -> (r: i32)
    requires
        n >= 0,
    ensures
        r == sat_inc(n as int),
{
    if n == i32::MAX {
        n
    } else {
        n + 1
    }
}

/// Walks one directory's children, executed.
fn visit_dir_exec(
    d: &FsDir,
    depth: i32,
    max_depth: i32,
    include_hidden: bool,
    prefix: &str,
    now: &str,
    acc: &mut ScanAccExec,
)
    requires
        0 <= depth,
        old(acc).total_folders >= 0,
        old(acc).valid_projects >= 0,
    ensures
        final(acc)@ == visit_dir(
            *d,
            depth as int,
            max_depth as int,
            include_hidden,
            prefix@,
            now@,
            old(acc)@,
        ),
        final(acc).total_folders >= 0,
        final(acc).valid_projects >= 0,
    decreases *d,
{
    if depth > max_depth {
        return ;
    }
    let ghost ds = d.dirs@;
    let ghost base = acc@;
    let mut i: usize = 0;
    while i < d.dirs.len()
        invariant
            ds == d.dirs@,
            i <= ds.len(),
            0 <= depth <= max_depth,
            acc.total_folders >= 0,
            acc.valid_projects >= 0,
            acc@ == visit_children(
                ds.take(i as int),
                depth as int,
                max_depth as int,
                include_hidden,
                prefix@,
                now@,
                base,
            ),
        decreases ds.len() - i,
    {
        proof {
            assert(ds.take(i + 1).drop_last() =~= ds.take(i as int));
            assert(ds.take(i + 1).last() == ds[i as int]);
        }
        let child = &d.dirs[i];
        let ghost acc_before = acc@;
        let name_chars = crate::strutil::to_char_vec(child.name.as_str());
        let hidden = crate::strutil::starts_with_chars(&name_chars, ".");
        proof {
            reveal_strlit(".");
            if hidden {
                assert(child.name@.subrange(0, 1)[0] == '.');
            }
            if crate::staleness::is_hidden(child.name@) {
                assert(child.name@.subrange(0, 1) =~= "."@);
            }
            assert(hidden == crate::staleness::is_hidden(child.name@));
        }
        let skip = should_skip_directory(child.name.as_str());
        if (!include_hidden && hidden) || skip {
            proof {
                assert(acc@ == visit_child(
                    ds[i as int],
                    depth as int,
                    max_depth as int,
                    include_hidden,
                    prefix@,
                    now@,
                    acc_before,
                ));
            }
        } else {
            acc.total_folders = sat_inc_exec(acc.total_folders);
            let ghost acc1 = acc@;
            let mut path = prefix.to_owned();
            path.append("/");
            path.append(child.name.as_str());
            proof {
                assert(path@ == child_path(prefix@, child.name@));
            }
            let eval = evaluate_folder(child, path, now);
            if eval.is_valid || eval.has_breadcrumbs || eval.invalid_breadcrumbs {
                if eval.is_valid {
                    acc.valid_projects = sat_inc_exec(acc.valid_projects);
                }
                let size = crate::fstree::compute_dir_size(child);
                acc.total_size = acc.total_size.saturating_add(size);
                let ghost pv = eval@;
                acc.projects.push(eval);
                proof {
                    broadcast use Seq::lemma_push_map_commute;

                    assert(acc@.projects =~= acc1.projects.push(pv));
                    assert(acc@ == record_folder(
                        ds[i as int],
                        child_path(prefix@, child.name@),
                        now@,
                        acc1,
                    ));
                }
            } else {
                let has_f = crate::validator::has_subdir_exec(child, "Footage");
                let has_g = crate::validator::has_subdir_exec(child, "Graphics");
                if !has_f && !has_g {
                    if depth < max_depth {
                        let child_prefix = {
                            let mut p = prefix.to_owned();
                            p.append("/");
                            p.append(child.name.as_str());
                            p
                        };
                        visit_dir_exec(
                            child,
                            depth + 1,
                            max_depth,
                            include_hidden,
                            child_prefix.as_str(),
                            now,
                            acc,
                        );
                    } else {
                        proof {
                            assert(visit_dir(
                                ds[i as int],
                                depth + 1,
                                max_depth as int,
                                include_hidden,
                                child_path(prefix@, child.name@),
                                now@,
                                acc1,
                            ) == acc1);
                        }
                    }
                }
            }
            proof {
                assert(acc@ == visit_child(
                    ds[i as int],
                    depth as int,
                    max_depth as int,
                    include_hidden,
                    prefix@,
                    now@,
                    acc_before,
                ));
            }
        }
        i += 1;
        proof {
            assert(acc@ == visit_children(
                ds.take(i as int),
                depth as int,
                max_depth as int,
                include_hidden,
                prefix@,
                now@,
                base,
            ));
        }
    }
    proof {
        assert(ds.take(ds.len() as int) =~= ds);
    }
}

/// Scans a whole snapshot: evaluates the root folder itself, then
/// walks its children depth first, skipping hidden folders unless asked
/// otherwise and never descending into infrastructure directories or
/// beneath recorded projects.  `errors` carries whatever the snapshot
/// reader could not read; the walk itself adds none.
pub fn scan_tree(
    root: &FsDir,
    root_path: &str,
    options: &ScanOptions,
    start_time: &str,
    now: &str,
    errors: Vec<ScanError>,
) -> (r: ScanResult)
    requires
        options.max_depth >= 1,
    ensures
        r@ == spec_scan(
            *root,
            root_path@,
            options.max_depth as int,
            options.include_hidden,
            start_time@,
            now@,
            errors@.map_values(|e: ScanError| e@),
        ),
{
    let mut acc = ScanAccExec {
        total_folders: 0,
        valid_projects: 0,
        total_size: 0,
        projects: Vec::new(),
    };
    proof {
        assert(acc@.projects =~= Seq::<ProjectFolderView>::empty());
    }
    let eval = evaluate_folder(root, root_path.to_owned(), now);
    let ghost acc0 = acc@;
    if eval.is_valid || eval.has_breadcrumbs || eval.invalid_breadcrumbs {
        if eval.is_valid {
            acc.valid_projects = sat_inc_exec(acc.valid_projects);
        }
        let size = crate::fstree::compute_dir_size(root);
        acc.total_size = acc.total_size.saturating_add(size);
        let ghost pv = eval@;
        acc.projects.push(eval);
        proof {
            broadcast use Seq::lemma_push_map_commute;

            assert(acc@.projects =~= acc0.projects.push(pv));
            assert(acc@ == record_folder(*root, root_path@, now@, acc0));
        }
    }
    visit_dir_exec(root, 0, options.max_depth, options.include_hidden, root_path, now, &mut acc);
    let r = ScanResult {
        start_time: start_time.to_owned(),
        end_time: Some(now.to_owned()),
        root_path: root_path.to_owned(),
        total_folders: acc.total_folders,
        valid_projects: acc.valid_projects,
        updated_breadcrumbs: 0,
        created_breadcrumbs: 0,
        total_folder_size: acc.total_size,
        errors,
        projects: acc.projects,
    };
    r
}

/// Why a scan request was refused before any work started.
#[derive(Clone, Copy, Debug, PartialEq, Eq, Structural)]
pub enum ScanRequestError {
    /// The root path does not exist.
    RootMissing,
    /// The root path is not a directory.
    RootNotDirectory,
    /// The requested depth is below one.
    DepthTooSmall,
}

impl ScanRequestError {
    /// The human-readable message of this error.
    pub fn message(&self) -> (r: String)
        ensures
            r@ == self.spec_message(),
    {
        let s = match self {
            ScanRequestError::RootMissing => "Root path does not exist",
            ScanRequestError::RootNotDirectory => "Root path is not a directory",
            ScanRequestError::DepthTooSmall => "Max depth must be at least 1",
        };
        s.to_owned()
    }

    /// The character sequence [`Self::message`] returns.
    pub open spec fn spec_message(&self) -> Seq<char> {
        match self {
            ScanRequestError::RootMissing => "Root path does not exist"@,
            ScanRequestError::RootNotDirectory => "Root path is not a directory"@,
            ScanRequestError::DepthTooSmall => "Max depth must be at least 1"@,
        }
    }
}

/// Validates a scan request before any asynchronous work starts: the
/// root must exist and be a directory, and the depth must be at least
/// one.  The checks are made in that order and the first failure is
/// reported.
pub fn validate_scan_request(root_exists: bool, root_is_directory: bool, max_depth: i32) -> (r:
    Result<(), ScanRequestError>)
    ensures
        !root_exists ==> r == Err::<(), ScanRequestError>(ScanRequestError::RootMissing),
        root_exists && !root_is_directory ==> r == Err::<(), ScanRequestError>(
            ScanRequestError::RootNotDirectory,
        ),
        root_exists && root_is_directory && max_depth < 1 ==> r == Err::<(), ScanRequestError>(
            ScanRequestError::DepthTooSmall,
        ),
        root_exists && root_is_directory && max_depth >= 1 ==> r == Ok::<(), ScanRequestError>(()),
{
    if !root_exists {
        Err(ScanRequestError::RootMissing)
    } else if !root_is_directory {
        Err(ScanRequestError::RootNotDirectory)
    } else if max_depth < 1 {
        Err(ScanRequestError::DepthTooSmall)
    } else {
        Ok(())
    }
}

} // verus!
