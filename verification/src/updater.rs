//! The sidecar updater: decides, for each folder of a batch, whether its
//! sidecar is created, refreshed, skipped or refused, and builds the new
//! sidecar contents.  Every refresh appends the fixed audit suffix to
//! the creator field — once, never twice — and re-records the live
//! footage files and folder size.

use vstd::prelude::*;

use crate::breadcrumbs::{BreadcrumbsFile, BreadcrumbsView};
use crate::fstree::{FsDir, dir_size, sat_u64};
use crate::staleness::{live_files, scan_live_files};
use crate::strutil::occurs_at;
use crate::validator::{camera_count, sat_i32, spec_is_valid};

verus! {

/// The audit suffix an automated refresh appends to the creator field.
pub open spec fn update_suffix() -> Seq<char> {
    " - updated by Baker"@
}

/// Holds when `s` ends with `suffix`.
pub open spec fn ends_with(s: Seq<char>, suffix: Seq<char>) -> bool {
    s.len() >= suffix.len() && s.subrange(s.len() - suffix.len(), s.len() as int) == suffix
}

/// The creator field after a refresh: the audit suffix is appended
/// unless it is already there.
pub open spec fn with_update_suffix(created_by: Seq<char>) -> Seq<char> {
    if ends_with(created_by, update_suffix()) {
        created_by
    } else {
        created_by + update_suffix()
    }
}

/// Appending the audit suffix is idempotent: a second refresh leaves
/// the creator field unchanged, so the suffix is appended once, never
/// duplicated.
pub proof fn lemma_update_suffix_applied_once(created_by: Seq<char>)
    ensures
        with_update_suffix(with_update_suffix(created_by)) == with_update_suffix(created_by),
{
    let once = with_update_suffix(created_by);
    if !ends_with(created_by, update_suffix()) {
        assert((created_by + update_suffix()).subrange(
            once.len() - update_suffix().len(),
            once.len() as int,
        ) =~= update_suffix());
    }
}

/// A sidecar freshly created for a valid project: the folder's name as
/// title, its camera count, its live footage files in tree order, and
/// its size; created and scanned by the automated updater.
pub open spec fn spec_fresh_sidecar(d: FsDir, parent: Seq<char>, now: Seq<char>) -> BreadcrumbsView {
    BreadcrumbsView {
        project_title: d.name@,
        number_of_cameras: sat_i32(camera_count(d)) as int,
        files: live_files(d),
        parent_folder: parent,
        created_by: "Baker"@,
        creation_date_time: now,
        folder_size_bytes: Some(sat_u64(dir_size(d))),
        last_modified: Some(now),
        scanned_by: Some("Baker"@),
        trello_card_url: None,
        video_links: None,
        trello_cards: None,
    }
}

/// An existing sidecar after a refresh: the live footage files and
/// folder size are re-recorded, the audit suffix joins the creator
/// field, and the stamps are renewed; every other field is kept.
pub open spec fn spec_refreshed_sidecar(b: BreadcrumbsView, d: FsDir, now: Seq<char>) -> BreadcrumbsView {
    BreadcrumbsView {
        files: live_files(d),
        created_by: with_update_suffix(b.created_by),
        last_modified: Some(now),
        scanned_by: Some("Baker"@),
        folder_size_bytes: Some(sat_u64(dir_size(d))),
        ..b
    }
}

/// A refreshed or fresh sidecar records exactly the live state, so the
/// staleness check that follows an update reports `false`, and keeps
/// reporting `false` however often it is repeated while nothing
/// changes.
pub proof fn lemma_updated_sidecar_not_stale(b: BreadcrumbsView, d: FsDir, parent: Seq<char>, now: Seq<char>)
    ensures
        !crate::staleness::spec_is_stale(spec_fresh_sidecar(d, parent, now), d),
        !crate::staleness::spec_is_stale(spec_refreshed_sidecar(b, d, now), d),
{
    crate::staleness::lemma_fresh_sidecar_not_stale(spec_fresh_sidecar(d, parent, now), d);
    crate::staleness::lemma_fresh_sidecar_not_stale(spec_refreshed_sidecar(b, d, now), d);
}

/// Why one folder of a batch update was refused.
#[derive(Clone, Copy, Debug, PartialEq, Eq, Structural)]
pub enum UpdateRefusal {
    /// The folder does not exist on disk.
    MissingPath,
    /// The folder is not a valid project.
    InvalidStructure,
    /// A sidecar file exists but could not be read.
    UnreadableExisting,
}

impl UpdateRefusal {
    /// The human-readable message of this refusal.
    pub fn message(&self) -> (r: String)
        ensures
            r@ == self.spec_message(),
    {
        let s = match self {
            UpdateRefusal::MissingPath => "Path does not exist",
            UpdateRefusal::InvalidStructure => "Invalid project structure",
            UpdateRefusal::UnreadableExisting => "Failed to read existing breadcrumbs",
        };
        s.to_owned()
    }

    /// The character sequence [`Self::message`] returns.
    pub open spec fn spec_message(&self) -> Seq<char> {
        match self {
            UpdateRefusal::MissingPath => "Path does not exist"@,
            UpdateRefusal::InvalidStructure => "Invalid project structure"@,
            UpdateRefusal::UnreadableExisting => "Failed to read existing breadcrumbs"@,
        }
    }
}

/// What a batch update does with one folder.
#[derive(Debug)]
pub enum UpdatePlan {
    /// The folder is refused, with the reason.
    Refused(UpdateRefusal),
    /// The folder has no sidecar and none is to be created.
    Skip,
    /// The sidecar is written; `created` tells a creation from a
    /// refresh.
    Write { sidecar: BreadcrumbsFile, created: bool },
}

/// What a batch update does with one folder, abstractly.
pub ghost enum UpdatePlanView {
    Refused { reason: UpdateRefusal },
    Skip,
    Write { sidecar: BreadcrumbsView, created: bool },
}

/// Abstract value of an [`UpdatePlan`].
pub open spec fn plan_view(p: UpdatePlan) -> UpdatePlanView {
    match p {
        UpdatePlan::Refused(r) => UpdatePlanView::Refused { reason: r },
        UpdatePlan::Skip => UpdatePlanView::Skip,
        UpdatePlan::Write { sidecar, created } => UpdatePlanView::Write {
            sidecar: sidecar@,
            created,
        },
    }
}

/// The decision a batch update takes for one folder: a missing folder
/// is refused; a folder without a sidecar is skipped unless creation
/// was asked for; an invalid project is refused; an unreadable sidecar
/// is refused; a readable sidecar is refreshed, an unparseable or
/// missing one replaced by a fresh sidecar.
pub open spec fn spec_update_plan(
    dir: Option<FsDir>,
    parent: Seq<char>,
    create_missing: bool,
    now: Seq<char>,
) -> UpdatePlanView {
    match dir {
        None => UpdatePlanView::Refused { reason: UpdateRefusal::MissingPath },
        Some(d) => {
            let existing = crate::fstree::find_file(d, "breadcrumbs.json"@);
            if existing is None && !create_missing {
                UpdatePlanView::Skip
            } else if !spec_is_valid(d) {
                UpdatePlanView::Refused { reason: UpdateRefusal::InvalidStructure }
            } else {
                match existing {
                    None => UpdatePlanView::Write {
                        sidecar: spec_fresh_sidecar(d, parent, now),
                        created: true,
                    },
                    Some(f) => match f.content {
                        None => UpdatePlanView::Refused {
                            reason: UpdateRefusal::UnreadableExisting,
                        },
                        Some(text) => match crate::codec::spec_parse_breadcrumbs(text@) {
                            Some(b) => UpdatePlanView::Write {
                                sidecar: spec_refreshed_sidecar(b, d, now),
                                created: false,
                            },
                            None => UpdatePlanView::Write {
                                sidecar: spec_fresh_sidecar(d, parent, now),
                                created: false,
                            },
                        },
                    },
                }
            }
        },
    }
}

/// Decides whether the string `s` ends with `suffix`.
fn ends_with_exec(s: &str, suffix: &str) -> (r: bool)
    ensures
        r == ends_with(s@, suffix@),
{
    let chars = crate::strutil::to_char_vec(s);
    let n = suffix.unicode_len();
    if n > chars.len() {
        return false;
    }
    let start = chars.len() - n;
    let r = crate::strutil::occurs_at_from(&chars, suffix, start);
    proof {
        assert(occurs_at(s@, suffix@, s@.len() - suffix@.len()) == ends_with(s@, suffix@));
    }
    r
}

/// Builds the fresh sidecar of a valid project folder.
fn fresh_sidecar(d: &FsDir, parent: &str, now: &str) -> (r: BreadcrumbsFile)
    ensures
        r@ == spec_fresh_sidecar(*d, parent@, now@),
{
    let validation = crate::validator::validate_project_folder(Some(d));
    let files = scan_live_files(d);
    let size = crate::fstree::compute_dir_size(d);
    let r = BreadcrumbsFile {
        project_title: d.name.clone(),
        number_of_cameras: validation.camera_count,
        files,
        parent_folder: parent.to_owned(),
        created_by: "Baker".to_owned(),
        creation_date_time: now.to_owned(),
        folder_size_bytes: Some(size),
        last_modified: Some(now.to_owned()),
        scanned_by: Some("Baker".to_owned()),
        trello_card_url: None,
        video_links: None,
        trello_cards: None,
    };
    r
}

/// Refreshes an existing sidecar against the live folder.
fn refreshed_sidecar(mut b: BreadcrumbsFile, d: &FsDir, now: &str) -> (r: BreadcrumbsFile)
    ensures
        r@ == spec_refreshed_sidecar(b@, *d, now@),
{
    let ghost b0 = b@;
    b.files = scan_live_files(d);
    if !ends_with_exec(b.created_by.as_str(), " - updated by Baker") {
        let updated = b.created_by.clone().concat(" - updated by Baker");
        b.created_by = updated;
    }
    b.last_modified = Some(now.to_owned());
    b.scanned_by = Some("Baker".to_owned());
    b.folder_size_bytes = Some(crate::fstree::compute_dir_size(d));
    proof {
        assert(b@ == spec_refreshed_sidecar(b0, *d, now@));
    }
    b
}

/// Decides what a batch update does with one folder; see
/// [`spec_update_plan`].
pub fn plan_breadcrumbs_update(
    dir: Option<&FsDir>,
    parent: &str,
    create_missing: bool,
    now: &str,
) -> (r: UpdatePlan)
    ensures
        plan_view(r) == spec_update_plan(
            match dir {
                Some(d) => Some(*d),
                None => None,
            },
            parent@,
            create_missing,
            now@,
        ),
{
    let d = match dir {
        None => {
            return UpdatePlan::Refused(UpdateRefusal::MissingPath);
        },
        Some(d) => d,
    };
    let existing = crate::fstree::find_file_exec(d, "breadcrumbs.json");
    if existing.is_none() && !create_missing {
        return UpdatePlan::Skip;
    }
    let validation = crate::validator::validate_project_folder(Some(d));
    if !validation.is_valid {
        return UpdatePlan::Refused(UpdateRefusal::InvalidStructure);
    }
    match existing {
        None => UpdatePlan::Write { sidecar: fresh_sidecar(d, parent, now), created: true },
        Some(f) => match f.content.as_ref() {
            None => UpdatePlan::Refused(UpdateRefusal::UnreadableExisting),
            Some(text) => match crate::codec::parse_breadcrumbs(text.as_str()) {
                Some(b) => UpdatePlan::Write {
                    sidecar: refreshed_sidecar(b, d, now),
                    created: false,
                },
                None => UpdatePlan::Write {
                    sidecar: fresh_sidecar(d, parent, now),
                    created: false,
                },
            },
        },
    }
}

/// The outcome of a batch update.
#[derive(Debug, Clone, PartialEq, Eq)]
pub struct BatchUpdateResult {
    /// Paths whose sidecar was written.
    pub successful: Vec<String>,
    /// Paths that failed, each with its error.
    pub failed: Vec<FailedUpdate>,
    /// Paths whose sidecar was newly created.
    pub created: Vec<String>,
    /// Paths whose sidecar already existed and was refreshed.
    pub updated: Vec<String>,
}

/// One failed path of a batch update.
#[derive(Debug, Clone, PartialEq, Eq)]
pub struct FailedUpdate {
    pub path: String,
    pub error: String,
}

/// Abstract value of a [`BatchUpdateResult`].
pub ghost struct BatchUpdateResultView {
    pub successful: Seq<Seq<char>>,
    pub failed: Seq<(Seq<char>, Seq<char>)>,
    pub created: Seq<Seq<char>>,
    pub updated: Seq<Seq<char>>,
}

impl View for BatchUpdateResult {
    type V = BatchUpdateResultView;

    open spec fn view(&self) -> BatchUpdateResultView {
        BatchUpdateResultView {
            successful: self.successful@.map_values(|s: String| s@),
            failed: self.failed@.map_values(|f: FailedUpdate| (f.path@, f.error@)),
            created: self.created@.map_values(|s: String| s@),
            updated: self.updated@.map_values(|s: String| s@),
        }
    }
}

impl BatchUpdateResult {
    /// An empty outcome, before any path is processed.
    pub fn new() -> (r: BatchUpdateResult)
        ensures
            r@.successful == Seq::<Seq<char>>::empty(),
            r@.failed == Seq::<(Seq<char>, Seq<char>)>::empty(),
            r@.created == Seq::<Seq<char>>::empty(),
            r@.updated == Seq::<Seq<char>>::empty(),
    {
        let r = BatchUpdateResult {
            successful: Vec::new(),
            failed: Vec::new(),
            created: Vec::new(),
            updated: Vec::new(),
        };
        proof {
            assert(r@.successful =~= Seq::<Seq<char>>::empty());
            assert(r@.failed =~= Seq::<(Seq<char>, Seq<char>)>::empty());
            assert(r@.created =~= Seq::<Seq<char>>::empty());
            assert(r@.updated =~= Seq::<Seq<char>>::empty());
        }
        r
    }

    /// Records one written path: successful, and created or updated.
    pub fn record_success(&mut self, path: String, created: bool)
        ensures
            final(self)@.successful == old(self)@.successful.push(path@),
            final(self)@.failed == old(self)@.failed,
            created ==> final(self)@.created == old(self)@.created.push(path@)
                && final(self)@.updated == old(self)@.updated,
            !created ==> final(self)@.updated == old(self)@.updated.push(path@)
                && final(self)@.created == old(self)@.created,
    {
        proof {
            broadcast use Seq::lemma_push_map_commute;

        }
        let path2 = path.clone();
        self.successful.push(path);
        if created {
            self.created.push(path2);
        } else {
            self.updated.push(path2);
        }
        proof {
            assert(final(self)@.successful =~= old(self)@.successful.push(path@));
            if created {
                assert(final(self)@.created =~= old(self)@.created.push(path@));
            } else {
                assert(final(self)@.updated =~= old(self)@.updated.push(path@));
            }
        }
    }

    /// Records one failed path with its error.
    pub fn record_failure(&mut self, path: String, error: String)
        ensures
            final(self)@.failed == old(self)@.failed.push((path@, error@)),
            final(self)@.successful == old(self)@.successful,
            final(self)@.created == old(self)@.created,
            final(self)@.updated == old(self)@.updated,
    {
        let ghost pv = path@;
        let ghost ev = error@;
        self.failed.push(FailedUpdate { path, error });
        proof {
            broadcast use Seq::lemma_push_map_commute;

            assert(final(self)@.failed =~= old(self)@.failed.push((pv, ev)));
        }
    }
}

} // verus!
