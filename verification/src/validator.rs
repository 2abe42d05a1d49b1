//! The project validator: decides whether a folder is a valid production
//! project.  A valid project has the five required sub-folders and at
//! least one `Camera *` folder under `Footage`; every missing piece is
//! reported, not just the first.

use vstd::prelude::*;

use crate::fstree::{FsDir, find_subdir, has_subdir};
use crate::strutil::occurs_at;

verus! {

/// The names of the five sub-folders every project must have.
pub open spec fn required_subfolders() -> Seq<Seq<char>> {
    seq!["Footage"@, "Graphics"@, "Renders"@, "Projects"@, "Scripts"@]
}

/// The error reported for one missing required sub-folder.
pub open spec fn missing_error(name: Seq<char>) -> Seq<char> {
    "Missing required subfolder: "@ + name
}

/// The error reported when `Footage` holds no camera folder.
pub open spec fn zero_camera_error() -> Seq<char> {
    "No Camera folders found in Footage directory"@
}

/// The error reported for a folder that does not exist.
pub open spec fn missing_folder_error() -> Seq<char> {
    "Folder does not exist"@
}

/// Holds when a directory counts as a camera folder: its name starts
/// with `Camera `.
pub open spec fn is_camera_dir(d: FsDir) -> bool {
    occurs_at(d.name@, "Camera "@, 0)
}

/// Number of camera folders in a directory list.
pub open spec fn count_camera_dirs(ds: Seq<FsDir>) -> int
    decreases ds.len(),
{
    if ds.len() == 0 {
        0
    } else {
        count_camera_dirs(ds.drop_last()) + if is_camera_dir(ds.last()) {
            1int
        } else {
            0int
        }
    }
}

/// Number of camera folders under the `Footage` sub-folder of `d`; zero
/// when there is no `Footage` sub-folder.
pub open spec fn camera_count(d: FsDir) -> int {
    match find_subdir(d, "Footage"@) {
        Some(f) => count_camera_dirs(f.dirs@),
        None => 0,
    }
}

/// The error segment one required sub-folder contributes: its missing
/// error when it is absent, nothing when it is present.
pub open spec fn missing_segment(d: FsDir, name: Seq<char>) -> Seq<Seq<char>> {
    if !has_subdir(d, name) {
        seq![missing_error(name)]
    } else {
        Seq::empty()
    }
}

/// The errors for the missing required sub-folders, in their fixed
/// order.
pub open spec fn spec_missing_errors(d: FsDir) -> Seq<Seq<char>> {
    missing_segment(d, "Footage"@) + missing_segment(d, "Graphics"@) + missing_segment(
        d,
        "Renders"@,
    ) + missing_segment(d, "Projects"@) + missing_segment(d, "Scripts"@)
}

/// The complete, ordered error list of the validator for an existing
/// folder: one entry for each missing required sub-folder, in their
/// fixed order, then the zero-camera error when `Footage` holds no
/// camera folder.
pub open spec fn spec_validation_errors(d: FsDir) -> Seq<Seq<char>> {
    if camera_count(d) == 0 {
        spec_missing_errors(d).push(zero_camera_error())
    } else {
        spec_missing_errors(d)
    }
}

/// A folder is a valid project exactly when the validator reports no
/// error.
pub open spec fn spec_is_valid(d: FsDir) -> bool {
    spec_validation_errors(d).len() == 0
}

/// What a 32-bit counter reports for an unbounded count: the count while
/// it fits, the maximum after that.
pub open spec fn sat_i32(n: int) -> i32
    recommends
        n >= 0,
{
    if n > i32::MAX {
        i32::MAX
    } else {
        n as i32
    }
}

/// The outcome of validating one folder.
#[derive(Debug, Clone, PartialEq, Eq)]
pub struct FolderValidation {
    /// The folder is a valid production project.
    pub is_valid: bool,
    /// Every validation error, in order.
    pub errors: Vec<String>,
    /// Number of `Camera *` folders under `Footage`, reported whatever
    /// the validity.
    pub camera_count: i32,
}

/// Decides whether `d` has a subdirectory with the given name.
pub fn has_subdir_exec(d: &FsDir, name: &str) -> (r: bool)
    ensures
        r == has_subdir(*d, name@),
{
    let ghost ds = d.dirs@;
    let mut i: usize = 0;
    while i < d.dirs.len()
        invariant
            ds == d.dirs@,
            i <= ds.len(),
            crate::fstree::first_dir_named(ds, name@, 0) == crate::fstree::first_dir_named(
                ds,
                name@,
                i as int,
            ),
        decreases ds.len() - i,
    {
        if crate::strutil::str_eq(d.dirs[i].name.as_str(), name) {
            proof {
                assert(crate::fstree::first_dir_named(ds, name@, i as int) == Some(i as int));
            }
            return true;
        }
        i += 1;
    }
    false
}

/// Finds the index of the first subdirectory of `d` with the given name.
pub fn find_subdir_index(d: &FsDir, name: &str) -> (r: Option<usize>)
    ensures
        match r {
            Some(i) => crate::fstree::subdir_index(*d, name@) == Some(i as int) && i
                < d.dirs@.len(),
            None => crate::fstree::subdir_index(*d, name@) is None,
        },
{
    let ghost ds = d.dirs@;
    let mut i: usize = 0;
    while i < d.dirs.len()
        invariant
            ds == d.dirs@,
            i <= ds.len(),
            crate::fstree::first_dir_named(ds, name@, 0) == crate::fstree::first_dir_named(
                ds,
                name@,
                i as int,
            ),
        decreases ds.len() - i,
    {
        if crate::strutil::str_eq(d.dirs[i].name.as_str(), name) {
            proof {
                assert(crate::fstree::first_dir_named(ds, name@, i as int) == Some(i as int));
            }
            return Some(i);
        }
        i += 1;
    }
    None
}

/// Counts the camera folders in a directory list.
fn count_camera_dirs_exec(ds: &Vec<FsDir>) -> (r: usize)
    ensures
        r == count_camera_dirs(ds@),
{
    let mut count: usize = 0;
    let mut i: usize = 0;
    while i < ds.len()
        invariant
            i <= ds@.len(),
            count <= i,
            count == count_camera_dirs(ds@.subrange(0, i as int)),
        decreases ds@.len() - i,
    {
        proof {
            assert(ds@.subrange(0, i + 1).drop_last() =~= ds@.subrange(0, i as int));
            assert(ds@.subrange(0, i + 1).last() == ds@[i as int]);
        }
        if crate::strutil::str_starts_with(ds[i].name.as_str(), "Camera ") {
            count += 1;
        }
        i += 1;
    }
    proof {
        assert(ds@.subrange(0, ds@.len() as int) =~= ds@);
    }
    count
}

/// Validates one project folder, handed as `None` when the path does not
/// exist on disk.  All five required sub-folders are checked — the error
/// list enumerates every missing one — and the camera folders under
/// `Footage` are counted whatever the validity.
pub fn validate_project_folder(dir: Option<&FsDir>) -> (r: FolderValidation)
    ensures
        match dir {
            None => {
                &&& !r.is_valid
                &&& r.errors@.map_values(|s: String| s@) == seq![missing_folder_error()]
                &&& r.camera_count == 0
            },
            Some(d) => {
                &&& r.is_valid == spec_is_valid(*d)
                &&& r.errors@.map_values(|s: String| s@) == spec_validation_errors(*d)
                &&& r.camera_count == sat_i32(camera_count(*d))
            },
        },
{
    broadcast use Seq::lemma_push_map_commute;

    let d = match dir {
        None => {
            let mut errors: Vec<String> = Vec::new();
            errors.push("Folder does not exist".to_owned());
            proof {
                assert(errors@.map_values(|s: String| s@) =~= seq![missing_folder_error()]);
            }
            return FolderValidation { is_valid: false, errors, camera_count: 0 };
        },
        Some(d) => d,
    };
    let mut errors: Vec<String> = Vec::new();
    if !has_subdir_exec(d, "Footage") {
        errors.push("Missing required subfolder: Footage".to_owned());
        proof {
            reveal_strlit("Missing required subfolder: Footage");
            reveal_strlit("Missing required subfolder: ");
            reveal_strlit("Footage");
            assert("Missing required subfolder: Footage"@ =~= missing_error("Footage"@));
        }
    }
    proof {
        let ghost e1 = missing_segment(*d, "Footage"@);
        assert(errors@.map_values(|s: String| s@) =~= e1);
    }
    if !has_subdir_exec(d, "Graphics") {
        errors.push("Missing required subfolder: Graphics".to_owned());
        proof {
            reveal_strlit("Missing required subfolder: Graphics");
            reveal_strlit("Missing required subfolder: ");
            reveal_strlit("Graphics");
            assert("Missing required subfolder: Graphics"@ =~= missing_error("Graphics"@));
        }
    }
    proof {
        let ghost e2 = missing_segment(*d, "Footage"@) + missing_segment(*d, "Graphics"@);
        assert(errors@.map_values(|s: String| s@) =~= e2);
    }
    if !has_subdir_exec(d, "Renders") {
        errors.push("Missing required subfolder: Renders".to_owned());
        proof {
            reveal_strlit("Missing required subfolder: Renders");
            reveal_strlit("Missing required subfolder: ");
            reveal_strlit("Renders");
            assert("Missing required subfolder: Renders"@ =~= missing_error("Renders"@));
        }
    }
    proof {
        let ghost e3 = missing_segment(*d, "Footage"@) + missing_segment(*d, "Graphics"@)
            + missing_segment(*d, "Renders"@);
        assert(errors@.map_values(|s: String| s@) =~= e3);
    }
    if !has_subdir_exec(d, "Projects") {
        errors.push("Missing required subfolder: Projects".to_owned());
        proof {
            reveal_strlit("Missing required subfolder: Projects");
            reveal_strlit("Missing required subfolder: ");
            reveal_strlit("Projects");
            assert("Missing required subfolder: Projects"@ =~= missing_error("Projects"@));
        }
    }
    proof {
        let ghost e4 = missing_segment(*d, "Footage"@) + missing_segment(*d, "Graphics"@)
            + missing_segment(*d, "Renders"@) + missing_segment(*d, "Projects"@);
        assert(errors@.map_values(|s: String| s@) =~= e4);
    }
    if !has_subdir_exec(d, "Scripts") {
        errors.push("Missing required subfolder: Scripts".to_owned());
        proof {
            reveal_strlit("Missing required subfolder: Scripts");
            reveal_strlit("Missing required subfolder: ");
            reveal_strlit("Scripts");
            assert("Missing required subfolder: Scripts"@ =~= missing_error("Scripts"@));
        }
    }
    proof {
        assert(errors@.map_values(|s: String| s@) =~= spec_missing_errors(*d));
    }
    let camera_total = match find_subdir_index(d, "Footage") {
        Some(i) => count_camera_dirs_exec(&d.dirs[i].dirs),
        None => 0,
    };
    if camera_total == 0 {
        errors.push("No Camera folders found in Footage directory".to_owned());
    }
    let camera_count_i32: i32 = if camera_total > i32::MAX as usize {
        i32::MAX
    } else {
        camera_total as i32
    };
    let is_valid = errors.len() == 0;
    proof {
        assert(errors@.map_values(|s: String| s@) =~= spec_validation_errors(*d));
    }
    FolderValidation { is_valid, errors, camera_count: camera_count_i32 }
}

/// Every missing required sub-folder is enumerated: when the `j`-th
/// required sub-folder is absent, the validator's error list contains
/// its error, whatever else is missing.
pub proof fn lemma_missing_subfolders_all_reported(d: FsDir, j: int)
    requires
        0 <= j < required_subfolders().len(),
        !has_subdir(d, required_subfolders()[j]),
    ensures
        spec_validation_errors(d).contains(missing_error(required_subfolders()[j])),
{
    broadcast use lemma_concat_contains;

    let name = required_subfolders()[j];
    let e = missing_error(name);
    assert(missing_segment(d, name)[0] == e);
    assert(missing_segment(d, name).contains(e));
    if j == 0 {
        assert(name == "Footage"@);
    } else if j == 1 {
        assert(name == "Graphics"@);
    } else if j == 2 {
        assert(name == "Renders"@);
    } else if j == 3 {
        assert(name == "Projects"@);
    } else {
        assert(name == "Scripts"@);
    }
    assert(spec_missing_errors(d).contains(e));
    if camera_count(d) == 0 {
        let m = spec_missing_errors(d);
        let k = choose|k: int| 0 <= k < m.len() && m[k] == e;
        assert(m.push(zero_camera_error())[k] == e);
        assert(spec_validation_errors(d).contains(e));
    }
}

/// An element of either part of a concatenation is an element of the
/// concatenation.
pub broadcast proof fn lemma_concat_contains<A>(s1: Seq<A>, s2: Seq<A>, x: A)
    requires
        s1.contains(x) || s2.contains(x),
    ensures
        #[trigger] (s1 + s2).contains(x),
{
    if s1.contains(x) {
        let i = choose|i: int| 0 <= i < s1.len() && s1[i] == x;
        assert((s1 + s2)[i] == x);
    } else {
        let i = choose|i: int| 0 <= i < s2.len() && s2[i] == x;
        assert((s1 + s2)[s1.len() + i] == x);
    }
}

/// A folder with no camera folder under `Footage` is never valid: the
/// zero-camera error is reported even when all five required sub-folders
/// exist.
pub proof fn lemma_zero_cameras_never_valid(d: FsDir)
    requires
        camera_count(d) == 0,
    ensures
        spec_validation_errors(d).contains(zero_camera_error()),
        !spec_is_valid(d),
{
    let missing = spec_missing_errors(d);
    assert(spec_validation_errors(d) == missing.push(zero_camera_error()));
    assert(spec_validation_errors(d)[missing.len() as int] == zero_camera_error());
}

} // verus!
