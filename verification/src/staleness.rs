//! The staleness comparator: decides whether a project's sidecar is out
//! of date against the live file tree.  A sidecar is stale when the
//! recorded footage files no longer match the live ones — compared as
//! camera/name pairs, regardless of order — or when the recorded folder
//! size differs from the live one by at least the fixed threshold.

use vstd::prelude::*;
use vstd::relations::sorted_by;

use crate::STALE_SIZE_THRESHOLD_BYTES;
use crate::breadcrumbs::{BreadcrumbsFile, BreadcrumbsView, FileInfo, FileInfoView};
use crate::fstree::{FsDir, FsFile, dir_size, find_subdir, sat_u64};
use crate::numbers::parse_i32_spec;
use crate::order::{file_key, file_le, files_view, sort_file_infos};
use crate::strutil::occurs_at;

verus! {

/// The camera number of a footage sub-folder: its name must start with
/// `Camera ` and the rest must read as a 32-bit number.
pub open spec fn camera_number(name: Seq<char>) -> Option<i32> {
    if occurs_at(name, "Camera "@, 0) {
        parse_i32_spec(name.skip(7))
    } else {
        None
    }
}

/// A hidden name starts with a dot.
pub open spec fn is_hidden(name: Seq<char>) -> bool {
    name.len() > 0 && name[0] == '.'
}

/// The record of one live footage file: camera number, file name, and
/// the path relative to the project root.
pub open spec fn file_entry(cam_dir_name: Seq<char>, cam: i32, file_name: Seq<char>) -> FileInfoView {
    FileInfoView {
        camera: cam as int,
        name: file_name,
        path: "Footage/"@ + cam_dir_name + "/"@ + file_name,
    }
}

/// The records of the non-hidden files of one camera folder, in order.
pub open spec fn files_in_camera(fs: Seq<FsFile>, dir_name: Seq<char>, cam: i32) -> Seq<
    FileInfoView,
>
    decreases fs.len(),
{
    if fs.len() == 0 {
        Seq::empty()
    } else {
        files_in_camera(fs.drop_last(), dir_name, cam) + if is_hidden(fs.last().name@) {
            Seq::empty()
        } else {
            seq![file_entry(dir_name, cam, fs.last().name@)]
        }
    }
}

/// What one sub-folder of `Footage` contributes: the records of its
/// files when it is a camera folder, nothing otherwise.
pub open spec fn cam_contrib(d: FsDir) -> Seq<FileInfoView> {
    match camera_number(d.name@) {
        Some(n) => files_in_camera(d.files@, d.name@, n),
        None => Seq::empty(),
    }
}

/// The live footage records of a list of `Footage` sub-folders, in
/// order.
pub open spec fn live_files_of_cams(ds: Seq<FsDir>) -> Seq<FileInfoView>
    decreases ds.len(),
{
    if ds.len() == 0 {
        Seq::empty()
    } else {
        live_files_of_cams(ds.drop_last()) + cam_contrib(ds.last())
    }
}

/// Every live footage record of a project folder: the non-hidden files
/// of every `Camera *` folder under `Footage`, in tree order.
pub open spec fn live_files(root: FsDir) -> Seq<FileInfoView> {
    match find_subdir(root, "Footage"@) {
        Some(f) => live_files_of_cams(f.dirs@),
        None => Seq::empty(),
    }
}

/// The sort keys of a list of footage records.
pub open spec fn keys_of(fs: Seq<FileInfoView>) -> Seq<(int, Seq<char>)> {
    crate::order::view_keys(fs)
}

/// The absolute difference of two sizes.
pub open spec fn size_delta(a: u64, b: u64) -> u64 {
    if a > b {
        (a - b) as u64
    } else {
        (b - a) as u64
    }
}

/// When a sidecar is stale against the live tree: the recorded footage
/// files differ from the live ones as a collection of camera/name
/// pairs, or a recorded folder size differs from the live size by at
/// least [`STALE_SIZE_THRESHOLD_BYTES`].  A sidecar that records no
/// folder size is never stale on account of size.
pub open spec fn spec_is_stale(b: BreadcrumbsView, d: FsDir) -> bool {
    ||| keys_of(b.files).to_multiset() != keys_of(live_files(d)).to_multiset()
    ||| match b.folder_size_bytes {
        Some(recorded) => size_delta(sat_u64(dir_size(d)), recorded)
            >= STALE_SIZE_THRESHOLD_BYTES,
        None => false,
    }
}

/// Copies one footage record, keeping its abstract value.
pub fn clone_file_info(f: &FileInfo) -> (r: FileInfo)
    ensures
        r@ == f@,
{
    FileInfo { camera: f.camera, name: f.name.clone(), path: f.path.clone() }
}

/// Copies a list of footage records, keeping their abstract values.
pub fn clone_file_infos(v: &Vec<FileInfo>) -> (r: Vec<FileInfo>)
    ensures
        files_view(r@) == files_view(v@),
{
    let mut r: Vec<FileInfo> = Vec::new();
    let mut i: usize = 0;
    while i < v.len()
        invariant
            i <= v@.len(),
            files_view(r@) == files_view(v@).subrange(0, i as int),
        decreases v@.len() - i,
    {
        let ghost prev = r@;
        let f = clone_file_info(&v[i]);
        proof {
            broadcast use Seq::lemma_push_map_commute;

            assert(prev.map_values(|x: FileInfo| x@).len() == i as int);
            assert(prev.push(f).map_values(|x: FileInfo| x@) =~= files_view(v@).subrange(
                0,
                i + 1,
            ));
        }
        r.push(f);
        i += 1;
    }
    proof {
        assert(files_view(v@).subrange(0, v@.len() as int) =~= files_view(v@));
    }
    r
}

/// Reads every live footage record of `root`, in tree order: for each
/// `Camera *` folder under `Footage`, its non-hidden files.
pub fn scan_live_files(root: &FsDir) -> (r: Vec<FileInfo>)
    ensures
        files_view(r@) == live_files(*root),
{
    broadcast use Seq::lemma_push_map_commute;

    let mut r: Vec<FileInfo> = Vec::new();
    let footage_index = match crate::validator::find_subdir_index(root, "Footage") {
        Some(i) => i,
        None => {
            proof {
                assert(files_view(r@) =~= live_files(*root));
            }
            return r;
        },
    };
    let footage = &root.dirs[footage_index];
    let ghost cams = footage.dirs@;
    let mut i: usize = 0;
    while i < footage.dirs.len()
        invariant
            cams == footage.dirs@,
            i <= cams.len(),
            files_view(r@) == live_files_of_cams(cams.take(i as int)),
        decreases cams.len() - i,
    {
        proof {
            assert(cams.take(i + 1).drop_last() =~= cams.take(i as int));
            assert(cams.take(i + 1).last() == cams[i as int]);
        }
        let cam_dir = &footage.dirs[i];
        let name_chars = crate::strutil::to_char_vec(cam_dir.name.as_str());
        let is_camera = crate::strutil::starts_with_chars(&name_chars, "Camera ");
        if is_camera {
            proof {
                reveal_strlit("Camera ");
                assert(7 <= name_chars@.len());
            }
            if let Some(cam) = crate::numbers::parse_i32_chars(&name_chars, 7) {
                let ghost fs = cam_dir.files@;
                let ghost r_before = files_view(r@);
                let mut j: usize = 0;
                while j < cam_dir.files.len()
                    invariant
                        fs == cam_dir.files@,
                        j <= fs.len(),
                        camera_number(cam_dir.name@) == Some(cam),
                        files_view(r@) == r_before + files_in_camera(
                            fs.take(j as int),
                            cam_dir.name@,
                            cam,
                        ),
                    decreases fs.len() - j,
                {
                    proof {
                        assert(fs.take(j + 1).drop_last() =~= fs.take(j as int));
                        assert(fs.take(j + 1).last() == fs[j as int]);
                    }
                    let file = &cam_dir.files[j];
                    let fname_chars = crate::strutil::to_char_vec(file.name.as_str());
                    let hidden = crate::strutil::starts_with_chars(&fname_chars, ".");
                    proof {
                        reveal_strlit(".");
                        if hidden {
                            assert(file.name@.subrange(0, 1)[0] == '.');
                        }
                        if is_hidden(file.name@) {
                            assert(file.name@.subrange(0, 1) =~= "."@);
                        }
                        assert(hidden == is_hidden(file.name@));
                    }
                    if !hidden {
                        let mut path = String::from_str("Footage/");
                        path.append(cam_dir.name.as_str());
                        path.append("/");
                        path.append(file.name.as_str());
                        let entry = FileInfo { camera: cam, name: file.name.clone(), path };
                        proof {
                            assert(entry@ == file_entry(cam_dir.name@, cam, file.name@));
                            let ghost prev = r@;
                            assert(prev.push(entry).map_values(|x: FileInfo| x@) =~= files_view(
                                r@,
                            ).push(entry@));
                        }
                        let ghost prev_view = files_view(r@);
                        r.push(entry);
                        proof {
                            assert(files_view(r@) =~= prev_view.push(entry@));
                            assert(files_view(r@) =~= r_before + files_in_camera(
                                fs.take(j + 1),
                                cam_dir.name@,
                                cam,
                            ));
                        }
                    } else {
                        proof {
                            assert(files_in_camera(fs.take(j + 1), cam_dir.name@, cam)
                                =~= files_in_camera(fs.take(j as int), cam_dir.name@, cam));
                        }
                    }
                    j += 1;
                }
                proof {
                    assert(fs.take(fs.len() as int) =~= fs);
                    assert(files_view(r@) =~= live_files_of_cams(cams.take(i + 1)));
                }
            } else {
                proof {
                    assert(camera_number(cam_dir.name@) is None);
                    assert(files_view(r@) =~= live_files_of_cams(cams.take(i + 1)));
                }
            }
        } else {
            proof {
                reveal_strlit("Camera ");
                assert(camera_number(cam_dir.name@) is None);
                assert(files_view(r@) =~= live_files_of_cams(cams.take(i + 1)));
            }
        }
        i += 1;
    }
    proof {
        assert(cams.take(cams.len() as int) =~= cams);
        assert(find_subdir(*root, "Footage"@) == Some(root.dirs@[footage_index as int]));
    }
    r
}

/// Reads every live footage record of `root` and sorts it by camera
/// number, then file name: the library's view of what the sidecar
/// should record.
pub fn scan_current_files(root: &FsDir) -> (r: Vec<FileInfo>)
    ensures
        files_view(r@).to_multiset() == live_files(*root).to_multiset(),
        sorted_by(files_view(r@), file_le()),
{
    sort_file_infos(scan_live_files(root))
}

/// Decides whether the sidecar `b` is stale against the live tree
/// `root`; see [`spec_is_stale`].
pub fn is_stale(b: &BreadcrumbsFile, root: &FsDir) -> (r: bool)
    ensures
        r == spec_is_stale(b@, *root),
{
    broadcast use Seq::to_multiset_ensures;

    let ghost live_v = live_files(*root);
    let ghost rec_v = files_view(b.files@);
    let live_sorted = sort_file_infos(scan_live_files(root));
    let rec_sorted = sort_file_infos(clone_file_infos(&b.files));
    let ghost rk = crate::order::view_keys(files_view(rec_sorted@));
    let ghost lk = crate::order::view_keys(files_view(live_sorted@));
    proof {
        assert(b@.files == rec_v);
        assert(rk.to_multiset() == keys_of(rec_v).to_multiset());
        assert(lk.to_multiset() == keys_of(live_v).to_multiset());
    }
    if rec_sorted.len() != live_sorted.len() {
        proof {
            assert(rk.len() == rec_sorted@.len());
            assert(lk.len() == live_sorted@.len());
            assert(rk.to_multiset().len() != lk.to_multiset().len());
        }
        return true;
    }
    let n = rec_sorted.len();
    let mut i: usize = 0;
    while i < n
        invariant
            n == rec_sorted@.len(),
            n == live_sorted@.len(),
            i <= n,
            rec_v == b@.files,
            live_v == live_files(*root),
            rk == crate::order::view_keys(files_view(rec_sorted@)),
            lk == crate::order::view_keys(files_view(live_sorted@)),
            rk.to_multiset() == keys_of(rec_v).to_multiset(),
            lk.to_multiset() == keys_of(live_v).to_multiset(),
            sorted_by(files_view(rec_sorted@), file_le()),
            sorted_by(files_view(live_sorted@), file_le()),
            forall|j: int| 0 <= j < i ==> rk[j] == lk[j],
        decreases n - i,
    {
        let rf = &rec_sorted[i];
        let lf = &live_sorted[i];
        if rf.camera != lf.camera || !crate::strutil::str_eq(
            rf.name.as_str(),
            lf.name.as_str(),
        ) {
            proof {
                assert(rk[i as int] == crate::order::file_key(rec_sorted@[i as int]@));
                assert(lk[i as int] == crate::order::file_key(live_sorted@[i as int]@));
                assert(rk[i as int] != lk[i as int]);
                crate::order::lemma_key_leq_total_ordering();
                crate::order::lemma_sorted_files_sorted_keys(files_view(rec_sorted@));
                crate::order::lemma_sorted_files_sorted_keys(files_view(live_sorted@));
                if rk.to_multiset() == lk.to_multiset() {
                    vstd::seq_lib::lemma_sorted_unique(rk, lk, crate::order::key_le());
                }
            }
            return true;
        }
        i += 1;
        proof {
            assert(rk[i - 1] == lk[i - 1]);
        }
    }
    proof {
        assert(rk =~= lk);
        assert(keys_of(rec_v).to_multiset() == keys_of(live_v).to_multiset());
    }
    match b.folder_size_bytes {
        None => false,
        Some(recorded) => {
            let current = crate::fstree::compute_dir_size(root);
            let delta = if current > recorded {
                current - recorded
            } else {
                recorded - current
            };
            delta >= STALE_SIZE_THRESHOLD_BYTES
        },
    }
}

/// A sidecar freshly derived from the live tree is not stale against
/// it: its recorded files match the live ones and its recorded folder
/// size is the live size.  The check is a function of the sidecar and
/// the tree alone, so checking any number of times without a change
/// yields the same answer.
pub proof fn lemma_fresh_sidecar_not_stale(b: BreadcrumbsView, d: FsDir)
    requires
        keys_of(b.files).to_multiset() == keys_of(live_files(d)).to_multiset(),
        b.folder_size_bytes == Some(sat_u64(dir_size(d))),
    ensures
        !spec_is_stale(b, d),
{
}

/// The size threshold is sharp: for a sidecar whose recorded files
/// match the live ones, staleness holds exactly when the folder size
/// moved by the threshold or more — a delta of exactly the threshold is
/// stale, one just under it is not.
pub proof fn lemma_size_threshold_boundary(b: BreadcrumbsView, d: FsDir, recorded: u64)
    requires
        keys_of(b.files).to_multiset() == keys_of(live_files(d)).to_multiset(),
        b.folder_size_bytes == Some(recorded),
    ensures
        spec_is_stale(b, d) == (size_delta(sat_u64(dir_size(d)), recorded)
            >= STALE_SIZE_THRESHOLD_BYTES),
{
}

} // verus!
