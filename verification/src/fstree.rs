//! An in-memory snapshot of a directory tree.  The scanner, validator and
//! staleness comparator are all stated and verified over this snapshot;
//! the shell around the library reads the live filesystem into it.

use vstd::prelude::*;

verus! {

/// One file of a snapshot: its name, its size in bytes, and, when the
/// reader chose to load it, its text.  `content` is `None` for a file
/// that was not read or could not be read.
#[derive(Clone, Debug, PartialEq, Eq)]
pub struct FsFile {
    pub name: String,
    pub size: u64,
    pub content: Option<String>,
}

/// One directory of a snapshot: its name, its files and its
/// subdirectories.
#[derive(Debug, PartialEq, Eq)]
pub struct FsDir {
    pub name: String,
    pub files: Vec<FsFile>,
    pub dirs: Vec<FsDir>,
}

/// Total size in bytes of a list of files.
pub open spec fn files_size(fs: Seq<FsFile>) -> nat
    decreases fs.len(),
{
    if fs.len() == 0 {
        0
    } else {
        (files_size(fs.drop_last()) + fs.last().size) as nat
    }
}

/// Total size in bytes of everything under a directory: its own files and
/// all of its subdirectories, recursively.
pub open spec fn dir_size(d: FsDir) -> nat
    decreases d,
{
    (files_size(d.files@) + dirs_size(d.dirs@)) as nat
}

/// Total size in bytes of a list of directories.
pub open spec fn dirs_size(ds: Seq<FsDir>) -> nat
    decreases ds,
{
    if ds.len() == 0 {
        0
    } else {
        (dirs_size(ds.drop_last()) + dir_size(ds.last())) as nat
    }
}

/// Index of the first subdirectory of `d` with the given name, if any.
pub open spec fn subdir_index(d: FsDir, name: Seq<char>) -> Option<int> {
    first_dir_named(d.dirs@, name, 0)
}

/// Index of the first directory named `name` in `ds` at or after `i`.
pub open spec fn first_dir_named(ds: Seq<FsDir>, name: Seq<char>, i: int) -> Option<int>
    decreases ds.len() - i when 0 <= i
{
    if i >= ds.len() {
        None
    } else if ds[i].name@ == name {
        Some(i)
    } else {
        first_dir_named(ds, name, i + 1)
    }
}

/// Holds when `d` has a subdirectory with the given name.
pub open spec fn has_subdir(d: FsDir, name: Seq<char>) -> bool {
    subdir_index(d, name) is Some
}

/// The first subdirectory of `d` with the given name, if any.
pub open spec fn find_subdir(d: FsDir, name: Seq<char>) -> Option<FsDir> {
    match subdir_index(d, name) {
        Some(i) => Some(d.dirs@[i]),
        None => None,
    }
}

/// Saturating 64-bit sum of `a` and `b`.
pub open spec fn sat_add_u64(a: u64, b: u64) -> u64 {
    if a + b > u64::MAX {
        u64::MAX
    } else {
        (a + b) as u64
    }
}

/// What a 64-bit counter reports for an unbounded quantity: the quantity
/// itself while it fits, the maximum after that.
pub open spec fn sat_u64(n: nat) -> u64 {
    if n > u64::MAX {
        u64::MAX
    } else {
        n as u64
    }
}

/// Computes the total size in bytes of everything under `d`, saturating
/// at the largest 64-bit value.
pub fn compute_dir_size(d: &FsDir) -> (r: u64)
    ensures
        r == sat_u64(dir_size(*d)),
    decreases *d,
{
    let mut total: u64 = 0;
    let mut i: usize = 0;
    while i < d.files.len()
        invariant
            i <= d.files@.len(),
            total == sat_u64(files_size(d.files@.subrange(0, i as int))),
        decreases d.files@.len() - i,
    {
        proof {
            assert(d.files@.subrange(0, i + 1).drop_last() =~= d.files@.subrange(0, i as int));
            assert(d.files@.subrange(0, i + 1).last() == d.files@[i as int]);
        }
        total = total.saturating_add(d.files[i].size);
        i += 1;
    }
    proof {
        assert(d.files@.subrange(0, d.files@.len() as int) =~= d.files@);
    }
    let mut j: usize = 0;
    while j < d.dirs.len()
        invariant
            j <= d.dirs@.len(),
            total == sat_u64((files_size(d.files@) + dirs_size(d.dirs@.subrange(0, j as int))) as nat),
        decreases d.dirs@.len() - j,
    {
        proof {
            assert(d.dirs@.subrange(0, j + 1).drop_last() =~= d.dirs@.subrange(0, j as int));
            assert(d.dirs@.subrange(0, j + 1).last() == d.dirs@[j as int]);
        }
        let sub = compute_dir_size(&d.dirs[j]);
        total = total.saturating_add(sub);
        j += 1;
    }
    proof {
        assert(d.dirs@.subrange(0, d.dirs@.len() as int) =~= d.dirs@);
    }
    total
}

/// Index of the first file named `name` in `fs` at or after `i`.
pub open spec fn first_file_named(fs: Seq<FsFile>, name: Seq<char>, i: int) -> Option<int>
    decreases fs.len() - i when 0 <= i
{
    if i >= fs.len() {
        None
    } else if fs[i].name@ == name {
        Some(i)
    } else {
        first_file_named(fs, name, i + 1)
    }
}

/// The first file of `d` with the given name, if any.
pub open spec fn find_file(d: FsDir, name: Seq<char>) -> Option<FsFile> {
    match first_file_named(d.files@, name, 0) {
        Some(i) => Some(d.files@[i]),
        None => None,
    }
}

/// Finds the first file of `d` with the given name, executed.
pub fn find_file_exec<'a>(d: &'a FsDir, name: &str) -> (r: Option<&'a FsFile>)
    ensures
        match r {
            Some(f) => find_file(*d, name@) == Some(*f),
            None => find_file(*d, name@) is None,
        },
{
    let ghost fs = d.files@;
    let mut i: usize = 0;
    while i < d.files.len()
        invariant
            fs == d.files@,
            i <= fs.len(),
            first_file_named(fs, name@, 0) == first_file_named(fs, name@, i as int),
        decreases fs.len() - i,
    {
        if crate::strutil::str_eq(d.files[i].name.as_str(), name) {
            proof {
                assert(first_file_named(fs, name@, i as int) == Some(i as int));
            }
            return Some(&d.files[i]);
        }
        i += 1;
    }
    None
}

} // verus!
