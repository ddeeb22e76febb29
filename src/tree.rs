use vstd::prelude::*;

verus! {

broadcast use vstd::std_specs::vec::group_vec_axioms;

/// A regular file: its full path, one segment per component, and its length in bytes.
pub struct FileEntry {
    pub path: Vec<String>,
    pub size: u64,
}

/// A directory: its full path, its direct files and its direct subdirectories.
pub struct DirNode {
    pub path: Vec<String>,
    pub files: Vec<FileEntry>,
    pub dirs: Vec<DirNode>,
}

/// A path as the sequence of its segments' text.
pub open spec fn path_view(p: Seq<String>) -> Seq<Seq<char>> {
    p.map_values(|s: String| s@)
}

/// Hops from `root` down to `p`: defined when `root` is a proper ancestor of `p`.
pub open spec fn hop_distance(root: Seq<Seq<char>>, p: Seq<Seq<char>>) -> Option<int> {
    if root.len() < p.len() && root.is_prefix_of(p) {
        Some(p.len() - root.len())
    } else {
        None
    }
}

/// Sum of the sizes of the first `k` files of `files`.
pub open spec fn files_size(files: Seq<FileEntry>, k: int) -> int
    decreases k,
{
    if k <= 0 {
        0
    } else {
        files_size(files, k - 1) + files[k - 1].size
    }
}

/// Size of the files directly inside `d`.
pub open spec fn direct_size(d: DirNode) -> int {
    files_size(d.files@, d.files.len() as int)
}

/// Total size of every file below `d`, at any depth.
pub open spec fn total_size(d: DirNode) -> int
    decreases d, d.dirs.len() + 1,
{
    direct_size(d) + subdirs_size(d, d.dirs.len() as int)
}

/// Sum of the total sizes of the first `k` subdirectories of `d`.
pub open spec fn subdirs_size(d: DirNode, k: int) -> int
    decreases d, k,
{
    if k <= 0 || k > d.dirs.len() {
        0
    } else {
        subdirs_size(d, k - 1) + total_size(d.dirs[k - 1])
    }
}

/// Number of regular files below `d`, at any depth.
pub open spec fn file_count(d: DirNode) -> int
    decreases d, d.dirs.len() + 1,
{
    d.files.len() + subdirs_file_count(d, d.dirs.len() as int)
}

/// Number of regular files below the first `k` subdirectories of `d`.
pub open spec fn subdirs_file_count(d: DirNode, k: int) -> int
    decreases d, k,
{
    if k <= 0 || k > d.dirs.len() {
        0
    } else {
        subdirs_file_count(d, k - 1) + file_count(d.dirs[k - 1])
    }
}

pub proof fn lemma_files_size_mono(files: Seq<FileEntry>, i: int, j: int)
    requires
        0 <= i <= j,
    ensures
        0 <= files_size(files, i) <= files_size(files, j),
    decreases j,
{
    if j > i {
        lemma_files_size_mono(files, i, j - 1);
    } else if i > 0 {
        lemma_files_size_mono(files, 0, i - 1);
    }
}

pub proof fn lemma_total_size_nonneg(d: DirNode)
    ensures
        total_size(d) >= direct_size(d) >= 0,
        total_size(d) >= subdirs_size(d, d.dirs.len() as int) >= 0,
    decreases d, d.dirs.len() + 1,
{
    lemma_files_size_mono(d.files@, 0, d.files.len() as int);
    lemma_subdirs_size_mono(d, 0, d.dirs.len() as int);
}

pub proof fn lemma_subdirs_size_mono(d: DirNode, i: int, j: int)
    requires
        0 <= i <= j <= d.dirs.len(),
    ensures
        0 <= subdirs_size(d, i) <= subdirs_size(d, j),
    decreases d, j,
{
    if j > i {
        lemma_subdirs_size_mono(d, i, j - 1);
        lemma_total_size_nonneg(d.dirs[j - 1]);
    } else if i > 0 {
        lemma_subdirs_size_mono(d, 0, i - 1);
        lemma_total_size_nonneg(d.dirs[i - 1]);
    }
}

/// A copy of a path, segment by segment.
pub fn clone_path(p: &Vec<String>) -> (r: Vec<String>)
    ensures
        r@ == p@,
{
    let mut r: Vec<String> = Vec::new();
    let mut i: usize = 0;
    while i < p.len()
        invariant
            i <= p.len(),
            r@ == p@.subrange(0, i as int),
        decreases p.len() - i,
    {
        r.push(p[i].clone());
        i = i + 1;
    }
    assert(r@ =~= p@);
    r
}

/// Total size of every file below `d`, or `None` where it does not fit in a `u64`.
pub fn checked_total_size(d: &DirNode) -> (r: Option<u64>)
    ensures
        r == (if total_size(*d) <= u64::MAX {
            Some(total_size(*d) as u64)
        } else {
            None::<u64>
        }),
    decreases d,
{
    proof {
        lemma_files_size_mono(d.files@, 0, d.files.len() as int);
    }
    let mut size: u64 = 0;
    let mut i: usize = 0;
    while i < d.files.len()
        invariant
            i <= d.files.len(),
            size == files_size(d.files@, i as int),
        decreases d.files.len() - i,
    {
        let s = d.files[i].size;
        if s > u64::MAX - size {
            proof {
                lemma_files_size_mono(d.files@, i + 1, d.files.len() as int);
                lemma_total_size_nonneg(*d);
            }
            return None;
        }
        size = size + s;
        i = i + 1;
    }
    let mut k: usize = 0;
    while k < d.dirs.len()
        invariant
            k <= d.dirs.len(),
            size == direct_size(*d) + subdirs_size(*d, k as int),
        decreases d.dirs.len() - k,
    {
        let sub = checked_total_size(&d.dirs[k]);
        match sub {
            None => {
                proof {
                    lemma_subdirs_size_mono(*d, 0, k as int);
                    lemma_subdirs_size_mono(*d, k + 1, d.dirs.len() as int);
                    lemma_total_size_nonneg(d.dirs[k as int]);
                    lemma_total_size_nonneg(*d);
                }
                return None;
            },
            Some(s) => {
                proof {
                    lemma_total_size_nonneg(d.dirs@[k as int]);
                }
                assert(subdirs_size(*d, k + 1) == subdirs_size(*d, k as int) + total_size(
                    d.dirs@[k as int],
                ));
                if s > u64::MAX - size {
                    proof {
                        lemma_subdirs_size_mono(*d, k + 1, d.dirs.len() as int);
                        lemma_total_size_nonneg(*d);
                    }
                    return None;
                }
                size = size + s;
            },
        }
        k = k + 1;
    }
    Some(size)
}

} // verus!
