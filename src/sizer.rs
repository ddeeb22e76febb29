use vstd::prelude::*;

use crate::tree::{
    clone_path, direct_size, files_size, hop_distance, lemma_files_size_mono,
    lemma_subdirs_size_mono, lemma_total_size_nonneg, path_view, subdirs_size, total_size, DirNode,
};

verus! {

broadcast use vstd::std_specs::vec::group_vec_axioms;

/// One line of the size report: a directory and the bytes attributed to it.
pub struct DirectoryInfo {
    pub path: Vec<String>,
    pub size: u64,
}

/// A record as a path and a byte count.
pub open spec fn record_view(r: DirectoryInfo) -> (Seq<Seq<char>>, int) {
    (path_view(r.path@), r.size as int)
}

/// A sequence of records as paths and byte counts.
pub open spec fn records_view(s: Seq<DirectoryInfo>) -> Seq<(Seq<Seq<char>>, int)> {
    s.map_values(|r: DirectoryInfo| record_view(r))
}

/// Whether the aggregation descends into `c` level by level, rather than
/// reporting it as one rolled-up record: `c` lies fewer than `limit` hops below `root`.
pub open spec fn expands(root: Seq<Seq<char>>, limit: int, c: DirNode) -> bool {
    match hop_distance(root, path_view(c.path@)) {
        Some(h) => h < limit,
        None => false,
    }
}

/// The records that the scan of `d` emits, in order: those of each subdirectory,
/// then `d` itself with the size of its direct files.
pub open spec fn dir_records(root: Seq<Seq<char>>, limit: int, d: DirNode) -> Seq<
    (Seq<Seq<char>>, int),
>
    decreases d, d.dirs.len() + 1,
{
    child_records(root, limit, d, d.dirs.len() as int) + seq![
        (path_view(d.path@), direct_size(d)),
    ]
}

/// The records that the first `k` subdirectories of `d` contribute.
pub open spec fn child_records(root: Seq<Seq<char>>, limit: int, d: DirNode, k: int) -> Seq<
    (Seq<Seq<char>>, int),
>
    decreases d, k,
{
    if k <= 0 || k > d.dirs.len() {
        seq![]
    } else {
        let c = d.dirs[k - 1];
        child_records(root, limit, d, k - 1) + if expands(root, limit, c) {
            dir_records(root, limit, c)
        } else {
            seq![(path_view(c.path@), total_size(c))]
        }
    }
}

/// Sum of the sizes of a sequence of records.
pub open spec fn records_sum(s: Seq<(Seq<Seq<char>>, int)>) -> int
    decreases s.len(),
{
    if s.len() == 0 {
        0
    } else {
        records_sum(s.drop_last()) + s.last().1
    }
}

/// The parameters of one size scan: where it starts and the depth from which
/// directories are reported whole.
pub struct Searcher {
    pub root_dir: Vec<String>,
    pub depth: u64,
}

impl Searcher {
    /// Scans the tree `root`, whose path is `root_dir`, and returns its records.
    pub fn search(&self, root: &DirNode) -> (r: Vec<DirectoryInfo>)
        requires
            total_size(*root) <= u64::MAX,
        ensures
            records_view(r@) == dir_records(path_view(self.root_dir@), self.depth as int, *root),
    {
        let mut results: Vec<DirectoryInfo> = Vec::new();
        self.parse_dir(root, &mut results);
        assert(records_view(results@) =~= seq![] + dir_records(
            path_view(self.root_dir@),
            self.depth as int,
            *root,
        ));
        results
    }

    /// Appends to `dirs` the records of the scan of `dir`.
    pub fn parse_dir(&self, dir: &DirNode, dirs: &mut Vec<DirectoryInfo>)
        requires
            total_size(*dir) <= u64::MAX,
        ensures
            records_view(final(dirs)@) == records_view(old(dirs)@) + dir_records(
                path_view(self.root_dir@),
                self.depth as int,
                *dir,
            ),
        decreases dir,
    {
        let ghost root = path_view(self.root_dir@);
        let ghost start = records_view(dirs@);
        proof {
            lemma_total_size_nonneg(*dir);
            lemma_files_size_mono(dir.files@, 0, dir.files.len() as int);
        }
        let mut size_of_files: u64 = 0;
        let mut i: usize = 0;
        while i < dir.files.len()
            invariant
                i <= dir.files.len(),
                size_of_files == files_size(dir.files@, i as int),
                direct_size(*dir) <= u64::MAX,
            decreases dir.files.len() - i,
        {
            proof {
                lemma_files_size_mono(dir.files@, i + 1, dir.files.len() as int);
            }
            size_of_files = size_of_files + dir.files[i].size;
            i = i + 1;
        }
        let mut k: usize = 0;
        while k < dir.dirs.len()
            invariant
                k <= dir.dirs.len(),
                total_size(*dir) <= u64::MAX,
                root == path_view(self.root_dir@),
                records_view(dirs@) == start + child_records(root, self.depth as int, *dir, k as int),
            decreases dir.dirs.len() - k,
        {
            let sub_dir = &dir.dirs[k];
            proof {
                lemma_total_size_nonneg(*dir);
                lemma_subdirs_size_mono(*dir, k + 1, dir.dirs.len() as int);
                lemma_subdirs_size_mono(*dir, 0, k as int);
            }
            let hops = Searcher::distance(&self.root_dir, &sub_dir.path);
            let deeper = match hops {
                Some(h) => h < self.depth,
                None => false,
            };
            assert(deeper == expands(root, self.depth as int, *sub_dir));
            let ghost before = records_view(dirs@);
            if deeper {
                self.parse_dir(sub_dir, dirs);
            } else {
                let size = Searcher::size_of_dir(sub_dir);
                let info = DirectoryInfo { path: clone_path(&sub_dir.path), size: size };
                dirs.push(info);
                assert(records_view(dirs@) =~= before + seq![
                    (path_view(sub_dir.path@), total_size(*sub_dir)),
                ]);
            }
            assert(records_view(dirs@) =~= start + child_records(
                root,
                self.depth as int,
                *dir,
                k + 1,
            ));
            k = k + 1;
        }
        let ghost before = records_view(dirs@);
        let info = DirectoryInfo { path: clone_path(&dir.path), size: size_of_files };
        dirs.push(info);
        assert(records_view(dirs@) =~= before + seq![(path_view(dir.path@), direct_size(*dir))]);
        assert(records_view(dirs@) =~= start + dir_records(root, self.depth as int, *dir));
    }

    /// Hops from `root` down to `dir`, or `None` where `root` is not a proper
    /// ancestor of `dir`.
    pub fn distance(root: &Vec<String>, dir: &Vec<String>) -> (r: Option<u64>)
        ensures
            r is Some <==> hop_distance(path_view(root@), path_view(dir@)) is Some,
            r is Some ==> r->0 as int == hop_distance(path_view(root@), path_view(dir@))->0,
    {
        if root.len() >= dir.len() {
            return None;
        }
        let mut i: usize = 0;
        while i < root.len()
            invariant
                i <= root.len() < dir.len(),
                forall|j: int| 0 <= j < i ==> root@[j]@ == dir@[j]@,
            decreases root.len() - i,
        {
            if root[i] != dir[i] {
                assert(path_view(root@)[i as int] != path_view(dir@)[i as int]);
                return None;
            }
            i = i + 1;
        }
        assert(path_view(root@) =~= path_view(dir@).subrange(0, root@.len() as int));
        Some((dir.len() - root.len()) as u64)
    }

    /// Total size of every file below `dir`, at any depth.
    pub fn size_of_dir(dir: &DirNode) -> (r: u64)
        requires
            total_size(*dir) <= u64::MAX,
        ensures
            r == total_size(*dir),
        decreases dir,
    {
        proof {
            lemma_total_size_nonneg(*dir);
            lemma_files_size_mono(dir.files@, 0, dir.files.len() as int);
        }
        let mut size: u64 = 0;
        let mut i: usize = 0;
        while i < dir.files.len()
            invariant
                i <= dir.files.len(),
                size == files_size(dir.files@, i as int),
                direct_size(*dir) <= u64::MAX,
            decreases dir.files.len() - i,
        {
            proof {
                lemma_files_size_mono(dir.files@, i + 1, dir.files.len() as int);
            }
            size = size + dir.files[i].size;
            i = i + 1;
        }
        let mut k: usize = 0;
        while k < dir.dirs.len()
            invariant
                k <= dir.dirs.len(),
                total_size(*dir) <= u64::MAX,
                size == direct_size(*dir) + subdirs_size(*dir, k as int),
            decreases dir.dirs.len() - k,
        {
            proof {
                lemma_total_size_nonneg(*dir);
                lemma_total_size_nonneg(dir.dirs@[k as int]);
                lemma_subdirs_size_mono(*dir, k + 1, dir.dirs.len() as int);
            }
            assert(subdirs_size(*dir, k + 1) == subdirs_size(*dir, k as int) + total_size(
                dir.dirs@[k as int],
            ));
            size = size + Searcher::size_of_dir(&dir.dirs[k]);
            k = k + 1;
        }
        size
    }
}


pub proof fn lemma_records_sum_append(a: Seq<(Seq<Seq<char>>, int)>, b: Seq<(Seq<Seq<char>>, int)>)
    ensures
        records_sum(a + b) == records_sum(a) + records_sum(b),
    decreases b.len(),
{
    if b.len() == 0 {
        assert(a + b =~= a);
    } else {
        assert((a + b).drop_last() =~= a + b.drop_last());
        lemma_records_sum_append(a, b.drop_last());
    }
}

proof fn lemma_records_sum_single(x: (Seq<Seq<char>>, int))
    ensures
        records_sum(seq![x]) == x.1,
{
    assert(seq![x].drop_last() =~= seq![]);
    assert(records_sum(seq![x].drop_last()) == 0);
}

/// Every file's size is counted in exactly one record: whatever the depth limit,
/// the sizes of the records of a scan add up to the total size of the tree.
pub proof fn lemma_records_partition(root: Seq<Seq<char>>, limit: int, d: DirNode)
    ensures
        records_sum(dir_records(root, limit, d)) == total_size(d),
    decreases d, d.dirs.len() + 1,
{
    let n = d.dirs.len() as int;
    lemma_child_records_sum(root, limit, d, n);
    lemma_records_sum_append(
        child_records(root, limit, d, n),
        seq![(path_view(d.path@), direct_size(d))],
    );
    lemma_records_sum_single((path_view(d.path@), direct_size(d)));
}

proof fn lemma_child_records_sum(root: Seq<Seq<char>>, limit: int, d: DirNode, k: int)
    requires
        0 <= k <= d.dirs.len(),
    ensures
        records_sum(child_records(root, limit, d, k)) == subdirs_size(d, k),
    decreases d, k,
{
    if k == 0 {
        assert(child_records(root, limit, d, k) =~= seq![]);
    } else {
        let c = d.dirs[k - 1];
        lemma_child_records_sum(root, limit, d, k - 1);
        if expands(root, limit, c) {
            lemma_records_partition(root, limit, c);
            lemma_records_sum_append(
                child_records(root, limit, d, k - 1),
                dir_records(root, limit, c),
            );
        } else {
            lemma_records_sum_single((path_view(c.path@), total_size(c)));
            lemma_records_sum_append(
                child_records(root, limit, d, k - 1),
                seq![(path_view(c.path@), total_size(c))],
            );
        }
    }
}

/// The record that a rolled-up directory gets: its path and its total size.
pub open spec fn rolled_up(c: DirNode) -> (Seq<Seq<char>>, int) {
    (path_view(c.path@), total_size(c))
}

/// With depth limit zero every direct subdirectory of the scanned directory is
/// reported as one record of its total size, followed by the directory itself
/// with the size of its direct files.
pub proof fn lemma_depth_zero(root: Seq<Seq<char>>, d: DirNode)
    ensures
        dir_records(root, 0, d) == d.dirs@.map_values(|c: DirNode| rolled_up(c)) + seq![
            (path_view(d.path@), direct_size(d)),
        ],
{
    lemma_depth_zero_children(root, d, d.dirs.len() as int);
    assert(d.dirs@.map_values(|c: DirNode| rolled_up(c)).subrange(0, d.dirs.len() as int)
        =~= d.dirs@.map_values(|c: DirNode| rolled_up(c)));
}

proof fn lemma_depth_zero_children(root: Seq<Seq<char>>, d: DirNode, k: int)
    requires
        0 <= k <= d.dirs.len(),
    ensures
        child_records(root, 0, d, k) == d.dirs@.map_values(|c: DirNode| rolled_up(c)).subrange(0, k),
    decreases k,
{
    if k == 0 {
        assert(child_records(root, 0, d, k) =~= seq![]);
        assert(d.dirs@.map_values(|c: DirNode| rolled_up(c)).subrange(0, k) =~= seq![]);
    } else {
        lemma_depth_zero_children(root, d, k - 1);
        assert(child_records(root, 0, d, k) =~= d.dirs@.map_values(|c: DirNode| rolled_up(c)).subrange(0, k));
    }
}


/// Levels of subdirectories below `d`: zero for a directory without any.
pub open spec fn height(d: DirNode) -> int
    decreases d, d.dirs.len() + 1,
{
    subdirs_height(d, d.dirs.len() as int)
}

/// The largest of `1 + height(c)` over the first `k` subdirectories `c` of `d`, or zero.
pub open spec fn subdirs_height(d: DirNode, k: int) -> int
    decreases d, k,
{
    if k <= 0 || k > d.dirs.len() {
        0
    } else {
        let h = 1 + height(d.dirs[k - 1]);
        let m = subdirs_height(d, k - 1);
        if h > m {
            h
        } else {
            m
        }
    }
}

/// `c`'s path is `d`'s path with one more segment.
pub open spec fn child_of(c: DirNode, d: DirNode) -> bool {
    &&& path_view(d.path@).is_prefix_of(path_view(c.path@))
    &&& c.path.len() == d.path.len() + 1
}

/// Every subdirectory's path extends its parent's by one segment, all the way down,
/// as in a tree read from disk.
pub open spec fn nested(d: DirNode) -> bool
    decreases d, d.dirs.len() + 1,
{
    nested_upto(d, d.dirs.len() as int)
}

/// The first `k` subdirectories of `d` are children of `d` and nested.
pub open spec fn nested_upto(d: DirNode, k: int) -> bool
    decreases d, k,
{
    if k <= 0 || k > d.dirs.len() {
        true
    } else {
        nested_upto(d, k - 1) && child_of(d.dirs[k - 1], d) && nested(d.dirs[k - 1])
    }
}

/// Every directory below `d`, in post-order, with the size of its direct files.
pub open spec fn direct_records(d: DirNode) -> Seq<(Seq<Seq<char>>, int)>
    decreases d, d.dirs.len() + 1,
{
    child_direct_records(d, d.dirs.len() as int) + seq![(path_view(d.path@), direct_size(d))]
}

/// The direct-size records below the first `k` subdirectories of `d`.
pub open spec fn child_direct_records(d: DirNode, k: int) -> Seq<(Seq<Seq<char>>, int)>
    decreases d, k,
{
    if k <= 0 || k > d.dirs.len() {
        seq![]
    } else {
        child_direct_records(d, k - 1) + direct_records(d.dirs[k - 1])
    }
}

proof fn lemma_subdirs_height_bounds(d: DirNode, j: int, k: int)
    requires
        0 <= j < k <= d.dirs.len(),
    ensures
        subdirs_height(d, k) >= 1 + height(d.dirs[j]),
    decreases k,
{
    if j < k - 1 {
        lemma_subdirs_height_bounds(d, j, k - 1);
    }
}

proof fn lemma_subdirs_height_mono(d: DirNode, k: int)
    ensures
        subdirs_height(d, k) >= 0,
    decreases k,
{
    if k > 0 && k <= d.dirs.len() {
        lemma_subdirs_height_mono(d, k - 1);
    }
}

proof fn lemma_nested_child(d: DirNode, j: int, k: int)
    requires
        0 <= j < k <= d.dirs.len(),
        nested_upto(d, k),
    ensures
        child_of(d.dirs[j], d),
        nested(d.dirs[j]),
    decreases k,
{
    if j < k - 1 {
        lemma_nested_child(d, j, k - 1);
    }
}

/// When the depth limit exceeds the depth of every directory of the tree, every
/// directory is descended into and reports only the size of its own files: no
/// subtree is rolled up.
pub proof fn lemma_deep_limit(root: Seq<Seq<char>>, limit: int, d: DirNode)
    requires
        nested(d),
        root.is_prefix_of(path_view(d.path@)),
        d.path.len() - root.len() + height(d) < limit,
    ensures
        dir_records(root, limit, d) == direct_records(d),
    decreases d, d.dirs.len() + 1,
{
    lemma_deep_limit_children(root, limit, d, d.dirs.len() as int);
}

proof fn lemma_deep_limit_children(root: Seq<Seq<char>>, limit: int, d: DirNode, k: int)
    requires
        0 <= k <= d.dirs.len(),
        nested(d),
        root.is_prefix_of(path_view(d.path@)),
        d.path.len() - root.len() + height(d) < limit,
    ensures
        child_records(root, limit, d, k) == child_direct_records(d, k),
    decreases d, k,
{
    if k > 0 {
        lemma_deep_limit_children(root, limit, d, k - 1);
        let c = d.dirs[k - 1];
        lemma_nested_child(d, k - 1, d.dirs.len() as int);
        lemma_subdirs_height_bounds(d, k - 1, d.dirs.len() as int);
        lemma_subdirs_height_mono(c, c.dirs.len() as int);
        let dp = path_view(d.path@);
        let cp = path_view(c.path@);
        assert forall|i: int| 0 <= i < root.len() implies root[i] == cp[i] by {
            assert(root[i] == dp.subrange(0, root.len() as int)[i]);
            assert(dp[i] == cp.subrange(0, dp.len() as int)[i]);
        }
        assert(root =~= cp.subrange(0, root.len() as int));
        assert(expands(root, limit, c));
        lemma_deep_limit(root, limit, c);
    }
}

} // verus!
