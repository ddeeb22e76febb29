use vstd::prelude::*;

use crate::tree::{clone_path, file_count, path_view, subdirs_file_count, DirNode, FileEntry};

verus! {

broadcast use vstd::std_specs::vec::group_vec_axioms;

/// A sequence of paths as sequences of segment text.
pub open spec fn paths_view(s: Seq<Vec<String>>) -> Seq<Seq<Seq<char>>> {
    s.map_values(|p: Vec<String>| path_view(p@))
}

/// The paths of every regular file below `d`: its direct files first, then
/// those of each subdirectory in turn.
pub open spec fn all_files(d: DirNode) -> Seq<Seq<Seq<char>>>
    decreases d, d.dirs.len() + 1,
{
    d.files@.map_values(|f: FileEntry| path_view(f.path@)) + subdirs_files(d, d.dirs.len() as int)
}

/// The file paths below the first `k` subdirectories of `d`.
pub open spec fn subdirs_files(d: DirNode, k: int) -> Seq<Seq<Seq<char>>>
    decreases d, k,
{
    if k <= 0 || k > d.dirs.len() {
        seq![]
    } else {
        subdirs_files(d, k - 1) + all_files(d.dirs[k - 1])
    }
}

/// Appends to `file_paths` the path of every regular file below `dir`.
pub fn get_file_paths(dir: &DirNode, file_paths: &mut Vec<Vec<String>>)
    ensures
        paths_view(final(file_paths)@) == paths_view(old(file_paths)@) + all_files(*dir),
    decreases dir,
{
    let ghost start = paths_view(file_paths@);
    let mut i: usize = 0;
    while i < dir.files.len()
        invariant
            i <= dir.files.len(),
            paths_view(file_paths@) == start + dir.files@.map_values(
                |f: FileEntry| path_view(f.path@),
            ).subrange(0, i as int),
        decreases dir.files.len() - i,
    {
        let ghost before = paths_view(file_paths@);
        file_paths.push(clone_path(&dir.files[i].path));
        assert(paths_view(file_paths@) =~= before + seq![path_view(dir.files@[i as int].path@)]);
        assert(paths_view(file_paths@) =~= start + dir.files@.map_values(
            |f: FileEntry| path_view(f.path@),
        ).subrange(0, i + 1));
        i = i + 1;
    }
    let ghost mid = paths_view(file_paths@);
    assert(dir.files@.map_values(|f: FileEntry| path_view(f.path@)).subrange(
        0,
        dir.files.len() as int,
    ) =~= dir.files@.map_values(|f: FileEntry| path_view(f.path@)));
    let mut k: usize = 0;
    while k < dir.dirs.len()
        invariant
            k <= dir.dirs.len(),
            paths_view(file_paths@) == mid + subdirs_files(*dir, k as int),
            mid == start + dir.files@.map_values(|f: FileEntry| path_view(f.path@)),
        decreases dir.dirs.len() - k,
    {
        get_file_paths(&dir.dirs[k], file_paths);
        assert(paths_view(file_paths@) =~= mid + subdirs_files(*dir, k + 1));
        k = k + 1;
    }
    assert(paths_view(file_paths@) =~= start + all_files(*dir));
}

/// The enumeration lists each regular file once: it yields exactly as many
/// paths as the tree holds files.
pub proof fn lemma_enumeration_complete(d: DirNode)
    ensures
        all_files(d).len() == file_count(d),
    decreases d, d.dirs.len() + 1,
{
    lemma_subdirs_files_count(d, d.dirs.len() as int);
}

proof fn lemma_subdirs_files_count(d: DirNode, k: int)
    requires
        0 <= k <= d.dirs.len(),
    ensures
        subdirs_files(d, k).len() == subdirs_file_count(d, k),
    decreases d, k,
{
    if k > 0 {
        lemma_subdirs_files_count(d, k - 1);
        lemma_enumeration_complete(d.dirs[k - 1]);
    }
}


/// `q` is `p` with one more segment.
pub open spec fn one_below(p: Seq<Seq<char>>, q: Seq<Seq<char>>) -> bool {
    p.is_prefix_of(q) && q.len() == p.len() + 1
}

/// A tree as it is read from disk: every file and subdirectory path extends its
/// directory's path by one segment, and no two files, nor two subdirectories,
/// of one directory share a path.
pub open spec fn well_formed(d: DirNode) -> bool
    decreases d, d.dirs.len() + 1,
{
    &&& forall|i: int|
        0 <= i < d.files.len() ==> one_below(path_view(d.path@), path_view(#[trigger] d.files[i].path@))
    &&& forall|i: int, j: int|
        0 <= i < j < d.files.len() ==> path_view(d.files[i].path@) != path_view(d.files[j].path@)
    &&& forall|i: int, j: int|
        0 <= i < j < d.dirs.len() ==> path_view(d.dirs[i].path@) != path_view(d.dirs[j].path@)
    &&& well_formed_upto(d, d.dirs.len() as int)
}

/// The first `k` subdirectories of `d` extend its path by one segment and are well formed.
pub open spec fn well_formed_upto(d: DirNode, k: int) -> bool
    decreases d, k,
{
    if k <= 0 || k > d.dirs.len() {
        true
    } else {
        &&& well_formed_upto(d, k - 1)
        &&& one_below(path_view(d.path@), path_view(d.dirs[k - 1].path@))
        &&& well_formed(d.dirs[k - 1])
    }
}

proof fn lemma_well_formed_child(d: DirNode, j: int, k: int)
    requires
        0 <= j < k <= d.dirs.len(),
        well_formed_upto(d, k),
    ensures
        one_below(path_view(d.path@), path_view(d.dirs[j].path@)),
        well_formed(d.dirs[j]),
    decreases k,
{
    if j < k - 1 {
        lemma_well_formed_child(d, j, k - 1);
    }
}

proof fn lemma_prefix_trans(a: Seq<Seq<char>>, b: Seq<Seq<char>>, c: Seq<Seq<char>>)
    requires
        a.is_prefix_of(b),
        b.is_prefix_of(c),
    ensures
        a.is_prefix_of(c),
{
    assert forall|i: int| 0 <= i < a.len() implies a[i] == c[i] by {
        assert(a[i] == b.subrange(0, a.len() as int)[i]);
        assert(b[i] == c.subrange(0, b.len() as int)[i]);
    }
    assert(a =~= c.subrange(0, a.len() as int));
}

proof fn lemma_contains_concat(a: Seq<Seq<Seq<char>>>, b: Seq<Seq<Seq<char>>>, x: Seq<Seq<char>>)
    requires
        (a + b).contains(x),
    ensures
        a.contains(x) || b.contains(x),
{
    let i = choose|i: int| 0 <= i < (a + b).len() && (a + b)[i] == x;
    if i < a.len() {
        assert(a[i] == x);
    } else {
        assert(b[i - a.len()] == x);
    }
}

proof fn lemma_concat_no_duplicates(a: Seq<Seq<Seq<char>>>, b: Seq<Seq<Seq<char>>>)
    requires
        a.no_duplicates(),
        b.no_duplicates(),
        forall|x: Seq<Seq<char>>| a.contains(x) ==> !b.contains(x),
    ensures
        (a + b).no_duplicates(),
{
    let c = a + b;
    assert forall|i: int, j: int| 0 <= i < c.len() && 0 <= j < c.len() && i != j implies c[i]
        != c[j] by {
        if i < a.len() && j >= a.len() {
            assert(a.contains(c[i]));
            assert(b[j - a.len()] == c[j]);
        } else if j < a.len() && i >= a.len() {
            assert(a.contains(c[j]));
            assert(b[i - a.len()] == c[i]);
        }
    }
}

/// Every path listed below `d` lies strictly under `d`'s path.
proof fn lemma_files_under(d: DirNode)
    requires
        well_formed(d),
    ensures
        forall|x: Seq<Seq<char>>|
            all_files(d).contains(x) ==> path_view(d.path@).is_prefix_of(x) && x.len() > d.path.len(),
    decreases d, d.dirs.len() + 1,
{
    let fs = d.files@.map_values(|f: FileEntry| path_view(f.path@));
    lemma_subdirs_files_under(d, d.dirs.len() as int);
    assert forall|x: Seq<Seq<char>>| all_files(d).contains(x) implies path_view(
        d.path@,
    ).is_prefix_of(x) && x.len() > d.path.len() by {
        lemma_contains_concat(fs, subdirs_files(d, d.dirs.len() as int), x);
        if fs.contains(x) {
            let i = choose|i: int| 0 <= i < fs.len() && fs[i] == x;
            assert(one_below(path_view(d.path@), path_view(d.files[i].path@)));
        }
    }
}

/// Every path listed below the first `k` subdirectories of `d` lies two or more
/// segments under `d`, below one of those subdirectories.
proof fn lemma_subdirs_files_under(d: DirNode, k: int)
    requires
        well_formed(d),
        0 <= k <= d.dirs.len(),
    ensures
        forall|x: Seq<Seq<char>>|
            subdirs_files(d, k).contains(x) ==> {
                &&& path_view(d.path@).is_prefix_of(x)
                &&& x.len() > d.path.len() + 1
                &&& exists|j: int|
                    0 <= j < k && #[trigger] path_view(d.dirs[j].path@).is_prefix_of(x)
            },
    decreases d, k,
{
    if k > 0 {
        lemma_subdirs_files_under(d, k - 1);
        let c = d.dirs[k - 1];
        lemma_well_formed_child(d, k - 1, d.dirs.len() as int);
        lemma_files_under(c);
        assert forall|x: Seq<Seq<char>>| subdirs_files(d, k).contains(x) implies {
            &&& path_view(d.path@).is_prefix_of(x)
            &&& x.len() > d.path.len() + 1
            &&& exists|j: int|
                0 <= j < k && #[trigger] path_view(d.dirs[j].path@).is_prefix_of(x)
        } by {
            lemma_contains_concat(subdirs_files(d, k - 1), all_files(c), x);
            if all_files(c).contains(x) {
                lemma_prefix_trans(path_view(d.path@), path_view(c.path@), x);
                assert(path_view(d.dirs[k - 1].path@).is_prefix_of(x));
            } else {
                let j = choose|j: int|
                    0 <= j < k - 1 && #[trigger] path_view(d.dirs[j].path@).is_prefix_of(x);
                assert(path_view(d.dirs[j].path@).is_prefix_of(x));
            }
        }
    }
}

/// In a well-formed tree the enumeration lists no path twice.
pub proof fn lemma_enumeration_no_duplicates(d: DirNode)
    requires
        well_formed(d),
    ensures
        all_files(d).no_duplicates(),
    decreases d, d.dirs.len() + 1,
{
    let fs = d.files@.map_values(|f: FileEntry| path_view(f.path@));
    let n = d.dirs.len() as int;
    lemma_subdirs_no_duplicates(d, n);
    lemma_subdirs_files_under(d, n);
    assert forall|x: Seq<Seq<char>>| fs.contains(x) implies !subdirs_files(d, n).contains(x) by {
        let i = choose|i: int| 0 <= i < fs.len() && fs[i] == x;
        assert(one_below(path_view(d.path@), path_view(d.files[i].path@)));
    }
    assert forall|i: int, j: int| 0 <= i < fs.len() && 0 <= j < fs.len() && i != j implies fs[i]
        != fs[j] by {
        if i < j {
            assert(path_view(d.files[i].path@) != path_view(d.files[j].path@));
        } else {
            assert(path_view(d.files[j].path@) != path_view(d.files[i].path@));
        }
    }
    lemma_concat_no_duplicates(fs, subdirs_files(d, n));
}

proof fn lemma_subdirs_no_duplicates(d: DirNode, k: int)
    requires
        well_formed(d),
        0 <= k <= d.dirs.len(),
    ensures
        subdirs_files(d, k).no_duplicates(),
    decreases d, k,
{
    if k > 0 {
        let c = d.dirs[k - 1];
        let prev = subdirs_files(d, k - 1);
        lemma_subdirs_no_duplicates(d, k - 1);
        lemma_well_formed_child(d, k - 1, d.dirs.len() as int);
        lemma_enumeration_no_duplicates(c);
        lemma_subdirs_files_under(d, k - 1);
        lemma_files_under(c);
        assert forall|x: Seq<Seq<char>>| prev.contains(x) implies !all_files(c).contains(x) by {
            let j = choose|j: int|
                0 <= j < k - 1 && #[trigger] path_view(d.dirs[j].path@).is_prefix_of(x);
            lemma_well_formed_child(d, j, d.dirs.len() as int);
            if all_files(c).contains(x) {
                let a = path_view(d.dirs[j].path@);
                let b = path_view(c.path@);
                assert(a =~= x.subrange(0, a.len() as int));
                assert(b =~= x.subrange(0, b.len() as int));
                assert(a == b);
                assert(false);
            }
        }
        lemma_concat_no_duplicates(prev, all_files(c));
    }
}

} // verus!
