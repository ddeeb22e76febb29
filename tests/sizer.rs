use fim::rank::largest;
use fim::sizer::{DirectoryInfo, Searcher};
use fim::tree::{checked_total_size, DirNode, FileEntry};
use fim::walk::get_file_paths;

fn path(parts: &[&str]) -> Vec<String> {
    parts.iter().map(|s| s.to_string()).collect()
}

fn file(parts: &[&str], size: u64) -> FileEntry {
    FileEntry { path: path(parts), size }
}

/// root/{a.txt(10), sub/{b.txt(20), c.txt(5)}}
fn small_tree() -> DirNode {
    DirNode {
        path: path(&["root"]),
        files: vec![file(&["root", "a.txt"], 10)],
        dirs: vec![DirNode {
            path: path(&["root", "sub"]),
            files: vec![file(&["root", "sub", "b.txt"], 20), file(&["root", "sub", "c.txt"], 5)],
            dirs: vec![],
        }],
    }
}

/// root/{r.bin(1), x/{x1(2), y/{y1(4), z/{z1(8)}}}, w/{w1(16)}}
fn deep_tree() -> DirNode {
    let z = DirNode {
        path: path(&["root", "x", "y", "z"]),
        files: vec![file(&["root", "x", "y", "z", "z1"], 8)],
        dirs: vec![],
    };
    let y = DirNode {
        path: path(&["root", "x", "y"]),
        files: vec![file(&["root", "x", "y", "y1"], 4)],
        dirs: vec![z],
    };
    let x = DirNode {
        path: path(&["root", "x"]),
        files: vec![file(&["root", "x", "x1"], 2)],
        dirs: vec![y],
    };
    let w = DirNode {
        path: path(&["root", "w"]),
        files: vec![file(&["root", "w", "w1"], 16)],
        dirs: vec![],
    };
    DirNode { path: path(&["root"]), files: vec![file(&["root", "r.bin"], 1)], dirs: vec![x, w] }
}

fn pairs(records: &[DirectoryInfo]) -> Vec<(String, u64)> {
    records.iter().map(|r| (r.path.join("/"), r.size)).collect()
}

fn record(p: &str, size: u64) -> DirectoryInfo {
    DirectoryInfo { path: path(&p.split('/').collect::<Vec<_>>()), size }
}

#[test]
fn depth_one_example_gives_two_records() {
    let searcher = Searcher { root_dir: path(&["root"]), depth: 1 };
    let records = searcher.search(&small_tree());
    assert_eq!(pairs(&records), vec![("root/sub".to_string(), 25), ("root".to_string(), 10)]);
    let total: u64 = records.iter().map(|r| r.size).sum();
    assert_eq!(total, 35);
}

#[test]
fn depth_zero_rolls_up_every_child() {
    let searcher = Searcher { root_dir: path(&["root"]), depth: 0 };
    let records = searcher.search(&deep_tree());
    assert_eq!(
        pairs(&records),
        vec![("root/x".to_string(), 14), ("root/w".to_string(), 16), ("root".to_string(), 1)]
    );
}

#[test]
fn depth_two_descends_one_level_more() {
    let searcher = Searcher { root_dir: path(&["root"]), depth: 2 };
    let records = searcher.search(&deep_tree());
    assert_eq!(
        pairs(&records),
        vec![
            ("root/x/y".to_string(), 12),
            ("root/x".to_string(), 2),
            ("root/w".to_string(), 16),
            ("root".to_string(), 1)
        ]
    );
}

#[test]
fn large_depth_reports_each_directory_by_its_own_files() {
    let searcher = Searcher { root_dir: path(&["root"]), depth: 100 };
    let records = searcher.search(&deep_tree());
    assert_eq!(
        pairs(&records),
        vec![
            ("root/x/y/z".to_string(), 8),
            ("root/x/y".to_string(), 4),
            ("root/x".to_string(), 2),
            ("root/w".to_string(), 16),
            ("root".to_string(), 1)
        ]
    );
}

#[test]
fn records_add_up_to_tree_total_at_every_depth() {
    let tree = deep_tree();
    for depth in 0..6u64 {
        let searcher = Searcher { root_dir: path(&["root"]), depth };
        let total: u64 = searcher.search(&tree).iter().map(|r| r.size).sum();
        assert_eq!(total, 31);
    }
}

#[test]
fn size_of_dir_counts_every_level() {
    assert_eq!(Searcher::size_of_dir(&deep_tree()), 31);
    assert_eq!(Searcher::size_of_dir(&small_tree()), 35);
    let empty = DirNode { path: path(&["e"]), files: vec![], dirs: vec![] };
    assert_eq!(Searcher::size_of_dir(&empty), 0);
}

#[test]
fn checked_total_detects_overflow() {
    assert_eq!(checked_total_size(&deep_tree()), Some(31));
    let big = DirNode {
        path: path(&["big"]),
        files: vec![file(&["big", "a"], u64::MAX), file(&["big", "b"], 1)],
        dirs: vec![],
    };
    assert_eq!(checked_total_size(&big), None);
    let nested = DirNode {
        path: path(&["n"]),
        files: vec![file(&["n", "a"], u64::MAX - 1)],
        dirs: vec![DirNode { path: path(&["n", "d"]), files: vec![file(&["n", "d", "b"], 2)], dirs: vec![] }],
    };
    assert_eq!(checked_total_size(&nested), None);
    let edge = DirNode { path: path(&["m"]), files: vec![file(&["m", "a"], u64::MAX)], dirs: vec![] };
    assert_eq!(checked_total_size(&edge), Some(u64::MAX));
}

#[test]
fn distance_counts_hops_below_root() {
    assert_eq!(Searcher::distance(&path(&["root"]), &path(&["root", "a"])), Some(1));
    assert_eq!(Searcher::distance(&path(&["root"]), &path(&["root", "a", "b", "c"])), Some(3));
    assert_eq!(Searcher::distance(&path(&["root"]), &path(&["root"])), None);
    assert_eq!(Searcher::distance(&path(&["root"]), &path(&["other", "a"])), None);
    assert_eq!(Searcher::distance(&path(&["root", "a"]), &path(&["root"])), None);
}

#[test]
fn parse_dir_appends_after_existing_records() {
    let searcher = Searcher { root_dir: path(&["root"]), depth: 1 };
    let mut records = vec![record("earlier", 7)];
    searcher.parse_dir(&small_tree(), &mut records);
    assert_eq!(
        pairs(&records),
        vec![("earlier".to_string(), 7), ("root/sub".to_string(), 25), ("root".to_string(), 10)]
    );
}

#[test]
fn largest_returns_top_sizes_in_descending_order() {
    let records = vec![record("a", 5), record("b", 50), record("c", 20), record("d", 1), record("e", 30)];
    let top = largest(records, 3);
    assert_eq!(
        pairs(&top),
        vec![("b".to_string(), 50), ("e".to_string(), 30), ("c".to_string(), 20)]
    );
}

#[test]
fn largest_with_count_beyond_length_returns_all() {
    let records = vec![record("a", 5), record("b", 50), record("c", 20)];
    let top = largest(records, 10);
    assert_eq!(pairs(&top), vec![("b".to_string(), 50), ("c".to_string(), 20), ("a".to_string(), 5)]);
}

#[test]
fn largest_with_zero_count_is_empty() {
    let records = vec![record("a", 5), record("b", 50)];
    assert!(largest(records, 0).is_empty());
    assert!(largest(Vec::new(), 4).is_empty());
}

#[test]
fn largest_keeps_equal_sizes() {
    let top = largest(vec![record("a", 3), record("b", 3), record("c", 3)], 2);
    assert_eq!(top.len(), 2);
    assert!(top.iter().all(|r| r.size == 3));
}

#[test]
fn enumeration_lists_every_file_once() {
    let mut paths = Vec::new();
    get_file_paths(&deep_tree(), &mut paths);
    let joined: Vec<String> = paths.iter().map(|p| p.join("/")).collect();
    assert_eq!(
        joined,
        vec!["root/r.bin", "root/x/x1", "root/x/y/y1", "root/x/y/z/z1", "root/w/w1"]
    );
}

#[test]
fn enumeration_of_empty_tree_adds_nothing() {
    let mut paths = vec![path(&["keep"])];
    let tree = DirNode {
        path: path(&["e"]),
        files: vec![],
        dirs: vec![DirNode { path: path(&["e", "d"]), files: vec![], dirs: vec![] }],
    };
    get_file_paths(&tree, &mut paths);
    assert_eq!(paths, vec![path(&["keep"])]);
}
