use fim::matcher::{find_matches, match_file, Pattern, PatternError};
use fim::prepend::prepend_line;
use fim::progress::{frame, next_step, Signal, Step};

fn path(parts: &[&str]) -> Vec<String> {
    parts.iter().map(|s| s.to_string()).collect()
}

#[test]
fn pattern_search_matches_names_containing_foo() {
    let pattern = Pattern::new("foo").unwrap();
    let files = vec![
        path(&["root", "foo.txt"]),
        path(&["root", "bar.log"]),
        path(&["root", "foobar.txt"]),
    ];
    let hits = find_matches(&pattern, &path(&["root"]), &files);
    assert_eq!(hits.len(), 2);
    assert_eq!(hits[0].before, "");
    assert_eq!(hits[0].matched, "foo");
    assert_eq!(hits[0].after, ".txt");
    assert_eq!(hits[1].matched, "foo");
    assert_eq!(hits[1].after, "bar.txt");
    assert!(hits.iter().all(|h| h.parent.is_empty()));
}

#[test]
fn match_splits_name_around_first_match_and_relativizes_parent() {
    let pattern = Pattern::new("b[a-z]r").unwrap();
    let hit = match_file(&pattern, &path(&["root"]), &path(&["root", "sub", "foobar.txt"])).unwrap();
    assert_eq!(hit.parent, path(&["sub"]));
    assert_eq!(hit.before, "foo");
    assert_eq!(hit.matched, "bar");
    assert_eq!(hit.after, ".txt");
}

#[test]
fn match_outside_root_keeps_full_parent() {
    let pattern = Pattern::new("x").unwrap();
    let hit = match_file(&pattern, &path(&["root"]), &path(&["elsewhere", "x"])).unwrap();
    assert_eq!(hit.parent, path(&["elsewhere"]));
    assert_eq!(hit.matched, "x");
}

#[test]
fn no_match_and_empty_path_give_nothing() {
    let pattern = Pattern::new("zzz").unwrap();
    assert!(match_file(&pattern, &path(&["root"]), &path(&["root", "a.txt"])).is_none());
    assert!(match_file(&pattern, &path(&["root"]), &Vec::new()).is_none());
}

#[test]
fn invalid_pattern_is_refused() {
    assert_eq!(Pattern::new("foo(bar").err(), Some(PatternError::Invalid));
    assert_eq!(Pattern::new("ab+").unwrap().as_str(), "ab+");
}

#[test]
fn prepend_puts_text_before_original_lines() {
    let lines = vec!["a".to_string(), "b".to_string()];
    let out = prepend_line(&"HEADER".to_string(), &lines);
    assert_eq!(out, vec!["HEADER".to_string(), "a".to_string(), "b".to_string()]);
    assert_eq!(lines, vec!["a".to_string(), "b".to_string()]);
}

#[test]
fn prepend_to_empty_file_gives_one_line() {
    let out = prepend_line(&"only".to_string(), &Vec::new());
    assert_eq!(out, vec!["only".to_string()]);
}

#[test]
fn progress_cycles_through_frames() {
    assert_eq!(frame(0), '|');
    assert_eq!(frame(1), '/');
    assert_eq!(frame(2), '-');
    assert_eq!(frame(3), '\\');
    assert_eq!(next_step(0, Signal::Pending), Step::Tick(1));
    assert_eq!(next_step(3, Signal::Pending), Step::Tick(0));
    assert_eq!(next_step(2, Signal::Finished), Step::Clear);
    assert_eq!(next_step(1, Signal::Lost), Step::Stop);
}
