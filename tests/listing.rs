use homestream::paths::{is_special_name, join, split_listing};
use homestream::walk::Walk;

fn names(v: &[&str]) -> Vec<String> {
    v.iter().map(|s| s.to_string()).collect()
}

#[test]
fn join_puts_one_slash_between() {
    assert_eq!(join("/media", "Movies"), "/media/Movies");
}

#[test]
fn self_and_parent_entries_are_special() {
    assert!(is_special_name("."));
    assert!(is_special_name(".."));
    assert!(is_special_name(""));
    assert!(!is_special_name("..."));
    assert!(!is_special_name("a"));
}

#[test]
fn listing_splits_directories_and_files() {
    let (dirs, files) = split_listing(&"/m".to_string(), &names(&[".", "..", "Action", "Heat 1995.mkv", "Drama", "notes.txt"]));
    let d: Vec<(String, String)> = dirs.into_iter().map(|e| (e.path, e.name)).collect();
    let f: Vec<(String, String)> = files.into_iter().map(|e| (e.path, e.name)).collect();
    assert_eq!(d, vec![("/m/Action".to_string(), "Action".to_string()), ("/m/Drama".to_string(), "Drama".to_string())]);
    assert_eq!(f, vec![("/m/Heat 1995.mkv".to_string(), "Heat 1995.mkv".to_string()), ("/m/notes.txt".to_string(), "notes.txt".to_string())]);
}

fn tree(path: &str) -> Option<Vec<String>> {
    match path {
        "/r" => Some(names(&[".", "..", "a", "b", "x.mkv"])),
        "/r/a" => Some(names(&[".", "..", "a", "y.mkv"])),
        "/r/a/a" => Some(names(&[".", "..", "a"])),
        "/r/a/a/a" => Some(names(&[".", ".."])),
        "/r/b" => Some(names(&[".", "..", "a", "a"])),
        "/r/b/a" => Some(names(&[".", ".."])),
        _ => None,
    }
}

#[test]
fn walk_visits_each_directory_once_and_ends() {
    let mut w = Walk::new("/r".to_string());
    let mut visited: Vec<String> = Vec::new();
    let mut files: Vec<String> = Vec::new();
    let mut steps = 0;
    while let Some(d) = w.next_dir() {
        steps += 1;
        assert!(steps < 100);
        visited.push(d.clone());
        if let Some(ns) = tree(&d) {
            for e in w.expand(&d, &ns) {
                files.push(e.path);
            }
        }
    }
    let mut sorted = visited.clone();
    sorted.sort();
    assert_eq!(sorted, vec!["/r", "/r/a", "/r/a/a", "/r/a/a/a", "/r/b", "/r/b/a"]);
    assert_eq!(visited.len(), 6);
    assert_eq!(visited[0], "/r");
    files.sort();
    assert_eq!(files, vec!["/r/a/y.mkv", "/r/x.mkv"]);
}

#[test]
fn walk_lists_the_last_pushed_first() {
    let mut w = Walk::new("/r".to_string());
    let first = w.next_dir().unwrap();
    w.expand(&first, &names(&["gone", "kept"]));
    let mut rest = Vec::new();
    while let Some(d) = w.next_dir() {
        rest.push(d);
    }
    assert_eq!(rest, vec!["/r/kept", "/r/gone"]);
}
