use pf8_bridge::pattern::{filter_paths, glob_match, is_selected};

fn strings(v: &[&str]) -> Vec<String> {
    v.iter().map(|s| s.to_string()).collect()
}

#[test]
fn star_stays_within_a_component() {
    assert!(glob_match("*.txt", "a.txt"));
    assert!(glob_match("*.txt", ".txt"));
    assert!(!glob_match("*.txt", "dir/a.txt"));
    assert!(!glob_match("*.txt", "a.txt.bak"));
    assert!(glob_match("dir/*", "dir/a"));
    assert!(!glob_match("dir/*", "dir/a/b"));
}

#[test]
fn double_star_crosses_components() {
    assert!(glob_match("**.txt", "dir/sub/a.txt"));
    assert!(glob_match("**/*.txt", "dir/a.txt"));
    assert!(glob_match("**", ""));
    assert!(glob_match("a/**/z", "a/b/c/z"));
    assert!(!glob_match("a/**/z", "a/z"));
}

#[test]
fn question_mark_and_literals() {
    assert!(glob_match("?.bin", "x.bin"));
    assert!(!glob_match("?.bin", "xy.bin"));
    assert!(!glob_match("?", ""));
    assert!(glob_match("a.txt", "a.txt"));
    assert!(!glob_match("A.txt", "a.txt"));
    assert!(!glob_match("", "a"));
    assert!(glob_match("", ""));
}

#[test]
fn absent_list_selects_everything() {
    assert!(is_selected(&None, "anything/at/all"));
}

#[test]
fn empty_list_selects_nothing() {
    assert!(!is_selected(&Some(vec![]), "a.txt"));
}

#[test]
fn any_pattern_selects() {
    let pats = Some(strings(&["*.png", "*.txt"]));
    assert!(is_selected(&pats, "a.txt"));
    assert!(is_selected(&pats, "b.png"));
    assert!(!is_selected(&pats, "c.ogg"));
}

#[test]
fn filtering_by_txt() {
    let paths = strings(&["a.txt", "b.png", "dir/c.txt", "d.txt", "e.txt.old"]);
    assert_eq!(
        filter_paths(&paths, &Some(strings(&["*.txt"]))),
        strings(&["a.txt", "d.txt"])
    );
    assert_eq!(filter_paths(&paths, &Some(vec![])), Vec::<String>::new());
    assert_eq!(filter_paths(&paths, &None), paths);
}

#[test]
fn many_stars_on_long_path() {
    let pattern = "*a".repeat(20) + "*b";
    let path = "a".repeat(300);
    assert!(!glob_match(&pattern, &path));
    let hit = path.clone() + "b";
    assert!(glob_match(&pattern, &hit));
}
