use pf8_bridge::error::ErrorKind;
use pf8_bridge::table::{build_table, check_table, EntryRecord};

fn rec(path: &str, offset: u64, size: u64) -> EntryRecord {
    EntryRecord { path: path.to_string(), offset, size }
}

#[test]
fn check_accepts_sound_table() {
    let records = vec![rec("a.txt", 20, 5), rec("dir/b.bin", 25, 10)];
    let t = check_table(2, records.clone(), 35).unwrap();
    assert_eq!(t.len(), 2);
    assert!(!t.is_empty());
    assert_eq!(t.container_len(), 35);
    assert_eq!(t.entries(), &records);
    assert_eq!(t.entry(1).path, "dir/b.bin");
}

#[test]
fn check_accepts_empty_table() {
    let t = check_table(0, vec![], 11).unwrap();
    assert!(t.is_empty());
    assert_eq!(t.entries().len(), 0);
}

#[test]
fn check_rejects_count_mismatch() {
    let records = vec![rec("a.txt", 20, 5)];
    assert_eq!(check_table(2, records.clone(), 100).unwrap_err(), ErrorKind::Corrupt);
    assert_eq!(check_table(0, records, 100).unwrap_err(), ErrorKind::Corrupt);
}

#[test]
fn check_rejects_payload_past_end() {
    let records = vec![rec("a.txt", 20, 5), rec("b.txt", 25, 10)];
    assert_eq!(check_table(2, records, 34).unwrap_err(), ErrorKind::Corrupt);
}

#[test]
fn check_rejects_overflowing_extent() {
    let records = vec![rec("a.txt", u64::MAX, 2)];
    assert_eq!(check_table(1, records, u64::MAX).unwrap_err(), ErrorKind::Corrupt);
}

#[test]
fn check_rejects_duplicate_paths() {
    let records = vec![rec("a.txt", 0, 1), rec("b.txt", 1, 1), rec("a.txt", 2, 1)];
    assert_eq!(check_table(3, records, 3).unwrap_err(), ErrorKind::Corrupt);
}

#[test]
fn entries_listed_identically_twice() {
    let records = vec![rec("x", 11, 3), rec("y", 14, 0), rec("z", 14, 7)];
    let t = check_table(3, records, 21).unwrap();
    let first: Vec<EntryRecord> = t.entries().clone();
    let second: Vec<EntryRecord> = t.entries().clone();
    assert_eq!(first, second);
    assert_eq!(t.len(), 3);
}

#[test]
fn build_lays_files_out_in_order() {
    let paths = vec!["a".to_string(), "b/c".to_string(), "d".to_string()];
    let sizes = vec![4, 0, 6];
    let t = build_table(paths, sizes, 100);
    let e = t.entries();
    assert_eq!(e[0], rec("a", 100, 4));
    assert_eq!(e[1], rec("b/c", 104, 0));
    assert_eq!(e[2], rec("d", 104, 6));
    assert_eq!(t.container_len(), 110);
}

#[test]
fn build_with_equal_sizes() {
    let paths = vec!["one".to_string(), "two".to_string()];
    let t = build_table(paths, vec![3, 3], 0);
    assert_eq!(t.entries()[0].offset, 0);
    assert_eq!(t.entries()[1].offset, 3);
    assert_eq!(t.container_len(), 6);
}

#[test]
fn built_table_passes_check() {
    let paths = vec!["a.txt".to_string(), "sub/b.txt".to_string(), "c".to_string()];
    let sizes = vec![7, 7, 1];
    let t = build_table(paths, sizes, 40);
    let again = check_table(3, t.entries().clone(), t.container_len()).unwrap();
    assert_eq!(again.entries(), t.entries());
    let pairs: Vec<(String, u64)> = again.entries().iter().map(|r| (r.path.clone(), r.size)).collect();
    assert_eq!(
        pairs,
        vec![("a.txt".to_string(), 7), ("sub/b.txt".to_string(), 7), ("c".to_string(), 1)]
    );
}

#[test]
fn empty_build_passes_check() {
    let t = build_table(vec![], vec![], 11);
    assert_eq!(t.container_len(), 11);
    assert!(check_table(0, vec![], t.container_len()).is_ok());
}

#[test]
fn truncated_container_is_corrupt() {
    let paths = vec!["a".to_string(), "b".to_string()];
    let t = build_table(paths, vec![5, 9], 30);
    let len = t.container_len();
    assert!(check_table(2, t.entries().clone(), len).is_ok());
    for k in 1..=len {
        assert_eq!(
            check_table(2, t.entries().clone(), len - k).unwrap_err(),
            ErrorKind::Corrupt
        );
    }
}
