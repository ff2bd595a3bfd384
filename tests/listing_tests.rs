use pf8_bridge::table::{build_table, check_table, EntryRecord};

fn rec(path: &str, offset: u64, size: u64) -> EntryRecord {
    EntryRecord { path: path.to_string(), offset, size }
}

#[test]
fn listing_of_empty_table() {
    let t = check_table(0, vec![], 0).unwrap();
    assert_eq!(t.listing_json(), "[]");
}

#[test]
fn listing_of_one_entry() {
    let t = check_table(1, vec![rec("a.txt", 0, 12)], 12).unwrap();
    assert_eq!(t.listing_json(), "[{\"name\":\"a.txt\",\"size\":12}]");
}

#[test]
fn listing_in_table_order() {
    let paths = vec!["z/last".to_string(), "a/first".to_string()];
    let t = build_table(paths, vec![0, 1234567890], 0);
    assert_eq!(
        t.listing_json(),
        "[{\"name\":\"z/last\",\"size\":0},{\"name\":\"a/first\",\"size\":1234567890}]"
    );
}

#[test]
fn listing_escapes_names() {
    let t = check_table(1, vec![rec("q\"b\\s\nt\u{1f}", 0, 10)], 10).unwrap();
    assert_eq!(
        t.listing_json(),
        "[{\"name\":\"q\\\"b\\\\s\\u000at\\u001f\",\"size\":10}]"
    );
}

#[test]
fn listing_keeps_non_ascii_names() {
    let t = check_table(1, vec![rec("音楽/曲.ogg", 0, 1)], 1).unwrap();
    assert_eq!(t.listing_json(), "[{\"name\":\"音楽/曲.ogg\",\"size\":1}]");
}

#[test]
fn listing_of_largest_size() {
    let t = check_table(1, vec![rec("big", 0, u64::MAX)], u64::MAX).unwrap();
    assert_eq!(
        t.listing_json(),
        "[{\"name\":\"big\",\"size\":18446744073709551615}]"
    );
}
