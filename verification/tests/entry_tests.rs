use unzip::entry::{
    normalize_entry, normalize_records, synthesize_dirs, DateParts, EntryTime, RawEntry,
};

fn rec(path: &str, is_dir: bool, size: u64) -> RawEntry {
    RawEntry { path: path.to_string(), is_dir, size, mtime: None }
}

#[test]
fn test_normalize_file() {
    let e = normalize_entry(&rec("a/b.txt", false, 42));
    assert_eq!(e.name, "b.txt");
    assert_eq!(e.path, "a/b.txt");
    assert_eq!(e.parent_path, Some("a/".to_string()));
    assert_eq!(e.size, 42);
    assert!(!e.is_dir);
    assert_eq!(e.modified, None);
}

#[test]
fn test_normalize_dir_adds_slash_and_zero_size() {
    let e = normalize_entry(&rec("a/b", true, 7));
    assert_eq!(e.path, "a/b/");
    assert_eq!(e.name, "b");
    assert_eq!(e.parent_path, Some("a/".to_string()));
    assert_eq!(e.size, 0);
    assert!(e.is_dir);
}

#[test]
fn test_normalize_dir_keeps_existing_slash() {
    let e = normalize_entry(&rec("a/", true, 0));
    assert_eq!(e.path, "a/");
    assert_eq!(e.name, "a");
    assert_eq!(e.parent_path, None);
}

#[test]
fn test_normalize_keeps_largest_size() {
    let e = normalize_entry(&rec("big.bin", false, u64::MAX));
    assert_eq!(e.size, u64::MAX);
}

#[test]
fn test_normalize_root_entry_has_no_parent() {
    let e = normalize_entry(&rec("c.txt", false, 5));
    assert_eq!(e.parent_path, None);
    assert_eq!(e.name, "c.txt");
}

#[test]
fn test_normalize_unix_epoch() {
    let mut r = rec("a.txt", false, 1);
    r.mtime = Some(EntryTime::Unix(0));
    let e = normalize_entry(&r);
    assert_eq!(e.modified, Some("1970-01-01 00:00:00".to_string()));
}

#[test]
fn test_normalize_unix_known_timestamp() {
    let mut r = rec("a.txt", false, 1);
    r.mtime = Some(EntryTime::Unix(1431648000));
    let e = normalize_entry(&r);
    assert_eq!(e.modified, Some("2015-05-15 00:00:00".to_string()));
}

#[test]
fn test_normalize_unix_out_of_range_is_absent() {
    let mut r = rec("a.txt", false, 1);
    r.mtime = Some(EntryTime::Unix(i64::MAX));
    let e = normalize_entry(&r);
    assert_eq!(e.modified, None);
}

#[test]
fn test_normalize_calendar_parts() {
    let mut r = rec("a.txt", false, 1);
    r.mtime = Some(EntryTime::Parts(DateParts {
        year: 2021,
        month: 3,
        day: 5,
        hour: 4,
        minute: 7,
        second: 9,
    }));
    let e = normalize_entry(&r);
    assert_eq!(e.modified, Some("2021-03-05 04:07:09".to_string()));
}

#[test]
fn test_normalize_invalid_calendar_is_absent() {
    let mut r = rec("a.txt", false, 1);
    r.mtime = Some(EntryTime::Parts(DateParts {
        year: 2021,
        month: 13,
        day: 5,
        hour: 4,
        minute: 7,
        second: 9,
    }));
    let e = normalize_entry(&r);
    assert_eq!(e.modified, None);
}

#[test]
fn test_normalize_records_skips_metadata_and_empty() {
    let records = vec![
        rec("a.txt", false, 1),
        rec("__MACOSX/a.txt", false, 1),
        rec("", false, 0),
        rec("__MACOSX", true, 0),
    ];
    let out = normalize_records(&records);
    assert_eq!(out.len(), 1);
    assert_eq!(out[0].path, "a.txt");
}

#[test]
fn test_synthesize_missing_ancestors() {
    let z = normalize_entry(&rec("x/y/z.txt", false, 9));
    let out = synthesize_dirs(vec![z]);
    let paths: Vec<&str> = out.iter().map(|e| e.path.as_str()).collect();
    assert_eq!(paths, vec!["x/y/z.txt", "x/y/", "x/"]);
    assert!(out[1].is_dir);
    assert_eq!(out[1].name, "y");
    assert_eq!(out[1].parent_path, Some("x/".to_string()));
    assert!(out[2].is_dir);
    assert_eq!(out[2].parent_path, None);
}

#[test]
fn test_synthesize_keeps_present_ancestors() {
    let d = normalize_entry(&rec("x/", true, 0));
    let z = normalize_entry(&rec("x/z.txt", false, 9));
    let out = synthesize_dirs(vec![d, z]);
    assert_eq!(out.len(), 2);
}
