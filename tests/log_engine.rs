use kvs::{
    decode_record, encode_record, get_step, remove_step, set_step, KeyDir, KvsError, Record,
};

fn apply_set(log: &mut Vec<String>, k: &str, v: &str) {
    let w = set_step(log, k.to_string(), v.to_string()).unwrap();
    *log = w.compacted;
}

fn read(log: &Vec<String>, k: &str) -> Option<String> {
    get_step(log, k).unwrap().0
}

#[test]
fn encode_set_record_as_json_line() {
    let r = Record::Put { key: "a".to_string(), value: "1".to_string() };
    assert_eq!(encode_record(&r), "{\"Set\":{\"key\":\"a\",\"value\":\"1\"}}");
}

#[test]
fn encode_remove_record_as_json_line() {
    let r = Record::Remove { key: "key1".to_string() };
    assert_eq!(encode_record(&r), "{\"Remove\":{\"key\":\"key1\"}}");
}

#[test]
fn encode_escapes_quotes_backslashes_and_breaks() {
    let r = Record::Put { key: "a\"b".to_string(), value: "x\\y\nz\tw\r".to_string() };
    assert_eq!(
        encode_record(&r),
        "{\"Set\":{\"key\":\"a\\\"b\",\"value\":\"x\\\\y\\nz\\tw\\r\"}}"
    );
}

#[test]
fn decode_reads_back_encoded_records() {
    let recs = vec![
        Record::Put { key: "k\"1".to_string(), value: "v\n\\".to_string() },
        Record::Remove { key: "ü and ✓".to_string() },
        Record::Put { key: String::new(), value: String::new() },
    ];
    for r in recs {
        let line = encode_record(&r);
        let back = decode_record(&line).unwrap();
        assert_eq!(encode_record(&back), line);
        match (&r, &back) {
            (Record::Put { key: a, value: b }, Record::Put { key: c, value: d }) => {
                assert_eq!(a, c);
                assert_eq!(b, d);
            }
            (Record::Remove { key: a }, Record::Remove { key: c }) => assert_eq!(a, c),
            _ => panic!("record kind changed"),
        }
    }
}

#[test]
fn decode_rejects_malformed_lines() {
    for bad in [
        "",
        "garbage",
        "{\"Set\":{\"key\":\"a\"}}",
        "{\"Set\":{\"key\":\"a\",\"value\":\"1\"}}x",
        "{\"Remove\":{\"key\":\"a\\q\"}}",
        "{\"Remove\":{\"key\":\"a",
    ] {
        assert!(matches!(decode_record(bad), Err(KvsError::Serde(_))), "{}", bad);
    }
}

#[test]
fn key_dir_insert_get_remove() {
    let mut d = KeyDir::new();
    assert_eq!(d.len(), 0);
    d.insert("a".to_string(), "1".to_string());
    d.insert("b".to_string(), "2".to_string());
    d.insert("a".to_string(), "3".to_string());
    assert_eq!(d.len(), 2);
    assert_eq!(d.get("a"), Some("3".to_string()));
    assert!(d.remove("a"));
    assert!(!d.remove("a"));
    assert_eq!(d.get("a"), None);
    assert_eq!(d.get("b"), Some("2".to_string()));
}

#[test]
fn get_returns_latest_set_not_removed() {
    let mut log: Vec<String> = Vec::new();
    apply_set(&mut log, "k", "v1");
    apply_set(&mut log, "k", "v2");
    apply_set(&mut log, "other", "x");
    assert_eq!(read(&log, "k"), Some("v2".to_string()));
    let w = remove_step(&log, "k").unwrap();
    log = w.compacted;
    assert_eq!(read(&log, "k"), None);
    apply_set(&mut log, "k", "v3");
    assert_eq!(read(&log, "k"), Some("v3".to_string()));
    assert_eq!(read(&log, "other"), Some("x".to_string()));
    assert_eq!(read(&log, "never"), None);
}

#[test]
fn replay_of_appended_lines_without_compaction() {
    let log = vec![
        "{\"Set\":{\"key\":\"a\",\"value\":\"1\"}}".to_string(),
        "{\"Set\":{\"key\":\"b\",\"value\":\"2\"}}".to_string(),
        "{\"Remove\":{\"key\":\"a\"}}".to_string(),
        "{\"Set\":{\"key\":\"b\",\"value\":\"3\"}}".to_string(),
    ];
    let (v, compacted) = get_step(&log, "b").unwrap();
    assert_eq!(v, Some("3".to_string()));
    assert_eq!(compacted, vec!["{\"Set\":{\"key\":\"b\",\"value\":\"3\"}}".to_string()]);
    assert_eq!(get_step(&log, "a").unwrap().0, None);
}

#[test]
fn set_appends_a_set_line() {
    let log: Vec<String> = vec!["{\"Set\":{\"key\":\"a\",\"value\":\"1\"}}".to_string()];
    let w = set_step(&log, "b".to_string(), "2".to_string()).unwrap();
    assert_eq!(w.append, "{\"Set\":{\"key\":\"b\",\"value\":\"2\"}}");
    assert_eq!(w.compacted.len(), 2);
    assert_eq!(read(&w.compacted, "a"), Some("1".to_string()));
    assert_eq!(read(&w.compacted, "b"), Some("2".to_string()));
}

#[test]
fn remove_absent_key_is_key_not_found() {
    let log = vec!["{\"Set\":{\"key\":\"a\",\"value\":\"1\"}}".to_string()];
    assert!(matches!(remove_step(&log, "b"), Err(KvsError::KeyNotFound)));
    assert!(matches!(remove_step(&Vec::new(), "a"), Err(KvsError::KeyNotFound)));
}

#[test]
fn remove_present_key_appends_remove_line() {
    let log = vec!["{\"Set\":{\"key\":\"a\",\"value\":\"1\"}}".to_string()];
    let w = remove_step(&log, "a").unwrap();
    assert_eq!(w.append, "{\"Remove\":{\"key\":\"a\"}}");
    assert!(w.compacted.is_empty());
}

#[test]
fn malformed_log_is_serde_error_for_every_call() {
    let log = vec!["{\"Set\":{\"key\":\"a\",\"value\":\"1\"}}".to_string(), "oops".to_string()];
    assert!(matches!(get_step(&log, "a"), Err(KvsError::Serde(_))));
    assert!(matches!(set_step(&log, "a".to_string(), "2".to_string()), Err(KvsError::Serde(_))));
    assert!(matches!(remove_step(&log, "a"), Err(KvsError::Serde(_))));
}

#[test]
fn reopened_log_reproduces_the_map() {
    let mut log: Vec<String> = Vec::new();
    apply_set(&mut log, "a", "1");
    apply_set(&mut log, "b", "two words");
    apply_set(&mut log, "c", "q\"uote");
    log = remove_step(&log, "a").unwrap().compacted;
    apply_set(&mut log, "b", "2");
    // What a fresh process reads is the text on disk, one line per record.
    let text: String = log.iter().map(|l| format!("{}\n", l)).collect();
    let reread: Vec<String> = text.lines().map(|l| l.to_string()).collect();
    assert_eq!(read(&reread, "a"), None);
    assert_eq!(read(&reread, "b"), Some("2".to_string()));
    assert_eq!(read(&reread, "c"), Some("q\"uote".to_string()));
}

#[test]
fn compaction_twice_gives_same_records() {
    let log = vec![
        "{\"Set\":{\"key\":\"a\",\"value\":\"1\"}}".to_string(),
        "{\"Set\":{\"key\":\"b\",\"value\":\"2\"}}".to_string(),
        "{\"Set\":{\"key\":\"a\",\"value\":\"3\"}}".to_string(),
        "{\"Remove\":{\"key\":\"b\"}}".to_string(),
        "{\"Set\":{\"key\":\"c\",\"value\":\"4\"}}".to_string(),
    ];
    let (_, first) = get_step(&log, "a").unwrap();
    let (_, second) = get_step(&first, "a").unwrap();
    let mut s1 = first.clone();
    let mut s2 = second.clone();
    s1.sort();
    s2.sort();
    assert_eq!(s1, s2);
    assert_eq!(s1.len(), 2);
    assert!(first.iter().all(|l| !l.contains("Remove")));
}

#[test]
fn compacted_lines_hold_no_line_breaks() {
    let log: Vec<String> = Vec::new();
    let w = set_step(&log, "multi\nline".to_string(), "a\r\nb".to_string()).unwrap();
    assert_eq!(w.compacted.len(), 1);
    assert!(!w.compacted[0].contains('\n') && !w.compacted[0].contains('\r'));
    assert!(!w.append.contains('\n'));
    assert_eq!(read(&w.compacted, "multi\nline"), Some("a\r\nb".to_string()));
}
