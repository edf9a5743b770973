use std::collections::HashMap;
use sysdiff::compare::{find_unique_keys, record_file_hash, render_results};
use sysdiff::text::split_lines;

#[test]
fn md5_of_empty_file() {
    let mut m: HashMap<u128, String> = HashMap::new();
    record_file_hash(&mut m, b"", "/empty".to_string());
    assert_eq!(m.get(&0xd41d8cd98f00b204e9800998ecf8427eu128), Some(&"/empty".to_string()));
}

#[test]
fn md5_of_abc() {
    let mut m: HashMap<u128, String> = HashMap::new();
    record_file_hash(&mut m, b"abc", "/abc".to_string());
    assert!(m.contains_key(&0x900150983cd24fb0d6963f7d28e17f72u128));
}

#[test]
fn same_content_keeps_last_path() {
    let mut m: HashMap<u128, String> = HashMap::new();
    record_file_hash(&mut m, b"x", "/a".to_string());
    record_file_hash(&mut m, b"x", "/b".to_string());
    assert_eq!(m.len(), 1);
    assert_eq!(m.values().next(), Some(&"/b".to_string()));
}

#[test]
fn unique_files() {
    let mut dl: HashMap<u128, String> = HashMap::new();
    let mut usr: HashMap<u128, String> = HashMap::new();
    record_file_hash(&mut dl, b"common", "/ref/bin/ls".to_string());
    record_file_hash(&mut dl, b"only-ref", "/ref/x".to_string());
    record_file_hash(&mut usr, b"common", "/tgt/bin/ls".to_string());
    record_file_hash(&mut usr, b"implant", "/tgt/usr/bin/evil".to_string());
    record_file_hash(&mut usr, b"config", "/tgt/etc/app.conf".to_string());
    let mut r = find_unique_keys(&dl, &usr);
    r.sort();
    assert_eq!(r, vec!["/tgt/etc/app.conf".to_string(), "/tgt/usr/bin/evil".to_string()]);
}

#[test]
fn self_comparison_is_empty() {
    let mut m: HashMap<u128, String> = HashMap::new();
    record_file_hash(&mut m, b"1", "/1".to_string());
    record_file_hash(&mut m, b"2", "/2".to_string());
    assert!(find_unique_keys(&m, &m).is_empty());
}

#[test]
fn empty_reference_reports_all() {
    let dl: HashMap<u128, String> = HashMap::new();
    let mut usr: HashMap<u128, String> = HashMap::new();
    record_file_hash(&mut usr, b"1", "/1".to_string());
    assert_eq!(find_unique_keys(&dl, &usr), vec!["/1".to_string()]);
}

#[test]
fn results_text() {
    let paths = vec!["/a".to_string(), "/b/c".to_string()];
    assert_eq!(render_results(&paths), "/a\n/b/c\n");
    assert_eq!(render_results(&vec![]), "\n");
    assert_eq!(render_results(&paths), paths.join("\n") + "\n");
}

#[test]
fn results_read_back() {
    let paths = vec!["/a".to_string(), "".to_string(), "/b c".to_string()];
    assert_eq!(split_lines(&render_results(&paths)), paths);
}

#[test]
fn reference_paths_do_not_matter() {
    let mut dl1: HashMap<u128, String> = HashMap::new();
    let mut dl2: HashMap<u128, String> = HashMap::new();
    let mut usr: HashMap<u128, String> = HashMap::new();
    record_file_hash(&mut dl1, b"a", "/one/a".to_string());
    record_file_hash(&mut dl2, b"a", "/two/elsewhere".to_string());
    record_file_hash(&mut usr, b"a", "/u/a".to_string());
    record_file_hash(&mut usr, b"b", "/u/b".to_string());
    record_file_hash(&mut usr, b"c", "/u/c".to_string());
    let mut r1 = find_unique_keys(&dl1, &usr);
    let mut r2 = find_unique_keys(&dl2, &usr);
    r1.sort();
    r2.sort();
    assert_eq!(r1, r2);
    assert_eq!(r1, vec!["/u/b".to_string(), "/u/c".to_string()]);
}

#[test]
fn larger_reference_reports_less() {
    let mut small: HashMap<u128, String> = HashMap::new();
    let mut large: HashMap<u128, String> = HashMap::new();
    let mut usr: HashMap<u128, String> = HashMap::new();
    record_file_hash(&mut small, b"a", "/r/a".to_string());
    record_file_hash(&mut large, b"a", "/r/a".to_string());
    record_file_hash(&mut large, b"b", "/r/b".to_string());
    for (c, p) in [(&b"a"[..], "/u/a"), (&b"b"[..], "/u/b"), (&b"c"[..], "/u/c")] {
        record_file_hash(&mut usr, c, p.to_string());
    }
    let rs = find_unique_keys(&small, &usr);
    let rl = find_unique_keys(&large, &usr);
    assert!(rl.len() <= rs.len());
    assert!(rl.iter().all(|p| rs.contains(p)));
    assert_eq!(rl, vec!["/u/c".to_string()]);
}
