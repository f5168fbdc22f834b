use std::collections::HashMap;
use thl_patcher::catalog::{Determinants, Version};
use thl_patcher::fingerprint::{file_digest, ScanStep, VersionScan};

fn det(file: &str, content: &[u8]) -> Determinants {
    Determinants { file: file.to_string(), sha256: file_digest(content) }
}

fn version(name: &str, determinants: Vec<Determinants>) -> Version {
    Version { name: name.to_string(), update_link: None, determinants }
}

/// Runs a scan against an in-memory tree; returns the result and the files
/// whose digest was asked for, in order.
fn scan(versions: &Vec<Version>, tree: &HashMap<&str, &[u8]>) -> (Option<usize>, Vec<String>) {
    let mut scan = VersionScan::start(versions);
    let mut asked = Vec::new();
    loop {
        match scan.next(versions) {
            ScanStep::NeedDigest(file) => {
                asked.push(file.clone());
                let digest = tree.get(file.as_str()).map(|c| file_digest(c));
                scan.record(versions, file, digest);
            }
            ScanStep::Found(k) => return (Some(k), asked),
            ScanStep::NotFound => return (None, asked),
        }
    }
}

#[test]
fn digest_of_abc() {
    assert_eq!(file_digest(b"abc"), "ba7816bf8f01cfea414140de5dae2223b00361a396177a9cb410ff61f20015ad");
}

#[test]
fn digest_of_nothing() {
    assert_eq!(file_digest(b""), "e3b0c44298fc1c149afbf4c8996fb92427ae41e4649b934ca495991b7852b855");
}

fn catalog() -> Vec<Version> {
    vec![
        version("V0", vec![det("data/a.bin", b"a0"), det("b.txt", b"b0")]),
        version("V1", vec![det("data/a.bin", b"a1"), det("b.txt", b"b0")]),
        version("V2", vec![det("data/a.bin", b"a2"), det("b.txt", b"b2")]),
    ]
}

#[test]
fn scan_finds_the_matching_version_among_overlapping_ones() {
    let versions = catalog();
    let mut tree: HashMap<&str, &[u8]> = HashMap::new();
    tree.insert("data/a.bin", b"a1");
    tree.insert("b.txt", b"b0");
    let (found, asked) = scan(&versions, &tree);
    assert_eq!(found, Some(1));
    assert_eq!(asked, vec!["data/a.bin".to_string(), "b.txt".to_string()]);
}

#[test]
fn scan_prefers_the_newest_match() {
    let versions = vec![
        version("V0", vec![det("x", b"1")]),
        version("V1", vec![det("x", b"1")]),
        version("V2", vec![det("x", b"2")]),
    ];
    let mut tree: HashMap<&str, &[u8]> = HashMap::new();
    tree.insert("x", b"1");
    assert_eq!(scan(&versions, &tree).0, Some(1));
}

#[test]
fn scan_finds_the_oldest_version() {
    let versions = catalog();
    let mut tree: HashMap<&str, &[u8]> = HashMap::new();
    tree.insert("data/a.bin", b"a0");
    tree.insert("b.txt", b"b0");
    assert_eq!(scan(&versions, &tree).0, Some(0));
}

#[test]
fn scan_reports_an_unknown_tree() {
    let versions = catalog();
    let mut tree: HashMap<&str, &[u8]> = HashMap::new();
    tree.insert("data/a.bin", b"zz");
    tree.insert("b.txt", b"b0");
    assert_eq!(scan(&versions, &tree).0, None);
}

#[test]
fn scan_treats_a_missing_file_as_a_mismatch() {
    let versions = catalog();
    let mut tree: HashMap<&str, &[u8]> = HashMap::new();
    tree.insert("data/a.bin", b"a2");
    let (found, asked) = scan(&versions, &tree);
    assert_eq!(found, None);
    assert_eq!(asked, vec!["data/a.bin".to_string(), "b.txt".to_string()]);
}

#[test]
fn scan_of_an_empty_catalog_finds_nothing() {
    let versions: Vec<Version> = Vec::new();
    let tree: HashMap<&str, &[u8]> = HashMap::new();
    assert_eq!(scan(&versions, &tree), (None, Vec::new()));
}

#[test]
fn version_without_determinants_always_matches() {
    let versions = vec![version("V0", vec![det("x", b"1")]), version("V1", Vec::new())];
    let tree: HashMap<&str, &[u8]> = HashMap::new();
    assert_eq!(scan(&versions, &tree), (Some(1), Vec::new()));
}

#[test]
fn recording_a_known_file_keeps_the_first_digest() {
    let versions = vec![version("V0", vec![det("x", b"1")])];
    let mut scan = VersionScan::start(&versions);
    scan.record(&versions, "x".to_string(), Some(file_digest(b"1")));
    scan.record(&versions, "x".to_string(), None);
    assert_eq!(scan.cache.len(), 1);
    assert!(matches!(scan.next(&versions), ScanStep::Found(0)));
}
