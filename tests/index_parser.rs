use deb_mirror::index::{collect_records, index_paths, parse_records, IndexError, PackageRecord};

fn pairs(records: &[PackageRecord]) -> Vec<(String, String)> {
    records
        .iter()
        .map(|r| (r.content_hash.clone(), r.repo_path.clone()))
        .collect()
}

#[test]
fn parses_one_block() {
    let text = "Package: pkg\nVersion: 1.0\nFilename: pool/a/pkg_1.0_amd64.deb\nSHA256: abc123\n";
    let records = parse_records(text);
    assert_eq!(
        pairs(&records),
        vec![("abc123".to_string(), "pool/a/pkg_1.0_amd64.deb".to_string())]
    );
}

#[test]
fn parses_blocks_in_order_and_ignores_other_fields() {
    let text = "Package: a\nArchitecture: amd64\nVersion: 1\nSize: 10\nFilename: pool/a/a_1.deb\nMD5sum: 00\nSHA256: h1\n\nPackage: b\nVersion: 2\nFilename: pool/b/b_2.deb\nSHA256: h2\n";
    let records = parse_records(text);
    assert_eq!(
        pairs(&records),
        vec![
            ("h1".to_string(), "pool/a/a_1.deb".to_string()),
            ("h2".to_string(), "pool/b/b_2.deb".to_string()),
        ]
    );
}

#[test]
fn debug_packages_are_excluded() {
    let text = "Package: a-dbg\nVersion: 1\nFilename: pool/a/a-dbg_1_amd64.deb\nSHA256: d1\n\
Package: a-dbgsym\nVersion: 1\nFilename: pool/a/a-dbgsym_1_amd64.deb\nSHA256: d2\n\
Package: a\nVersion: 1\nFilename: pool/a/a_1_amd64.deb\nSHA256: keep\n";
    let records = parse_records(text);
    assert_eq!(
        pairs(&records),
        vec![("keep".to_string(), "pool/a/a_1_amd64.deb".to_string())]
    );
    for r in &records {
        assert!(!r.repo_path.contains("-dbg_"));
        assert!(!r.repo_path.contains("-dbgsym_"));
    }
}

#[test]
fn missing_field_stalls_until_it_appears() {
    // the first block has no SHA256 line: the parser keeps waiting for one
    // and takes the next block's hash with the first block's file name
    let text = "Package: a\nVersion: 1\nFilename: pool/a/a_1.deb\n\nPackage: b\nVersion: 2\nFilename: pool/b/b_2.deb\nSHA256: hb\n";
    let records = parse_records(text);
    assert_eq!(
        pairs(&records),
        vec![("hb".to_string(), "pool/a/a_1.deb".to_string())]
    );
}

#[test]
fn field_needs_a_value_and_an_exact_prefix() {
    let text = "Package: a\nVersion: 1\nFilename: pool/a/a_1.deb\nSHA256: \nsha256: lower\nSHA256: real\n";
    let records = parse_records(text);
    assert_eq!(
        pairs(&records),
        vec![("real".to_string(), "pool/a/a_1.deb".to_string())]
    );
}

#[test]
fn empty_text_has_no_records() {
    assert!(parse_records("").is_empty());
    assert!(parse_records("\n\n").is_empty());
}

#[test]
fn index_paths_keep_uncompressed_packages() {
    let list = "dists/s/Release\ndists/s/main/binary-amd64/Packages\ndists/s/main/binary-amd64/Packages.gz\ndists/s/main/binary-amd64/Packages.xz\ndists/s/main/binary-i386/Packages\n";
    assert_eq!(
        index_paths(list),
        vec![
            "dists/s/main/binary-amd64/Packages".to_string(),
            "dists/s/main/binary-i386/Packages".to_string(),
        ]
    );
}

#[test]
fn collect_records_joins_texts() {
    let texts = vec![
        "Package: a\nVersion: 1\nFilename: pool/a.deb\nSHA256: ha".to_string(),
        "Package: b\nVersion: 1\nFilename: pool/b.deb\nSHA256: hb".to_string(),
    ];
    let records = collect_records(&texts).unwrap();
    assert_eq!(
        pairs(&records),
        vec![
            ("ha".to_string(), "pool/a.deb".to_string()),
            ("hb".to_string(), "pool/b.deb".to_string()),
        ]
    );
}

#[test]
fn collect_records_errors() {
    assert_eq!(collect_records(&vec![]).unwrap_err(), IndexError::NoIndexFiles);
    let texts = vec!["Package: a\nVersion: 1\n".to_string()];
    assert_eq!(collect_records(&texts).unwrap_err(), IndexError::NoRecords);
}

#[test]
fn shared_hash_keeps_both_records() {
    let text = "Package: a\nVersion: 1\nFilename: pool/x/a.deb\nSHA256: same\nPackage: b\nVersion: 1\nFilename: pool/y/a.deb\nSHA256: same\n";
    let records = parse_records(text);
    assert_eq!(records.len(), 2);
    assert_eq!(records[0].content_hash, records[1].content_hash);
}
