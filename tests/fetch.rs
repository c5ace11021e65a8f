use deb_mirror::fetch::{count_failures, FetchAction, FetchEvent, FetchOutcome, Phase, RecordFetch};
use deb_mirror::layout::{mirror_url, StoreLayout};
use deb_mirror::linker::{link_target, pool_links};
use std::collections::HashMap;

const HELLO_SHA256: &str = "2cf24dba5fb0a30e26e83b2ac5b9e29e1b161e5c1fa7425e73043362938b9824";

/// Store and staging directories, kept in memory.
struct Disk {
    files: HashMap<String, Vec<u8>>,
}

/// Drives a fetch to its end: `serve(mirror, attempt)` is what a download
/// yields. Returns the outcome and the mirrors asked, in order.
fn drive(
    disk: &mut Disk,
    layout: &StoreLayout,
    index: usize,
    mirrors: usize,
    hash: &str,
    serve: &dyn Fn(usize, usize) -> Option<Vec<u8>>,
) -> (FetchOutcome, Vec<usize>, Vec<bool>) {
    let mut fetch = RecordFetch::new(index, mirrors, hash.to_string());
    let blob = layout.blob_path(hash);
    let staged = layout.staged_path(hash);
    let lookup = if disk.files.contains_key(&blob) { FetchEvent::Present } else { FetchEvent::Absent };
    let mut action = fetch.step(lookup).unwrap();
    let mut asked = Vec::new();
    // whether staging held the record at each download
    let mut staged_at_download = Vec::new();
    let mut attempt = 0;
    loop {
        action = match action {
            FetchAction::Download { mirror } => {
                asked.push(mirror);
                staged_at_download.push(disk.files.contains_key(&staged));
                let got = serve(mirror, attempt);
                attempt += 1;
                match got {
                    None => fetch.step(FetchEvent::TransferFailed).unwrap(),
                    Some(bytes) => {
                        disk.files.insert(staged.clone(), bytes.clone());
                        fetch.downloaded(&bytes).unwrap()
                    }
                }
            }
            FetchAction::DiscardStaged => {
                disk.files.remove(&staged);
                fetch.step(FetchEvent::Discarded).unwrap()
            }
            FetchAction::Publish => {
                let bytes = disk.files.remove(&staged).unwrap();
                disk.files.insert(blob.clone(), bytes);
                fetch.step(FetchEvent::Published).unwrap()
            }
            FetchAction::Finish(outcome) => return (outcome, asked, staged_at_download),
        };
    }
}

#[test]
fn mirror_rotation_from_record_index() {
    let mut fetch = RecordFetch::new(5, 3, HELLO_SHA256.to_string());
    let mut asked = Vec::new();
    let mut action = fetch.step(FetchEvent::Absent).unwrap();
    while let FetchAction::Download { mirror } = action {
        asked.push(mirror);
        action = fetch.step(FetchEvent::TransferFailed).unwrap();
    }
    assert_eq!(asked, vec![5 % 3, 6 % 3, 7 % 3]);
    assert_eq!(action, FetchAction::Finish(FetchOutcome::Failed));
    assert_eq!(fetch.phase, Phase::Finished(FetchOutcome::Failed));
}

#[test]
fn mismatch_is_discarded_then_match_published() {
    let layout = StoreLayout::standard();
    let mut disk = Disk { files: HashMap::new() };
    let serve = |_mirror: usize, attempt: usize| {
        if attempt == 0 { Some(b"corrupt".to_vec()) } else { Some(b"hello".to_vec()) }
    };
    let (outcome, asked, staged_at_download) = drive(&mut disk, &layout, 0, 2, HELLO_SHA256, &serve);
    assert_eq!(outcome, FetchOutcome::Published);
    assert_eq!(asked, vec![0, 1]);
    assert_eq!(staged_at_download, vec![false, false]);
    assert_eq!(disk.files.get(&format!("SHA256/{}", HELLO_SHA256)), Some(&b"hello".to_vec()));
    assert!(!disk.files.contains_key(&format!("TMP/{}", HELLO_SHA256)));
}

#[test]
fn digest_of_download_decides() {
    let mut fetch = RecordFetch::new(0, 1, HELLO_SHA256.to_string());
    assert_eq!(fetch.step(FetchEvent::Absent), Some(FetchAction::Download { mirror: 0 }));
    assert_eq!(fetch.downloaded(b"hello"), Some(FetchAction::Publish));
    let mut other = RecordFetch::new(0, 1, HELLO_SHA256.to_string());
    other.step(FetchEvent::Absent);
    assert_eq!(other.downloaded(b"hello!"), Some(FetchAction::DiscardStaged));
}

#[test]
fn digest_event_compares_exactly() {
    let mut fetch = RecordFetch::new(0, 1, "ab".to_string());
    fetch.step(FetchEvent::Absent);
    assert_eq!(fetch.step(FetchEvent::Digest("AB".to_string())), Some(FetchAction::DiscardStaged));
    assert_eq!(fetch.step(FetchEvent::Discarded), Some(FetchAction::Finish(FetchOutcome::Failed)));
}

#[test]
fn present_blob_is_skipped() {
    let layout = StoreLayout::standard();
    let mut disk = Disk { files: HashMap::new() };
    let serve = |_m: usize, _a: usize| Some(b"hello".to_vec());
    let (first, _, _) = drive(&mut disk, &layout, 0, 1, HELLO_SHA256, &serve);
    assert_eq!(first, FetchOutcome::Published);
    let before: Vec<(String, Vec<u8>)> = {
        let mut v: Vec<_> = disk.files.clone().into_iter().collect();
        v.sort();
        v
    };
    let never = |_m: usize, _a: usize| -> Option<Vec<u8>> { panic!("no download expected") };
    let (second, asked, _) = drive(&mut disk, &layout, 0, 1, HELLO_SHA256, &never);
    assert_eq!(second, FetchOutcome::AlreadyPresent);
    assert!(asked.is_empty());
    let mut after: Vec<_> = disk.files.clone().into_iter().collect();
    after.sort();
    assert_eq!(before, after);
}

#[test]
fn published_blob_digest_equals_its_key() {
    let layout = StoreLayout::standard();
    let mut disk = Disk { files: HashMap::new() };
    let serve = |_m: usize, _a: usize| Some(b"hello".to_vec());
    drive(&mut disk, &layout, 3, 2, HELLO_SHA256, &serve);
    for (name, bytes) in &disk.files {
        if let Some(key) = name.strip_prefix("SHA256/") {
            assert_eq!(sha256::digest(bytes.as_slice()), key);
        }
    }
    assert!(disk.files.contains_key(&format!("SHA256/{}", HELLO_SHA256)));
}

#[test]
fn no_mirror_fails_at_once() {
    let mut fetch = RecordFetch::new(4, 0, HELLO_SHA256.to_string());
    assert_eq!(fetch.step(FetchEvent::Absent), Some(FetchAction::Finish(FetchOutcome::Failed)));
}

#[test]
fn unexpected_event_changes_nothing() {
    let mut fetch = RecordFetch::new(1, 2, HELLO_SHA256.to_string());
    assert_eq!(fetch.step(FetchEvent::Published), None);
    assert_eq!(fetch.phase, Phase::Lookup);
    assert_eq!(fetch.attempts, 0);
    fetch.step(FetchEvent::Absent);
    assert_eq!(fetch.step(FetchEvent::Present), None);
    assert_eq!(fetch.phase, Phase::Transferring);
}

#[test]
fn failed_publish_moves_on_to_next_mirror() {
    let mut fetch = RecordFetch::new(0, 2, HELLO_SHA256.to_string());
    fetch.step(FetchEvent::Absent);
    fetch.downloaded(b"hello");
    assert_eq!(fetch.step(FetchEvent::PublishFailed), Some(FetchAction::Download { mirror: 1 }));
}

#[test]
fn failures_are_counted() {
    let outcomes = vec![
        FetchOutcome::Published,
        FetchOutcome::Failed,
        FetchOutcome::AlreadyPresent,
        FetchOutcome::Failed,
    ];
    assert_eq!(count_failures(&outcomes), 2);
    assert_eq!(count_failures(&vec![]), 0);
}

#[test]
fn end_to_end_one_record() {
    // one record, one mirror, the download's digest equals the hash
    let layout = StoreLayout::standard();
    let mut disk = Disk { files: HashMap::new() };
    let path = "pool/a/pkg_1.0_amd64.deb";
    let base = "http://mirror.example/debian";
    let serve = |mirror: usize, _a: usize| {
        assert_eq!(mirror, 0);
        assert_eq!(mirror_url(base, path), "http://mirror.example/debian/pool/a/pkg_1.0_amd64.deb");
        Some(b"hello".to_vec())
    };
    let (outcome, _, _) = drive(&mut disk, &layout, 0, 1, HELLO_SHA256, &serve);
    assert_eq!(outcome, FetchOutcome::Published);
    assert_eq!(disk.files.get(&format!("SHA256/{}", HELLO_SHA256)), Some(&b"hello".to_vec()));
    assert!(!disk.files.contains_key(&format!("TMP/{}", HELLO_SHA256)));
    // the linker's link at the path leads back to the blob
    let target = link_target(&layout.store, HELLO_SHA256, path);
    assert_eq!(target, format!("../../SHA256/{}", HELLO_SHA256));
    let mut dir: Vec<&str> = path.split('/').collect();
    dir.pop();
    for seg in target.split('/') {
        if seg == ".." {
            dir.pop();
        } else {
            dir.push(seg);
        }
    }
    assert_eq!(dir.join("/"), format!("SHA256/{}", HELLO_SHA256));
    assert!(pool_links(path).contains(&"pool/a/pool".to_string()));
}
