use deb_mirror::index::PackageRecord;
use deb_mirror::layout::StoreLayout;
use deb_mirror::reclaim::reclaim_moves;
use std::collections::HashMap;

fn record(hash: &str, path: &str) -> PackageRecord {
    PackageRecord { content_hash: hash.to_string(), repo_path: path.to_string() }
}

#[test]
fn moves_go_from_recycle_area_to_store() {
    let layout = StoreLayout::standard();
    let moves = reclaim_moves(&layout, &vec![record("h1", "pool/a.deb"), record("h2", "pool/b.deb")]);
    assert_eq!(moves.len(), 2);
    assert_eq!(moves[0].from, "WASTE/h1");
    assert_eq!(moves[0].to, "SHA256/h1");
    assert_eq!(moves[1].from, "WASTE/h2");
    assert_eq!(moves[1].to, "SHA256/h2");
}

#[test]
fn reclamation_recovers_only_what_is_there() {
    // the recycle area holds H1 only; the records reference H1 and H2
    let layout = StoreLayout::standard();
    let mut files: HashMap<String, Vec<u8>> = HashMap::new();
    files.insert("WASTE/H1".to_string(), b"one".to_vec());
    files.insert("WASTE/OLD".to_string(), b"old".to_vec());
    let moves = reclaim_moves(&layout, &vec![record("H1", "pool/1.deb"), record("H2", "pool/2.deb")]);
    let mut missing = Vec::new();
    for m in &moves {
        match files.remove(&m.from) {
            Some(bytes) => {
                files.insert(m.to.clone(), bytes);
            }
            None => missing.push(m.from.clone()),
        }
    }
    assert_eq!(files.get("SHA256/H1"), Some(&b"one".to_vec()));
    assert!(!files.contains_key("WASTE/H1"));
    assert!(!files.contains_key("SHA256/H2"));
    assert!(!files.contains_key("WASTE/H2"));
    assert_eq!(missing, vec!["WASTE/H2".to_string()]);
    assert_eq!(files.get("WASTE/OLD"), Some(&b"old".to_vec()));
}
