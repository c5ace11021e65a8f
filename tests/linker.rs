use deb_mirror::layout::{join_path, mirror_url, StoreLayout, POOL_LINK_TARGET};
use deb_mirror::linker::{dir_paths, link_target, pool_links};

#[test]
fn link_target_climbs_to_the_store() {
    let hash = "abc123";
    assert_eq!(
        link_target("SHA256", hash, "pool/a/pkg_1.0_amd64.deb"),
        "../../SHA256/abc123"
    );
    assert_eq!(link_target("SHA256", hash, "top.deb"), "SHA256/abc123");
    assert_eq!(
        link_target("SHA256", hash, "pool/main/a/apt/apt_2.6_amd64.deb"),
        "../../../../SHA256/abc123"
    );
}

#[test]
fn link_target_counts_dot_segments() {
    assert_eq!(link_target("S", "h", "./a/b"), "../S/h");
    assert_eq!(link_target("S", "h", "a/../b/c"), "../S/h");
    assert_eq!(link_target("S", "h", "../a"), "S/h");
    assert_eq!(link_target("S", "h", "a/b/."), "../S/h");
    assert_eq!(link_target("S", "h", "a//b"), "../../S/h");
}

#[test]
fn link_target_ends_in_the_hash() {
    let t = link_target("SHA256", "deadbeef", "pool/x/y/z.deb");
    assert_eq!(t.rsplit('/').next(), Some("deadbeef"));
}

#[test]
fn pool_links_for_a_package_path() {
    assert_eq!(
        pool_links("pool/a/pkg_1.0_amd64.deb"),
        vec!["pool/pool".to_string(), "pool/a/pool".to_string()]
    );
    assert_eq!(POOL_LINK_TARGET, "../pool");
}

#[test]
fn pool_links_for_an_index_path() {
    assert_eq!(
        pool_links("dists/bookworm/main/binary-amd64/Packages"),
        vec![
            "dists/pool".to_string(),
            "dists/bookworm/pool".to_string(),
            "dists/bookworm/main/pool".to_string(),
            "dists/bookworm/main/binary-amd64/pool".to_string(),
        ]
    );
}

#[test]
fn pool_links_skip_dot_and_leaf() {
    assert_eq!(pool_links("./a/b"), vec!["a/pool".to_string()]);
    assert!(pool_links("leaf").is_empty());
}

#[test]
fn directories_before_a_path() {
    assert_eq!(
        dir_paths("pool/a/pkg_1.0_amd64.deb"),
        vec!["./pool".to_string(), "./pool/a".to_string()]
    );
    assert!(dir_paths("Release").is_empty());
}

#[test]
fn store_paths() {
    let layout = StoreLayout::standard();
    assert_eq!(layout.blob_path("h1"), "SHA256/h1");
    assert_eq!(layout.staged_path("h1"), "TMP/h1");
    assert_eq!(layout.recycled_path("h1"), "WASTE/h1");
    assert_eq!(
        mirror_url("http://deb.example/debian", "pool/a/x.deb"),
        "http://deb.example/debian/pool/a/x.deb"
    );
    assert_eq!(join_path("", ""), "/");
}
