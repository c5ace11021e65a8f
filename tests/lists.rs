use deb_mirror::lists::{dist_paths, mirror_urls};

#[test]
fn mirror_list_drops_short_lines() {
    let list = "http://a.example/debian\n\nhttp://\nhttp://b\nftp.x\nhttps://c.example/debian\n";
    assert_eq!(
        mirror_urls(list),
        vec![
            "http://a.example/debian".to_string(),
            "http://b".to_string(),
            "https://c.example/debian".to_string(),
        ]
    );
}

#[test]
fn mirror_list_of_nothing_is_empty() {
    assert!(mirror_urls("").is_empty());
}

#[test]
fn dist_list_drops_empty_lines() {
    assert_eq!(
        dist_paths("dists/s/Release\n\ndists/s/main/binary-amd64/Packages\n"),
        vec![
            "dists/s/Release".to_string(),
            "dists/s/main/binary-amd64/Packages".to_string(),
        ]
    );
}
