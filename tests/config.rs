use deb_mirror::config::{make_lists, read_sources};

#[test]
fn sources_are_read_in_order_without_repeats() {
    let text = "deb http://deb.example/debian bookworm main contrib\n# comment\ndeb-src http://x.example/debian bookworm main\ndeb https://sec.example/debian bookworm main non-free\n";
    let (bases, suites, components) = read_sources(text);
    assert_eq!(
        bases,
        vec!["http://deb.example/debian".to_string(), "https://sec.example/debian".to_string()]
    );
    assert_eq!(suites, vec!["bookworm".to_string()]);
    assert_eq!(
        components,
        vec!["main".to_string(), "contrib".to_string(), "non-free".to_string()]
    );
}

#[test]
fn short_urls_and_lines_are_skipped() {
    let (bases, suites, _) = read_sources("deb\ndeb http://x s c\ndeb  http://deb.example  s2   c\n");
    assert_eq!(bases, vec!["http://deb.example".to_string()]);
    assert_eq!(suites, vec!["s2".to_string()]);
}

#[test]
fn lists_for_one_suite_and_component() {
    let lists = make_lists("deb http://deb.example/debian bookworm main\n");
    assert_eq!(lists.mirrors, "http://deb.example/debian\n");
    assert_eq!(
        lists.dist_packages,
        "dists/bookworm/Release\n\
dists/bookworm/main/source/Sources\n\
dists/bookworm/main/source/Sources.gz\n\
dists/bookworm/main/source/Sources.xz\n\
dists/bookworm/main/binary-amd64/Packages\n\
dists/bookworm/main/binary-amd64/Packages.gz\n\
dists/bookworm/main/binary-amd64/Packages.xz\n\
dists/bookworm/main/binary-i386/Packages\n\
dists/bookworm/main/binary-i386/Packages.gz\n\
dists/bookworm/main/binary-i386/Packages.xz\n"
    );
}

#[test]
fn lists_for_two_components() {
    let lists = make_lists("deb http://deb.example/debian s a b\n");
    let lines: Vec<&str> = lists.dist_packages.lines().collect();
    assert_eq!(lines.len(), 20);
    assert_eq!(lines[0], "dists/s/Release");
    assert_eq!(lines[10], "dists/s/Release");
    assert_eq!(lines[11], "dists/s/b/source/Sources");
}

#[test]
fn empty_descriptor_gives_empty_lists() {
    let lists = make_lists("");
    assert_eq!(lists.mirrors, "");
    assert_eq!(lists.dist_packages, "");
}
