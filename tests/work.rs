use deb_mirror::fetch::{fetch_workers, FETCH_BATCH};
use deb_mirror::work::{claim, LINK_BATCH, LINK_WORKERS};

#[test]
fn worker_counts() {
    assert_eq!(fetch_workers(0), 1);
    assert_eq!(fetch_workers(1), 4);
    assert_eq!(fetch_workers(2), 8);
    assert_eq!(fetch_workers(9), 8);
    assert_eq!(FETCH_BATCH, 2);
    assert_eq!(LINK_BATCH, 16);
    assert_eq!(LINK_WORKERS, 16);
}

#[test]
fn claims_cut_at_the_end() {
    assert_eq!(claim(0, 2, 5), (0, 2));
    assert_eq!(claim(4, 2, 5), (4, 5));
    assert_eq!(claim(6, 2, 5), (5, 5));
    assert_eq!(claim(usize::MAX, 16, 3), (3, 3));
    assert_eq!(claim(2, usize::MAX, 10), (2, 10));
}

#[test]
fn claims_cover_every_position_once() {
    let total = 11;
    let mut seen = vec![0u32; total];
    let mut cursor = 0usize;
    loop {
        let (start, end) = claim(cursor, 2, total);
        if start == end {
            break;
        }
        for i in start..end {
            seen[i] += 1;
        }
        cursor += 2;
    }
    assert!(seen.iter().all(|&n| n == 1));
}
