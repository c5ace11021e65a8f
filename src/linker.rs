//! The dist-tree linker's paths: directories to create, `pool` access
//! points, and the relative link from a repository path to its blob.

use vstd::prelude::*;

use crate::fetch::{content_addressed, lemma_run_all_succeeded_present, run_all, succeeded, Disk, ServeAll};
use crate::layout::{path_in, POOL_NAME};
use crate::text::{chars_of, extend_chars, split, split_spans, spans_of, string_from, substring};

verus! {

/// The segments of a path: its pieces between `/`.
pub open spec fn segments(path: Seq<char>) -> Seq<Seq<char>> {
    split(path, '/')
}

pub open spec fn is_dot(seg: Seq<char>) -> bool {
    seg == seq!['.']
}

pub open spec fn is_dot_dot(seg: Seq<char>) -> bool {
    seg == seq!['.', '.']
}

/// `.` followed by `/segment` for each of `segs`.
pub open spec fn dot_path(segs: Seq<Seq<char>>) -> Seq<char>
    decreases segs.len(),
{
    if segs.len() == 0 {
        seq!['.']
    } else {
        path_in(dot_path(segs.drop_last()), segs.last())
    }
}

/// The directories above a repository path, outermost first, each written
/// from `.`: for `a/b/c`, `./a` and `./a/b`.
pub open spec fn dirs_of(path: Seq<char>) -> Seq<Seq<char>> {
    let segs = segments(path);
    Seq::new((segs.len() - 1) as nat, |k: int| dot_path(segs.take(k + 1)))
}

/// The directory prefix, with a trailing `/`, that `segs` leads to; `.`
/// segments are skipped.
pub open spec fn pool_dir(segs: Seq<Seq<char>>) -> Seq<char>
    decreases segs.len(),
{
    if segs.len() == 0 {
        Seq::empty()
    } else if is_dot(segs.last()) {
        pool_dir(segs.drop_last())
    } else {
        pool_dir(segs.drop_last()) + segs.last() + seq!['/']
    }
}

/// The `pool` access points among the first `k` directories of `segs`.
pub open spec fn pool_links_upto(segs: Seq<Seq<char>>, k: nat) -> Seq<Seq<char>>
    decreases k,
{
    if k == 0 {
        Seq::empty()
    } else {
        let before = pool_links_upto(segs, (k - 1) as nat);
        if is_dot(segs[k - 1]) {
            before
        } else {
            before.push(pool_dir(segs.take(k as int)) + POOL_NAME@)
        }
    }
}

/// The `pool` links to create for a path, outermost first: one in each
/// directory above it but `.`. Each leads to `../pool`.
pub open spec fn pool_links_of(path: Seq<char>) -> Seq<Seq<char>> {
    pool_links_upto(segments(path), (segments(path).len() - 1) as nat)
}

/// What a segment adds to the depth of a path.
pub open spec fn seg_weight(seg: Seq<char>) -> int {
    if is_dot_dot(seg) {
        -1
    } else if is_dot(seg) {
        0
    } else {
        1
    }
}

/// The depth of a path: one for each segment, but none for `.` and minus
/// one for `..`.
pub open spec fn depth(segs: Seq<Seq<char>>) -> int
    decreases segs.len(),
{
    if segs.len() == 0 {
        0
    } else {
        depth(segs.drop_last()) + seg_weight(segs.last())
    }
}

/// How many `../` lead from the directory of a path back to the top.
pub open spec fn up_count(path: Seq<char>) -> nat {
    let d = depth(segments(path));
    if d > 1 {
        (d - 1) as nat
    } else {
        0
    }
}

/// `n` times `../`.
pub open spec fn ups(n: nat) -> Seq<char>
    decreases n,
{
    if n == 0 {
        Seq::empty()
    } else {
        ups((n - 1) as nat) + seq!['.', '.', '/']
    }
}

/// The target of the link at `path`: back up to the top, then into the
/// store directory, to the blob named by the hash.
pub open spec fn link_target_of(store: Seq<char>, hash: Seq<char>, path: Seq<char>) -> Seq<char> {
    path_in(ups(up_count(path)) + store, hash)
}

pub proof fn lemma_split_len(s: Seq<char>, sep: char)
    ensures
        1 <= split(s, sep).len() <= s.len() + 1,
    decreases s.len(),
{
    if s.len() > 0 {
        lemma_split_len(s.drop_last(), sep);
    }
}

/// Whether `text[start..end]` is `.`, and whether it is `..`.
fn dots(text: &Vec<char>, start: usize, end: usize) -> (r: (bool, bool))
    requires
        start <= end <= text@.len(),
    ensures
        r.0 == is_dot(text@.subrange(start as int, end as int)),
        r.1 == is_dot_dot(text@.subrange(start as int, end as int)),
{
    let ghost seg = text@.subrange(start as int, end as int);
    let one = end - start == 1 && text[start] == '.';
    let two = end - start == 2 && text[start] == '.' && text[start + 1] == '.';
    assert(seq!['.'].len() == 1 && seq!['.'][0] == '.');
    assert(seq!['.', '.'].len() == 2 && seq!['.', '.'][0] == '.' && seq!['.', '.'][1] == '.');
    if one {
        assert(seg =~= seq!['.']);
    } else if end - start == 1 {
        assert(seg[0] != seq!['.'][0]);
    } else {
        assert(seg.len() != seq!['.'].len());
    }
    if two {
        assert(seg =~= seq!['.', '.']);
    } else if end - start == 2 {
        assert(seg[0] != seq!['.', '.'][0] || seg[1] != seq!['.', '.'][1]);
    } else {
        assert(seg.len() != seq!['.', '.'].len());
    }
    (one, two)
}

/// The directories to create before anything is placed at `repo_path`,
/// outermost first.
pub fn dir_paths(repo_path: &str) -> (r: Vec<String>)
    ensures
        r@.map_values(|d: String| d@) == dirs_of(repo_path@),
{
    let text = chars_of(repo_path);
    let spans = split_spans(&text, '/');
    let ghost segs = segments(text@);
    proof {
        lemma_split_len(text@, '/');
    }
    let n = spans.len() - 1;
    let mut cur: Vec<char> = vec!['.'];
    let mut out: Vec<String> = Vec::new();
    let mut i: usize = 0;
    assert(segs.take(0) =~= Seq::<Seq<char>>::empty());
    while i < n
        invariant
            spans_of(text@, spans@, segs),
            segs == segments(text@),
            n == spans@.len() - 1,
            i <= n,
            cur@ == dot_path(segs.take(i as int)),
            out@.len() == i,
            forall|k: int| 0 <= k < i ==> (#[trigger] out@[k])@ == dot_path(segs.take(k + 1)),
        decreases n - i,
    {
        let start = spans[i].0;
        let end = spans[i].1;
        assert(text@.subrange(start as int, end as int) == segs[i as int]);
        cur.push('/');
        extend_chars(&mut cur, &text, start, end);
        assert(segs.take(i + 1).drop_last() =~= segs.take(i as int));
        assert(cur@ =~= dot_path(segs.take(i + 1)));
        out.push(substring(&cur, 0, cur.len()));
        assert(cur@.subrange(0, cur@.len() as int) =~= cur@);
        i = i + 1;
    }
    assert(out@.map_values(|d: String| d@) =~= dirs_of(repo_path@));
    out
}

/// The `pool` links to create for `repo_path`, outermost first (see
/// `pool_links_of`); each is to lead to `../pool`.
pub fn pool_links(repo_path: &str) -> (r: Vec<String>)
    ensures
        r@.map_values(|d: String| d@) == pool_links_of(repo_path@),
{
    let text = chars_of(repo_path);
    let pool = chars_of(POOL_NAME);
    let spans = split_spans(&text, '/');
    let ghost segs = segments(text@);
    proof {
        lemma_split_len(text@, '/');
    }
    let n = spans.len() - 1;
    let mut cur: Vec<char> = Vec::new();
    let mut out: Vec<String> = Vec::new();
    let mut i: usize = 0;
    assert(segs.take(0) =~= Seq::<Seq<char>>::empty());
    assert(out@.map_values(|d: String| d@) =~= pool_links_upto(segs, 0));
    while i < n
        invariant
            spans_of(text@, spans@, segs),
            segs == segments(text@),
            pool@ == POOL_NAME@,
            n == spans@.len() - 1,
            i <= n,
            cur@ == pool_dir(segs.take(i as int)),
            out@.map_values(|d: String| d@) == pool_links_upto(segs, i as nat),
        decreases n - i,
    {
        let start = spans[i].0;
        let end = spans[i].1;
        assert(text@.subrange(start as int, end as int) == segs[i as int]);
        assert(segs.take(i + 1).drop_last() =~= segs.take(i as int));
        assert(segs.take(i + 1).last() == segs[i as int]);
        let (dot, _) = dots(&text, start, end);
        if !dot {
            extend_chars(&mut cur, &text, start, end);
            cur.push('/');
            assert(cur@ =~= pool_dir(segs.take(i + 1)));
            let mut link = Vec::new();
            extend_chars(&mut link, &cur, 0, cur.len());
            extend_chars(&mut link, &pool, 0, pool.len());
            assert(link@ =~= pool_dir(segs.take(i + 1)) + POOL_NAME@);
            let ghost prev = out@;
            out.push(string_from(link));
            assert(out@.map_values(|d: String| d@) =~= prev.map_values(|d: String| d@).push(
                pool_dir(segs.take(i + 1)) + POOL_NAME@,
            ));
        }
        i = i + 1;
    }
    out
}

/// The target of the link to create at `repo_path` for the blob `hash` in
/// the store directory `store` (see `link_target_of`).
pub fn link_target(store: &str, hash: &str, repo_path: &str) -> (r: String)
    ensures
        r@ == link_target_of(store@, hash@, repo_path@),
{
    let text = chars_of(repo_path);
    let spans = split_spans(&text, '/');
    let ghost segs = segments(text@);
    proof {
        lemma_split_len(text@, '/');
    }
    let n = spans.len() - 1;
    let mut plus: usize = 0;
    let mut minus: usize = 0;
    let mut i: usize = 0;
    assert(segs.take(0) =~= Seq::<Seq<char>>::empty());
    while i < n
        invariant
            spans_of(text@, spans@, segs),
            segs == segments(text@),
            n == spans@.len() - 1,
            n <= text@.len(),
            i <= n,
            plus + minus <= i,
            plus - minus == depth(segs.take(i as int)),
        decreases n - i,
    {
        let start = spans[i].0;
        let end = spans[i].1;
        assert(text@.subrange(start as int, end as int) == segs[i as int]);
        assert(segs.take(i + 1).drop_last() =~= segs.take(i as int));
        let (dot, dot_dot) = dots(&text, start, end);
        if dot_dot {
            minus = minus + 1;
        } else if !dot {
            plus = plus + 1;
        }
        i = i + 1;
    }
    let start = spans[n].0;
    let end = spans[n].1;
    assert(text@.subrange(start as int, end as int) == segs[n as int]);
    assert(segs.take(n + 1) =~= segs);
    assert(segs.take(n + 1).drop_last() =~= segs.take(n as int));
    let (dot, dot_dot) = dots(&text, start, end);
    // depth(segs) - 1 == (plus - minus) + weight(last) - 1
    let mut count: usize = 0;
    if plus >= minus {
        let diff = plus - minus;
        if dot_dot {
            if diff >= 2 {
                count = diff - 2;
            }
        } else if dot {
            if diff >= 1 {
                count = diff - 1;
            }
        } else {
            count = diff;
        }
    }
    assert(count == up_count(repo_path@));
    let mut cs: Vec<char> = Vec::new();
    let mut k: usize = 0;
    while k < count
        invariant
            k <= count,
            cs@ == ups(k as nat),
        decreases count - k,
    {
        cs.push('.');
        cs.push('.');
        cs.push('/');
        k = k + 1;
        assert(cs@ =~= ups(k as nat));
    }
    let store_chars = chars_of(store);
    let hash_chars = chars_of(hash);
    extend_chars(&mut cs, &store_chars, 0, store_chars.len());
    cs.push('/');
    extend_chars(&mut cs, &hash_chars, 0, hash_chars.len());
    assert(store_chars@.subrange(0, store_chars@.len() as int) =~= store@);
    assert(hash_chars@.subrange(0, hash_chars@.len() as int) =~= hash@);
    assert(cs@ =~= link_target_of(store@, hash@, repo_path@));
    string_from(cs)
}

/// A segment that names an entry: not empty, not `.`, not `..`.
pub open spec fn is_name(seg: Seq<char>) -> bool {
    seg.len() > 0 && !is_dot(seg) && !is_dot_dot(seg)
}

/// A path made of names alone, like `pool/main/a/pkg_1.0_amd64.deb`.
pub open spec fn plain_path(path: Seq<char>) -> bool {
    forall|i: int| 0 <= i < segments(path).len() ==> is_name(#[trigger] segments(path)[i])
}

/// A text without `/`.
pub open spec fn no_slash(s: Seq<char>) -> bool {
    forall|i: int| 0 <= i < s.len() ==> s[i] != '/'
}

proof fn lemma_depth_of_names(segs: Seq<Seq<char>>)
    requires
        forall|i: int| 0 <= i < segs.len() ==> is_name(#[trigger] segs[i]),
    ensures
        depth(segs) == segs.len(),
    decreases segs.len(),
{
    if segs.len() > 0 {
        let rest = segs.drop_last();
        assert forall|i: int| 0 <= i < rest.len() implies is_name(#[trigger] rest[i]) by {
            assert(rest[i] == segs[i]);
        }
        lemma_depth_of_names(rest);
        assert(is_name(segs[segs.len() - 1]));
    }
}

proof fn lemma_split_last(p: Seq<char>, h: Seq<char>, sep: char)
    requires
        forall|i: int| 0 <= i < h.len() ==> h[i] != sep,
    ensures
        split(p.push(sep) + h, sep).last() == h,
    decreases h.len(),
{
    let s = p.push(sep) + h;
    if h.len() == 0 {
        assert(s =~= p.push(sep));
        assert(s.drop_last() =~= p);
    } else {
        let h0 = h.drop_last();
        lemma_split_last(p, h0, sep);
        assert(s.drop_last() =~= p.push(sep) + h0);
        assert(s.last() == h.last());
        lemma_split_len(s.drop_last(), sep);
        assert(h0.push(h.last()) =~= h);
    }
}

/// The link at a path made of names resolves to the blob: its target
/// climbs one `../` for each directory above the path, which leads back to
/// the top, then names `store/hash`; the last segment of the target is the
/// hash itself.
pub proof fn lemma_link_resolves_to_blob(store: Seq<char>, hash: Seq<char>, path: Seq<char>)
    requires
        plain_path(path),
        no_slash(hash),
    ensures
        up_count(path) == dirs_of(path).len(),
        link_target_of(store, hash, path) == path_in(ups(dirs_of(path).len()) + store, hash),
        segments(link_target_of(store, hash, path)).last() == hash,
{
    lemma_split_len(path, '/');
    lemma_depth_of_names(segments(path));
    let prefix = ups(up_count(path)) + store;
    assert(path_in(prefix, hash) =~= prefix.push('/') + hash);
    lemma_split_last(prefix, hash, '/');
}

/// After a run, a record whose fetch succeeded has its blob in the store,
/// and the link that the linker places at its path, one made of names,
/// climbs back to the top and ends in the record's hash.
pub proof fn lemma_fetched_record_links_to_blob(
    hashes: Seq<Seq<char>>,
    paths: Seq<Seq<char>>,
    store_dir: Seq<char>,
    mirrors: nat,
    disk: Disk,
    serve_all: ServeAll,
    fuel: nat,
    i: int,
)
    requires
        content_addressed(disk.store),
        paths.len() == hashes.len(),
        0 <= i < hashes.len(),
        succeeded(run_all(hashes, mirrors, disk, serve_all, fuel).0[i]),
        plain_path(paths[i]),
        no_slash(hashes[i]),
    ensures
        run_all(hashes, mirrors, disk, serve_all, fuel).1.store.contains_key(hashes[i]),
        link_target_of(store_dir, hashes[i], paths[i]) == path_in(
            ups(dirs_of(paths[i]).len()) + store_dir,
            hashes[i],
        ),
        segments(link_target_of(store_dir, hashes[i], paths[i])).last() == hashes[i],
{
    lemma_run_all_succeeded_present(hashes, mirrors, disk, serve_all, fuel);
    lemma_link_resolves_to_blob(store_dir, hashes[i], paths[i]);
}

} // verus!
