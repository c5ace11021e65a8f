//! The two flat lists the mirror works from: mirror base URLs and the
//! repository-relative paths of the index files.

use vstd::prelude::*;

use crate::text::{chars_of, line_spans, lines_of, spans_of, substring};

verus! {

/// A line of the mirror list no longer than this is noise.
pub const MIRROR_NOISE_LEN: usize = 7;

/// The mirror base URLs of a mirror list: its lines longer than
/// `MIRROR_NOISE_LEN` characters, in order.
pub open spec fn mirrors_of(list: Seq<char>) -> Seq<Seq<char>> {
    lines_of(list).filter(|l: Seq<char>| l.len() > MIRROR_NOISE_LEN)
}

/// The paths of an index list: its non-empty lines, in order.
pub open spec fn dist_paths_of(list: Seq<char>) -> Seq<Seq<char>> {
    lines_of(list).filter(|l: Seq<char>| l.len() > 0)
}

/// The mirror base URLs named in a mirror list; lines of at most
/// `MIRROR_NOISE_LEN` characters are dropped as noise.
pub fn mirror_urls(list: &str) -> (r: Vec<String>)
    ensures
        r@.map_values(|u: String| u@) == mirrors_of(list@),
{
    lines_longer_than(list, MIRROR_NOISE_LEN)
}

/// The index-file paths named in an index list; empty lines are dropped.
pub fn dist_paths(list: &str) -> (r: Vec<String>)
    ensures
        r@.map_values(|p: String| p@) == dist_paths_of(list@),
{
    lines_longer_than(list, 0)
}

/// The lines of `list` that hold more than `min` characters, in order.
fn lines_longer_than(list: &str, min: usize) -> (r: Vec<String>)
    ensures
        r@.map_values(|p: String| p@) == lines_of(list@).filter(|l: Seq<char>| l.len() > min),
{
    let text = chars_of(list);
    let spans = line_spans(&text);
    let ghost lines = lines_of(text@);
    let ghost keep = |l: Seq<char>| l.len() > min;
    let mut out: Vec<String> = Vec::new();
    let mut i: usize = 0;
    proof {
        reveal(Seq::filter);
        assert(lines.take(0) =~= Seq::<Seq<char>>::empty());
    }
    assert(out@.map_values(|p: String| p@) =~= lines.take(0).filter(keep));
    while i < spans.len()
        invariant
            spans_of(text@, spans@, lines),
            lines == lines_of(text@),
            text@ == list@,
            keep == (|l: Seq<char>| l.len() > min),
            i <= spans@.len(),
            out@.map_values(|p: String| p@) == lines.take(i as int).filter(keep),
        decreases spans@.len() - i,
    {
        let start = spans[i].0;
        let end = spans[i].1;
        let ghost prev = out@;
        assert(text@.subrange(start as int, end as int) == lines[i as int]);
        proof {
            reveal(Seq::filter);
            assert(lines.take(i + 1).drop_last() =~= lines.take(i as int));
        }
        if end - start > min {
            out.push(substring(&text, start, end));
            assert(out@.map_values(|p: String| p@) =~= prev.map_values(|p: String| p@).push(
                lines[i as int],
            ));
        }
        i = i + 1;
    }
    assert(lines.take(i as int) =~= lines);
    out
}

} // verus!
