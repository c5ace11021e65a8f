//! Character-level text helpers shared by the parsers and path builders.

use vstd::prelude::*;

verus! {

/// The pieces of `s` between occurrences of `sep`. A text without `sep` is
/// one piece; a trailing `sep` ends with an empty piece.
pub open spec fn split(s: Seq<char>, sep: char) -> Seq<Seq<char>>
    decreases s.len(),
{
    if s.len() == 0 {
        seq![Seq::empty()]
    } else {
        let before = split(s.drop_last(), sep);
        if s.last() == sep {
            before.push(Seq::empty())
        } else {
            before.update(before.len() - 1, before.last().push(s.last()))
        }
    }
}

/// The lines of `s`: its pieces between newlines.
pub open spec fn lines_of(s: Seq<char>) -> Seq<Seq<char>> {
    split(s, '\n')
}

/// `s` begins with `prefix`.
pub open spec fn starts_with(s: Seq<char>, prefix: Seq<char>) -> bool {
    prefix.len() <= s.len() && s.subrange(0, prefix.len() as int) == prefix
}

/// `s` ends with `suffix`.
pub open spec fn ends_with(s: Seq<char>, suffix: Seq<char>) -> bool {
    suffix.len() <= s.len() && s.subrange(s.len() - suffix.len(), s.len() as int) == suffix
}

/// `pat` occurs in `s` starting at position `i`.
pub open spec fn occurs_at(s: Seq<char>, pat: Seq<char>, i: int) -> bool {
    0 <= i && i + pat.len() <= s.len() && s.subrange(i, i + pat.len()) == pat
}

/// `pat` occurs somewhere in `s`.
pub open spec fn contains(s: Seq<char>, pat: Seq<char>) -> bool {
    exists|i: int| occurs_at(s, pat, i)
}

/// `spans` marks out `lines` in `text`: one `(start, end)` pair per line.
pub open spec fn spans_of(text: Seq<char>, spans: Seq<(usize, usize)>, lines: Seq<Seq<char>>) -> bool {
    &&& spans.len() == lines.len()
    &&& forall|i: int|
        #![trigger spans[i]]
        0 <= i < spans.len() ==> {
            &&& spans[i].0 <= spans[i].1 <= text.len()
            &&& text.subrange(spans[i].0 as int, spans[i].1 as int) == lines[i]
        }
}

proof fn lemma_spans_push(
    text: Seq<char>,
    spans: Seq<(usize, usize)>,
    lines: Seq<Seq<char>>,
    span: (usize, usize),
)
    requires
        spans_of(text, spans, lines),
        span.0 <= span.1 <= text.len(),
    ensures
        spans_of(text, spans.push(span), lines.push(text.subrange(span.0 as int, span.1 as int))),
{
    let line = text.subrange(span.0 as int, span.1 as int);
    let sp = spans.push(span);
    let ls = lines.push(line);
    assert forall|i: int| #![trigger sp[i]] 0 <= i < sp.len() implies {
        &&& sp[i].0 <= sp[i].1 <= text.len()
        &&& text.subrange(sp[i].0 as int, sp[i].1 as int) == ls[i]
    } by {
        if i < spans.len() {
            assert(sp[i] == spans[i]);
            assert(ls[i] == lines[i]);
            assert(text.subrange(spans[i].0 as int, spans[i].1 as int) == lines[i]);
        } else {
            assert(sp[i] == span);
            assert(ls[i] == line);
        }
    }
    assert(spans_of(text, sp, ls));
}

/// The lines of `text` (see `lines_of`), as `(start, end)` positions.
pub fn line_spans(text: &Vec<char>) -> (r: Vec<(usize, usize)>)
    ensures
        spans_of(text@, r@, lines_of(text@)),
{
    split_spans(text, '\n')
}

/// The pieces of `text` between occurrences of `sep` (see `split`), as
/// `(start, end)` positions.
pub fn split_spans(text: &Vec<char>, sep: char) -> (r: Vec<(usize, usize)>)
    ensures
        spans_of(text@, r@, split(text@, sep)),
{
    let mut r: Vec<(usize, usize)> = Vec::new();
    let mut start: usize = 0;
    let mut j: usize = 0;
    while j < text.len()
        invariant
            start <= j <= text@.len(),
            split(text@.take(j as int), sep).len() == r@.len() + 1,
            split(text@.take(j as int), sep).last() == text@.subrange(start as int, j as int),
            spans_of(text@, r@, split(text@.take(j as int), sep).drop_last()),
        decreases text@.len() - j,
    {
        let ghost prev = split(text@.take(j as int), sep);
        assert(text@.take(j + 1).drop_last() =~= text@.take(j as int));
        if text[j] == sep {
            proof {
                lemma_spans_push(text@, r@, prev.drop_last(), (start, j));
                assert(prev.drop_last().push(prev.last()) =~= prev);
            }
            r.push((start, j));
            start = j + 1;
            assert(split(text@.take(j + 1), sep) == prev.push(Seq::empty()));
            assert(split(text@.take(j + 1), sep).drop_last() =~= prev);
            assert(text@.subrange(start as int, j + 1) =~= Seq::<char>::empty());
        } else {
            assert(split(text@.take(j + 1), sep) == prev.update(
                prev.len() - 1,
                prev.last().push(text@[j as int]),
            ));
            assert(split(text@.take(j + 1), sep).drop_last() =~= prev.drop_last());
            assert(text@.subrange(start as int, j + 1) =~= text@.subrange(start as int, j as int).push(
                text@[j as int],
            ));
        }
        j = j + 1;
    }
    let ghost prev = split(text@.take(j as int), sep);
    proof {
        lemma_spans_push(text@, r@, prev.drop_last(), (start, j));
        assert(text@.take(j as int) =~= text@);
        assert(prev.drop_last().push(prev.last()) =~= prev);
    }
    r.push((start, j));
    r
}

/// The characters of `s`, in order.
pub fn chars_of(s: &str) -> (r: Vec<char>)
    ensures
        r@ == s@,
{
    let mut r: Vec<char> = Vec::new();
    for c in it: s.chars()
        invariant
            r@ == it.seq().take(it.index() as int),
    {
        r.push(c);
    }
    r
}

/// Relies on std's `FromIterator<char> for String`: the string holds exactly
/// the given characters, in order.
#[verifier::external_body]
pub(crate) fn string_from(cs: Vec<char>) -> (r: String)
    ensures
        r@ == cs@,
{
    String::from_iter(cs)
}

/// Appends `src[start..end]` to `dst`.
pub fn extend_chars(dst: &mut Vec<char>, src: &Vec<char>, start: usize, end: usize)
    requires
        start <= end <= src@.len(),
    ensures
        final(dst)@ == old(dst)@ + src@.subrange(start as int, end as int),
{
    let mut i: usize = start;
    while i < end
        invariant
            start <= i <= end <= src@.len(),
            dst@ == old(dst)@ + src@.subrange(start as int, i as int),
        decreases end - i,
    {
        dst.push(src[i]);
        i = i + 1;
        assert(dst@ =~= old(dst)@ + src@.subrange(start as int, i as int));
    }
}

/// The string made of `text[start..end]`.
pub fn substring(text: &Vec<char>, start: usize, end: usize) -> (r: String)
    requires
        start <= end <= text@.len(),
    ensures
        r@ == text@.subrange(start as int, end as int),
{
    let mut cs: Vec<char> = Vec::new();
    let mut i: usize = start;
    while i < end
        invariant
            start <= i <= end <= text@.len(),
            cs@ == text@.subrange(start as int, i as int),
        decreases end - i,
    {
        cs.push(text[i]);
        i = i + 1;
    }
    string_from(cs)
}

/// Whether `pat` occurs in `text` at position `pos`, within `text[..end]`.
pub fn occurs_in_at(text: &Vec<char>, end: usize, pat: &Vec<char>, pos: usize) -> (r: bool)
    requires
        end <= text@.len(),
    ensures
        r == occurs_at(text@.subrange(0, end as int), pat@, pos as int),
{
    if pos > end || pat.len() > end - pos {
        return false;
    }
    let ghost s = text@.subrange(0, end as int);
    let mut k: usize = 0;
    while k < pat.len()
        invariant
            pos + pat@.len() <= end <= text@.len(),
            s == text@.subrange(0, end as int),
            k <= pat@.len(),
            forall|m: int| 0 <= m < k ==> text@[pos + m] == pat@[m],
        decreases pat@.len() - k,
    {
        if text[pos + k] != pat[k] {
            assert(s.subrange(pos as int, pos + pat@.len())[k as int] != pat@[k as int]);
            return false;
        }
        k = k + 1;
    }
    assert(s.subrange(pos as int, pos + pat@.len()) =~= pat@);
    true
}

/// Whether the line `text[start..end]` begins with `prefix`.
pub fn span_starts_with(text: &Vec<char>, start: usize, end: usize, prefix: &Vec<char>) -> (r:
    bool)
    requires
        start <= end <= text@.len(),
    ensures
        r == starts_with(text@.subrange(start as int, end as int), prefix@),
{
    let ghost line = text@.subrange(start as int, end as int);
    if prefix.len() > end - start {
        return false;
    }
    let mut k: usize = 0;
    while k < prefix.len()
        invariant
            start + prefix@.len() <= end <= text@.len(),
            line == text@.subrange(start as int, end as int),
            k <= prefix@.len(),
            forall|m: int| 0 <= m < k ==> text@[start + m] == prefix@[m],
        decreases prefix@.len() - k,
    {
        if text[start + k] != prefix[k] {
            assert(line.subrange(0, prefix@.len() as int)[k as int] != prefix@[k as int]);
            return false;
        }
        k = k + 1;
    }
    assert(line.subrange(0, prefix@.len() as int) =~= prefix@);
    true
}

/// Whether the line `text[start..end]` ends with `suffix`.
pub fn span_ends_with(text: &Vec<char>, start: usize, end: usize, suffix: &Vec<char>) -> (r: bool)
    requires
        start <= end <= text@.len(),
    ensures
        r == ends_with(text@.subrange(start as int, end as int), suffix@),
{
    let ghost line = text@.subrange(start as int, end as int);
    if suffix.len() > end - start {
        return false;
    }
    let from: usize = end - suffix.len();
    let mut k: usize = 0;
    while k < suffix.len()
        invariant
            start <= from,
            from + suffix@.len() == end <= text@.len(),
            line == text@.subrange(start as int, end as int),
            k <= suffix@.len(),
            forall|m: int| 0 <= m < k ==> text@[from + m] == suffix@[m],
        decreases suffix@.len() - k,
    {
        if text[from + k] != suffix[k] {
            assert(line.subrange(line.len() - suffix@.len(), line.len() as int)[k as int]
                != suffix@[k as int]);
            return false;
        }
        k = k + 1;
    }
    assert(line.subrange(line.len() - suffix@.len(), line.len() as int) =~= suffix@);
    true
}

/// Whether `pat` occurs in the line `text[start..end]`.
pub fn span_contains(text: &Vec<char>, start: usize, end: usize, pat: &Vec<char>) -> (r: bool)
    requires
        start <= end <= text@.len(),
    ensures
        r == contains(text@.subrange(start as int, end as int), pat@),
{
    let ghost line = text@.subrange(start as int, end as int);
    let ghost upto = text@.subrange(0, end as int);
    if pat.len() == 0 {
        assert(line.subrange(0, 0) =~= pat@);
        assert(occurs_at(line, pat@, 0));
        return true;
    }
    let mut pos: usize = start;
    while pos < end
        invariant
            start <= pos <= end <= text@.len(),
            line == text@.subrange(start as int, end as int),
            upto == text@.subrange(0, end as int),
            pat@.len() > 0,
            forall|i: int| 0 <= i < pos - start ==> !occurs_at(line, pat@, i),
        decreases end - pos,
    {
        if occurs_in_at(text, end, pat, pos) {
            assert(line.subrange(pos - start, pos - start + pat@.len()) =~= upto.subrange(
                pos as int,
                pos + pat@.len(),
            ));
            assert(occurs_at(line, pat@, pos - start));
            return true;
        }
        assert(!occurs_at(line, pat@, pos - start)) by {
            if occurs_at(line, pat@, pos - start) {
                assert(line.subrange(pos - start, pos - start + pat@.len()) =~= upto.subrange(
                    pos as int,
                    pos + pat@.len(),
                ));
            }
        }
        pos = pos + 1;
    }
    false
}

} // verus!
