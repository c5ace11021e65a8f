//! The two lists the mirror works from, made from a `sources.list`-style
//! repository descriptor.
//!
//! Each descriptor line of more than three characters is split on spaces;
//! empty tokens are skipped. A line contributes once it has shown the word
//! `deb`: its next `http://` or `https://` token is a mirror base URL, the
//! token after that a suite, and every later token a component. Each list
//! keeps the first occurrence of every value, in order of appearance.

use vstd::prelude::*;

use crate::text::{
    chars_of, extend_chars, line_spans, lines_of, split, split_spans, spans_of, starts_with,
    string_from, substring,
};

verus! {

pub const DEB_WORD: &'static str = "deb";

pub const HTTP_PREFIX: &'static str = "http://";

pub const HTTPS_PREFIX: &'static str = "https://";

/// What a descriptor line waits for next.
#[derive(Clone, Copy, Debug, PartialEq, Eq, Structural)]
pub enum LineState {
    LineDeb,
    LineHttp,
    LineVersion,
    LineComponent,
}

/// What the descriptor names: mirror base URLs, suites and components.
pub struct SourcesView {
    pub bases: Seq<Seq<char>>,
    pub suites: Seq<Seq<char>>,
    pub components: Seq<Seq<char>>,
}

/// `xs` with `x` added at the end, unless it holds `x` already.
pub open spec fn add_unique(xs: Seq<Seq<char>>, x: Seq<char>) -> Seq<Seq<char>> {
    if xs.contains(x) {
        xs
    } else {
        xs.push(x)
    }
}

/// A token that reads as a mirror base URL.
pub open spec fn is_http(tok: Seq<char>) -> bool {
    tok.len() > HTTPS_PREFIX@.len() && (starts_with(tok, HTTP_PREFIX@) || starts_with(
        tok,
        HTTPS_PREFIX@,
    ))
}

/// One token of a descriptor line.
pub open spec fn token_step(st: LineState, acc: SourcesView, tok: Seq<char>) -> (
    LineState,
    SourcesView,
) {
    if tok.len() == 0 {
        (st, acc)
    } else {
        match st {
            LineState::LineDeb => if tok == DEB_WORD@ {
                (LineState::LineHttp, acc)
            } else {
                (st, acc)
            },
            LineState::LineHttp => if is_http(tok) {
                (LineState::LineVersion, SourcesView { bases: add_unique(acc.bases, tok), ..acc })
            } else {
                (st, acc)
            },
            LineState::LineVersion => (
                LineState::LineComponent,
                SourcesView { suites: add_unique(acc.suites, tok), ..acc },
            ),
            LineState::LineComponent => (
                st,
                SourcesView { components: add_unique(acc.components, tok), ..acc },
            ),
        }
    }
}

/// The tokens of one line, from `LineDeb` on.
pub open spec fn scan_tokens(toks: Seq<Seq<char>>, acc: SourcesView) -> (LineState, SourcesView)
    decreases toks.len(),
{
    if toks.len() == 0 {
        (LineState::LineDeb, acc)
    } else {
        let (st, a) = scan_tokens(toks.drop_last(), acc);
        token_step(st, a, toks.last())
    }
}

/// One descriptor line; lines of three characters or fewer are skipped.
pub open spec fn line_step(acc: SourcesView, line: Seq<char>) -> SourcesView {
    if line.len() > DEB_WORD@.len() {
        scan_tokens(split(line, ' '), acc).1
    } else {
        acc
    }
}

pub open spec fn scan_source_lines(lines: Seq<Seq<char>>) -> SourcesView
    decreases lines.len(),
{
    if lines.len() == 0 {
        SourcesView { bases: Seq::empty(), suites: Seq::empty(), components: Seq::empty() }
    } else {
        line_step(scan_source_lines(lines.drop_last()), lines.last())
    }
}

/// What a descriptor names.
pub open spec fn sources_of(text: Seq<char>) -> SourcesView {
    scan_source_lines(lines_of(text))
}

/// Each entry followed by a newline.
pub open spec fn lines_text(entries: Seq<Seq<char>>) -> Seq<char>
    decreases entries.len(),
{
    if entries.len() == 0 {
        Seq::empty()
    } else {
        lines_text(entries.drop_last()) + entries.last().push('\n')
    }
}

/// The index files of suite `v` and component `c`: the suite's `Release`,
/// then the sources index and the `amd64` and `i386` package indices, each
/// plain, `.gz` and `.xz`.
pub open spec fn dist_entries(v: Seq<char>, c: Seq<char>) -> Seq<Seq<char>> {
    let suite = "dists/"@ + v + seq!['/'];
    let comp = suite + c;
    let sources = comp + "/source/Sources"@;
    let amd64 = comp + "/binary-amd64/Packages"@;
    let i386 = comp + "/binary-i386/Packages"@;
    seq![
        suite + "Release"@,
        sources,
        sources + ".gz"@,
        sources + ".xz"@,
        amd64,
        amd64 + ".gz"@,
        amd64 + ".xz"@,
        i386,
        i386 + ".gz"@,
        i386 + ".xz"@,
    ]
}

/// The entries of suite `v` for each component, in order.
pub open spec fn suite_entries(v: Seq<char>, comps: Seq<Seq<char>>) -> Seq<Seq<char>>
    decreases comps.len(),
{
    if comps.len() == 0 {
        Seq::empty()
    } else {
        suite_entries(v, comps.drop_last()) + dist_entries(v, comps.last())
    }
}

/// The entries of every suite, for each component, in order.
pub open spec fn all_entries(suites: Seq<Seq<char>>, comps: Seq<Seq<char>>) -> Seq<Seq<char>>
    decreases suites.len(),
{
    if suites.len() == 0 {
        Seq::empty()
    } else {
        all_entries(suites.drop_last(), comps) + suite_entries(suites.last(), comps)
    }
}

/// The mirror list and the index list made from a descriptor.
pub struct ConfigLists {
    /// One mirror base URL per line.
    pub mirrors: String,
    /// One repository-relative index-file path per line.
    pub dist_packages: String,
}

proof fn lemma_lines_text_push(entries: Seq<Seq<char>>, e: Seq<char>)
    ensures
        lines_text(entries.push(e)) == lines_text(entries) + e.push('\n'),
{
    assert(entries.push(e).drop_last() =~= entries);
}

proof fn lemma_lines_text_concat(a: Seq<Seq<char>>, b: Seq<Seq<char>>)
    ensures
        lines_text(a + b) == lines_text(a) + lines_text(b),
    decreases b.len(),
{
    if b.len() == 0 {
        assert(a + b =~= a);
        assert(lines_text(a) + lines_text(b) =~= lines_text(a));
    } else {
        lemma_lines_text_concat(a, b.drop_last());
        assert((a + b).drop_last() =~= a + b.drop_last());
        assert((a + b).last() == b.last());
        assert(lines_text(a + b) =~= lines_text(a) + lines_text(b));
    }
}

/// `xs` with `x` added unless present (see `add_unique`).
fn push_unique(xs: &mut Vec<String>, x: String)
    ensures
        final(xs)@.map_values(|s: String| s@) == add_unique(
            old(xs)@.map_values(|s: String| s@),
            x@,
        ),
{
    let ghost before = xs@.map_values(|s: String| s@);
    let mut i: usize = 0;
    while i < xs.len()
        invariant
            i <= xs@.len(),
            before == xs@.map_values(|s: String| s@),
            xs@ == old(xs)@,
            forall|j: int| 0 <= j < i ==> before[j] != x@,
        decreases xs@.len() - i,
    {
        if xs[i] == x {
            assert(before[i as int] == x@);
            assert(before.contains(x@));
            return;
        }
        i = i + 1;
    }
    assert(!before.contains(x@));
    xs.push(x);
    assert(xs@.map_values(|s: String| s@) =~= before.push(x@));
}

pub open spec fn views_of(xs: Seq<String>) -> Seq<Seq<char>> {
    xs.map_values(|s: String| s@)
}

/// Appends `text` to `out`.
fn append_str(out: &mut Vec<char>, text: &str)
    ensures
        final(out)@ == old(out)@ + text@,
{
    let cs = chars_of(text);
    extend_chars(out, &cs, 0, cs.len());
    assert(cs@.subrange(0, cs@.len() as int) =~= text@);
}

/// The descriptor's mirror base URLs, suites and components.
pub fn read_sources(descriptor: &str) -> (r: (Vec<String>, Vec<String>, Vec<String>))
    ensures
        views_of(r.0@) == sources_of(descriptor@).bases,
        views_of(r.1@) == sources_of(descriptor@).suites,
        views_of(r.2@) == sources_of(descriptor@).components,
{
    let text = chars_of(descriptor);
    let deb = chars_of(DEB_WORD);
    let http = chars_of(HTTP_PREFIX);
    let https = chars_of(HTTPS_PREFIX);
    let spans = line_spans(&text);
    let ghost lines = lines_of(text@);
    let mut bases: Vec<String> = Vec::new();
    let mut suites: Vec<String> = Vec::new();
    let mut components: Vec<String> = Vec::new();
    let mut i: usize = 0;
    assert(lines.take(0) =~= Seq::<Seq<char>>::empty());
    assert(views_of(bases@) =~= Seq::<Seq<char>>::empty());
    assert(views_of(suites@) =~= Seq::<Seq<char>>::empty());
    assert(views_of(components@) =~= Seq::<Seq<char>>::empty());
    while i < spans.len()
        invariant
            spans_of(text@, spans@, lines),
            lines == lines_of(text@),
            text@ == descriptor@,
            deb@ == DEB_WORD@,
            http@ == HTTP_PREFIX@,
            https@ == HTTPS_PREFIX@,
            i <= spans@.len(),
            scan_source_lines(lines.take(i as int)) == (SourcesView {
                bases: views_of(bases@),
                suites: views_of(suites@),
                components: views_of(components@),
            }),
        decreases spans@.len() - i,
    {
        let start = spans[i].0;
        let end = spans[i].1;
        let ghost line_view = lines[i as int];
        assert(text@.subrange(start as int, end as int) == line_view);
        assert(lines.take(i + 1).drop_last() =~= lines.take(i as int));
        if end - start > deb.len() {
            let mut line: Vec<char> = Vec::new();
            extend_chars(&mut line, &text, start, end);
            assert(line@ =~= line_view);
            let toks = split_spans(&line, ' ');
            let ghost tokens = split(line@, ' ');
            let ghost acc0 = scan_source_lines(lines.take(i as int));
            let mut st = LineState::LineDeb;
            let mut t: usize = 0;
            assert(tokens.take(0) =~= Seq::<Seq<char>>::empty());
            while t < toks.len()
                invariant
                    spans_of(line@, toks@, tokens),
                    tokens == split(line@, ' '),
                    deb@ == DEB_WORD@,
                    http@ == HTTP_PREFIX@,
                    https@ == HTTPS_PREFIX@,
                    t <= toks@.len(),
                    scan_tokens(tokens.take(t as int), acc0) == (
                        st,
                        SourcesView {
                            bases: views_of(bases@),
                            suites: views_of(suites@),
                            components: views_of(components@),
                        },
                    ),
                decreases toks@.len() - t,
            {
                let a = toks[t].0;
                let b = toks[t].1;
                let ghost tok = tokens[t as int];
                assert(line@.subrange(a as int, b as int) == tok);
                assert(tokens.take(t + 1).drop_last() =~= tokens.take(t as int));
                if b > a {
                    match st {
                        LineState::LineDeb => {
                            if b - a == deb.len() && crate::text::span_starts_with(
                                &line,
                                a,
                                b,
                                &deb,
                            ) {
                                assert(tok =~= DEB_WORD@);
                                st = LineState::LineHttp;
                            } else {
                                assert(tok != DEB_WORD@ ) by {
                                    if tok == DEB_WORD@ {
                                        assert(tok.subrange(0, DEB_WORD@.len() as int) =~= tok);
                                    }
                                }
                            }
                        },
                        LineState::LineHttp => {
                            if b - a > https.len() && (crate::text::span_starts_with(
                                &line,
                                a,
                                b,
                                &http,
                            ) || crate::text::span_starts_with(&line, a, b, &https)) {
                                push_unique(&mut bases, substring(&line, a, b));
                                st = LineState::LineVersion;
                            }
                        },
                        LineState::LineVersion => {
                            push_unique(&mut suites, substring(&line, a, b));
                            st = LineState::LineComponent;
                        },
                        LineState::LineComponent => {
                            push_unique(&mut components, substring(&line, a, b));
                        },
                    }
                }
                t = t + 1;
            }
            assert(tokens.take(t as int) =~= tokens);
        }
        i = i + 1;
    }
    assert(lines.take(i as int) =~= lines);
    (bases, suites, components)
}

/// The mirror list and index list named by a descriptor: the mirror base
/// URLs one per line, and for every suite and component (in order of
/// appearance) the lines of `dist_entries`.
pub fn make_lists(descriptor: &str) -> (r: ConfigLists)
    ensures
        r.mirrors@ == lines_text(sources_of(descriptor@).bases),
        r.dist_packages@ == lines_text(
            all_entries(sources_of(descriptor@).suites, sources_of(descriptor@).components),
        ),
{
    let (bases, suites, components) = read_sources(descriptor);
    let mut mirrors: Vec<char> = Vec::new();
    let mut i: usize = 0;
    assert(views_of(bases@).take(0) =~= Seq::<Seq<char>>::empty());
    while i < bases.len()
        invariant
            i <= bases@.len(),
            mirrors@ == lines_text(views_of(bases@).take(i as int)),
        decreases bases@.len() - i,
    {
        append_str(&mut mirrors, bases[i].as_str());
        mirrors.push('\n');
        proof {
            let vs = views_of(bases@);
            assert(vs.take(i + 1) =~= vs.take(i as int).push(vs[i as int]));
            lemma_lines_text_push(vs.take(i as int), vs[i as int]);
        }
        i = i + 1;
    }
    assert(views_of(bases@).take(i as int) =~= views_of(bases@));
    let ghost cs = views_of(components@);
    let mut dist: Vec<char> = Vec::new();
    let mut v: usize = 0;
    assert(views_of(suites@).take(0) =~= Seq::<Seq<char>>::empty());
    while v < suites.len()
        invariant
            v <= suites@.len(),
            cs == views_of(components@),
            dist@ == lines_text(all_entries(views_of(suites@).take(v as int), cs)),
        decreases suites@.len() - v,
    {
        let ghost vs = views_of(suites@);
        let ghost base_text = dist@;
        let mut c: usize = 0;
        assert(cs.take(0) =~= Seq::<Seq<char>>::empty());
        assert(base_text + lines_text(suite_entries(vs[v as int], cs.take(0))) =~= base_text);
        while c < components.len()
            invariant
                c <= components@.len(),
                v < suites@.len(),
                vs == views_of(suites@),
                cs == views_of(components@),
                dist@ == base_text + lines_text(suite_entries(vs[v as int], cs.take(c as int))),
            decreases components@.len() - c,
        {
            let ghost before = dist@;
            let sv = suites[v].as_str();
            let cv = components[c].as_str();
            append_str(&mut dist, "dists/");
            append_str(&mut dist, sv);
            dist.push('/');
            let ghost suite = "dists/"@ + vs[v as int] + seq!['/'];
            assert(dist@ =~= before + suite);
            append_str(&mut dist, "Release\n");
            // the component's prefix, kept to repeat it
            let mut comp: Vec<char> = Vec::new();
            append_str(&mut comp, "dists/");
            append_str(&mut comp, sv);
            comp.push('/');
            append_str(&mut comp, cv);
            let ghost compv = suite + cs[c as int];
            assert(comp@ =~= compv);
            let kinds: [&str; 3] = ["/source/Sources", "/binary-amd64/Packages", "/binary-i386/Packages"];
            let ghost e = dist_entries(vs[v as int], cs[c as int]);
            assert(dist@ =~= before + lines_text(e.take(1))) by {
                reveal_strlit("Release\n");
                reveal_strlit("Release");
                assert(e.take(1) =~= seq![suite + "Release"@]);
                assert(lines_text(e.take(1).drop_last()) =~= Seq::<char>::empty());
            }
            let mut k: usize = 0;
            while k < 3
                invariant
                    k <= 3,
                    comp@ == compv,
                    e == dist_entries(vs[v as int], cs[c as int]),
                    compv == "dists/"@ + vs[v as int] + seq!['/'] + cs[c as int],
                    kinds@ == seq!["/source/Sources", "/binary-amd64/Packages", "/binary-i386/Packages"],
                    dist@ == before + lines_text(e.take(1 + 3 * k)),
                decreases 3 - k,
            {
                let ghost mid = dist@;
                let kind = kinds[k];
                let ghost plain = compv + kind@;
                extend_chars(&mut dist, &comp, 0, comp.len());
                append_str(&mut dist, kind);
                dist.push('\n');
                extend_chars(&mut dist, &comp, 0, comp.len());
                append_str(&mut dist, kind);
                append_str(&mut dist, ".gz\n");
                extend_chars(&mut dist, &comp, 0, comp.len());
                append_str(&mut dist, kind);
                append_str(&mut dist, ".xz\n");
                proof {
                    reveal_strlit(".gz\n");
                    reveal_strlit(".xz\n");
                    reveal_strlit(".gz");
                    reveal_strlit(".xz");
                    assert(comp@.subrange(0, comp@.len() as int) =~= compv);
                    assert(e[1 + 3 * k] == plain);
                    assert(e[2 + 3 * k] == plain + ".gz"@);
                    assert(e[3 + 3 * k] == plain + ".xz"@);
                    let t0 = e.take(1 + 3 * k);
                    assert(e.take(2 + 3 * k) =~= t0.push(plain));
                    assert(e.take(3 + 3 * k) =~= t0.push(plain).push(plain + ".gz"@));
                    assert(e.take(4 + 3 * k) =~= t0.push(plain).push(plain + ".gz"@).push(
                        plain + ".xz"@,
                    ));
                    lemma_lines_text_push(t0, plain);
                    lemma_lines_text_push(t0.push(plain), plain + ".gz"@);
                    lemma_lines_text_push(t0.push(plain).push(plain + ".gz"@), plain + ".xz"@);
                    assert(dist@ =~= before + lines_text(e.take(4 + 3 * k)));
                }
                k = k + 1;
            }
            proof {
                assert(e.take(10) =~= e);
                let done = cs.take(c as int);
                assert(cs.take(c + 1).drop_last() =~= done);
                assert(cs.take(c + 1).last() == cs[c as int]);
                lemma_lines_text_concat(suite_entries(vs[v as int], done), e);
                assert(dist@ =~= base_text + lines_text(suite_entries(vs[v as int], cs.take(c + 1))));
            }
            c = c + 1;
        }
        proof {
            assert(cs.take(c as int) =~= cs);
            let done = vs.take(v as int);
            assert(vs.take(v + 1).drop_last() =~= done);
            assert(vs.take(v + 1).last() == vs[v as int]);
            lemma_lines_text_concat(all_entries(done, cs), suite_entries(vs[v as int], cs));
        }
        v = v + 1;
    }
    assert(views_of(suites@).take(v as int) =~= views_of(suites@));
    ConfigLists { mirrors: string_from(mirrors), dist_packages: string_from(dist) }
}

} // verus!
