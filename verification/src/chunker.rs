//! Token-budgeted chunking of a Markdown document at section boundaries.
use crate::agent::{slice_range, tokens_for, tokens_for_chars, vecs_view};
use crate::outline::{
    dec, document_headings, extract_outline, headings_view, lemma_document_headings_order,
    lemma_headings_view, law_outline_lists_headings_in_order, outline_headings, preorder,
    HeadingNode, HeadingView,
};
use crate::text::{chars_of, join, line_ranges, lines, string_of};
use crate::tui::app::flatten_headings;
use vstd::prelude::*;

verus! {

/// A slice of a document that fits, where it can, in a token budget.
#[derive(Debug, Clone, PartialEq, Eq)]
pub struct MarkdownChunk {
    pub chunk_index: usize,
    pub title: String,
    pub start_line: usize,
    pub end_line: usize,
    pub token_count: usize,
    pub content: String,
}

/// The value of a chunk.
#[verifier::ext_equal]
pub struct ChunkView {
    pub chunk_index: int,
    pub title: Seq<char>,
    pub start_line: int,
    pub end_line: int,
    pub token_count: int,
    pub content: Seq<char>,
}

impl View for MarkdownChunk {
    type V = ChunkView;

    open spec fn view(&self) -> ChunkView {
        ChunkView {
            chunk_index: self.chunk_index as int,
            title: self.title@,
            start_line: self.start_line as int,
            end_line: self.end_line as int,
            token_count: self.token_count as int,
            content: self.content@,
        }
    }
}

/// The values of a list of chunks.
pub open spec fn chunks_view(v: Seq<MarkdownChunk>) -> Seq<ChunkView> {
    v.map_values(|c: MarkdownChunk| c@)
}

/// The lines joined with newlines.
pub open spec fn joined(ls: Seq<Seq<char>>) -> Seq<char> {
    join(ls, seq!['\n'])
}

/// The token estimate of lines joined with newlines.
pub open spec fn lines_tokens(ls: Seq<Seq<char>>) -> int {
    tokens_for(joined(ls).len()) as int
}

/// `chunks` with one more chunk: the lines `ls`, numbered from `start`, under `title`.
pub open spec fn close_chunk(
    chunks: Seq<ChunkView>,
    title: Seq<char>,
    start: int,
    ls: Seq<Seq<char>>,
    tokens: int,
) -> Seq<ChunkView> {
    chunks.push(
        ChunkView {
            chunk_index: chunks.len() as int + 1,
            title,
            start_line: start,
            end_line: start + ls.len() - 1,
            token_count: tokens,
            content: joined(ls),
        },
    )
}

/// The state of line-by-line chunking: the closed chunks, the open chunk's lines, their
/// tokens and the line number of its first line.
#[verifier::ext_equal]
pub struct LineAcc {
    pub chunks: Seq<ChunkView>,
    pub lines: Seq<Seq<char>>,
    pub tokens: int,
    pub start: int,
}

/// Line-by-line chunking of the first `n` lines of `ls`, numbered from `offset`: a line
/// that would push the open chunk over `max` tokens closes it first.
pub open spec fn fallback_acc(
    ls: Seq<Seq<char>>,
    title: Seq<char>,
    offset: int,
    max: int,
    n: int,
) -> LineAcc
    decreases n,
{
    if n <= 0 || n > ls.len() {
        LineAcc { chunks: seq![], lines: seq![], tokens: 0, start: offset }
    } else {
        let a = fallback_acc(ls, title, offset, max, n - 1);
        let t = tokens_for(ls[n - 1].len()) as int;
        let b = if a.tokens + t > max && a.lines.len() > 0 {
            LineAcc {
                chunks: close_chunk(a.chunks, title, a.start, a.lines, a.tokens),
                lines: seq![],
                tokens: 0,
                start: offset + n - 1,
            }
        } else {
            a
        };
        LineAcc { lines: b.lines.push(ls[n - 1]), tokens: b.tokens + t, ..b }
    }
}

/// The chunks of `ls` cut line by line.
pub open spec fn fallback_chunks(ls: Seq<Seq<char>>, title: Seq<char>, offset: int, max: int) -> Seq<
    ChunkView,
> {
    let a = fallback_acc(ls, title, offset, max, ls.len() as int);
    if a.lines.len() > 0 {
        close_chunk(a.chunks, title, a.start, a.lines, a.tokens)
    } else {
        a.chunks
    }
}

/// The sections opened by the first `n` headings of `hs`: title, first line index and end
/// line index (exclusive), for those that start inside the `total` lines.
pub open spec fn heading_sections(hs: Seq<HeadingView>, total: int, n: int) -> Seq<
    (Seq<char>, int, int),
>
    decreases n,
{
    if n <= 0 || n > hs.len() {
        seq![]
    } else {
        let prev = heading_sections(hs, total, n - 1);
        let start = dec(hs[n - 1].start_line as int);
        let end = if n < hs.len() {
            dec(hs[n].start_line as int)
        } else {
            total
        };
        if start < total {
            prev.push((hs[n - 1].title, start, if end < total { end } else { total }))
        } else {
            prev
        }
    }
}

/// The sections of a document with headings `hs` and `total` lines: the preamble before
/// the first heading, if any, then one section per heading.
pub open spec fn chunk_sections(hs: Seq<HeadingView>, total: int) -> Seq<(Seq<char>, int, int)> {
    let first = dec(hs[0].start_line as int);
    (if first > 0 {
        seq![("Preamble"@, 0int, first)]
    } else {
        seq![]
    }) + heading_sections(hs, total, hs.len() as int)
}

/// `cs` numbered on from `base`.
pub open spec fn renumber(cs: Seq<ChunkView>, base: int) -> Seq<ChunkView> {
    Seq::new(cs.len(), |k: int| ChunkView { chunk_index: base + k + 1, ..cs[k] })
}

/// The state of section-by-section chunking: the closed chunks, the open chunk's lines,
/// tokens, first line number and title.
#[verifier::ext_equal]
pub struct ChunkAcc {
    pub chunks: Seq<ChunkView>,
    pub lines: Seq<Seq<char>>,
    pub tokens: int,
    pub start: int,
    pub title: Seq<char>,
}

/// One section of lines `ls[start..end]` added to the chunking state.  A section over the
/// budget closes the open chunk and is cut line by line; another that would push the open
/// chunk over the budget closes it first.
pub open spec fn chunk_step(
    a: ChunkAcc,
    sec: (Seq<char>, int, int),
    ls: Seq<Seq<char>>,
    max: int,
) -> ChunkAcc {
    let title = sec.0;
    let start = sec.1;
    let end = sec.2;
    if start >= ls.len() {
        a
    } else {
        let sl = ls.subrange(start, end);
        let t = lines_tokens(sl);
        if t > max {
            let open = a.lines.len() > 0;
            let cs = if open {
                close_chunk(a.chunks, a.title, a.start, a.lines, a.tokens)
            } else {
                a.chunks
            };
            ChunkAcc {
                chunks: cs + renumber(fallback_chunks(sl, title, start + 1, max), cs.len() as int),
                lines: if open {
                    seq![]
                } else {
                    a.lines
                },
                tokens: if open {
                    0
                } else {
                    a.tokens
                },
                ..a
            }
        } else {
            let b = if a.tokens + t > max && a.lines.len() > 0 {
                ChunkAcc {
                    chunks: close_chunk(a.chunks, a.title, a.start, a.lines, a.tokens),
                    lines: seq![],
                    tokens: 0,
                    ..a
                }
            } else {
                a
            };
            let c = if b.lines.len() == 0 {
                ChunkAcc { start: start + 1, title, ..b }
            } else {
                b
            };
            ChunkAcc { lines: c.lines + sl, tokens: c.tokens + t, ..c }
        }
    }
}

/// The chunking state after the first `n` sections.
pub open spec fn chunk_fold(
    secs: Seq<(Seq<char>, int, int)>,
    ls: Seq<Seq<char>>,
    max: int,
    n: int,
) -> ChunkAcc
    decreases n,
{
    if n <= 0 || n > secs.len() {
        ChunkAcc { chunks: seq![], lines: seq![], tokens: 0, start: 1, title: seq![] }
    } else {
        chunk_step(chunk_fold(secs, ls, max, n - 1), secs[n - 1], ls, max)
    }
}

/// The chunks of a document cut at section boundaries.
pub open spec fn chunks_of_sections(
    secs: Seq<(Seq<char>, int, int)>,
    ls: Seq<Seq<char>>,
    max: int,
) -> Seq<ChunkView> {
    let a = chunk_fold(secs, ls, max, secs.len() as int);
    if a.lines.len() > 0 {
        close_chunk(a.chunks, a.title, a.start, a.lines, a.tokens)
    } else {
        a.chunks
    }
}

/// The chunks of document `s` under a budget of `max` tokens per chunk: none for an empty
/// document, line by line under the title `Document` when it has no heading, and else at
/// section boundaries.
pub open spec fn chunk_markdown_spec(s: Seq<char>, max: int) -> Seq<ChunkView> {
    let ls = lines(s);
    let hs = preorder(outline_headings(s));
    if ls.len() == 0 {
        seq![]
    } else if hs.len() == 0 {
        fallback_chunks(ls, "Document"@, 1, max)
    } else {
        chunks_of_sections(chunk_sections(hs, ls.len() as int), ls, max)
    }
}

// ---------------------------------------------------------------------------
// Lemmas
// ---------------------------------------------------------------------------

/// `join` of a concatenation of two nonempty lists.
pub proof fn lemma_join_concat(a: Seq<Seq<char>>, b: Seq<Seq<char>>, sep: Seq<char>)
    requires
        a.len() > 0,
        b.len() > 0,
    ensures
        join(a + b, sep) == join(a, sep) + sep + join(b, sep),
    decreases b.len(),
{
    assert((a + b).drop_last() =~= a + b.drop_last());
    if b.len() == 1 {
        assert(a + b.drop_last() =~= a);
    } else {
        lemma_join_concat(a, b.drop_last(), sep);
        assert((a + b).last() == b.last());
        assert(join(a + b, sep) =~= join(a, sep) + sep + join(b, sep));
    }
}

/// The sections of a document with nondecreasing heading lines tile its lines: each starts
/// inside the document, ends where the next starts, and none runs backwards.
pub proof fn lemma_heading_sections(hs: Seq<HeadingView>, total: int, n: int)
    requires
        0 <= n <= hs.len(),
        forall|i: int, j: int|
            0 <= i < j < hs.len() ==> (#[trigger] hs[i]).start_line <= (#[trigger] hs[j]).start_line,
    ensures
        heading_sections(hs, total, n).len() <= n,
        n > 0 && dec(hs[0].start_line as int) < total ==> heading_sections(hs, total, n).len() >= 1,
        n > 0 && dec(hs[n - 1].start_line as int) < total ==> heading_sections(hs, total, n).len()
            == n,
        forall|k: int|
            0 <= k < heading_sections(hs, total, n).len() ==> {
                let e = #[trigger] heading_sections(hs, total, n)[k];
                let end = if k + 1 < hs.len() {
                    dec(hs[k + 1].start_line as int)
                } else {
                    total
                };
                &&& e.0 == hs[k].title
                &&& e.1 == dec(hs[k].start_line as int)
                &&& e.1 < total
                &&& e.2 == if end < total {
                    end
                } else {
                    total
                }
            },
    decreases n,
{
    if n > 0 {
        lemma_heading_sections(hs, total, n - 1);
        if n >= 2 {
            assert(hs[n - 2].start_line <= hs[n - 1].start_line);
        }
    }
}

/// The section list of a document that has headings: its sections are contiguous, each
/// inside the document.
pub proof fn lemma_chunk_sections(hs: Seq<HeadingView>, total: int)
    requires
        hs.len() > 0,
        dec(hs[0].start_line as int) <= total,
        forall|i: int, j: int|
            0 <= i < j < hs.len() ==> (#[trigger] hs[i]).start_line <= (#[trigger] hs[j]).start_line,
    ensures
        forall|k: int|
            0 <= k < chunk_sections(hs, total).len() ==> {
                let e = #[trigger] chunk_sections(hs, total)[k];
                0 <= e.1 < total && e.1 <= e.2 <= total
            },
        forall|k: int|
            0 <= k < chunk_sections(hs, total).len() - 1 ==> (#[trigger] chunk_sections(
                hs,
                total,
            )[k]).2 == chunk_sections(hs, total)[k + 1].1,
{
    let n = hs.len() as int;
    lemma_heading_sections(hs, total, n);
    let h = heading_sections(hs, total, n);
    let secs = chunk_sections(hs, total);
    let first = dec(hs[0].start_line as int);
    let pre: Seq<(Seq<char>, int, int)> = if first > 0 {
        seq![("Preamble"@, 0int, first)]
    } else {
        seq![]
    };
    assert(secs == pre + h);
    assert forall|k: int| 0 <= k < h.len() implies {
        let e = #[trigger] h[k];
        0 <= e.1 < total && e.1 <= e.2 <= total
    } by {
        if k + 1 < hs.len() {
            assert(hs[k].start_line <= hs[k + 1].start_line);
        }
    }
    assert forall|k: int| 0 <= k < h.len() - 1 implies (#[trigger] h[k]).2 == h[k + 1].1 by {
        assert(h[k + 1].1 < total);
    }
    assert forall|k: int| 0 <= k < secs.len() implies {
        let e = #[trigger] secs[k];
        0 <= e.1 < total && e.1 <= e.2 <= total
    } by {
        if pre.len() == 1 && k == 0 {
            lemma_heading_sections(hs, total, 1);
        } else {
            assert(secs[k] == h[k - pre.len()]);
        }
    }
    assert forall|k: int| 0 <= k < secs.len() - 1 implies (#[trigger] secs[k]).2 == secs[k + 1].1 by {
        if pre.len() == 1 && k == 0 {
            lemma_heading_sections(hs, total, 1);
            assert(secs[1] == h[0]);
        } else {
            assert(secs[k] == h[k - pre.len()]);
            assert(secs[k + 1] == h[k + 1 - pre.len()]);
        }
    }
}

/// Chunks numbered by position, from 1.
pub open spec fn numbered(cs: Seq<ChunkView>) -> bool {
    forall|k: int| 0 <= k < cs.len() ==> (#[trigger] cs[k]).chunk_index == k + 1
}

/// Chunks within the budget, but for those of a single line.
pub open spec fn within_budget(cs: Seq<ChunkView>, max: int) -> bool {
    forall|k: int|
        0 <= k < cs.len() ==> (#[trigger] cs[k]).token_count <= max || cs[k].start_line
            == cs[k].end_line
}

proof fn lemma_close_chunk_keeps(
    cs: Seq<ChunkView>,
    title: Seq<char>,
    start: int,
    ls: Seq<Seq<char>>,
    tokens: int,
    max: int,
)
    requires
        ls.len() > 0,
        tokens <= max || ls.len() == 1,
    ensures
        numbered(cs) ==> numbered(close_chunk(cs, title, start, ls, tokens)),
        within_budget(cs, max) ==> within_budget(close_chunk(cs, title, start, ls, tokens), max),
{
    let r = close_chunk(cs, title, start, ls, tokens);
    assert forall|k: int| 0 <= k < cs.len() implies #[trigger] r[k] == cs[k] by {}
}

proof fn lemma_renumber_keeps(cs: Seq<ChunkView>, sub: Seq<ChunkView>, max: int)
    requires
        numbered(cs),
        within_budget(cs, max),
        within_budget(sub, max),
    ensures
        numbered(cs + renumber(sub, cs.len() as int)),
        within_budget(cs + renumber(sub, cs.len() as int), max),
{
    let r = cs + renumber(sub, cs.len() as int);
    assert forall|k: int| 0 <= k < r.len() implies (#[trigger] r[k]).chunk_index == k + 1 by {
        if k >= cs.len() {
            assert(r[k] == renumber(sub, cs.len() as int)[k - cs.len()]);
        }
    }
    assert forall|k: int| 0 <= k < r.len() implies (#[trigger] r[k]).token_count <= max
        || r[k].start_line == r[k].end_line by {
        if k >= cs.len() {
            assert(r[k] == renumber(sub, cs.len() as int)[k - cs.len()]);
            assert(sub[k - cs.len()].token_count <= max || sub[k - cs.len()].start_line == sub[k
                - cs.len()].end_line);
        }
    }
}

proof fn lemma_fallback_acc_laws(ls: Seq<Seq<char>>, title: Seq<char>, offset: int, max: int, n: int)
    requires
        max >= 0,
    ensures
        ({
            let a = fallback_acc(ls, title, offset, max, n);
            &&& numbered(a.chunks)
            &&& within_budget(a.chunks, max)
            &&& a.tokens <= max || a.lines.len() == 1
            &&& a.lines.len() == 0 ==> a.tokens == 0
        }),
    decreases n,
{
    if n > 0 && n <= ls.len() {
        lemma_fallback_acc_laws(ls, title, offset, max, n - 1);
        let a = fallback_acc(ls, title, offset, max, n - 1);
        if a.lines.len() > 0 {
            lemma_close_chunk_keeps(a.chunks, title, a.start, a.lines, a.tokens, max);
        }
    }
}

proof fn lemma_fallback_laws(ls: Seq<Seq<char>>, title: Seq<char>, offset: int, max: int)
    requires
        max >= 0,
    ensures
        numbered(fallback_chunks(ls, title, offset, max)),
        within_budget(fallback_chunks(ls, title, offset, max), max),
{
    lemma_fallback_acc_laws(ls, title, offset, max, ls.len() as int);
    let a = fallback_acc(ls, title, offset, max, ls.len() as int);
    if a.lines.len() > 0 {
        lemma_close_chunk_keeps(a.chunks, title, a.start, a.lines, a.tokens, max);
    }
}

proof fn lemma_chunk_fold_laws(secs: Seq<(Seq<char>, int, int)>, ls: Seq<Seq<char>>, max: int, n: int)
    requires
        max >= 0,
    ensures
        ({
            let a = chunk_fold(secs, ls, max, n);
            &&& numbered(a.chunks)
            &&& within_budget(a.chunks, max)
            &&& a.tokens <= max
            &&& a.lines.len() == 0 ==> a.tokens == 0
        }),
    decreases n,
{
    if n > 0 && n <= secs.len() {
        lemma_chunk_fold_laws(secs, ls, max, n - 1);
        let a = chunk_fold(secs, ls, max, n - 1);
        let sec = secs[n - 1];
        if sec.1 < ls.len() {
            let sl = ls.subrange(sec.1, sec.2);
            if a.lines.len() > 0 {
                lemma_close_chunk_keeps(a.chunks, a.title, a.start, a.lines, a.tokens, max);
            }
            if lines_tokens(sl) > max {
                lemma_fallback_laws(sl, sec.0, sec.1 + 1, max);
                let cs = if a.lines.len() > 0 {
                    close_chunk(a.chunks, a.title, a.start, a.lines, a.tokens)
                } else {
                    a.chunks
                };
                lemma_renumber_keeps(cs, fallback_chunks(sl, sec.0, sec.1 + 1, max), max);
            }
        }
    }
}

/// The chunks of a document are numbered 1, 2, 3, ... in order.
pub proof fn law_chunks_numbered_in_order(s: Seq<char>, max: usize)
    ensures
        forall|k: int|
            0 <= k < chunk_markdown_spec(s, max as int).len() ==> (#[trigger] chunk_markdown_spec(
                s,
                max as int,
            )[k]).chunk_index == k + 1,
{
    law_chunks_within_budget(s, max);
}

/// Every chunk of a document holds at most `max` tokens, unless it is a single line that
/// alone holds more.
pub proof fn law_chunks_within_budget(s: Seq<char>, max: usize)
    ensures
        forall|k: int|
            0 <= k < chunk_markdown_spec(s, max as int).len() ==> (#[trigger] chunk_markdown_spec(
                s,
                max as int,
            )[k]).token_count <= max || chunk_markdown_spec(s, max as int)[k].start_line
                == chunk_markdown_spec(s, max as int)[k].end_line,
        numbered(chunk_markdown_spec(s, max as int)),
{
    let ls = lines(s);
    let hs = preorder(outline_headings(s));
    if ls.len() == 0 {
    } else if hs.len() == 0 {
        lemma_fallback_laws(ls, "Document"@, 1, max as int);
    } else {
        let secs = chunk_sections(hs, ls.len() as int);
        lemma_chunk_fold_laws(secs, ls, max as int, secs.len() as int);
        let a = chunk_fold(secs, ls, max as int, secs.len() as int);
        if a.lines.len() > 0 {
            lemma_close_chunk_keeps(a.chunks, a.title, a.start, a.lines, a.tokens, max as int);
        }
    }
}

/// Whether chunks `cs` cut `ls[i0..i1]` into consecutive pieces, in order, where line
/// number `b` is `ls[0]`: each chunk holds the lines from its first to its last line
/// number, and each starts right after the one before.
pub open spec fn tiles(cs: Seq<ChunkView>, ls: Seq<Seq<char>>, b: int, i0: int, i1: int) -> bool {
    &&& 0 <= i0 <= i1 <= ls.len()
    &&& (cs.len() == 0 <==> i0 == i1)
    &&& cs.len() > 0 ==> cs[0].start_line - b == i0 && cs.last().end_line - b + 1 == i1
    &&& forall|k: int| 0 < k < cs.len() ==> (#[trigger] cs[k]).start_line == cs[k - 1].end_line + 1
    &&& forall|k: int|
        0 <= k < cs.len() ==> {
            let c = #[trigger] cs[k];
            &&& i0 <= c.start_line - b <= c.end_line - b < i1
            &&& c.content == joined(ls.subrange(c.start_line - b, c.end_line - b + 1))
        }
}

/// Closing the open lines `ls[a..m]` after chunks that tile `ls[i0..a]` tiles `ls[i0..m]`.
proof fn lemma_close_tiles(
    cs: Seq<ChunkView>,
    title: Seq<char>,
    ls: Seq<Seq<char>>,
    b: int,
    i0: int,
    a: int,
    m: int,
    tokens: int,
)
    requires
        tiles(cs, ls, b, i0, a),
        a < m <= ls.len(),
    ensures
        tiles(close_chunk(cs, title, a + b, ls.subrange(a, m), tokens), ls, b, i0, m),
{
    let r = close_chunk(cs, title, a + b, ls.subrange(a, m), tokens);
    let n = cs.len() as int;
    assert(r[n].start_line == a + b);
    assert(r[n].end_line == a + b + (m - a) - 1);
    assert forall|k: int| 0 <= k < n implies #[trigger] r[k] == cs[k] by {}
    if n > 0 {
        assert(r[n - 1] == cs.last());
    }
    assert forall|k: int| 0 < k < r.len() implies (#[trigger] r[k]).start_line == r[k - 1].end_line + 1 by {
        if k < n {
            assert(r[k - 1] == cs[k - 1]);
        }
    }
    assert forall|k: int| 0 <= k < r.len() implies {
        let c = #[trigger] r[k];
        &&& i0 <= c.start_line - b <= c.end_line - b < m
        &&& c.content == joined(ls.subrange(c.start_line - b, c.end_line - b + 1))
    } by {
        if k == n {
            assert(ls.subrange(r[k].start_line - b, r[k].end_line - b + 1) =~= ls.subrange(a, m));
        }
    }
}

/// Chunks that tile `ls[i0..j]` followed by chunks that tile `ls[j..i1]`, numbered on,
/// tile `ls[i0..i1]`.
proof fn lemma_concat_tiles(x: Seq<ChunkView>, y: Seq<ChunkView>, ls: Seq<Seq<char>>, b: int, i0: int, j: int, i1: int, base: int)
    requires
        tiles(x, ls, b, i0, j),
        tiles(y, ls, b, j, i1),
    ensures
        tiles(x + renumber(y, base), ls, b, i0, i1),
{
    let ry = renumber(y, base);
    let r = x + ry;
    assert forall|k: int| 0 <= k < ry.len() implies #[trigger] ry[k].start_line == y[k].start_line && ry[k].end_line
        == y[k].end_line && ry[k].content == y[k].content by {}
    assert forall|k: int| 0 < k < r.len() implies (#[trigger] r[k]).start_line == r[k - 1].end_line + 1 by {
        if k < x.len() {
        } else if k == x.len() {
            assert(r[k] == ry[0]);
            assert(r[k - 1] == x.last());
        } else {
            assert(r[k] == ry[k - x.len()]);
            assert(r[k - 1] == ry[k - 1 - x.len()]);
            assert(y[k - x.len()].start_line == y[k - x.len() - 1].end_line + 1);
        }
    }
    assert forall|k: int| 0 <= k < r.len() implies {
        let c = #[trigger] r[k];
        &&& i0 <= c.start_line - b <= c.end_line - b < i1
        &&& c.content == joined(ls.subrange(c.start_line - b, c.end_line - b + 1))
    } by {
        if k >= x.len() {
            assert(r[k] == ry[k - x.len()]);
            let c = y[k - x.len()];
            assert(j <= c.start_line - b <= c.end_line - b < i1);
        }
    }
    if r.len() > 0 {
        if x.len() > 0 {
            assert(r[0] == x[0]);
        } else {
            assert(r[0] == ry[0]);
        }
        if y.len() > 0 {
            assert(r.last() == ry.last());
        } else {
            assert(r.last() == x.last());
        }
    }
}

/// Chunks that tile a slice of `ls`, counted from the slice's first line number, tile
/// the same lines of `ls`.
proof fn lemma_tiles_slice(cs: Seq<ChunkView>, ls: Seq<Seq<char>>, st: int, en: int)
    requires
        0 <= st <= en <= ls.len(),
        tiles(cs, ls.subrange(st, en), st + 1, 0, en - st),
    ensures
        tiles(cs, ls, 1, st, en),
{
    let sl = ls.subrange(st, en);
    assert forall|k: int| 0 <= k < cs.len() implies {
        let c = #[trigger] cs[k];
        &&& st <= c.start_line - 1 <= c.end_line - 1 < en
        &&& c.content == joined(ls.subrange(c.start_line - 1, c.end_line - 1 + 1))
    } by {
        let c = cs[k];
        assert(sl.subrange(c.start_line - (st + 1), c.end_line - (st + 1) + 1) =~= ls.subrange(
            c.start_line - 1,
            c.end_line - 1 + 1,
        ));
    }
}

/// Line-by-line chunking tiles the lines it has read, its open lines being the rest.
proof fn lemma_fallback_acc_tiles(ls: Seq<Seq<char>>, title: Seq<char>, offset: int, max: int, n: int)
    requires
        0 <= n <= ls.len(),
    ensures
        ({
            let a = fallback_acc(ls, title, offset, max, n);
            &&& n == 0 ==> a.lines.len() == 0 && a.chunks.len() == 0 && a.start == offset
            &&& n > 0 ==> a.lines.len() > 0 && 0 <= a.start - offset < n && a.lines == ls.subrange(
                a.start - offset,
                n,
            ) && tiles(a.chunks, ls, offset, 0, a.start - offset)
        }),
    decreases n,
{
    if n > 0 {
        lemma_fallback_acc_tiles(ls, title, offset, max, n - 1);
        let a = fallback_acc(ls, title, offset, max, n - 1);
        let t = tokens_for(ls[n - 1].len()) as int;
        if n - 1 == 0 {
            assert(tiles(a.chunks, ls, offset, 0, 0));
        }
        if a.tokens + t > max && a.lines.len() > 0 {
            lemma_close_tiles(a.chunks, title, ls, offset, 0, a.start - offset, n - 1, a.tokens);
            assert(ls.subrange(n - 1, n) =~= seq![ls[n - 1]]);
        } else {
            assert(a.lines.push(ls[n - 1]) =~= ls.subrange(a.start - offset, n));
        }
    }
}

/// Line-by-line chunking of nonempty lines tiles them all.
proof fn lemma_fallback_tiles(ls: Seq<Seq<char>>, title: Seq<char>, offset: int, max: int)
    requires
        ls.len() > 0,
    ensures
        tiles(fallback_chunks(ls, title, offset, max), ls, offset, 0, ls.len() as int),
{
    let n = ls.len() as int;
    lemma_fallback_acc_tiles(ls, title, offset, max, n);
    let a = fallback_acc(ls, title, offset, max, n);
    lemma_close_tiles(a.chunks, title, ls, offset, 0, a.start - offset, n, a.tokens);
    assert(ls.subrange(a.start - offset, n) == a.lines);
}

/// Whether sections cut `ls` into consecutive ranges from its first line on.
pub open spec fn contiguous_sections(secs: Seq<(Seq<char>, int, int)>, total: int) -> bool {
    &&& secs.len() > 0 ==> secs[0].1 == 0
    &&& forall|k: int| 0 <= k < secs.len() ==> 0 <= (#[trigger] secs[k]).1 < total && secs[k].1 <= secs[k].2 <= total
    &&& forall|k: int| 0 <= k < secs.len() - 1 ==> (#[trigger] secs[k]).2 == secs[k + 1].1
}

/// Section-by-section chunking tiles the lines of the sections it has read, its open
/// lines being the rest.
proof fn lemma_chunk_fold_tiles(secs: Seq<(Seq<char>, int, int)>, ls: Seq<Seq<char>>, max: int, n: int)
    requires
        max >= 0,
        contiguous_sections(secs, ls.len() as int),
        0 <= n <= secs.len(),
    ensures
        ({
            let a = chunk_fold(secs, ls, max, n);
            let p = if n == 0 {
                0
            } else {
                secs[n - 1].2
            };
            &&& a.lines.len() > 0 ==> 0 <= a.start - 1 < p && a.lines == ls.subrange(a.start - 1, p)
                && tiles(a.chunks, ls, 1, 0, a.start - 1)
            &&& a.lines.len() == 0 ==> tiles(a.chunks, ls, 1, 0, p)
        }),
    decreases n,
{
    if n > 0 {
        lemma_chunk_fold_tiles(secs, ls, max, n - 1);
        let a = chunk_fold(secs, ls, max, n - 1);
        let sec = secs[n - 1];
        let st = sec.1;
        let en = sec.2;
        let p0 = if n - 1 == 0 {
            0
        } else {
            secs[n - 2].2
        };
        assert(st == p0) by {
            if n - 1 > 0 {
                assert(secs[n - 2].2 == secs[n - 1].1);
            }
        }
        assert(0 <= st < ls.len() && st <= en <= ls.len());
        let sl = ls.subrange(st, en);
        let t = lines_tokens(sl);
        let open = a.lines.len() > 0;
        if t > max {
            assert(sl.len() > 0) by {
                if sl.len() == 0 {
                    assert(joined(sl) =~= seq![]);
                }
            }
            let cs = if open {
                close_chunk(a.chunks, a.title, a.start, a.lines, a.tokens)
            } else {
                a.chunks
            };
            if open {
                lemma_close_tiles(a.chunks, a.title, ls, 1, 0, a.start - 1, st, a.tokens);
            }
            assert(tiles(cs, ls, 1, 0, st));
            lemma_fallback_tiles(sl, sec.0, st + 1, max);
            assert(sl.len() == en - st);
            lemma_tiles_slice(fallback_chunks(sl, sec.0, st + 1, max), ls, st, en);
            lemma_concat_tiles(cs, fallback_chunks(sl, sec.0, st + 1, max), ls, 1, 0, st, en, cs.len() as int);
        } else {
            let b = if a.tokens + t > max && a.lines.len() > 0 {
                ChunkAcc {
                    chunks: close_chunk(a.chunks, a.title, a.start, a.lines, a.tokens),
                    lines: seq![],
                    tokens: 0,
                    ..a
                }
            } else {
                a
            };
            if a.tokens + t > max && a.lines.len() > 0 {
                lemma_close_tiles(a.chunks, a.title, ls, 1, 0, a.start - 1, st, a.tokens);
            }
            if b.lines.len() > 0 {
                assert(b.lines + sl =~= ls.subrange(b.start - 1, en));
            } else {
                assert(tiles(b.chunks, ls, 1, 0, st));
                assert(seq![] + sl =~= sl);
            }
        }
    }
}

/// Reading more headings never yields fewer sections.
proof fn lemma_heading_sections_mono(hs: Seq<HeadingView>, total: int, n1: int, n2: int)
    requires
        0 <= n1 <= n2 <= hs.len(),
    ensures
        heading_sections(hs, total, n1).len() <= heading_sections(hs, total, n2).len(),
    decreases n2 - n1,
{
    if n1 < n2 {
        lemma_heading_sections_mono(hs, total, n1, n2 - 1);
    }
}

/// The sections of a document with headings run from its first line to its last.
proof fn lemma_sections_cover(hs: Seq<HeadingView>, total: int)
    requires
        hs.len() > 0,
        total > 0,
        dec(hs[0].start_line as int) <= total,
        forall|i: int, j: int|
            0 <= i < j < hs.len() ==> (#[trigger] hs[i]).start_line <= (#[trigger] hs[j]).start_line,
    ensures
        contiguous_sections(chunk_sections(hs, total), total),
        chunk_sections(hs, total).len() > 0,
        chunk_sections(hs, total).last().2 == total,
{
    let n = hs.len() as int;
    let secs = chunk_sections(hs, total);
    let h = heading_sections(hs, total, n);
    let first = dec(hs[0].start_line as int);
    let pre: Seq<(Seq<char>, int, int)> = if first > 0 {
        seq![("Preamble"@, 0int, first)]
    } else {
        seq![]
    };
    assert(secs == pre + h);
    lemma_chunk_sections(hs, total);
    lemma_heading_sections(hs, total, n);
    lemma_heading_sections(hs, total, 1);
    lemma_heading_sections_mono(hs, total, 1, n);
    if first == 0 {
        assert(h.len() >= 1);
        assert(secs[0] == h[0]);
    }
    if h.len() == 0 {
        assert(first == total);
        assert(secs.last() == pre[0]);
    } else {
        let m = h.len() as int;
        assert(secs.last() == h[m - 1]);
        if m < n {
            if dec(hs[m].start_line as int) < total {
                lemma_heading_sections(hs, total, m + 1);
                lemma_heading_sections_mono(hs, total, m + 1, n);
            }
        }
    }
}

/// Chunking loses no line, repeats none and keeps their order: the chunks of a document
/// cut its lines into consecutive pieces, the first from line 1 and the last to its last
/// line, each holding exactly the lines from its first to its last line number.
pub proof fn law_chunks_tile_document(s: Seq<char>, max: usize)
    ensures
        tiles(chunk_markdown_spec(s, max as int), lines(s), 1, 0, lines(s).len() as int),
{
    let ls = lines(s);
    let hs = preorder(outline_headings(s));
    let total = ls.len() as int;
    if ls.len() == 0 {
    } else if hs.len() == 0 {
        lemma_fallback_tiles(ls, "Document"@, 1, max as int);
    } else {
        law_outline_lists_headings_in_order(s);
        lemma_document_headings_order(s);
        crate::outline::lemma_heading_start_bound(s);
        assert(hs[0].start_line == document_headings(s)[0].start_line);
        assert forall|i: int, j: int| 0 <= i < j < hs.len() implies (#[trigger] hs[i]).start_line
            <= (#[trigger] hs[j]).start_line by {
            assert(hs[i].start_line == document_headings(s)[i].start_line);
            assert(hs[j].start_line == document_headings(s)[j].start_line);
        }
        lemma_sections_cover(hs, total);
        let secs = chunk_sections(hs, total);
        lemma_chunk_fold_tiles(secs, ls, max as int, secs.len() as int);
        let a = chunk_fold(secs, ls, max as int, secs.len() as int);
        if a.lines.len() > 0 {
            lemma_close_tiles(a.chunks, a.title, ls, 1, 0, a.start - 1, total, a.tokens);
        }
    }
}

// ---------------------------------------------------------------------------
// Executable code
// ---------------------------------------------------------------------------

/// The lines of `cs`, as `str::lines` yields them.
pub fn split_lines(cs: &[char]) -> (r: Vec<Vec<char>>)
    ensures
        vecs_view(r@) == lines(cs@),
{
    let ranges = line_ranges(cs);
    let mut r: Vec<Vec<char>> = Vec::new();
    let mut i: usize = 0;
    while i < ranges.len()
        invariant
            i <= ranges@.len(),
            ranges@.len() == lines(cs@).len(),
            forall|j: int|
                0 <= j < ranges@.len() ==> {
                    &&& (#[trigger] ranges@[j]).0 <= ranges@[j].1 <= cs.len()
                    &&& cs@.subrange(ranges@[j].0 as int, ranges@[j].1 as int) == lines(cs@)[j]
                },
            vecs_view(r@) == lines(cs@).take(i as int),
        decreases ranges.len() - i,
    {
        let (a, b) = ranges[i];
        let l = slice_range(cs, a, b);
        let ghost before = r@;
        r.push(l);
        i += 1;
        assert(vecs_view(r@) =~= vecs_view(before).push(l@));
        assert(vecs_view(r@) =~= lines(cs@).take(i as int));
    }
    assert(lines(cs@).take(i as int) =~= lines(cs@));
    r
}

/// `ls[a..b]` joined with newlines.
pub fn join_lines(ls: &Vec<Vec<char>>, a: usize, b: usize) -> (r: Vec<char>)
    requires
        a <= b <= ls.len(),
    ensures
        r@ == joined(vecs_view(ls@).subrange(a as int, b as int)),
{
    let ghost v = vecs_view(ls@);
    let mut r: Vec<char> = Vec::new();
    let mut k = a;
    while k < b
        invariant
            a <= k <= b <= ls.len(),
            v == vecs_view(ls@),
            r@ == joined(v.subrange(a as int, k as int)),
        decreases b - k,
    {
        if k > a {
            r.push('\n');
        }
        let mut i: usize = 0;
        let ghost before = r@;
        while i < ls[k].len()
            invariant
                k < ls.len(),
                i <= ls@[k as int]@.len(),
                r@ == before + ls@[k as int]@.take(i as int),
            decreases ls@[k as int]@.len() - i,
        {
            r.push(ls[k][i]);
            i += 1;
            assert(r@ =~= before + ls@[k as int]@.take(i as int));
        }
        proof {
            assert(ls@[k as int]@.take(i as int) =~= v[k as int]);
            let p = v.subrange(a as int, k as int);
            assert(v.subrange(a as int, k + 1) =~= p.push(v[k as int]));
            crate::agent::lemma_join_push(p, v[k as int], seq!['\n']);
        }
        k += 1;
    }
    r
}

/// A chunk of lines `ls[a..b]`, numbered from `start`.
fn make_chunk(
    ls: &Vec<Vec<char>>,
    a: usize,
    b: usize,
    index: usize,
    title: &String,
    start: usize,
    tokens: usize,
) -> (r: MarkdownChunk)
    requires
        a < b <= ls.len(),
        start + (b - a) - 1 <= usize::MAX,
    ensures
        r@ == (ChunkView {
            chunk_index: index as int,
            title: title@,
            start_line: start as int,
            end_line: start + (b - a) - 1,
            token_count: tokens as int,
            content: joined(vecs_view(ls@).subrange(a as int, b as int)),
        }),
{
    let content = join_lines(ls, a, b);
    MarkdownChunk {
        chunk_index: index,
        title: title.clone(),
        start_line: start,
        end_line: start + (b - a - 1),
        token_count: tokens,
        content: string_of(content.as_slice()),
    }
}

/// Cuts lines `ls[lo..hi]` into chunks line by line, numbering lines from
/// `start_line_offset`.
fn chunk_lines_fallback(
    ls: &Vec<Vec<char>>,
    lo: usize,
    hi: usize,
    title: &String,
    start_line_offset: usize,
    max_tokens: usize,
) -> (r: Vec<MarkdownChunk>)
    requires
        lo <= hi <= ls.len(),
        start_line_offset + (hi - lo) <= usize::MAX + 1,
    ensures
        chunks_view(r@) == fallback_chunks(
            vecs_view(ls@).subrange(lo as int, hi as int),
            title@,
            start_line_offset as int,
            max_tokens as int,
        ),
        r@.len() <= hi - lo,
{
    let ghost sl = vecs_view(ls@).subrange(lo as int, hi as int);
    let ghost off = start_line_offset as int;
    let ghost max = max_tokens as int;
    let n = hi - lo;
    let mut chunks: Vec<MarkdownChunk> = Vec::new();
    let mut cf: usize = 0;
    let mut acc_tokens: usize = 0;
    let mut i: usize = 0;
    assert(fallback_acc(sl, title@, off, max, 0) =~= (LineAcc {
        chunks: chunks_view(chunks@),
        lines: sl.subrange(0, 0),
        tokens: 0,
        start: off,
    }));
    while i < n
        invariant
            lo <= hi <= ls.len(),
            n == hi - lo,
            off == start_line_offset,
            max == max_tokens,
            start_line_offset + n <= usize::MAX + 1,
            sl == vecs_view(ls@).subrange(lo as int, hi as int),
            cf <= i <= n,
            chunks@.len() <= cf,
            cf == i ==> acc_tokens == 0,
            fallback_acc(sl, title@, off, max, i as int) == (LineAcc {
                chunks: chunks_view(chunks@),
                lines: sl.subrange(cf as int, i as int),
                tokens: acc_tokens as int,
                start: off + cf,
            }),
        decreases n - i,
    {
        let t = tokens_for_chars(ls[lo + i].len());
        assert(ls@[lo + i]@ == sl[i as int]);
        let ghost a = fallback_acc(sl, title@, off, max, i as int);
        let over = if acc_tokens > max_tokens {
            true
        } else {
            t > max_tokens - acc_tokens
        };
        if over && cf < i {
            let c = make_chunk(
                ls,
                lo + cf,
                lo + i,
                chunks.len() + 1,
                title,
                start_line_offset + cf,
                acc_tokens,
            );
            proof {
                assert(vecs_view(ls@).subrange(lo + cf, lo + i) =~= sl.subrange(
                    cf as int,
                    i as int,
                ));
            }
            let ghost before = chunks@;
            chunks.push(c);
            assert(chunks_view(chunks@) =~= chunks_view(before).push(c@));
            cf = i;
            acc_tokens = 0;
        }
        acc_tokens = acc_tokens + t;
        i += 1;
        assert(sl.subrange(cf as int, i as int) =~= sl.subrange(cf as int, i - 1).push(
            sl[i - 1],
        ));
        assert(fallback_acc(sl, title@, off, max, i as int) =~= (LineAcc {
            chunks: chunks_view(chunks@),
            lines: sl.subrange(cf as int, i as int),
            tokens: acc_tokens as int,
            start: off + cf,
        }));
    }
    if cf < n {
        let c = make_chunk(
            ls,
            lo + cf,
            hi,
            chunks.len() + 1,
            title,
            start_line_offset + cf,
            acc_tokens,
        );
        proof {
            assert(vecs_view(ls@).subrange(lo + cf, hi as int) =~= sl.subrange(
                cf as int,
                n as int,
            ));
        }
        let ghost before = chunks@;
        chunks.push(c);
        assert(chunks_view(chunks@) =~= chunks_view(before).push(c@));
    }
    chunks
}

/// The values of a list of sections.
pub open spec fn sections_view(v: Seq<(String, usize, usize)>) -> Seq<(Seq<char>, int, int)> {
    v.map_values(|e: (String, usize, usize)| (e.0@, e.1 as int, e.2 as int))
}

/// A `String` holding `t`.
fn string_from(t: &str) -> (r: String)
    ensures
        r@ == t@,
{
    let mut r = String::new();
    crate::text::push_str(&mut r, t);
    r
}

/// The sections of a document of `total` lines whose flattened headings are `flat`.
fn collect_sections(flat: &Vec<HeadingNode>, total: usize) -> (r: Vec<(String, usize, usize)>)
    requires
        flat.len() > 0,
    ensures
        sections_view(r@) == chunk_sections(headings_view(flat@), total as int),
{
    let ghost hs = headings_view(flat@);
    proof {
        lemma_headings_view(flat@);
    }
    let first = flat[0].start_line.saturating_sub(1);
    let mut r: Vec<(String, usize, usize)> = Vec::new();
    if first > 0 {
        r.push((string_from("Preamble"), 0, first));
    }
    let ghost pre = sections_view(r@);
    assert(pre =~= (if dec(hs[0].start_line as int) > 0 {
        seq![("Preamble"@, 0int, dec(hs[0].start_line as int))]
    } else {
        seq![]
    }));
    let mut idx: usize = 0;
    while idx < flat.len()
        invariant
            idx <= flat.len(),
            hs == headings_view(flat@),
            hs.len() == flat@.len(),
            forall|j: int| 0 <= j < flat@.len() ==> hs[j] == crate::outline::heading_view(#[trigger] flat@[j]),
            sections_view(r@) == pre + heading_sections(hs, total as int, idx as int),
        decreases flat.len() - idx,
    {
        let start = flat[idx].start_line.saturating_sub(1);
        let end = if idx + 1 < flat.len() {
            flat[idx + 1].start_line.saturating_sub(1)
        } else {
            total
        };
        let ghost before = r@;
        if start < total {
            let title = flat[idx].title.clone();
            r.push((title, start, if end < total { end } else { total }));
            assert(sections_view(r@) =~= sections_view(before).push(
                (title@, start as int, if end < total { end as int } else { total as int }),
            ));
        }
        idx += 1;
        assert(sections_view(r@) =~= pre + heading_sections(hs, total as int, idx as int));
    }
    r
}

/// Slices a Markdown document at section and heading boundaries into chunks of at most
/// `max_tokens` tokens each, where a single line does not exceed it.
#[verifier::spinoff_prover]
pub fn chunk_markdown(input: &str, max_tokens: usize) -> (r: Vec<MarkdownChunk>)
    ensures
        chunks_view(r@) == chunk_markdown_spec(input@, max_tokens as int),
{
    let outline = extract_outline(input);
    let flat = flatten_headings(outline.headings.as_slice());
    let cs = chars_of(input);
    let ls = split_lines(cs.as_slice());
    let ghost lsv = lines(input@);
    let ghost hs = preorder(outline_headings(input@));
    let ghost max = max_tokens as int;
    assert(headings_view(flat@) == hs);
    if ls.len() == 0 {
        return Vec::new();
    }
    if flat.len() == 0 {
        let title = string_from("Document");
        assert(vecs_view(ls@).subrange(0, ls@.len() as int) =~= lsv);
        return chunk_lines_fallback(&ls, 0, ls.len(), &title, 1, max_tokens);
    }
    let total = ls.len();
    proof {
        law_outline_lists_headings_in_order(input@);
        lemma_document_headings_order(input@);
        crate::outline::lemma_heading_start_bound(input@);
        lemma_headings_view(flat@);
        assert(hs[0].start_line == document_headings(input@)[0].start_line);
        assert forall|i: int, j: int| 0 <= i < j < hs.len() implies (#[trigger] hs[i]).start_line
            <= (#[trigger] hs[j]).start_line by {
            assert(hs[i].start_line == document_headings(input@)[i].start_line);
            assert(hs[j].start_line == document_headings(input@)[j].start_line);
        }
        lemma_chunk_sections(hs, total as int);
    }
    let secs = collect_sections(&flat, total);
    let ghost sv = sections_view(secs@);
    assert(sv.len() > 0) by {
        let first = dec(hs[0].start_line as int);
        lemma_heading_sections(hs, total as int, hs.len() as int);
        let pre: Seq<(Seq<char>, int, int)> = if first > 0 {
            seq![("Preamble"@, 0int, first)]
        } else {
            seq![]
        };
        assert(sv == pre + heading_sections(hs, total as int, hs.len() as int));
    }
    let mut chunks: Vec<MarkdownChunk> = Vec::new();
    let mut pos: usize = secs[0].1;
    assert(sv[0] == (secs@[0].0@, secs@[0].1 as int, secs@[0].2 as int));
    assert(sv[0].1 == pos);
    assert(pos < total);
    assert(lsv.subrange(pos as int, pos as int) =~= Seq::<Seq<char>>::empty());
    assert(chunks_view(chunks@) =~= Seq::<ChunkView>::empty());
    let mut cur_first: usize = pos;
    let mut cur_tokens: usize = 0;
    let mut chunk_start_line: usize = 1;
    let mut chunk_title = String::new();
    let mut k: usize = 0;
    assert(chunk_fold(sv, lsv, max, 0) =~= (ChunkAcc {
        chunks: chunks_view(chunks@),
        lines: lsv.subrange(cur_first as int, pos as int),
        tokens: 0,
        start: 1,
        title: chunk_title@,
    }));
    while k < secs.len()
        invariant
            k <= secs@.len(),
            sv == sections_view(secs@),
            sv == chunk_sections(hs, total as int),
            max == max_tokens,
            total == ls@.len(),
            lsv == lines(input@),
            vecs_view(ls@) == lsv,
            lsv.len() == total,
            forall|j: int|
                0 <= j < sv.len() ==> {
                    let e = #[trigger] sv[j];
                    0 <= e.1 < total && e.1 <= e.2 <= total
                },
            forall|j: int| 0 <= j < sv.len() - 1 ==> (#[trigger] sv[j]).2 == sv[j + 1].1,
            k < secs@.len() ==> pos == sv[k as int].1,
            cur_first <= pos <= total,
            chunks@.len() <= cur_first,
            cur_first == pos ==> cur_tokens == 0,
            cur_first < pos ==> chunk_start_line == cur_first + 1,
            cur_tokens <= max_tokens,
            chunk_fold(sv, lsv, max, k as int) == (ChunkAcc {
                chunks: chunks_view(chunks@),
                lines: lsv.subrange(cur_first as int, pos as int),
                tokens: cur_tokens as int,
                start: chunk_start_line as int,
                title: chunk_title@,
            }),
        decreases secs.len() - k,
    {
        let start = secs[k].1;
        let end = secs[k].2;
        assert(sv[k as int] == (secs@[k as int].0@, start as int, end as int));
        let ghost a = chunk_fold(sv, lsv, max, k as int);
        let ghost sl = lsv.subrange(start as int, end as int);
        let text = join_lines(&ls, start, end);
        let t = tokens_for_chars(text.len());
        assert(t == lines_tokens(sl));
        if t > max_tokens {
            if cur_first < pos {
                let c = make_chunk(
                    &ls,
                    cur_first,
                    pos,
                    chunks.len() + 1,
                    &chunk_title,
                    chunk_start_line,
                    cur_tokens,
                );
                let ghost before = chunks@;
                chunks.push(c);
                assert(chunks_view(chunks@) =~= chunks_view(before).push(c@));
                cur_first = pos;
                cur_tokens = 0;
            }
            let ghost cs_v = chunks_view(chunks@);
            let sub = chunk_lines_fallback(&ls, start, end, &secs[k].0, start + 1, max_tokens);
            let ghost subv = chunks_view(sub@);
            assert(vecs_view(ls@).subrange(start as int, end as int) == sl);
            let ghost base = chunks@.len();
            let mut j: usize = 0;
            while j < sub.len()
                invariant
                    j <= sub@.len(),
                    sub@.len() <= end - start,
                    base + end - start <= total,
                    chunks@.len() == base + j,
                    subv == chunks_view(sub@),
                    chunks_view(chunks@) == cs_v + renumber(subv, base as int).take(j as int),
                decreases sub.len() - j,
            {
                let sc = MarkdownChunk {
                    chunk_index: chunks.len() + 1,
                    title: sub[j].title.clone(),
                    start_line: sub[j].start_line,
                    end_line: sub[j].end_line,
                    token_count: sub[j].token_count,
                    content: sub[j].content.clone(),
                };
                let ghost before = chunks@;
                chunks.push(sc);
                j += 1;
                assert(chunks_view(chunks@) =~= chunks_view(before).push(sc@));
                assert(chunks_view(chunks@) =~= cs_v + renumber(subv, base as int).take(j as int));
            }
            assert(renumber(subv, base as int).take(j as int) =~= renumber(subv, base as int));
            cur_first = end;
            pos = end;
        } else {
            let over = t > max_tokens - cur_tokens;
            if over && cur_first < pos {
                let c = make_chunk(
                    &ls,
                    cur_first,
                    pos,
                    chunks.len() + 1,
                    &chunk_title,
                    chunk_start_line,
                    cur_tokens,
                );
                let ghost before = chunks@;
                chunks.push(c);
                assert(chunks_view(chunks@) =~= chunks_view(before).push(c@));
                cur_first = pos;
                cur_tokens = 0;
            }
            if cur_first == pos {
                chunk_start_line = start + 1;
                chunk_title = secs[k].0.clone();
            }
            cur_tokens = cur_tokens + t;
            assert(lsv.subrange(cur_first as int, end as int) =~= lsv.subrange(
                cur_first as int,
                pos as int,
            ) + sl);
            pos = end;
        }
        k += 1;
        assert(chunk_fold(sv, lsv, max, k as int) =~= (ChunkAcc {
            chunks: chunks_view(chunks@),
            lines: lsv.subrange(cur_first as int, pos as int),
            tokens: cur_tokens as int,
            start: chunk_start_line as int,
            title: chunk_title@,
        }));
    }
    if cur_first < pos {
        let c = make_chunk(
            &ls,
            cur_first,
            pos,
            chunks.len() + 1,
            &chunk_title,
            chunk_start_line,
            cur_tokens,
        );
        let ghost before = chunks@;
        chunks.push(c);
        assert(chunks_view(chunks@) =~= chunks_view(before).push(c@));
    }
    chunks
}

} // verus!
