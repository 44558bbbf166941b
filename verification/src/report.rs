//! The command line's text reports: the outline tree, the chunk listing, the code listing
//! and the document statistics.
use crate::agent::{code_blocks_view, CodeBlock, CodeBlockView, DocumentStats};
use crate::chunker::{chunks_view, ChunkView, MarkdownChunk};
use crate::outline::{count_all, headings_view, lemma_headings_view, preorder, HeadingNode, HeadingView, OutlineTree};
use crate::text::{decimal, push_decimal, push_str};
use vstd::prelude::*;

verus! {

/// The line of a heading in the outline report, indented two spaces per level below 1.
pub open spec fn outline_line(h: HeadingView) -> Seq<char> {
    crate::tui::render::repeat(' ', 2 * (h.level - 1)) + "- H"@ + decimal(h.level as nat) + ": "@
        + h.title + " [L"@ + decimal(h.start_line as nat) + "-"@ + decimal(h.end_line as nat)
        + ", Tokens: "@ + decimal(h.token_count as nat) + ", Chars: "@ + decimal(
        h.character_count as nat,
    ) + "]\n"@
}

/// The lines of a forest, each heading followed by its nested headings.
pub open spec fn outline_lines(hs: Seq<HeadingView>) -> Seq<char>
    decreases hs,
{
    if hs.len() == 0 {
        seq![]
    } else {
        outline_lines(hs.drop_last()) + outline_line(hs.last()) + outline_lines(hs.last().children)
    }
}

/// The outline line of a heading.
fn outline_line_of(n: &HeadingNode) -> (r: String)
    ensures
        r@ == outline_line(crate::outline::heading_view(*n)),
{
    let mut out = String::new();
    let level = n.level;
    let mut k: u32 = 1;
    while k < level
        invariant
            1 <= k,
            level >= 1 ==> k <= level,
            level == 0 ==> k == 1,
            level == n.level,
            out@ == crate::tui::render::repeat(' ', 2 * (k - 1)),
        decreases level - k,
    {
        push_str(&mut out, "  ");
        k += 1;
        assert(out@ =~= crate::tui::render::repeat(' ', 2 * (k - 1))) by {
            reveal_strlit("  ");
        }
    }
    assert(crate::tui::render::repeat(' ', 2 * (k - 1)) =~= crate::tui::render::repeat(' ', 2 * (level - 1)));
    push_str(&mut out, "- H");
    push_decimal(&mut out, level as usize);
    push_str(&mut out, ": ");
    push_str(&mut out, n.title.as_str());
    push_str(&mut out, " [L");
    push_decimal(&mut out, n.start_line);
    push_str(&mut out, "-");
    push_decimal(&mut out, n.end_line);
    push_str(&mut out, ", Tokens: ");
    push_decimal(&mut out, n.token_count);
    push_str(&mut out, ", Chars: ");
    push_decimal(&mut out, n.character_count);
    push_str(&mut out, "]\n");
    out
}

/// Appends the outline lines of `nodes` and what is nested under them.
fn push_outline_lines(out: &mut String, nodes: &[HeadingNode])
    ensures
        final(out)@ == old(out)@ + outline_lines(headings_view(nodes@)),
    decreases count_all(headings_view(nodes@)),
{
    let ghost hv = headings_view(nodes@);
    proof {
        lemma_headings_view(nodes@);
        assert(nodes@.take(0) =~= Seq::<HeadingNode>::empty());
    }
    let ghost start = out@;
    let mut i: usize = 0;
    while i < nodes.len()
        invariant
            i <= nodes@.len(),
            hv == headings_view(nodes@),
            hv.len() == nodes@.len(),
            forall|j: int| 0 <= j < nodes@.len() ==> hv[j] == crate::outline::heading_view(#[trigger] nodes@[j]),
            out@ == start + outline_lines(hv.take(i as int)),
        decreases nodes.len() - i,
    {
        proof {
            crate::outline::lemma_count_all_child(hv, i as int);
        }
        let n = &nodes[i];
        let line = outline_line_of(n);
        push_str(out, line.as_str());
        push_outline_lines(out, n.children.as_slice());
        assert(hv.take(i + 1).drop_last() =~= hv.take(i as int));
        assert(hv[i as int] == crate::outline::heading_view(*n));
        i += 1;
    }
    assert(hv.take(i as int) =~= hv);
}

/// The outline report: a header with the section count and the deepest level, then the
/// heading tree.
pub fn outline_report(outline: &OutlineTree) -> (r: String)
    ensures
        r@ == "Outline (Total Sections: "@ + decimal(outline.total_sections as nat) + ", Max Depth: H"@
            + decimal(outline.max_depth as nat) + "):\n"@ + outline_lines(headings_view(outline.headings@)),
{
    let mut out = String::new();
    push_str(&mut out, "Outline (Total Sections: ");
    push_decimal(&mut out, outline.total_sections);
    push_str(&mut out, ", Max Depth: H");
    push_decimal(&mut out, outline.max_depth as usize);
    push_str(&mut out, "):\n");
    push_outline_lines(&mut out, outline.headings.as_slice());
    out
}

/// One chunk in the chunk listing.
pub open spec fn chunk_entry(c: ChunkView) -> Seq<char> {
    "--- Chunk "@ + decimal(c.chunk_index as nat) + " ("@ + c.title + ") [Lines "@ + decimal(
        c.start_line as nat,
    ) + "-"@ + decimal(c.end_line as nat) + ", Tokens: "@ + decimal(c.token_count as nat) + "] ---\n"@
        + c.content + "\n\n"@
}

/// The chunk listing.
pub open spec fn chunk_listing(cs: Seq<ChunkView>) -> Seq<char>
    decreases cs.len(),
{
    if cs.len() == 0 {
        seq![]
    } else {
        chunk_listing(cs.drop_last()) + chunk_entry(cs.last())
    }
}

/// One chunk in the listing.
fn chunk_entry_of(c: &MarkdownChunk) -> (r: String)
    ensures
        r@ == chunk_entry(c@),
{
    let mut out = String::new();
    push_str(&mut out, "--- Chunk ");
    push_decimal(&mut out, c.chunk_index);
    push_str(&mut out, " (");
    push_str(&mut out, c.title.as_str());
    push_str(&mut out, ") [Lines ");
    push_decimal(&mut out, c.start_line);
    push_str(&mut out, "-");
    push_decimal(&mut out, c.end_line);
    push_str(&mut out, ", Tokens: ");
    push_decimal(&mut out, c.token_count);
    push_str(&mut out, "] ---\n");
    push_str(&mut out, c.content.as_str());
    push_str(&mut out, "\n\n");
    out
}

/// Lists chunks, each under a header with its number, title, lines and tokens.
pub fn chunk_report(chunks: &Vec<MarkdownChunk>) -> (r: String)
    ensures
        r@ == chunk_listing(chunks_view(chunks@)),
{
    let ghost cv = chunks_view(chunks@);
    let mut out = String::new();
    let mut i: usize = 0;
    while i < chunks.len()
        invariant
            i <= chunks@.len(),
            cv == chunks_view(chunks@),
            out@ == chunk_listing(cv.take(i as int)),
        decreases chunks.len() - i,
    {
        let c = &chunks[i];
        let entry = chunk_entry_of(c);
        push_str(&mut out, entry.as_str());
        assert(cv.take(i + 1).drop_last() =~= cv.take(i as int));
        assert(cv[i as int] == c@);
        i += 1;
    }
    assert(cv.take(i as int) =~= cv);
    out
}

/// The code listing of the command line: `// Language: <language>` over each block's code,
/// blocks separated by a `---` line.
pub open spec fn code_report_spec(bs: Seq<CodeBlockView>) -> Seq<char>
    decreases bs.len(),
{
    if bs.len() == 0 {
        seq![]
    } else {
        code_report_spec(bs.drop_last()) + (if bs.len() > 1 {
            "\n---\n"@
        } else {
            seq![]
        }) + "// Language: "@ + bs.last().language + "\n"@ + bs.last().code + "\n"@
    }
}

/// Lists code blocks for the command line.
pub fn code_report(blocks: &Vec<CodeBlock>) -> (r: String)
    ensures
        r@ == code_report_spec(code_blocks_view(blocks@)),
{
    let ghost bv = code_blocks_view(blocks@);
    let mut out = String::new();
    let mut i: usize = 0;
    while i < blocks.len()
        invariant
            i <= blocks@.len(),
            bv == code_blocks_view(blocks@),
            out@ == code_report_spec(bv.take(i as int)),
        decreases blocks.len() - i,
    {
        if i > 0 {
            push_str(&mut out, "\n---\n");
        }
        push_str(&mut out, "// Language: ");
        push_str(&mut out, blocks[i].language.as_str());
        push_str(&mut out, "\n");
        push_str(&mut out, blocks[i].code.as_str());
        push_str(&mut out, "\n");
        assert(bv.take(i + 1).drop_last() =~= bv.take(i as int));
        assert(bv[i as int] == blocks@[i as int]@);
        i += 1;
    }
    assert(bv.take(i as int) =~= bv);
    out
}

/// The statistics report (before the cost estimate).
pub fn stats_report(stats: &DocumentStats) -> (r: String)
    ensures
        r@ == "Document Stats:\n- Lines: "@ + decimal(stats.lines as nat) + "\n- Words: "@ + decimal(
            stats.words as nat,
        ) + "\n- Characters: "@ + decimal(stats.characters as nat) + "\n- Estimated Tokens: "@
            + decimal(stats.estimated_tokens as nat) + "\n"@,
{
    let mut out = String::new();
    push_str(&mut out, "Document Stats:\n- Lines: ");
    push_decimal(&mut out, stats.lines);
    push_str(&mut out, "\n- Words: ");
    push_decimal(&mut out, stats.words);
    push_str(&mut out, "\n- Characters: ");
    push_decimal(&mut out, stats.characters);
    push_str(&mut out, "\n- Estimated Tokens: ");
    push_decimal(&mut out, stats.estimated_tokens);
    push_str(&mut out, "\n");
    out
}

} // verus!
