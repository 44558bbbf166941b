use pankh::agent::{calculate_stats, extract_code_blocks};
use pankh::chunker::chunk_markdown;
use pankh::outline::extract_outline;
use pankh::report::{chunk_report, code_report, outline_report, stats_report};

#[test]
fn outline_report_indents_by_level() {
    let outline = extract_outline("# A\nx\n## B\ny");
    assert_eq!(
        outline_report(&outline),
        "Outline (Total Sections: 2, Max Depth: H2):\n- H1: A [L1-4, Tokens: 3, Chars: 12]\n  - H2: B [L3-4, Tokens: 2, Chars: 6]\n"
    );
}

#[test]
fn chunk_report_lists_each_chunk() {
    let chunks = chunk_markdown("# A\none", 100);
    assert_eq!(chunk_report(&chunks), "--- Chunk 1 (A) [Lines 1-2, Tokens: 2] ---\n# A\none\n\n");
}

#[test]
fn code_report_separates_blocks() {
    let blocks = extract_code_blocks("```rs\na\n```\n```py\nb\n```", None);
    assert_eq!(code_report(&blocks), "// Language: rs\na\n\n---\n// Language: py\nb\n");
}

#[test]
fn stats_report_lists_counts() {
    let stats = calculate_stats("one two\nthree");
    assert_eq!(
        stats_report(&stats),
        "Document Stats:\n- Lines: 2\n- Words: 3\n- Characters: 13\n- Estimated Tokens: 4\n"
    );
}
