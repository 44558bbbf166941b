use pankh::chunker::chunk_markdown;

#[test]
fn test_chunking_under_token_limit() {
    let raw = "# Section 1\nLine 1\nLine 2\n\n## Section 2\nLine 3\nLine 4";
    let chunks = chunk_markdown(raw, 100);
    assert!(!chunks.is_empty());
    assert_eq!(chunks[0].chunk_index, 1);
}

#[test]
fn test_single_large_section_chunking() {
    let raw = "# Title\nVery long section content text repeating multiple times to force token overflow.";
    let chunks = chunk_markdown(raw, 5);
    assert!(!chunks.is_empty());
    assert!(chunks.len() > 1);
}

#[test]
fn test_chunk_preamble_preservation() {
    let raw = "Introductory preamble line 1\nIntroductory preamble line 2\n\n# Section 1\nSection body";
    let chunks = chunk_markdown(raw, 50);
    assert!(chunks
        .iter()
        .any(|c| c.title == "Preamble" || c.content.contains("preamble")));
}

#[test]
fn small_sections_share_a_chunk() {
    let raw = "# A\none\n# B\ntwo";
    let chunks = chunk_markdown(raw, 100);
    assert_eq!(chunks.len(), 1);
    assert_eq!(chunks[0].title, "A");
    assert_eq!(chunks[0].start_line, 1);
    assert_eq!(chunks[0].end_line, 4);
    assert_eq!(chunks[0].content, raw);
    assert_eq!(chunks[0].token_count, 2 + 2);
}

#[test]
fn a_full_chunk_is_closed_before_the_next_section() {
    let raw = "# A\nabcdefgh\n# B\nijklmnop";
    let chunks = chunk_markdown(raw, 4);
    assert_eq!(chunks.len(), 2);
    assert_eq!(chunks[0].content, "# A\nabcdefgh");
    assert_eq!(chunks[0].token_count, 3);
    assert_eq!(chunks[1].title, "B");
    assert_eq!(chunks[1].start_line, 3);
    assert_eq!(chunks[1].chunk_index, 2);
}

#[test]
fn documents_without_headings_are_cut_line_by_line() {
    let raw = "aaaa\nbbbb\ncccc";
    let chunks = chunk_markdown(raw, 2);
    assert_eq!(chunks.len(), 2);
    assert_eq!(chunks[0].title, "Document");
    assert_eq!(chunks[0].content, "aaaa\nbbbb");
    assert_eq!(chunks[0].end_line, 2);
    assert_eq!(chunks[1].content, "cccc");
    assert_eq!(chunks[1].start_line, 3);
}

#[test]
fn empty_documents_have_no_chunks() {
    assert!(chunk_markdown("", 10).is_empty());
}

#[test]
fn chunk_indices_count_up_from_one() {
    let raw = "# A\nxxxxxxxxxxxxxxxx\nyyyyyyyyyyyyyyyy\n# B\nzz";
    let chunks = chunk_markdown(raw, 4);
    for (i, c) in chunks.iter().enumerate() {
        assert_eq!(c.chunk_index, i + 1);
    }
    assert!(chunks.len() >= 3);
}

#[test]
fn chunks_cover_every_line_once_in_order() {
    let doc = "intro line\n# A\nalpha one two three\nalpha four five six\n## B\nbeta\n# C\ngamma gamma gamma gamma gamma gamma";
    for max in [1usize, 3, 5, 8, 100] {
        let chunks = chunk_markdown(doc, max);
        let lines: Vec<&str> = doc.lines().collect();
        assert_eq!(chunks[0].start_line, 1);
        assert_eq!(chunks.last().unwrap().end_line, lines.len());
        for w in chunks.windows(2) {
            assert_eq!(w[1].start_line, w[0].end_line + 1);
        }
        for c in &chunks {
            assert_eq!(c.content, lines[c.start_line - 1..c.end_line].join("\n"));
        }
    }
}
