use pankh::outline::extract_outline;
use pankh::tui::app::flatten_headings;

#[test]
fn outline_nests_deeper_headings_under_shallower_ones() {
    let raw = "# A\ntext\n## B\n### C\n## D\n# E\n";
    let outline = extract_outline(raw);
    assert_eq!(outline.headings.len(), 2);
    assert_eq!(outline.headings[0].title, "A");
    assert_eq!(outline.headings[0].children.len(), 2);
    assert_eq!(outline.headings[0].children[0].children[0].title, "C");
    assert_eq!(outline.headings[0].end_line, 5);
    assert_eq!(outline.headings[0].children[0].end_line, 4);
    assert_eq!(outline.total_sections, 5);
    assert_eq!(outline.max_depth, 3);
}

#[test]
fn outline_ignores_headings_in_fenced_code() {
    let raw = "# Real\n```\n# not a heading\n```\n## Also real";
    let outline = extract_outline(raw);
    assert_eq!(outline.total_sections, 2);
    assert_eq!(outline.headings[0].children[0].start_line, 5);
}

#[test]
fn section_metrics_count_the_section_text() {
    let outline = extract_outline("# T\nabcd\n# U");
    assert_eq!(outline.headings[0].character_count, 8);
    assert_eq!(outline.headings[0].token_count, 2);
    assert_eq!(outline.headings[1].end_line, 3);
}

#[test]
fn flattening_lists_headings_in_document_order() {
    let outline = extract_outline("# A\n## B\n### C\n# D\n## E");
    let flat = flatten_headings(&outline.headings);
    let titles: Vec<&str> = flat.iter().map(|h| h.title.as_str()).collect();
    assert_eq!(titles, vec!["A", "B", "C", "D", "E"]);
    let starts: Vec<usize> = flat.iter().map(|h| h.start_line).collect();
    assert_eq!(starts, vec![1, 2, 3, 4, 5]);
    assert_eq!(outline.total_sections, flat.len());
}

#[test]
fn headings_stand_on_their_file_lines() {
    let docs = [
        "intro\n# One\ntext\n## Two\n```\n# not a heading\n```\n### Three",
        "---\ntitle: Document\nauthor: Test\n---\n\n# Main Title\n\nContent here.\n## Sub",
    ];
    for doc in docs {
        let lines: Vec<&str> = doc.lines().collect();
        let outline = extract_outline(doc);
        let mut stack: Vec<&pankh::outline::HeadingNode> = outline.headings.iter().collect();
        let mut seen = 0;
        while let Some(h) = stack.pop() {
            let line = lines[h.start_line - 1].trim();
            assert!(line.starts_with('#'));
            assert!(line.ends_with(h.title.as_str()));
            seen += 1;
            stack.extend(h.children.iter());
        }
        assert!(seen >= 2);
    }
}

#[test]
fn every_heading_line_outside_fences_is_listed() {
    let raw = "---\ntitle: T\n---\n# A\n```\n# not a heading\n```\n## B\ntext\n### C";
    let outline = extract_outline(raw);
    let flat = flatten_headings(&outline.headings);
    let found: Vec<(u32, &str, usize)> = flat.iter().map(|h| (h.level, h.title.as_str(), h.start_line)).collect();
    assert_eq!(found, vec![(1, "A", 4), (2, "B", 8), (3, "C", 10)]);
}
