use pankh::search::{collect_file_hits, extract_trigrams, index_lines, line_terms};

#[test]
fn lines_know_their_section() {
    let lines = index_lines("intro\n# Guide\nstep one  here\n## Deep\nmore");
    assert_eq!(lines.len(), 5);
    assert_eq!(lines[0].heading_path, "Root Document");
    assert_eq!(lines[0].heading_level, 0);
    assert_eq!(lines[2].heading_path, "H1: Guide");
    assert_eq!(lines[2].heading_title, "guide");
    assert_eq!(lines[2].line_words, 3);
    assert_eq!(lines[2].line_number, 3);
    assert_eq!(lines[4].heading_path, "H2: Deep");
    assert_eq!(lines[4].heading_level, 2);
}

#[test]
fn blank_lines_count_one_word() {
    let lines = index_lines("a\n\n  b  ");
    assert_eq!(lines[1].line_words, 1);
    assert_eq!(lines[2].line_snippet, "b");
}

#[test]
fn hits_are_lines_with_a_term() {
    let terms = vec!["database".to_string()];
    let found = collect_file_hits("docs/a.md", "# Architecture\n\nDatabase setup details.\nother", &terms);
    assert_eq!(found.hits.len(), 1);
    assert_eq!(found.sections, 1);
    assert_eq!(found.words, 3);
    let hit = &found.hits[0];
    assert_eq!(hit.file_path, "docs/a.md");
    assert_eq!(hit.line.line_number, 3);
    assert_eq!(hit.line.heading_path, "H1: Architecture");
    assert_eq!(hit.line_lower, "database setup details.");
}

#[test]
fn no_terms_hit_every_line() {
    let found = collect_file_hits("a.md", "x\ny", &Vec::new());
    assert_eq!(found.hits.len(), 2);
}

#[test]
fn terms_are_lowercase_trimmed_words() {
    assert_eq!(line_terms("Hello, World! -- 42x"), vec!["hello", "world", "42x"]);
    assert!(line_terms("   ").is_empty());
}

#[test]
fn trigrams_slide_over_alphanumerics() {
    assert_eq!(extract_trigrams("Ab-cD"), vec!["abc", "bcd"]);
    assert!(extract_trigrams("a b").is_empty());
}
