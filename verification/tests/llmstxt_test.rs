use pankh::llmstxt::{generate_llmstxt, LlmsDoc};

fn doc(path: &str, content: &str) -> LlmsDoc {
    LlmsDoc { path: path.to_string(), content: content.to_string() }
}

#[test]
fn index_lists_each_document_under_its_title() {
    let docs = vec![
        doc("a.md", "# Alpha Guide\n\nText ![badge](https://img.shields.io/x.svg) here."),
        doc("notes/b.md", "no heading at all"),
    ];
    let out = generate_llmstxt(&docs);
    assert!(out.index_content.starts_with("# Project Documentation Index\n\n"));
    assert!(out.index_content.ends_with("## Documents\n\n- [Alpha Guide](a.md)\n- [notes/b.md](notes/b.md)\n"));
    assert!(out.full_content.contains("## Alpha Guide\nSource: a.md\n\n"));
    assert!(out.full_content.contains("## notes/b.md\nSource: notes/b.md\n\nno heading at all\n\n"));
    assert_eq!(out.files_processed, 2);
    assert!(out.total_clean_tokens <= out.total_raw_tokens);
    assert_eq!(out.tokens_saved, out.total_raw_tokens - out.total_clean_tokens);
}

#[test]
fn no_documents_give_the_headers_only() {
    let out = generate_llmstxt(&Vec::new());
    assert!(out.index_content.contains("Project Documentation Index"));
    assert_eq!(out.full_content, "# Project Documentation\n\n");
    assert_eq!(out.files_processed, 0);
    assert_eq!(out.total_raw_tokens, 0);
    assert_eq!(out.tokens_saved, 0);
}

#[test]
fn token_counts_add_up() {
    let out = generate_llmstxt(&vec![doc("a.md", "abcd"), doc("b.md", "abcdefgh")]);
    assert_eq!(out.total_raw_tokens, 3);
}
