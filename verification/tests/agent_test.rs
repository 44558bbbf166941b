use pankh::agent::{
    calculate_stats, clean_markdown, clean_markdown_with_report, extract_code_blocks,
    generate_clean_diff, get_frontmatter_line_count, strip_frontmatter,
};
use pankh::outline::extract_outline;

/// The reduction percentage and default tier savings, formatted as the report prints them.
fn report_figures(raw: &str) -> (String, Vec<(String, String)>) {
    let report = clean_markdown_with_report(raw);
    let pct = if report.raw_tokens > 0 {
        (report.tokens_saved as f64 / report.raw_tokens as f64) * 100.0
    } else {
        0.0
    };
    let tiers = [
        ("Frontier Tier ($5.00/1M)", 5.00),
        ("Production Tier ($0.50/1M)", 0.50),
        ("Budget Tier ($0.05/1M)", 0.05),
        ("Local Tier ($0.00/1M)", 0.00),
    ];
    let savings = tiers
        .iter()
        .map(|(name, rate)| {
            let raw_cost = (report.raw_tokens as f64 / 1_000_000.0) * rate;
            let clean_cost = (report.cleaned_tokens as f64 / 1_000_000.0) * rate;
            let saved = ((raw_cost - clean_cost) * 10_000.0).round() / 10_000.0;
            (name.to_string(), format!("{:.4}", saved))
        })
        .collect();
    (format!("{:.1}", pct), savings)
}

#[test]
fn test_frontmatter_stripping() {
    let raw = "---\ntitle: Test\nauthor: Me\n---\n\n# Main Title\nBody text";
    let cleaned = clean_markdown(raw);
    assert!(!cleaned.contains("author: Me"));
    assert!(cleaned.contains("Main Title"));
}

#[test]
fn test_frontmatter_line_offset_compensation() {
    let raw = "---\ntitle: Document\nauthor: Test\n---\n\n# Main Title\n\nContent here.";
    let outline = extract_outline(raw);
    assert_eq!(outline.headings.len(), 1);
    assert_eq!(outline.headings[0].start_line, 6);
}

#[test]
fn test_badge_stripping() {
    let raw = "# Project\n[![Build Status](https://img.shields.io/badge.svg)](https://example.com)\n\nReal content here.";
    let cleaned = clean_markdown(raw);
    assert!(!cleaned.contains("img.shields.io"));
    assert!(cleaned.contains("Real content here."));
}

#[test]
fn test_multiline_badge_link_stripping() {
    let raw = "# Header\n\n[![Build Status]\n(https://img.shields.io/badge.svg)]\n(https://example.com/build)\n\nContent";
    let cleaned = clean_markdown(raw);
    assert!(!cleaned.contains("shields.io"));
    assert!(cleaned.contains("Content"));
}

#[test]
fn test_url_tracking_param_stripping_with_anchor() {
    let raw = "[Click Here](https://example.com/page?utm_source=twitter&ref=abc#section-1)";
    let cleaned = clean_markdown(raw);
    assert!(cleaned.contains("https://example.com/page#section-1"));
    assert!(!cleaned.contains("utm_source"));
}

#[test]
fn test_nested_outline_tree_and_recursion_cap() {
    let raw = "# Title\n\nSome text\n\n## Section 1\n\n### SubSection\n";
    let outline = extract_outline(raw);
    assert_eq!(outline.total_sections, 3);
    assert_eq!(outline.max_depth, 3);
}

#[test]
fn test_empty_input_cleaning() {
    let cleaned = clean_markdown("");
    assert!(cleaned.is_empty());
}

#[test]
fn test_diff_clean_generation() {
    let raw = "# Header\n[![badge](https://img.shields.io/badge)](https://a.com)\n\nContent";
    let (pct, savings) = report_figures(raw);
    let diff = generate_clean_diff(raw, &pct, &savings);
    assert!(diff.contains("PANKH TOKEN OPTIMIZATION DIFF REPORT"));
    assert!(diff.contains("Content"));
}

#[test]
fn test_frontmatter_outline_section_tokens() {
    let raw =
        "---\ntitle: Doc\nauthor: Tester\n---\n\n# Main Title\n\nSection body text with words.";
    let outline = extract_outline(raw);
    assert_eq!(outline.headings.len(), 1);
    assert!(outline.headings[0].token_count > 0);
    assert_eq!(outline.headings[0].start_line, 6);
}

#[test]
fn stats_count_lines_words_characters_and_tokens() {
    let stats = calculate_stats("Hello world\nsecond line here\n");
    assert_eq!(stats.lines, 2);
    assert_eq!(stats.words, 5);
    assert_eq!(stats.characters, 29);
    assert_eq!(stats.estimated_tokens, 8);
    let empty = calculate_stats("");
    assert_eq!(empty.lines, 0);
    assert_eq!(empty.estimated_tokens, 0);
}

#[test]
fn frontmatter_line_count_includes_leading_blank_lines() {
    assert_eq!(get_frontmatter_line_count("\n\n---\na: 1\n---\n# T"), 5);
    assert_eq!(get_frontmatter_line_count("+++\na = 1\n+++\nbody"), 3);
    assert_eq!(get_frontmatter_line_count("# No frontmatter"), 0);
    assert_eq!(get_frontmatter_line_count("---\nnever closed"), 0);
}

#[test]
fn strip_frontmatter_keeps_body_only() {
    assert_eq!(strip_frontmatter("---\na: 1\n---\n# T"), "# T");
    assert_eq!(strip_frontmatter("---\r\na: 1\n---\r\nBody"), "Body");
    assert_eq!(strip_frontmatter("plain text"), "plain text");
}

#[test]
fn cleaning_drops_html_comments_and_collapses_blank_lines() {
    let cleaned = clean_markdown("# A\n\n<!-- hidden -->\n\n\n\nText");
    assert!(!cleaned.contains("hidden"));
    assert!(!cleaned.contains("\n\n\n"));
    assert!(cleaned.contains("Text"));
}

#[test]
fn report_counts_saved_tokens() {
    let raw = "# Header\n[![badge](https://img.shields.io/badge)](https://a.com)\n\nContent";
    let report = clean_markdown_with_report(raw);
    assert_eq!(report.raw_tokens, calculate_stats(raw).estimated_tokens);
    assert_eq!(report.cleaned_tokens, calculate_stats(&report.cleaned_text).estimated_tokens);
    assert_eq!(report.tokens_saved, report.raw_tokens - report.cleaned_tokens);
    assert!(report.tokens_saved > 0);
}

#[test]
fn diff_report_lists_savings_and_both_texts() {
    let savings = vec![("Model A".to_string(), "0.0001".to_string())];
    let diff = generate_clean_diff("  # Title\n\nBody  ", "12.5", &savings);
    assert!(diff.starts_with("=== PANKH TOKEN OPTIMIZATION DIFF REPORT ===\nRaw Tokens: "));
    assert!(diff.contains("(12.5% reduction)"));
    assert!(diff.contains("- Model A: Saved $0.0001\n"));
    assert!(diff.contains("--- ORIGINAL RAW TEXT ---\n# Title\n\nBody\n\n+++ CLEANED TOKEN-THRIFTY TEXT +++\n"));
    assert!(diff.ends_with("\n"));
}

#[test]
fn code_blocks_are_filtered_by_language() {
    let doc = "# Code\n\n```rust\nfn main() {}\n```\n\n```Python\nprint(1)\n```\n\n    indented\n";
    let all = extract_code_blocks(doc, None);
    assert_eq!(all.len(), 3);
    assert_eq!(all[0].language, "rust");
    assert_eq!(all[0].code, "fn main() {}");
    assert_eq!(all[2].language, "text");
    let py = extract_code_blocks(doc, Some("python"));
    assert_eq!(py.len(), 1);
    assert_eq!(py[0].code, "print(1)");
    assert!(extract_code_blocks(doc, Some("go")).is_empty());
}

#[test]
fn code_blocks_after_frontmatter_only() {
    let doc = "---\ntitle: x\n---\n```\nbare\n```\n";
    let blocks = extract_code_blocks(doc, None);
    assert_eq!(blocks.len(), 1);
    assert_eq!(blocks[0].language, "text");
    assert_eq!(blocks[0].code, "bare");
}

#[test]
fn multiline_html_comment_is_removed_whole() {
    let result = clean_markdown("Intro\n\n<!--\nsecret note\n-->\n\nOutro");
    assert!(!result.contains("secret note"));
    assert!(!result.contains("-->"));
    assert!(result.contains("Intro"));
    assert!(result.contains("Outro"));
    let inline = clean_markdown("Keep <!-- a --> this.\n\n<div>x</div>");
    assert!(inline.contains("Keep"));
    assert!(inline.contains("this."));
    assert!(inline.contains("<div>x</div>"));
}

#[test]
fn cleaned_text_is_trimmed_without_blank_runs() {
    let result = clean_markdown("\n\n# Title\n\n\n\n\nBody text.\n\n\n\nMore.\n\n");
    assert_eq!(result, result.trim());
    assert!(!result.contains("\n\n\n"));
    assert!(result.contains("Body text."));
    assert_eq!(clean_markdown("  \n\t\n"), "");
}

#[test]
fn frontmatter_count_is_zero_exactly_when_nothing_is_stripped() {
    let plain = "# Title\n\nBody.";
    assert_eq!(get_frontmatter_line_count(plain), 0);
    assert_eq!(strip_frontmatter(plain), plain);
    let with = "---\ntitle: Document\n---\n# Title";
    assert_eq!(get_frontmatter_line_count(with), 3);
    assert_ne!(strip_frontmatter(with), with);
}
