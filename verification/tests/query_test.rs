use pankh::query::{parse_query, ParsedQuery};

#[test]
fn test_parse_query_syntax() {
    let q = parse_query("path:docs/ lang:rs -deprecated \"exact phrase\" term");
    assert_eq!(q.field_filters.len(), 2);
    assert_eq!(
        q.field_filters[0],
        ("path".to_string(), "docs/".to_string())
    );
    assert_eq!(q.field_filters[1], ("lang".to_string(), "rs".to_string()));
    assert_eq!(q.negated_terms, vec!["deprecated"]);
    assert_eq!(q.exact_phrases, vec!["exact phrase"]);
    assert_eq!(q.positive_terms, vec!["term"]);
}

#[test]
fn test_query_filter_matching() {
    let q = parse_query("path:docs/ -draft \"api guide\"");
    assert!(q.matches_filters("docs/api.md", "This is an api guide for production."));
    assert!(!q.matches_filters("src/main.rs", "This is an api guide for production."));
    assert!(!q.matches_filters("docs/api.md", "This is a draft api guide."));
}

#[test]
fn empty_query_is_empty_and_matches_everything() {
    let q = parse_query("   ");
    assert!(q.is_empty());
    assert!(q.matches_filters("any/path.md", "anything"));
    assert_eq!(q, ParsedQuery { raw_query: "   ".to_string(), ..Default::default() });
}

#[test]
fn terms_are_lowercased_and_trimmed_of_punctuation() {
    let q = parse_query("Hello, World!");
    assert_eq!(q.positive_terms, vec!["hello", "world"]);
    assert!(!q.is_empty());
}

#[test]
fn extension_and_negated_path_filters() {
    let q = parse_query("ext:.md -path:vendor");
    assert!(q.matches_filters("docs/readme.MD", "x"));
    assert!(!q.matches_filters("docs/readme.txt", "x"));
    assert!(!q.matches_filters("vendor/readme.md", "x"));
    let lang = parse_query("lang:rust");
    assert!(lang.matches_filters("a.md", "```rust\nfn main() {}\n```"));
    assert!(!lang.matches_filters("a.md", "no code"));
}

#[test]
fn free_terms_never_exclude_a_file() {
    let a = parse_query("alpha path:docs -draft");
    let b = parse_query("completely other words path:docs -draft");
    for (p, c) in [("docs/a.md", "text"), ("src/a.md", "text"), ("docs/b.md", "a draft")] {
        assert_eq!(a.matches_filters(p, c), b.matches_filters(p, c));
    }
    assert!(a.matches_filters("docs/a.md", "text"));
    assert!(!a.matches_filters("docs/b.md", "a draft"));
}
