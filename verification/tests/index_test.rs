use pankh::index::{
    populate_trigram_index, remove_file_from_index, update_file_in_index, IndexedDoc, IndexedDocMeta, SearchIndex,
};
use pankh::query::parse_query;
use pankh::ranking::{
    count_matches, forward_slashes, fuzzy_matches, hit_doc_frequencies, hit_stats, index_doc_frequencies,
    index_hits, index_query_terms, indexed_line_stats, needs_reindex, scan_terms, stale_documents, term_stats,
};
use pankh::search::collect_file_hits;

fn meta(path: &str, mtime: u64, size: u64) -> IndexedDocMeta {
    IndexedDocMeta { path: path.to_string(), mtime_secs: mtime, file_size: size }
}

/// The places a query hits in the index, fuzzy matches included.
fn query(index: &SearchIndex, raw: &str) -> Vec<(String, usize)> {
    let parsed = parse_query(raw);
    let mut terms = index_query_terms(&parsed);
    let fuzzy = fuzzy_matches(index, &terms);
    terms.extend(fuzzy);
    index_hits(index, &parsed, &terms)
}

#[test]
fn new_index_is_empty() {
    let index = SearchIndex::new();
    assert_eq!(index.version, 1);
    assert!(index.docs.is_empty());
    assert!(index.term_posting.is_empty());
    assert!(index.trigram_posting.is_empty());
    assert_eq!(index.total_sections, 0);
    assert_eq!(index.total_words, 0);
}

#[test]
fn update_indexes_lines_terms_and_totals() {
    let mut index = SearchIndex::new();
    update_file_in_index(&mut index, "inc_test_1.md", meta("inc_test_1.md", 7, 42), "# Overview\n\nInitial keyword Alpha.");
    assert_eq!(index.docs.len(), 1);
    assert_eq!(index.docs[0].key, "inc_test_1.md");
    assert_eq!(index.docs[0].meta.mtime_secs, 7);
    assert_eq!(index.docs[0].lines.len(), 3);
    assert_eq!(index.total_sections, 3);
    // "# Overview" has 2 words, the blank line counts 1, the last line 3
    assert_eq!(index.total_words, 6);
    let terms: Vec<&str> = index.term_posting.iter().map(|t| t.term.as_str()).collect();
    assert_eq!(terms, vec!["overview", "initial", "keyword", "alpha"]);
    let alpha = &index.term_posting[3];
    assert_eq!(alpha.postings, vec![("inc_test_1.md".to_string(), 2)]);
    assert!(index.trigram_posting.iter().any(|g| g.trigram == "lph" && g.terms == vec!["alpha".to_string()]));
}

#[test]
fn incremental_update_and_removal_change_what_is_found() {
    let mut index = SearchIndex::new();
    update_file_in_index(&mut index, "inc_test_1.md", meta("inc_test_1.md", 1, 10), "# Overview\n\nInitial keyword Alpha.");
    assert_eq!(query(&index, "Alpha"), vec![("inc_test_1.md".to_string(), 2)]);

    update_file_in_index(&mut index, "inc_test_1.md", meta("inc_test_1.md", 2, 10), "# Overview\n\nUpdated keyword Beta.");
    assert_eq!(index.docs.len(), 1);
    assert_eq!(query(&index, "Alpha"), Vec::<(String, usize)>::new());
    assert_eq!(query(&index, "Beta"), vec![("inc_test_1.md".to_string(), 2)]);
    assert_eq!(index.total_sections, 3);

    remove_file_from_index(&mut index, "inc_test_1.md");
    assert_eq!(query(&index, "Beta"), Vec::<(String, usize)>::new());
    assert!(index.docs.is_empty());
    assert!(index.term_posting.is_empty());
    assert_eq!(index.total_sections, 0);
    assert_eq!(index.total_words, 0);
}

#[test]
fn removing_an_unknown_file_changes_nothing() {
    let mut index = SearchIndex::new();
    update_file_in_index(&mut index, "a.md", meta("a.md", 1, 1), "# A\nalpha");
    let before = index.clone();
    remove_file_from_index(&mut index, "b.md");
    assert_eq!(index, before);
}

#[test]
fn other_documents_keep_their_postings() {
    let mut index = SearchIndex::new();
    update_file_in_index(&mut index, "a.md", meta("a.md", 1, 1), "shared alpha");
    update_file_in_index(&mut index, "b.md", meta("b.md", 1, 1), "shared beta");
    remove_file_from_index(&mut index, "a.md");
    assert_eq!(query(&index, "shared"), vec![("b.md".to_string(), 0)]);
    assert_eq!(query(&index, "alpha"), Vec::<(String, usize)>::new());
}

#[test]
fn filters_apply_to_the_document_path() {
    let mut index = SearchIndex::new();
    update_file_in_index(&mut index, "docs/a.md", meta("docs/a.md", 1, 1), "database setup");
    update_file_in_index(&mut index, "src/b.md", meta("src/b.md", 1, 1), "database migration");
    assert_eq!(query(&index, "database path:docs"), vec![("docs/a.md".to_string(), 0)]);
    assert_eq!(query(&index, "database").len(), 2);
}

#[test]
fn unknown_terms_match_by_trigram() {
    let mut index = SearchIndex::new();
    update_file_in_index(&mut index, "a.md", meta("a.md", 1, 1), "# Architecture\n\nInstant index test snippet.");
    let terms = vec!["architectur".to_string()];
    assert_eq!(fuzzy_matches(&index, &terms), vec!["architecture".to_string()]);
    let known = vec!["instant".to_string()];
    assert!(fuzzy_matches(&index, &known).is_empty());
    assert_eq!(query(&index, "Instant"), vec![("a.md".to_string(), 2)]);
}

#[test]
fn phrases_are_added_once_after_terms() {
    let parsed = parse_query("alpha \"alpha\" \"beta gamma\"");
    let terms = index_query_terms(&parsed);
    assert_eq!(terms, vec!["alpha".to_string(), "beta gamma".to_string()]);
    let scan = scan_terms(&parse_query("\"beta gamma\""));
    assert_eq!(scan, vec!["beta gamma".to_string()]);
    let scan = scan_terms(&parse_query("alpha \"beta gamma\""));
    assert_eq!(scan, vec!["alpha".to_string()]);
}

#[test]
fn document_frequencies_count_documents() {
    let mut index = SearchIndex::new();
    update_file_in_index(&mut index, "a.md", meta("a.md", 1, 1), "word1 word2\nword1 again");
    update_file_in_index(&mut index, "b.md", meta("b.md", 1, 1), "word1 rare");
    let terms = vec!["word1".to_string(), "rare".to_string(), "missing".to_string()];
    assert_eq!(index_doc_frequencies(&index, &terms), vec![2, 1, 1]);
}

#[test]
fn matches_are_counted_without_overlap() {
    let h: Vec<char> = "aaaa".chars().collect();
    let n: Vec<char> = "aa".chars().collect();
    assert_eq!(count_matches(&h, &n), 2);
    let h: Vec<char> = "abc".chars().collect();
    assert_eq!(count_matches(&h, &[]), 4);
    let n: Vec<char> = "x".chars().collect();
    assert_eq!(count_matches(&h, &n), 0);
}

#[test]
fn term_stats_count_and_look_in_heading() {
    let lower: Vec<char> = "database migration for the database".chars().collect();
    let terms = vec!["database".to_string(), "guide".to_string()];
    assert_eq!(term_stats(&lower, "database guide", &terms), vec![(2, true), (0, true)]);
    let mut index = SearchIndex::new();
    update_file_in_index(&mut index, "a.md", meta("a.md", 1, 1), "# Database Architecture\n\nDatabase Database.");
    let lines = index.document_lines("a.md").unwrap();
    assert_eq!(indexed_line_stats(&lines[2], &terms), vec![(2, true), (0, false)]);
    assert!(index.document_lines("b.md").is_none());
}

#[test]
fn hit_frequencies_count_files() {
    let terms = vec!["database".to_string()];
    let a = collect_file_hits("a.md", "# Architecture\n\nDatabase setup details.", &terms);
    let b = collect_file_hits("b.md", "# Installation\n\nDatabase migration guide.", &terms);
    let mut hits = a.hits.clone();
    hits.extend(b.hits.clone());
    assert_eq!(hit_doc_frequencies(&hits, &terms), vec![2]);
    assert_eq!(hit_stats(&hits[0], &terms), vec![(1, false)]);
    let none = vec!["nothing".to_string()];
    assert_eq!(hit_doc_frequencies(&hits, &none), vec![1]);
}

#[test]
fn backslashes_become_slashes() {
    assert_eq!(forward_slashes("docs\\guide\\a.md"), "docs/guide/a.md");
    assert_eq!(forward_slashes("plain.md"), "plain.md");
}

#[test]
fn refresh_finds_stale_and_changed_files() {
    let mut index = SearchIndex::new();
    update_file_in_index(&mut index, "a.md", meta("a.md", 5, 50), "alpha");
    update_file_in_index(&mut index, "b.md", meta("b.md", 5, 50), "beta");
    let current = vec!["b.md".to_string(), "c.md".to_string()];
    assert_eq!(stale_documents(&index, &current), vec!["a.md".to_string()]);
    assert!(!needs_reindex(&index, "b.md", 5, 50));
    assert!(needs_reindex(&index, "b.md", 6, 50));
    assert!(needs_reindex(&index, "b.md", 5, 51));
    assert!(needs_reindex(&index, "c.md", 5, 50));
}

#[test]
fn trigrams_are_rebuilt_from_terms() {
    let mut index = SearchIndex::new();
    update_file_in_index(&mut index, "a.md", meta("a.md", 1, 1), "alpha alps");
    index.trigram_posting.clear();
    populate_trigram_index(&mut index);
    let alp = index.trigram_posting.iter().find(|g| g.trigram == "alp").unwrap();
    assert_eq!(alp.terms, vec!["alpha".to_string(), "alps".to_string()]);
    assert_eq!(index.trigram_posting.iter().filter(|g| g.trigram == "alp").count(), 1);
}

#[test]
fn misspelled_query_finds_the_word() {
    let mut index = SearchIndex::new();
    update_file_in_index(&mut index, "guide.md", meta("guide.md", 1, 1), "# Installation\n\nRun the installer.");
    let terms = vec!["instalation".to_string()];
    assert_eq!(fuzzy_matches(&index, &terms), vec!["installation".to_string(), "installer".to_string()]);
    assert_eq!(
        query(&index, "instalation"),
        vec![("guide.md".to_string(), 0), ("guide.md".to_string(), 2)]
    );
}

#[test]
fn consistency_check_accepts_built_and_refuses_broken_indexes() {
    let mut index = SearchIndex::new();
    assert!(index.is_consistent());
    update_file_in_index(&mut index, "a.md", meta("a.md", 1, 1), "# Alpha\n\nbeta gamma");
    update_file_in_index(&mut index, "b.md", meta("b.md", 1, 1), "gamma delta");
    assert!(index.is_consistent());
    remove_file_from_index(&mut index, "a.md");
    assert!(index.is_consistent());

    let mut bogus = index.clone();
    bogus.term_posting[0].postings.push(("b.md".to_string(), 7));
    assert!(!bogus.is_consistent());

    let mut missing = index.clone();
    missing.term_posting.remove(0);
    assert!(!missing.is_consistent());

    let mut twice = index.clone();
    let again = IndexedDoc { key: "b.md".to_string(), meta: meta("b.md", 1, 1), lines: Vec::new() };
    twice.docs.push(again);
    assert!(!twice.is_consistent());
}

#[test]
fn document_lines_and_default_index() {
    let index = SearchIndex::default();
    assert_eq!(index, SearchIndex::new());
    assert!(index.document_lines("a.md").is_none());
}

#[test]
fn index_search_plan_adds_fuzzy_terms_and_frequencies() {
    let mut index = SearchIndex::new();
    update_file_in_index(&mut index, "guide.md", meta("guide.md", 1, 1), "# Installation\n\nRun the installer.");
    let (terms, places, dfs) = pankh::ranking::plan_index_search(&index, &parse_query("instalation"));
    assert_eq!(terms, vec!["instalation".to_string(), "installation".to_string(), "installer".to_string()]);
    assert_eq!(places, vec![("guide.md".to_string(), 0), ("guide.md".to_string(), 2)]);
    assert_eq!(dfs, vec![1, 1, 1]);
}
