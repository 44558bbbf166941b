use pankh::tui::app::{
    extract_document_links, App, AppTheme, ClipboardOutcome, DocumentLink, FileLinkRequest, Key,
    KeyAction, LinkTarget,
};

#[test]
fn test_tui_app_state() {
    let mut app = App::new(
        "# Test Header\n\nContent line 1\nContent line 2\nLine 3\nLine 4\nLine 5\nLine 6\nLine 7\nLine 8",
    );
    assert_eq!(app.scroll_offset, 0);
    app.scroll_down(5);
    assert_eq!(app.scroll_offset, 5);
    app.scroll_up(2);
    assert_eq!(app.scroll_offset, 3);

    // Test boundary clamping
    app.scroll_down(100);
    let max_expected = app.rendered_line_count.saturating_sub(1) as u16;
    assert_eq!(app.scroll_offset, max_expected);

    assert!(!app.show_toc);
    app.toggle_toc();
    assert!(app.show_toc);
}

#[test]
fn test_vim_motions_and_search() {
    let mut app = App::new("# Title\nLine 1\nLine 2\nTarget Match\nLine 4");
    app.jump_to_bottom();
    assert_eq!(app.scroll_offset, 4);
    app.jump_to_top();
    assert_eq!(app.scroll_offset, 0);

    app.search_query = "Target".to_string();
    app.update_search_matches();
    assert_eq!(app.search_matches.len(), 1);
}

#[test]
fn test_tui_anchor_link_jump() {
    let content = "# Overview\n\nSee [Installation](#installation) below.\n\n## Installation\n\nDetails here.";
    let mut app = App::new(content);
    assert_eq!(app.links.len(), 1);
    assert_eq!(app.links[0].url, "#installation");

    app.scroll_offset = 2;
    app.follow_current_line_link();
    assert_eq!(app.scroll_offset, 4);
}

#[test]
fn test_tui_file_history_backtrack() {
    let mut app = App::new("# Doc 1\n\nContent 1");
    app.load_new_document("# Doc 2\n\nContent 2", "doc2.md", None);
    assert_eq!(app.history_stack.len(), 1);
    assert!(app.raw_text.contains("Doc 2"));

    app.backtrack_history();
    assert_eq!(app.history_stack.len(), 0);
    assert!(app.raw_text.contains("Doc 1"));
}

#[test]
fn links_carry_their_line_and_trimmed_label() {
    let links = extract_document_links("[ A ](a.md)\n\n```\nx\ny\n```\n[B](b.md#part)");
    assert_eq!(
        links,
        vec![
            DocumentLink { line_number: 1, label: "A".to_string(), url: "a.md".to_string() },
            DocumentLink { line_number: 7, label: "B".to_string(), url: "b.md#part".to_string() },
        ]
    );
}

#[test]
fn backtracking_restores_the_previous_document() {
    let mut app = App::new("# One\n\nfirst");
    app.scroll_down(1);
    let before_tokens = app.estimated_tokens;
    let before_lines = app.rendered_line_count;
    app.load_new_document("# Two\n\nsecond document", "two.md", Some("two.md".to_string()));
    assert_eq!(app.scroll_offset, 0);
    assert_eq!(app.active_path, Some("two.md".to_string()));
    assert_eq!(app.status_message, Some("Loaded document: two.md".to_string()));
    app.backtrack_history();
    assert_eq!(app.raw_text, "# One\n\nfirst");
    assert_eq!(app.scroll_offset, 1);
    assert_eq!(app.active_path, None);
    assert_eq!(app.estimated_tokens, before_tokens);
    assert_eq!(app.rendered_line_count, before_lines);
    assert_eq!(app.status_message, Some("Backtracked to: two.md".to_string()));
    app.backtrack_history();
    assert_eq!(app.status_message, Some("Already at root document.".to_string()));
}

#[test]
fn search_matches_cycle_both_ways() {
    let mut app = App::new("alpha\nbeta\nAlpha again\ngamma\nALPHA");
    app.search_query = "alpha".to_string();
    app.update_search_matches();
    assert_eq!(app.search_matches, vec![0, 2, 4]);
    assert_eq!(app.status_message, Some("Match 1/3 (Press n/N to navigate)".to_string()));
    app.next_search_match();
    assert_eq!(app.scroll_offset, 2);
    assert_eq!(app.status_message, Some("Match 2/3".to_string()));
    app.prev_search_match();
    app.prev_search_match();
    assert_eq!(app.current_search_match, 2);
    assert_eq!(app.scroll_offset, 4);
    app.search_query = "zzz".to_string();
    app.update_search_matches();
    assert!(app.search_matches.is_empty());
    assert_eq!(app.status_message, Some("No matches found".to_string()));
}

#[test]
fn themes_cycle_through_four() {
    let mut app = App::new("x");
    let start = app.theme;
    app.cycle_theme();
    assert_eq!(app.theme, AppTheme::Dracula);
    assert_eq!(app.status_message, Some("Theme set to: Dracula 🧛".to_string()));
    app.cycle_theme();
    app.cycle_theme();
    app.cycle_theme();
    assert_eq!(app.theme, start);
    assert_eq!(AppTheme::Gruvbox.syntect_theme(), "base16-eighties.dark");
    assert_eq!(AppTheme::CleanLight.name(), "Clean Light ☀️");
}

#[test]
fn file_links_come_back_as_requests() {
    let mut app = App::new("[Guide](guide.md#setup)\n");
    let req = app.follow_current_line_link().expect("a file link");
    assert_eq!(
        req,
        FileLinkRequest { file: "guide.md".to_string(), anchor: Some("setup".to_string()), url: "guide.md#setup".to_string() }
    );
    assert_eq!(app.raw_text, "[Guide](guide.md#setup)\n");
    app.complete_file_link(&req, LinkTarget::Missing);
    assert_eq!(app.status_message, Some("Link target not found: guide.md#setup".to_string()));
    app.complete_file_link(&req, LinkTarget::Unreadable);
    assert_eq!(app.status_message, Some("Failed to read file: guide.md".to_string()));
    app.complete_file_link(&req, LinkTarget::Loaded("# Guide\n\ntext\n\n## Setup\n\nsteps".to_string()));
    assert_eq!(app.history_stack.len(), 1);
    assert_eq!(app.active_path, Some("guide.md".to_string()));
    assert_eq!(app.scroll_offset, 4);
    assert_eq!(app.status_message, Some("Loaded file and jumped to: Setup".to_string()));
}

#[test]
fn missing_sections_are_reported() {
    let mut app = App::new("[Nowhere](#nowhere)\n\n# Here");
    assert!(app.follow_current_line_link().is_none());
    assert_eq!(app.status_message, Some("Section not found: #nowhere".to_string()));
}

#[test]
fn keys_drive_the_reader() {
    let mut app = App::new("# A\n\none\n\n## B\n\ntwo");
    assert_eq!(app.handle_key(Key::Char('j'), false), KeyAction::Nothing);
    assert_eq!(app.scroll_offset, 1);
    assert_eq!(app.handle_key(Key::Char('f'), false), KeyAction::OpenFuzzyFinder);
    assert_eq!(app.handle_key(Key::Char('y'), false), KeyAction::CopyCodeBlock);
    assert_eq!(app.handle_key(Key::Char('a'), false), KeyAction::CopyCleanText);
    app.handle_key(Key::Tab, false);
    assert!(app.show_toc);
    app.handle_key(Key::Down, false);
    assert_eq!(app.selected_toc_index, 1);
    assert_eq!(app.scroll_offset, 4);
    app.handle_key(Key::Char('/'), false);
    assert!(app.search_active);
    app.handle_key(Key::Char('t'), false);
    app.handle_key(Key::Char('w'), false);
    app.handle_key(Key::Char('o'), false);
    app.handle_key(Key::Enter, false);
    assert!(!app.search_active);
    assert_eq!(app.search_matches, vec![6]);
    app.handle_key(Key::Esc, false);
    assert_eq!(app.status_message, Some("Search cleared".to_string()));
    app.handle_key(Key::Esc, false);
    assert_eq!(app.status_message, None);
    app.handle_key(Key::Esc, false);
    assert!(!app.show_toc);
    app.handle_key(Key::Esc, false);
    assert!(app.should_quit);
}

#[test]
fn fuzzy_finder_filters_by_path() {
    let mut app = App::new("x");
    app.open_fuzzy_finder(vec![
        ("docs/Guide.md".to_string(), "abcd".to_string()),
        ("notes.md".to_string(), "abcdefgh".to_string()),
    ]);
    assert!(app.fuzzy_active);
    assert_eq!(app.fuzzy_matches, vec![("docs/Guide.md".to_string(), 1), ("notes.md".to_string(), 2)]);
    app.handle_key(Key::Char('g'), false);
    assert_eq!(app.fuzzy_matches, vec![("docs/Guide.md".to_string(), 1)]);
    assert_eq!(app.fuzzy_selection(), Some("docs/Guide.md".to_string()));
    assert_eq!(app.handle_key(Key::Enter, false), KeyAction::ReadFuzzySelection);
    app.select_fuzzy_match(Some("# Guide".to_string()));
    assert!(!app.fuzzy_active);
    assert_eq!(app.raw_text, "# Guide");
    assert_eq!(app.active_path, Some("docs/Guide.md".to_string()));
}

#[test]
fn clipboard_outcomes_are_reported() {
    let mut app = App::new("```rust\nfn f() {}\n```");
    app.copy_clean_text_to_clipboard(ClipboardOutcome::Unavailable);
    assert_eq!(app.status_message, Some("Clipboard unavailable.".to_string()));
    let block = app.focused_code_block().expect("a code block");
    assert_eq!(block.language, "rust");
    app.copy_focused_code_block(Some((block.language.clone(), ClipboardOutcome::Copied)));
    assert_eq!(app.status_message, Some("Copied code block (rust) to clipboard!".to_string()));
    app.copy_focused_code_block(None);
    assert_eq!(app.status_message, Some("No code blocks found in document.".to_string()));
}

#[test]
fn reload_needs_an_active_path() {
    let mut app = App::new("old");
    app.reload_from_path(Some("new".to_string()));
    assert_eq!(app.raw_text, "old");
    app.active_path = Some("n.md".to_string());
    app.reload_from_path(Some("new".to_string()));
    assert_eq!(app.raw_text, "new");
    assert_eq!(app.status_message, Some("[Watcher] Live reloaded n.md".to_string()));
}

#[test]
fn live_reload_keeps_scroll_and_toc() {
    let long: String = (0..40).map(|i| format!("# H{}\nline {}\n", i, i)).collect();
    let mut app = App::new(&long);
    app.active_path = Some("doc.md".to_string());
    app.scroll_down(5);
    app.toggle_toc();
    let (offset, toc, sel) = (app.scroll_offset, app.show_toc, app.selected_toc_index);
    let edited = long.replace("line 3", "line three");
    app.reload_from_path(Some(edited.clone()));
    assert_eq!(app.scroll_offset, offset);
    assert_eq!(app.show_toc, toc);
    assert_eq!(app.selected_toc_index, sel);
    assert_eq!(app.raw_text, edited);
    assert_eq!(app.headings.len(), 40);
}

#[test]
fn search_steps_undo_each_other() {
    let mut app = App::new("alpha\nbeta\nAlpha again\ngamma\nALPHA");
    app.search_query = "alpha".to_string();
    app.update_search_matches();
    for start in 0..3 {
        app.current_search_match = start;
        app.next_search_match();
        app.prev_search_match();
        assert_eq!(app.current_search_match, start);
        assert_eq!(app.scroll_offset, app.search_matches[start]);
        app.prev_search_match();
        app.next_search_match();
        assert_eq!(app.current_search_match, start);
        assert_eq!(app.scroll_offset, app.search_matches[start]);
    }
}

#[test]
fn links_carry_their_source_line() {
    let content = "# Overview\n\nSee [Installation](#installation) below.\n\n## Installation\n\nDetails here.";
    assert_eq!(
        extract_document_links(content),
        vec![DocumentLink { line_number: 3, label: "Installation".to_string(), url: "#installation".to_string() }]
    );
    let links = extract_document_links("é line\n- item\n- [x](y.md)");
    assert_eq!(links[0].line_number, 3);
}
