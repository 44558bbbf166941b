use pankh::tui::app::AppTheme;
use pankh::tui::render::{render_rich_markdown, Tone};

#[test]
fn test_rich_render_table() {
    let raw = "| Name | Role |\n|---|---|\n| Pankh | Reader |";
    let lines = render_rich_markdown(raw, "", AppTheme::OceanDark);
    assert!(lines.iter().any(|l| l.text().contains("┌")));
    assert!(lines.iter().any(|l| l.text().contains("Pankh")));
}

#[test]
fn test_rich_render_unicode_table_alignment() {
    let raw = "| Icon | Name |\n|---|---|\n| 🪶 | Pankh Reader |";
    let lines = render_rich_markdown(raw, "", AppTheme::OceanDark);
    assert!(lines.iter().any(|l| l.text().contains("┌")));
    assert!(lines.iter().any(|l| l.text().contains("🪶")));
}

#[test]
fn test_rich_render_task_list() {
    let raw = "- [x] Done\n- [ ] Todo";
    let lines = render_rich_markdown(raw, "", AppTheme::OceanDark);
    assert!(lines.iter().any(|l| l.text().contains("[✓]")));
}

#[test]
fn tables_are_padded_to_their_widest_cell() {
    let lines = render_rich_markdown("| A | Long |\n|---|---|\n| xyz | b |", "", AppTheme::OceanDark);
    let texts: Vec<String> = lines.iter().map(|l| l.text()).collect();
    assert_eq!(
        texts,
        vec![
            "┌─────┬──────┐",
            "│ A   │ Long │",
            "├─────┼──────┤",
            "│ xyz │ b    │",
            "└─────┴──────┘",
        ]
    );
}

#[test]
fn headings_quotes_and_rules() {
    let lines = render_rich_markdown("## Two\n\n> quoted\n\n---", "", AppTheme::OceanDark);
    let texts: Vec<String> = lines.iter().map(|l| l.text()).collect();
    assert_eq!(texts, vec!["## Two", "│ quoted", "──────────────"]);
    assert_eq!(lines[0].spans[0].style.fg, Some(Tone::Cyan));
    assert!(lines[0].spans[0].style.bold);
}

#[test]
fn search_matches_are_highlighted() {
    let lines = render_rich_markdown("find ME here\nnot this", "me", AppTheme::CleanLight);
    assert_eq!(lines[0].spans[0].style.bg, Some(Tone::Yellow));
    assert_eq!(lines[1].spans[0].style.fg, Some(Tone::Rgb(240, 245, 250)));
}

#[test]
fn code_blocks_are_framed_and_labelled() {
    let lines = render_rich_markdown("```rs\nlet x = 1;\n```", "", AppTheme::OceanDark);
    assert_eq!(lines.len(), 3);
    assert!(lines[0].text().contains("[ RS ]"));
    assert_eq!(lines[1].text(), "let x = 1;");
    assert!(lines[2].text().starts_with("└"));
}

#[test]
fn empty_renderings_fall_back_to_the_raw_text() {
    let lines = render_rich_markdown("", "", AppTheme::OceanDark);
    assert_eq!(lines.len(), 1);
    assert_eq!(lines[0].text(), "");
    let html_only = render_rich_markdown("<div>x</div>", "", AppTheme::OceanDark);
    assert_eq!(html_only[0].text(), "<div>x</div>");
}

#[test]
fn list_items_get_bullets_by_depth() {
    let lines = render_rich_markdown("- a\n  - b", "", AppTheme::OceanDark);
    let texts: Vec<String> = lines.iter().map(|l| l.text()).collect();
    assert_eq!(texts, vec!["  • ", "a", "    ⁃ ", "b"]);
}
