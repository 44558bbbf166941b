use pankh::markdown::{markdown_events_of, parse_markdown, EventKind, TagKind, PLAIN_OPTIONS};

#[test]
fn parse_markdown_enables_tables_and_task_lists() {
    let events = parse_markdown("# Title\n\n| a |\n|---|\n| b |\n\n- [x] done");
    assert!(events
        .iter()
        .any(|e| e.kind == EventKind::Start && e.tag == TagKind::Heading && e.level == 1));
    assert!(events.iter().any(|e| e.kind == EventKind::Start && e.tag == TagKind::Table));
    assert!(events.iter().any(|e| e.kind == EventKind::TaskListMarker && e.checked));
    assert!(events.iter().any(|e| e.kind == EventKind::Text && e.text == "Title"));
}

#[test]
fn plain_options_leave_tables_as_text() {
    let events = markdown_events_of("| a |\n|---|\n| b |", PLAIN_OPTIONS);
    assert!(!events.iter().any(|e| e.tag == TagKind::Table));
    assert!(events.iter().any(|e| e.kind == EventKind::Start && e.tag == TagKind::Paragraph));
}
