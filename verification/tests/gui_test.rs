use pankh::gui::{generate_gui_html, markdown_to_html};

#[test]
fn test_markdown_to_html() {
    let md = "# Title\n\nParagraph text with **bold**.";
    let html = markdown_to_html(md);
    assert!(html.contains("<h1>Title</h1>"));
    assert!(html.contains("<strong>bold</strong>"));
}

#[test]
fn test_generate_gui_html() {
    let md = "# Architecture\n\nSystem overview.";
    let html = generate_gui_html(md, Some("README.md"));
    assert!(html.contains("Pankh Reader - README.md"));
    assert!(html.contains("Architecture"));
    assert!(html.contains("Tokens:"));
}

#[test]
fn page_without_file_is_untitled() {
    let html = generate_gui_html("plain", None);
    assert!(html.contains("<title>Pankh Reader - Untitled Document</title>"));
    assert!(html.contains("title=\"No file loaded\""));
    assert!(html.starts_with("<!DOCTYPE html>"));
    assert!(html.ends_with("</html>"));
}

#[test]
fn page_takes_the_file_name_and_counts() {
    let html = generate_gui_html("one two three", Some("docs/guide.md"));
    assert!(html.contains("<title>Pankh Reader - guide.md</title>"));
    assert!(html.contains("title=\"docs/guide.md\""));
    assert!(html.contains("Tokens: <strong>4</strong>"));
    assert!(html.contains("Words: <strong>3</strong>"));
}

#[test]
fn table_of_contents_links_top_level_headings() {
    let html = generate_gui_html("# Intro & <Setup>!\n## Sub\n# Next Step", None);
    assert!(html.contains(
        "<a href=\"#heading-intro--setup\" class=\"toc-link level-1\" style=\"padding-left: 8px;\">Intro &amp; &lt;Setup&gt;!</a>"
    ));
    assert!(html.contains("href=\"#heading-next-step\""));
    assert!(!html.contains("href=\"#heading-sub\""));
}

#[test]
fn titles_are_escaped() {
    let html = generate_gui_html("x", Some("a\"b<c>.md"));
    assert!(html.contains("Pankh Reader - a&quot;b&lt;c&gt;.md"));
}
