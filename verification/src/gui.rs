//! The desktop reader's page: a standalone HTML5 document with a navigation bar, a table of
//! contents and the rendered Markdown.
use crate::agent::{calculate_stats, tokens_for};
use crate::markdown::opt_view;
use crate::outline::{extract_outline, lemma_outline_levels, outline_headings, HeadingView};
use crate::text::{
    alphanumeric, chars_of, decimal, is_alphanumeric, lowercase, push_chars, push_decimal, push_str,
    string_of, to_lower, word_count,
};
use vstd::prelude::*;

verus! {

/// The page up to the document title.
pub const PAGE_HEAD: &'static str = r##"<!DOCTYPE html>
<html lang="en" data-theme="ocean">
<head>
  <meta charset="UTF-8">
  <meta name="viewport" content="width=device-width, initial-scale=1.0">
  <title>Pankh Reader - "##;

/// The page from the title to the path badge: the stylesheet and the navigation bar.
pub const PAGE_STYLE: &'static str = r##"</title>
  <style>
    :root {
      --bg: #0f172a;
      --card-bg: #1e293b;
      --text: #f8fafc;
      --muted: #94a3b8;
      --accent: #38bdf8;
      --border: #334155;
      --code-bg: #020617;
    }
    [data-theme="dracula"] {
      --bg: #282a36;
      --card-bg: #44475a;
      --text: #f8f8f2;
      --muted: #6272a4;
      --accent: #ff79c6;
      --border: #6272a4;
      --code-bg: #191a21;
    }
    [data-theme="gruvbox"] {
      --bg: #282828;
      --card-bg: #3c3836;
      --text: #ebdbb2;
      --muted: #a89984;
      --accent: #fabd2f;
      --border: #504945;
      --code-bg: #1d2021;
    }
    [data-theme="light"] {
      --bg: #f8fafc;
      --card-bg: #ffffff;
      --text: #0f172a;
      --muted: #64748b;
      --accent: #0284c7;
      --border: #e2e8f0;
      --code-bg: #f1f5f9;
    }

    * { box-sizing: border-box; margin: 0; padding: 0; }
    body {
      font-family: -apple-system, BlinkMacSystemFont, "Segoe UI", Roboto, Helvetica, Arial, sans-serif;
      background-color: var(--bg);
      color: var(--text);
      display: flex;
      flex-direction: column;
      height: 100vh;
      overflow: hidden;
      transition: background-color 0.2s, color 0.2s;
    }

    /* Top Glass Navbar */
    header {
      background: var(--card-bg);
      border-bottom: 1px solid var(--border);
      padding: 10px 20px;
      display: flex;
      align-items: center;
      justify-content: space-between;
      gap: 12px;
      user-select: none;
    }
    .brand {
      display: flex;
      align-items: center;
      gap: 10px;
      font-weight: 700;
      font-size: 1.1rem;
      color: var(--accent);
    }
    .doc-meta {
      display: flex;
      align-items: center;
      gap: 12px;
      font-size: 0.85rem;
    }
    .badge {
      background: var(--bg);
      border: 1px solid var(--border);
      padding: 4px 10px;
      border-radius: 999px;
      color: var(--muted);
    }
    .badge strong { color: var(--accent); }

    .controls {
      display: flex;
      align-items: center;
      gap: 8px;
    }
    select, button {
      background: var(--bg);
      color: var(--text);
      border: 1px solid var(--border);
      padding: 6px 12px;
      border-radius: 6px;
      font-size: 0.85rem;
      cursor: pointer;
      outline: none;
    }
    select:hover, button:hover {
      border-color: var(--accent);
    }

    /* Main Container */
    .app-body {
      display: flex;
      flex: 1;
      overflow: hidden;
    }

    /* TOC Sidebar */
    aside {
      width: 280px;
      background: var(--card-bg);
      border-right: 1px solid var(--border);
      overflow-y: auto;
      padding: 16px 8px;
      display: flex;
      flex-direction: column;
      gap: 4px;
    }
    aside h3 {
      font-size: 0.8rem;
      text-transform: uppercase;
      letter-spacing: 0.05em;
      color: var(--muted);
      margin-bottom: 8px;
      padding-left: 8px;
    }
    .toc-link {
      color: var(--text);
      text-decoration: none;
      font-size: 0.88rem;
      padding: 6px 8px;
      border-radius: 4px;
      display: block;
      white-space: nowrap;
      overflow: hidden;
      text-overflow: ellipsis;
    }
    .toc-link:hover {
      background: var(--bg);
      color: var(--accent);
    }

    /* Main Viewport */
    main {
      flex: 1;
      overflow-y: auto;
      padding: 32px 48px;
      line-height: 1.7;
    }
    .markdown-body {
      max-width: 860px;
      margin: 0 auto;
    }
    .markdown-body h1, .markdown-body h2, .markdown-body h3 {
      margin-top: 1.5em;
      margin-bottom: 0.6em;
      color: var(--accent);
      border-bottom: 1px solid var(--border);
      padding-bottom: 0.3em;
    }
    .markdown-body p { margin-bottom: 1em; }
    .markdown-body code {
      background: var(--code-bg);
      border: 1px solid var(--border);
      padding: 2px 6px;
      border-radius: 4px;
      font-family: monospace;
      font-size: 0.9em;
    }
    .markdown-body pre {
      background: var(--code-bg);
      border: 1px solid var(--border);
      padding: 16px;
      border-radius: 8px;
      overflow-x: auto;
      margin-bottom: 1em;
    }
    .markdown-body pre code {
      background: transparent;
      border: none;
      padding: 0;
    }
    .markdown-body table {
      width: 100%;
      border-collapse: collapse;
      margin-bottom: 1em;
    }
    .markdown-body th, .markdown-body td {
      border: 1px solid var(--border);
      padding: 8px 12px;
      text-align: left;
    }
    .markdown-body th {
      background: var(--card-bg);
      color: var(--accent);
    }
    .markdown-body blockquote {
      border-left: 4px solid var(--accent);
      padding-left: 16px;
      color: var(--muted);
      margin-bottom: 1em;
    }
  </style>
</head>
<body>
  <header>
    <div class="brand">
      <span>🪶 Pankh Desktop Reader</span>
    </div>
    <div class="doc-meta">
      <span class="badge" title=""##;

/// Between the path badge and the title in it.
pub const PAGE_PATH_END: &'static str = r##"">📄 <strong>"##;

/// Before the token count.
pub const PAGE_TOKENS: &'static str = r##"</strong></span>
      <span class="badge">⚡ Tokens: <strong>"##;

/// Before the word count.
pub const PAGE_WORDS: &'static str = r##"</strong></span>
      <span class="badge">📝 Words: <strong>"##;

/// The controls and the start of the table of contents.
pub const PAGE_CONTROLS: &'static str = r##"</strong></span>
    </div>
    <div class="controls">
      <button onclick="openFile()">📂 Open File</button>
      <select id="themeSelect" onchange="setTheme(this.value)">
        <option value="ocean">Ocean Dark 🌙</option>
        <option value="dracula">Dracula 🧛</option>
        <option value="gruvbox">Gruvbox 🌲</option>
        <option value="light">Clean Light ☀️</option>
      </select>
      <button onclick="toggleToc()">☰ TOC</button>
    </div>
  </header>

  <div class="app-body">
    <aside id="tocSidebar">
      <h3>Table of Contents</h3>
      "##;

/// Between the table of contents and the rendered document.
pub const PAGE_MAIN: &'static str = r##"
    </aside>

    <main>
      <div class="markdown-body">
        "##;

/// The end of the page: its script.
pub const PAGE_END: &'static str = r##"
      </div>
    </main>
  </div>

  <script>
    function setTheme(theme) {
      document.documentElement.setAttribute('data-theme', theme);
    }
    function toggleToc() {
      const sidebar = document.getElementById('tocSidebar');
      sidebar.style.display = sidebar.style.display === 'none' ? 'flex' : 'none';
    }
    function openFile() {
      if (window.ipc) {
        window.ipc.postMessage('open_file');
      }
    }
    document.addEventListener('keydown', function(e) {
      if (e.ctrlKey && e.key === 'o') {
        e.preventDefault();
        openFile();
      }
    });
  </script>
</body>
</html>"##;

/// The HTML that `pulldown-cmark` renders from Markdown text (CommonMark, no extension).
pub uninterp spec fn commonmark_html(md: Seq<char>) -> Seq<char>;

/// The final component of a path, as `std::path::Path::file_name` finds it (`None` for a
/// path that ends in `..` or is a root).
pub uninterp spec fn path_file_name(path: Seq<char>) -> Option<Seq<char>>;

/// Converts Markdown text into HTML with `pulldown_cmark::html::push_html` over
/// `Parser::new` (CommonMark, no extension).
#[verifier::external_body]
pub fn markdown_to_html(md: &str) -> (r: String)
    ensures
        r@ == commonmark_html(md@),
{
    let parser = pulldown_cmark::Parser::new(md);
    let mut html_output = String::new();
    pulldown_cmark::html::push_html(&mut html_output, parser);
    html_output
}

/// Calls `std::path::Path::file_name` on `path`, the name read back as a string.
#[verifier::external_body]
fn file_name_of(path: &str) -> (r: Option<String>)
    ensures
        opt_view(r) == path_file_name(path@),
{
    std::path::Path::new(path).file_name().map(|n| n.to_string_lossy().into_owned())
}

/// The HTML escape of one character.
pub open spec fn escape_char(c: char) -> Seq<char> {
    if c == '&' {
        "&amp;"@
    } else if c == '<' {
        "&lt;"@
    } else if c == '>' {
        "&gt;"@
    } else if c == '"' {
        "&quot;"@
    } else {
        seq![c]
    }
}

/// `s` with `&`, `<`, `>` and `"` escaped for HTML.
pub open spec fn escape_html(s: Seq<char>) -> Seq<char>
    decreases s.len(),
{
    if s.len() == 0 {
        seq![]
    } else {
        escape_html(s.drop_last()) + escape_char(s.last())
    }
}

/// Escaped text holds no `<`, `>` or `"`: what it shows cannot open or close markup.
pub proof fn law_escaped_text_has_no_markup(s: Seq<char>)
    ensures
        forall|i: int|
            0 <= i < escape_html(s).len() ==> #[trigger] escape_html(s)[i] != '<' && escape_html(s)[i]
                != '>' && escape_html(s)[i] != '"',
    decreases s.len(),
{
    if s.len() > 0 {
        law_escaped_text_has_no_markup(s.drop_last());
        let a = escape_html(s.drop_last());
        let b = escape_char(s.last());
        reveal_strlit("&amp;");
        reveal_strlit("&lt;");
        reveal_strlit("&gt;");
        reveal_strlit("&quot;");
        assert forall|i: int| 0 <= i < escape_html(s).len() implies #[trigger] escape_html(s)[i]
            != '<' && escape_html(s)[i] != '>' && escape_html(s)[i] != '"' by {
            if i >= a.len() {
                assert(escape_html(s)[i] == b[i - a.len()]);
            } else {
                assert(escape_html(s)[i] == a[i]);
            }
        }
    }
}

/// The anchor slug of a title: lowercase, only alphanumerics and spaces kept, spaces made
/// dashes.
pub open spec fn toc_slug(title: Seq<char>) -> Seq<char> {
    lowercase(title).filter(|c: char| alphanumeric(c) || c == ' ').map_values(
        |c: char| if c == ' ' { '-' } else { c },
    )
}

/// The left padding of a table of contents entry for a heading of `level`.
pub open spec fn toc_padding(level: u32) -> nat {
    (if level >= 1 { (level - 1) as nat } else { 0 }) * 12 + 8
}

/// The table of contents link of a heading.
pub open spec fn toc_entry(h: HeadingView) -> Seq<char> {
    "<a href=\"#heading-"@ + toc_slug(h.title) + "\" class=\"toc-link level-"@ + decimal(
        h.level as nat,
    ) + "\" style=\"padding-left: "@ + decimal(toc_padding(h.level)) + "px;\">"@ + escape_html(h.title)
        + "</a>"@
}

/// The table of contents of the top-level headings.
pub open spec fn toc_html(hs: Seq<HeadingView>) -> Seq<char>
    decreases hs.len(),
{
    if hs.len() == 0 {
        seq![]
    } else {
        toc_html(hs.drop_last()) + toc_entry(hs.last())
    }
}

/// The page around its parts.
pub open spec fn page(
    title: Seq<char>,
    path: Seq<char>,
    tokens: nat,
    words: nat,
    toc: Seq<char>,
    body: Seq<char>,
) -> Seq<char> {
    PAGE_HEAD@ + title + PAGE_STYLE@ + path + PAGE_PATH_END@ + title + PAGE_TOKENS@ + decimal(tokens)
        + PAGE_WORDS@ + decimal(words) + PAGE_CONTROLS@ + toc + PAGE_MAIN@ + body + PAGE_END@
}

/// The desktop reader's page for `content`, read from `file_path` if given.
pub open spec fn gui_page(content: Seq<char>, file_path: Option<Seq<char>>) -> Seq<char> {
    let title = match file_path {
        Some(p) => match path_file_name(p) {
            Some(n) => n,
            None => "Untitled Document"@,
        },
        None => "Untitled Document"@,
    };
    let path = match file_path {
        Some(p) => p,
        None => "No file loaded"@,
    };
    page(
        escape_html(title),
        escape_html(path),
        tokens_for(content.len()),
        word_count(content),
        toc_html(outline_headings(content)),
        commonmark_html(content),
    )
}

/// Escapes `&`, `<`, `>` and `"` for HTML.
fn html_escape(input: &str) -> (r: String)
    ensures
        r@ == escape_html(input@),
{
    let cs = chars_of(input);
    let mut out = String::new();
    let mut i: usize = 0;
    while i < cs.len()
        invariant
            i <= cs.len(),
            cs@ == input@,
            out@ == escape_html(cs@.take(i as int)),
        decreases cs.len() - i,
    {
        let c = cs[i];
        if c == '&' {
            push_str(&mut out, "&amp;");
        } else if c == '<' {
            push_str(&mut out, "&lt;");
        } else if c == '>' {
            push_str(&mut out, "&gt;");
        } else if c == '"' {
            push_str(&mut out, "&quot;");
        } else {
            crate::text::push_char(&mut out, c);
        }
        assert(cs@.take(i + 1).drop_last() =~= cs@.take(i as int));
        i += 1;
    }
    assert(cs@.take(i as int) =~= cs@);
    out
}

/// The anchor slug of a title.
fn slug_of(title: &str) -> (r: Vec<char>)
    ensures
        r@ == toc_slug(title@),
{
    let lower = to_lower(title);
    let cs = chars_of(lower.as_str());
    let ghost keep = |c: char| alphanumeric(c) || c == ' ';
    let ghost dash = |c: char| if c == ' ' { '-' } else { c };
    let mut out: Vec<char> = Vec::new();
    let mut i: usize = 0;
    while i < cs.len()
        invariant
            i <= cs.len(),
            cs@ == lowercase(title@),
            keep == (|c: char| alphanumeric(c) || c == ' '),
            dash == (|c: char| if c == ' ' { '-' } else { c }),
            out@ == cs@.take(i as int).filter(keep).map_values(dash),
        decreases cs.len() - i,
    {
        let c = cs[i];
        let ghost before = cs@.take(i as int);
        assert(cs@.take(i + 1) =~= before.push(c));
        let k = is_alphanumeric(c) || c == ' ';
        if k {
            out.push(if c == ' ' { '-' } else { c });
        }
        i += 1;
        assert(before.push(c).filter(keep) == if keep(c) {
            before.filter(keep).push(c)
        } else {
            before.filter(keep)
        }) by {
            reveal(Seq::filter);
            assert(before.push(c).drop_last() =~= before);
        }
        assert(out@ =~= cs@.take(i as int).filter(keep).map_values(dash));
    }
    assert(cs@.take(i as int) =~= cs@);
    out
}

/// Generates the desktop reader's page: a standalone HTML5 document with the document's
/// title, token and word counts, a table of contents of its top-level headings and its
/// rendered Markdown.
pub fn generate_gui_html(content: &str, file_path: Option<&str>) -> (r: String)
    ensures
        r@ == gui_page(
            content@,
            match file_path {
                Some(p) => Some(p@),
                None => None,
            },
        ),
{
    let rendered_body = markdown_to_html(content);
    let outline = extract_outline(content);
    let stats = calculate_stats(content);
    let doc_title = match file_path {
        Some(p) => match file_name_of(p) {
            Some(n) => n,
            None => {
                let mut s = String::new();
                push_str(&mut s, "Untitled Document");
                s
            },
        },
        None => {
            let mut s = String::new();
            push_str(&mut s, "Untitled Document");
            s
        },
    };
    let path_str = match file_path {
        Some(p) => {
            let mut s = String::new();
            push_str(&mut s, p);
            s
        },
        None => {
            let mut s = String::new();
            push_str(&mut s, "No file loaded");
            s
        },
    };
    let mut toc = String::new();
    let ghost hs = crate::outline::headings_view(outline.headings@);
    proof {
        crate::outline::lemma_headings_view(outline.headings@);
        lemma_outline_levels(content@);
    }
    let mut i: usize = 0;
    while i < outline.headings.len()
        invariant
            i <= outline.headings@.len(),
            hs == crate::outline::headings_view(outline.headings@),
            hs == outline_headings(content@),
            hs.len() == outline.headings@.len(),
            forall|j: int|
                0 <= j < outline.headings@.len() ==> hs[j] == crate::outline::heading_view(
                    #[trigger] outline.headings@[j],
                ),
            forall|j: int| 0 <= j < hs.len() ==> 1 <= (#[trigger] hs[j]).level <= 6,
            toc@ == toc_html(hs.take(i as int)),
        decreases outline.headings.len() - i,
    {
        let node = &outline.headings[i];
        assert(hs[i as int].level == node.level);
        let slug = slug_of(node.title.as_str());
        let level = node.level;
        let indent = (level - 1) * 12 + 8;
        let ghost before = toc@;
        push_str(&mut toc, "<a href=\"#heading-");
        push_chars(&mut toc, slug.as_slice());
        push_str(&mut toc, "\" class=\"toc-link level-");
        push_decimal(&mut toc, level as usize);
        push_str(&mut toc, "\" style=\"padding-left: ");
        push_decimal(&mut toc, indent as usize);
        push_str(&mut toc, "px;\">");
        let esc = html_escape(node.title.as_str());
        push_str(&mut toc, esc.as_str());
        push_str(&mut toc, "</a>");
        assert(hs.take(i + 1).drop_last() =~= hs.take(i as int));
        i += 1;
        assert(toc@ =~= before + toc_entry(hs[i - 1]));
    }
    assert(hs.take(i as int) =~= hs);
    let title_esc = html_escape(doc_title.as_str());
    let path_esc = html_escape(path_str.as_str());
    let mut out = String::new();
    push_str(&mut out, PAGE_HEAD);
    push_str(&mut out, title_esc.as_str());
    push_str(&mut out, PAGE_STYLE);
    push_str(&mut out, path_esc.as_str());
    push_str(&mut out, PAGE_PATH_END);
    push_str(&mut out, title_esc.as_str());
    push_str(&mut out, PAGE_TOKENS);
    push_decimal(&mut out, stats.estimated_tokens);
    push_str(&mut out, PAGE_WORDS);
    push_decimal(&mut out, stats.words);
    push_str(&mut out, PAGE_CONTROLS);
    push_str(&mut out, toc.as_str());
    push_str(&mut out, PAGE_MAIN);
    push_str(&mut out, rendered_body.as_str());
    push_str(&mut out, PAGE_END);
    out
}

} // verus!
