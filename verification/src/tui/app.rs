//! The reader's state machine: document, scrolling, table of contents, search, link
//! navigation with history, themes and the fuzzy file finder.
use crate::agent::{
    calculate_stats, clean_markdown, clean_markdown_spec, code_blocks_spec, extract_code_blocks,
    tokens_for, CodeBlockView,
};
use crate::markdown::{markdown_events, markdown_events_of, EventKind, MdEvent, MdEventView, TagKind, PLAIN_OPTIONS};
use crate::outline::{
    count_all, heading_view, headings_view, lemma_count_all_child, lemma_count_all_push,
    lemma_headings_view, lemma_headings_view_take, preorder, HeadingNode, HeadingView,
};
use crate::text::{
    chars_of, contains, contains_chars, decimal, lines, lower_chars, lowercase, newlines,
    push_chars, push_decimal, push_str, string_of, trim, trim_chars,
};
use crate::outline::{dec, extract_outline, hashes_end, outline_headings};
use crate::tui::render::{render_rich_markdown, render_spec, Tone};
use vstd::prelude::*;
use vstd::utf8::encode_utf8;

verus! {

/// The color themes of the reader.
#[derive(Debug, Clone, Copy, PartialEq, Eq, Structural)]
pub enum AppTheme {
    OceanDark,
    Dracula,
    Gruvbox,
    CleanLight,
}

/// The display name of a theme.
pub open spec fn theme_name(t: AppTheme) -> Seq<char> {
    match t {
        AppTheme::OceanDark => "Ocean Dark 🌙"@,
        AppTheme::Dracula => "Dracula 🧛"@,
        AppTheme::Gruvbox => "Gruvbox 🌲"@,
        AppTheme::CleanLight => "Clean Light ☀️"@,
    }
}

/// The theme after `t` in the cycle Ocean Dark, Dracula, Gruvbox, Clean Light.
pub open spec fn theme_next(t: AppTheme) -> AppTheme {
    match t {
        AppTheme::OceanDark => AppTheme::Dracula,
        AppTheme::Dracula => AppTheme::Gruvbox,
        AppTheme::Gruvbox => AppTheme::CleanLight,
        AppTheme::CleanLight => AppTheme::OceanDark,
    }
}

/// The border color of a theme.
pub open spec fn theme_border_tone(t: AppTheme) -> Tone {
    match t {
        AppTheme::OceanDark => Tone::Blue,
        AppTheme::Dracula => Tone::Magenta,
        AppTheme::Gruvbox => Tone::Yellow,
        AppTheme::CleanLight => Tone::Rgb(255, 180, 0),
    }
}

/// The header color of a theme.
pub open spec fn theme_header_tone(t: AppTheme) -> Tone {
    match t {
        AppTheme::OceanDark => Tone::Cyan,
        AppTheme::Dracula => Tone::LightRed,
        AppTheme::Gruvbox => Tone::Rgb(251, 73, 52),
        AppTheme::CleanLight => Tone::Rgb(255, 215, 0),
    }
}

/// The text color of a theme.
pub open spec fn theme_text_tone(t: AppTheme) -> Tone {
    match t {
        AppTheme::CleanLight => Tone::Rgb(240, 245, 250),
        _ => Tone::White,
    }
}

/// The name of the `syntect` highlighting theme of a theme.
pub open spec fn theme_syntect_name(t: AppTheme) -> Seq<char> {
    match t {
        AppTheme::Gruvbox => "base16-eighties.dark"@,
        AppTheme::Dracula => "base16-mocha.dark"@,
        _ => "base16-ocean.dark"@,
    }
}

impl AppTheme {
    /// The display name of the theme.
    pub fn name(&self) -> (r: &'static str)
        ensures
            r@ == theme_name(*self),
    {
        match self {
            AppTheme::OceanDark => "Ocean Dark 🌙",
            AppTheme::Dracula => "Dracula 🧛",
            AppTheme::Gruvbox => "Gruvbox 🌲",
            AppTheme::CleanLight => "Clean Light ☀️",
        }
    }

    /// The next theme in the cycle.
    pub fn next(&self) -> (r: Self)
        ensures
            r == theme_next(*self),
    {
        match self {
            AppTheme::OceanDark => AppTheme::Dracula,
            AppTheme::Dracula => AppTheme::Gruvbox,
            AppTheme::Gruvbox => AppTheme::CleanLight,
            AppTheme::CleanLight => AppTheme::OceanDark,
        }
    }

    /// The border color.
    pub fn border_color(&self) -> (r: Tone)
        ensures
            r == theme_border_tone(*self),
    {
        match self {
            AppTheme::OceanDark => Tone::Blue,
            AppTheme::Dracula => Tone::Magenta,
            AppTheme::Gruvbox => Tone::Yellow,
            AppTheme::CleanLight => Tone::Rgb(255, 180, 0),
        }
    }

    /// The color of headers.
    pub fn header_color(&self) -> (r: Tone)
        ensures
            r == theme_header_tone(*self),
    {
        match self {
            AppTheme::OceanDark => Tone::Cyan,
            AppTheme::Dracula => Tone::LightRed,
            AppTheme::Gruvbox => Tone::Rgb(251, 73, 52),
            AppTheme::CleanLight => Tone::Rgb(255, 215, 0),
        }
    }

    /// The color of body text.
    pub fn text_color(&self) -> (r: Tone)
        ensures
            r == theme_text_tone(*self),
    {
        match self {
            AppTheme::CleanLight => Tone::Rgb(240, 245, 250),
            _ => Tone::White,
        }
    }

    /// The `syntect` theme that highlights code blocks.
    pub fn syntect_theme(&self) -> (r: &'static str)
        ensures
            r@ == theme_syntect_name(*self),
    {
        match self {
            AppTheme::Gruvbox => "base16-eighties.dark",
            AppTheme::Dracula => "base16-mocha.dark",
            _ => "base16-ocean.dark",
        }
    }
}

/// Cycling through the themes comes back to the start after four steps, and visits four
/// different themes on the way.
pub proof fn law_theme_cycle(t: AppTheme)
    ensures
        theme_next(theme_next(theme_next(theme_next(t)))) == t,
        theme_next(t) != t,
        theme_next(theme_next(t)) != t,
        theme_next(theme_next(theme_next(t))) != t,
{
}

/// A copy of a list of heading nodes and their subtrees.
pub fn copy_headings(nodes: &[HeadingNode]) -> (r: Vec<HeadingNode>)
    ensures
        headings_view(r@) == headings_view(nodes@),
    decreases count_all(headings_view(nodes@)),
{
    let mut r: Vec<HeadingNode> = Vec::new();
    let mut i: usize = 0;
    proof {
        lemma_headings_view(nodes@);
        assert(nodes@.take(0) =~= Seq::<HeadingNode>::empty());
    }
    while i < nodes.len()
        invariant
            i <= nodes.len(),
            headings_view(nodes@).len() == nodes@.len(),
            forall|j: int|
                0 <= j < nodes@.len() ==> headings_view(nodes@)[j] == heading_view(
                    #[trigger] nodes@[j],
                ),
            headings_view(r@) == headings_view(nodes@.take(i as int)),
        decreases nodes.len() - i,
    {
        proof {
            lemma_count_all_child(headings_view(nodes@), i as int);
            lemma_headings_view_take(nodes@, i as int);
        }
        let n = &nodes[i];
        let children = copy_headings(n.children.as_slice());
        let c = HeadingNode {
            level: n.level,
            title: n.title.clone(),
            start_line: n.start_line,
            end_line: n.end_line,
            token_count: n.token_count,
            character_count: n.character_count,
            children,
        };
        assert(heading_view(c) == heading_view(*n));
        let ghost before = r@;
        r.push(c);
        proof {
            crate::outline::lemma_headings_view_push(before, c);
        }
        i += 1;
    }
    assert(nodes@.take(nodes@.len() as int) =~= nodes@);
    r
}

/// A copy of a heading node and its subtree.
pub fn copy_node(n: &HeadingNode) -> (r: HeadingNode)
    ensures
        heading_view(r) == heading_view(*n),
{
    HeadingNode {
        level: n.level,
        title: n.title.clone(),
        start_line: n.start_line,
        end_line: n.end_line,
        token_count: n.token_count,
        character_count: n.character_count,
        children: copy_headings(n.children.as_slice()),
    }
}

/// `headings_view` of a concatenation.
pub proof fn lemma_headings_view_concat(a: Seq<HeadingNode>, b: Seq<HeadingNode>)
    ensures
        headings_view(a + b) == headings_view(a) + headings_view(b),
{
    lemma_headings_view(a);
    lemma_headings_view(b);
    lemma_headings_view(a + b);
    assert forall|i: int| 0 <= i < (a + b).len() implies #[trigger] headings_view(a + b)[i] == (
    headings_view(a) + headings_view(b))[i] by {
        if i < a.len() {
            assert((a + b)[i] == a[i]);
        } else {
            assert((a + b)[i] == b[i - a.len()]);
        }
    }
    assert(headings_view(a + b) =~= headings_view(a) + headings_view(b));
}

/// The headings of a forest in document order: each node (with its subtree) followed by
/// its descendants.
pub fn flatten_headings(nodes: &[HeadingNode]) -> (r: Vec<HeadingNode>)
    ensures
        headings_view(r@) == preorder(headings_view(nodes@)),
    decreases count_all(headings_view(nodes@)),
{
    let mut flat: Vec<HeadingNode> = Vec::new();
    let mut i: usize = 0;
    proof {
        lemma_headings_view(nodes@);
        assert(nodes@.take(0) =~= Seq::<HeadingNode>::empty());
    }
    while i < nodes.len()
        invariant
            i <= nodes.len(),
            headings_view(nodes@).len() == nodes@.len(),
            forall|j: int|
                0 <= j < nodes@.len() ==> headings_view(nodes@)[j] == heading_view(
                    #[trigger] nodes@[j],
                ),
            headings_view(flat@) == preorder(headings_view(nodes@.take(i as int))),
        decreases nodes.len() - i,
    {
        proof {
            lemma_count_all_child(headings_view(nodes@), i as int);
            lemma_headings_view_take(nodes@, i as int);
        }
        let n = &nodes[i];
        let c = copy_node(n);
        let ghost before = flat@;
        flat.push(c);
        proof {
            crate::outline::lemma_headings_view_push(before, c);
        }
        let mut sub = flatten_headings(n.children.as_slice());
        let ghost mid = flat@;
        let ghost subv = sub@;
        flat.append(&mut sub);
        proof {
            lemma_headings_view_concat(mid, subv);
            let p = headings_view(nodes@.take(i as int)).push(heading_view(nodes@[i as int]));
            assert(p.drop_last() =~= headings_view(nodes@.take(i as int)));
            assert(headings_view(flat@) =~= preorder(p));
        }
        i += 1;
    }
    assert(nodes@.take(nodes@.len() as int) =~= nodes@);
    flat
}

// ---------------------------------------------------------------------------
// Links
// ---------------------------------------------------------------------------

/// A Markdown link and the line it was found on.
#[derive(Debug, Clone, PartialEq, Eq)]
pub struct DocumentLink {
    pub line_number: usize,
    pub label: String,
    pub url: String,
}

/// The value of a link.
#[verifier::ext_equal]
pub struct LinkView {
    pub line_number: usize,
    pub label: Seq<char>,
    pub url: Seq<char>,
}

impl View for DocumentLink {
    type V = LinkView;

    open spec fn view(&self) -> LinkView {
        LinkView { line_number: self.line_number, label: self.label@, url: self.url@ }
    }
}

/// The values of a list of links.
pub open spec fn links_view(v: Seq<DocumentLink>) -> Seq<LinkView> {
    v.map_values(|l: DocumentLink| l@)
}

/// The state of the link scan: links found, whether a link is open, its label and
/// destination so far, and the source line it starts on.
#[verifier::ext_equal]
pub struct LinkState {
    pub links: Seq<LinkView>,
    pub in_link: bool,
    pub label: Seq<char>,
    pub url: Seq<char>,
    pub line: usize,
}

/// `a + b`, or `usize::MAX` when it does not fit.
pub open spec fn add_capped(a: usize, b: nat) -> usize {
    if a + b > usize::MAX {
        usize::MAX
    } else {
        (a + b) as usize
    }
}

/// Number of newline bytes (`b'\n'`) in `b`.
pub open spec fn newline_bytes(b: Seq<u8>) -> nat
    decreases b.len(),
{
    if b.len() == 0 {
        0
    } else {
        newline_bytes(b.drop_last()) + if b.last() == 10 {
            1nat
        } else {
            0nat
        }
    }
}

/// The line (from 1) of the UTF-8 text `src` that byte offset `off` falls on: one more than
/// the newlines before it.
pub open spec fn line_at_offset(src: Seq<u8>, off: usize) -> usize {
    add_capped(1, newline_bytes(src.take(if off <= src.len() { off as int } else { src.len() as int })))
}

/// One event read by the link scan over the source bytes `src`.
pub open spec fn link_step(src: Seq<u8>, st: LinkState, e: MdEventView) -> LinkState {
    if e.kind == EventKind::Start && e.tag == TagKind::Link {
        LinkState { in_link: true, label: seq![], url: e.text, line: line_at_offset(src, e.offset), ..st }
    } else if e.kind == EventKind::Text {
        LinkState {
            label: if st.in_link {
                st.label + e.text
            } else {
                st.label
            },
            ..st
        }
    } else if e.kind == EventKind::End && e.tag == TagKind::Link && st.in_link {
        LinkState {
            links: st.links.push(LinkView { line_number: st.line, label: trim(st.label), url: st.url }),
            in_link: false,
            ..st
        }
    } else {
        st
    }
}

/// The link scan after the first `n` events.
pub open spec fn link_fold(src: Seq<u8>, es: Seq<MdEventView>, n: int) -> LinkState
    decreases n,
{
    if n <= 0 || n > es.len() {
        LinkState { links: seq![], in_link: false, label: seq![], url: seq![], line: 1 }
    } else {
        link_step(src, link_fold(src, es, n - 1), es[n - 1])
    }
}

/// The links of a document (plain CommonMark), each with the source line where it starts.
pub open spec fn document_links(content: Seq<char>) -> Seq<LinkView> {
    let es = markdown_events(content, PLAIN_OPTIONS);
    link_fold(encode_utf8(content), es, es.len() as int).links
}

/// The line (from 1) that byte offset `off` of `src` falls on.
fn line_of_offset(src: &[u8], off: usize) -> (r: usize)
    ensures
        r == line_at_offset(src@, off),
{
    let end = if off <= src.len() {
        off
    } else {
        src.len()
    };
    let mut n: usize = 0;
    let mut i: usize = 0;
    while i < end
        invariant
            i <= end <= src@.len(),
            n == newline_bytes(src@.take(i as int)),
            n <= i,
        decreases end - i,
    {
        assert(src@.take(i + 1).drop_last() =~= src@.take(i as int));
        if src[i] == 10 {
            n += 1;
        }
        i += 1;
    }
    n.saturating_add(1)
}

/// Extracts the links of a Markdown document with the source line each starts on.
pub fn extract_document_links(content: &str) -> (r: Vec<DocumentLink>)
    ensures
        links_view(r@) == document_links(content@),
{
    let events = markdown_events_of(content, PLAIN_OPTIONS);
    let ghost es = markdown_events(content@, PLAIN_OPTIONS);
    let src = content.as_bytes();
    let ghost sb = encode_utf8(content@);
    assert(src@ == sb);
    let mut links: Vec<DocumentLink> = Vec::new();
    let mut in_link = false;
    let mut label: Vec<char> = Vec::new();
    let mut url = String::new();
    let mut line: usize = 1;
    let mut i: usize = 0;
    assert(link_fold(sb, es, 0) =~= (LinkState {
        links: links_view(links@),
        in_link,
        label: label@,
        url: url@,
        line,
    }));
    while i < events.len()
        invariant
            i <= events@.len(),
            events@.len() == es.len(),
            src@ == sb,
            forall|j: int| 0 <= j < events@.len() ==> (#[trigger] events@[j])@ == es[j],
            link_fold(sb, es, i as int) == (LinkState {
                links: links_view(links@),
                in_link,
                label: label@,
                url: url@,
                line,
            }),
        decreases events.len() - i,
    {
        let e = &events[i];
        assert(e@ == es[i as int]);
        if e.kind == EventKind::Start && e.tag == TagKind::Link {
            in_link = true;
            label = Vec::new();
            url = e.text.clone();
            line = line_of_offset(src, e.offset);
        } else if e.kind == EventKind::Text {
            if in_link {
                let text = chars_of(e.text.as_str());
                let mut k: usize = 0;
                let ghost b = label@;
                while k < text.len()
                    invariant
                        k <= text@.len(),
                        label@ == b + text@.take(k as int),
                    decreases text.len() - k,
                {
                    label.push(text[k]);
                    k += 1;
                    assert(label@ =~= b + text@.take(k as int));
                }
                assert(text@.take(k as int) =~= text@);
            }
        } else if e.kind == EventKind::End && e.tag == TagKind::Link && in_link {
            let t = trim_chars(label.as_slice());
            let link = DocumentLink { line_number: line, label: string_of(t.as_slice()), url: url.clone() };
            let ghost b = links@;
            links.push(link);
            assert(links_view(links@) =~= links_view(b).push(link@));
            in_link = false;
        }
        i += 1;
        assert(link_fold(sb, es, i as int) =~= (LinkState {
            links: links_view(links@),
            in_link,
            label: label@,
            url: url@,
            line,
        }));
    }
    links
}

// ---------------------------------------------------------------------------
// The reader
// ---------------------------------------------------------------------------

/// The state of the terminal reader.
pub struct App {
    pub raw_text: String,
    pub cleaned_text: String,
    pub scroll_offset: u16,
    pub rendered_line_count: usize,
    pub show_toc: bool,
    pub selected_toc_index: usize,
    pub headings: Vec<HeadingNode>,
    pub links: Vec<DocumentLink>,
    pub history_stack: Vec<(String, String, u16, Option<String>)>,
    pub active_path: Option<String>,
    pub search_active: bool,
    pub search_query: String,
    pub search_matches: Vec<u16>,
    pub current_search_match: usize,
    pub status_message: Option<String>,
    pub estimated_tokens: usize,
    pub should_quit: bool,
    pub theme: AppTheme,
    pub fuzzy_active: bool,
    pub fuzzy_query: String,
    pub fuzzy_files: Vec<(String, usize)>,
    pub fuzzy_matches: Vec<(String, usize)>,
    pub fuzzy_selected_index: usize,
}

/// The value of the reader's state.
#[verifier::ext_equal]
pub struct AppView {
    pub raw_text: Seq<char>,
    pub cleaned_text: Seq<char>,
    pub scroll_offset: u16,
    pub rendered_line_count: usize,
    pub show_toc: bool,
    pub selected_toc_index: usize,
    pub headings: Seq<HeadingView>,
    pub links: Seq<LinkView>,
    pub history: Seq<(Seq<char>, Seq<char>, u16, Option<Seq<char>>)>,
    pub active_path: Option<Seq<char>>,
    pub search_active: bool,
    pub search_query: Seq<char>,
    pub search_matches: Seq<u16>,
    pub current_search_match: usize,
    pub status_message: Option<Seq<char>>,
    pub estimated_tokens: usize,
    pub should_quit: bool,
    pub theme: AppTheme,
    pub fuzzy_active: bool,
    pub fuzzy_query: Seq<char>,
    pub fuzzy_files: Seq<(Seq<char>, usize)>,
    pub fuzzy_matches: Seq<(Seq<char>, usize)>,
    pub fuzzy_selected_index: usize,
}

/// The value of a history entry: the text, the title it was left for, the scroll offset
/// and the path.
pub open spec fn history_view(v: Seq<(String, String, u16, Option<String>)>) -> Seq<
    (Seq<char>, Seq<char>, u16, Option<Seq<char>>),
> {
    v.map_values(
        |h: (String, String, u16, Option<String>)| (h.0@, h.1@, h.2, crate::markdown::opt_view(h.3)),
    )
}

/// The value of a list of files with their token counts.
pub open spec fn files_view(v: Seq<(String, usize)>) -> Seq<(Seq<char>, usize)> {
    v.map_values(|f: (String, usize)| (f.0@, f.1))
}

impl View for App {
    type V = AppView;

    open spec fn view(&self) -> AppView {
        AppView {
            raw_text: self.raw_text@,
            cleaned_text: self.cleaned_text@,
            scroll_offset: self.scroll_offset,
            rendered_line_count: self.rendered_line_count,
            show_toc: self.show_toc,
            selected_toc_index: self.selected_toc_index,
            headings: headings_view(self.headings@),
            links: links_view(self.links@),
            history: history_view(self.history_stack@),
            active_path: crate::markdown::opt_view(self.active_path),
            search_active: self.search_active,
            search_query: self.search_query@,
            search_matches: self.search_matches@,
            current_search_match: self.current_search_match,
            status_message: crate::markdown::opt_view(self.status_message),
            estimated_tokens: self.estimated_tokens,
            should_quit: self.should_quit,
            theme: self.theme,
            fuzzy_active: self.fuzzy_active,
            fuzzy_query: self.fuzzy_query@,
            fuzzy_files: files_view(self.fuzzy_files@),
            fuzzy_matches: files_view(self.fuzzy_matches@),
            fuzzy_selected_index: self.fuzzy_selected_index,
        }
    }
}

/// `v` showing the document `content`: its text, clean text, rendered line count, flattened
/// headings, links and token estimate.
pub open spec fn with_document(v: AppView, content: Seq<char>) -> AppView {
    AppView {
        raw_text: content,
        cleaned_text: clean_markdown_spec(content),
        rendered_line_count: render_spec(content, ""@, v.theme).len() as usize,
        headings: preorder(outline_headings(content)),
        links: document_links(content),
        estimated_tokens: tokens_for(content.len()) as usize,
        ..v
    }
}

/// The reader after a live reload that read `content` anew from the active path: the new
/// text with what derives from it and a status line naming the path; unchanged where
/// there is no active path or nothing was read.
pub open spec fn reload_spec(v: AppView, content: Option<Seq<char>>) -> AppView {
    match (v.active_path, content) {
        (Some(p), Some(c)) => AppView {
            status_message: Some("[Watcher] Live reloaded "@ + p),
            ..with_document(v, c)
        },
        _ => v,
    }
}

/// A live reload keeps the reader's place: the scroll offset, the table of contents and
/// its selection, the history, the active path and the theme stay as they were, while the
/// text and all that derives from it are those of the file as read.
pub proof fn law_live_reload_keeps_place(v: AppView, content: Seq<char>)
    requires
        v.active_path is Some,
    ensures
        reload_spec(v, Some(content)).scroll_offset == v.scroll_offset,
        reload_spec(v, Some(content)).show_toc == v.show_toc,
        reload_spec(v, Some(content)).selected_toc_index == v.selected_toc_index,
        reload_spec(v, Some(content)).history == v.history,
        reload_spec(v, Some(content)).active_path == v.active_path,
        reload_spec(v, Some(content)).theme == v.theme,
        reload_spec(v, Some(content)).raw_text == content,
        consistent(reload_spec(v, Some(content))),
{
    let r = reload_spec(v, Some(content));
    assert(with_document(r, r.raw_text) =~= r);
}

/// Whether the document-derived parts of `v` are those of its text.
pub open spec fn consistent(v: AppView) -> bool {
    with_document(v, v.raw_text) == v
}

/// The reader opened on `content`.
pub open spec fn initial_view(content: Seq<char>) -> AppView {
    with_document(
        AppView {
            raw_text: seq![],
            cleaned_text: seq![],
            scroll_offset: 0,
            rendered_line_count: 0,
            show_toc: false,
            selected_toc_index: 0,
            headings: seq![],
            links: seq![],
            history: seq![],
            active_path: None,
            search_active: false,
            search_query: seq![],
            search_matches: seq![],
            current_search_match: 0,
            status_message: None,
            estimated_tokens: 0,
            should_quit: false,
            theme: AppTheme::OceanDark,
            fuzzy_active: false,
            fuzzy_query: seq![],
            fuzzy_files: seq![],
            fuzzy_matches: seq![],
            fuzzy_selected_index: 0,
        },
        content,
    )
}

/// The largest scroll offset: the last rendered line, as `u16`.
pub open spec fn max_scroll(v: AppView) -> u16 {
    (if v.rendered_line_count >= 1 {
        v.rendered_line_count - 1
    } else {
        0
    }) as u16
}

/// `a + b` in `u16`, or `u16::MAX` when it does not fit.
pub open spec fn u16_add_capped(a: u16, b: u16) -> u16 {
    if a + b > u16::MAX {
        u16::MAX
    } else {
        (a + b) as u16
    }
}

/// Loading `content` under `title` from `new_path`, remembering the current document.
pub open spec fn load_spec(
    v: AppView,
    content: Seq<char>,
    title: Seq<char>,
    new_path: Option<Seq<char>>,
) -> AppView {
    let pushed = AppView {
        history: v.history.push((v.raw_text, title, v.scroll_offset, v.active_path)),
        ..v
    };
    AppView {
        scroll_offset: 0,
        active_path: new_path,
        status_message: Some("Loaded document: "@ + title),
        ..with_document(pushed, content)
    }
}

/// Going back to the last document of the history.
pub open spec fn backtrack_spec(v: AppView) -> AppView {
    if v.history.len() > 0 {
        let h = v.history.last();
        AppView {
            history: v.history.drop_last(),
            scroll_offset: h.2,
            active_path: h.3,
            status_message: Some("Backtracked to: "@ + h.1),
            ..with_document(v, h.0)
        }
    } else {
        AppView { status_message: Some("Already at root document."@), ..v }
    }
}

impl App {
    /// Sets the document-derived parts of the state from `content`.
    fn show_document(&mut self, content: &str)
        ensures
            final(self)@ == with_document(old(self)@, content@),
    {
        let outline = extract_outline(content);
        let stats = calculate_stats(content);
        let cleaned = clean_markdown(content);
        let flat = flatten_headings(outline.headings.as_slice());
        let links = extract_document_links(content);
        let rendered = render_rich_markdown(content, "", self.theme);
        let mut raw = String::new();
        push_str(&mut raw, content);
        self.raw_text = raw;
        self.cleaned_text = cleaned;
        self.rendered_line_count = rendered.len();
        assert(rendered@.len() == crate::tui::render::lines_view(rendered@).len());
        self.headings = flat;
        self.links = links;
        self.estimated_tokens = stats.estimated_tokens;
        assert(self@ =~= with_document(old(self)@, content@));
    }

    /// Opens the reader on `content`.
    pub fn new(content: &str) -> (r: Self)
        ensures
            r@ == initial_view(content@),
    {
        let mut app = App {
            raw_text: String::new(),
            cleaned_text: String::new(),
            scroll_offset: 0,
            rendered_line_count: 0,
            show_toc: false,
            selected_toc_index: 0,
            headings: Vec::new(),
            links: Vec::new(),
            history_stack: Vec::new(),
            active_path: None,
            search_active: false,
            search_query: String::new(),
            search_matches: Vec::new(),
            current_search_match: 0,
            status_message: None,
            estimated_tokens: 0,
            should_quit: false,
            theme: AppTheme::OceanDark,
            fuzzy_active: false,
            fuzzy_query: String::new(),
            fuzzy_files: Vec::new(),
            fuzzy_matches: Vec::new(),
            fuzzy_selected_index: 0,
        };
        app.show_document(content);
        assert(app@ =~= initial_view(content@));
        app
    }

    /// Scrolls down by `amount` lines, stopping at the last rendered line.
    pub fn scroll_down(&mut self, amount: u16)
        ensures
            final(self)@ == (AppView {
                scroll_offset: if u16_add_capped(old(self)@.scroll_offset, amount) < max_scroll(
                    old(self)@,
                ) {
                    u16_add_capped(old(self)@.scroll_offset, amount)
                } else {
                    max_scroll(old(self)@)
                },
                ..old(self)@
            }),
    {
        #[verifier::truncate]
        let max_scroll = self.rendered_line_count.saturating_sub(1) as u16;
        let s = self.scroll_offset.saturating_add(amount);
        self.scroll_offset = if s < max_scroll {
            s
        } else {
            max_scroll
        };
        assert(self@ =~= (AppView {
            scroll_offset: self.scroll_offset,
            ..old(self)@
        }));
    }

    /// Scrolls up by `amount` lines, stopping at the top.
    pub fn scroll_up(&mut self, amount: u16)
        ensures
            final(self)@ == (AppView {
                scroll_offset: if old(self)@.scroll_offset >= amount {
                    (old(self)@.scroll_offset - amount) as u16
                } else {
                    0
                },
                ..old(self)@
            }),
    {
        self.scroll_offset = self.scroll_offset.saturating_sub(amount);
        assert(self@ =~= (AppView { scroll_offset: self.scroll_offset, ..old(self)@ }));
    }

    /// Jumps to the first line.
    pub fn jump_to_top(&mut self)
        ensures
            final(self)@ == (AppView { scroll_offset: 0, ..old(self)@ }),
    {
        self.scroll_offset = 0;
        assert(self@ =~= (AppView { scroll_offset: 0, ..old(self)@ }));
    }

    /// Jumps to the last rendered line.
    pub fn jump_to_bottom(&mut self)
        ensures
            final(self)@ == (AppView { scroll_offset: max_scroll(old(self)@), ..old(self)@ }),
    {
        #[verifier::truncate]
        let max_scroll = self.rendered_line_count.saturating_sub(1) as u16;
        self.scroll_offset = max_scroll;
        assert(self@ =~= (AppView { scroll_offset: self.scroll_offset, ..old(self)@ }));
    }

    /// Shows or hides the table of contents.
    pub fn toggle_toc(&mut self)
        ensures
            final(self)@ == (AppView { show_toc: !old(self)@.show_toc, ..old(self)@ }),
    {
        self.show_toc = !self.show_toc;
        assert(self@ =~= (AppView { show_toc: !old(self)@.show_toc, ..old(self)@ }));
    }

    /// Loads `content` as the new document under `title`, remembering the current one.
    pub fn load_new_document(&mut self, content: &str, title: &str, new_path: Option<String>)
        ensures
            final(self)@ == load_spec(old(self)@, content@, title@, crate::markdown::opt_view(new_path)),
    {
        let mut t = String::new();
        push_str(&mut t, title);
        let ghost hb = self.history_stack@;
        let entry = (self.raw_text.clone(), t, self.scroll_offset, self.active_path.clone());
        self.history_stack.push(entry);
        assert(history_view(self.history_stack@) =~= history_view(hb).push(
            (old(self)@.raw_text, title@, old(self)@.scroll_offset, old(self)@.active_path),
        ));
        let ghost pushed = self@;
        self.show_document(content);
        self.scroll_offset = 0;
        self.active_path = new_path;
        let mut msg = String::new();
        push_str(&mut msg, "Loaded document: ");
        push_str(&mut msg, title);
        self.status_message = Some(msg);
        assert(self@ =~= load_spec(old(self)@, content@, title@, crate::markdown::opt_view(new_path)));
    }

    /// Goes back to the document the last link or selection left.
    pub fn backtrack_history(&mut self)
        ensures
            final(self)@ == backtrack_spec(old(self)@),
    {
        let ghost hb = self.history_stack@;
        match self.history_stack.pop() {
            Some(entry) => {
                assert(hb.drop_last() =~= self.history_stack@);
                assert(history_view(hb).drop_last() =~= history_view(self.history_stack@));
                let (prev_text, title, prev_scroll, prev_path) = entry;
                self.show_document(prev_text.as_str());
                self.scroll_offset = prev_scroll;
                self.active_path = prev_path;
                let mut msg = String::new();
                push_str(&mut msg, "Backtracked to: ");
                push_str(&mut msg, title.as_str());
                self.status_message = Some(msg);
                assert(self@ =~= backtrack_spec(old(self)@));
            },
            None => {
                let mut msg = String::new();
                push_str(&mut msg, "Already at root document.");
                self.status_message = Some(msg);
                assert(self@ =~= backtrack_spec(old(self)@));
            },
        }
    }
}

/// Loading a document and going back restores the reader as it was (text, scroll offset,
/// path, history and everything derived from the text), saying where it went back to.
pub proof fn law_backtrack_undoes_load(
    v: AppView,
    content: Seq<char>,
    title: Seq<char>,
    new_path: Option<Seq<char>>,
)
    requires
        consistent(v),
    ensures
        backtrack_spec(load_spec(v, content, title, new_path)) == (AppView {
            status_message: Some("Backtracked to: "@ + title),
            ..v
        }),
{
    let l = load_spec(v, content, title, new_path);
    assert(l.history.drop_last() =~= v.history);
    assert(backtrack_spec(l) =~= (AppView { status_message: Some("Backtracked to: "@ + title), ..v }));
}

// ---------------------------------------------------------------------------
// Search, themes and the file finder
// ---------------------------------------------------------------------------

/// The indices (as `u16`) of the first `n` lines whose lowercase form contains `q`.
pub open spec fn search_hits(ls: Seq<Seq<char>>, q: Seq<char>, n: int) -> Seq<u16>
    decreases n,
{
    if n <= 0 || n > ls.len() {
        seq![]
    } else {
        let p = search_hits(ls, q, n - 1);
        if contains(lowercase(ls[n - 1]), q) {
            p.push((n - 1) as u16)
        } else {
            p
        }
    }
}

/// Searching the document for the search query (case-insensitively), line by line.
pub open spec fn search_spec(v: AppView) -> AppView {
    if v.search_query.len() == 0 {
        AppView { search_matches: seq![], ..v }
    } else {
        let ls = lines(v.raw_text);
        let m = search_hits(ls, lowercase(v.search_query), ls.len() as int);
        if m.len() > 0 {
            AppView {
                search_matches: m,
                current_search_match: 0,
                scroll_offset: m[0],
                status_message: Some("Match 1/"@ + decimal(m.len()) + " (Press n/N to navigate)"@),
                ..v
            }
        } else {
            AppView { search_matches: m, status_message: Some("No matches found"@), ..v }
        }
    }
}

/// Moving to search match `i`.
pub open spec fn at_match(v: AppView, i: int) -> AppView {
    AppView {
        current_search_match: i as usize,
        scroll_offset: v.search_matches[i],
        status_message: Some("Match "@ + decimal((i + 1) as nat) + "/"@ + decimal(v.search_matches.len())),
        ..v
    }
}

/// The files whose lowercase path contains `q` (all of them when `q` is empty), among the
/// first `n`.
pub open spec fn fuzzy_filter(fs: Seq<(Seq<char>, usize)>, q: Seq<char>, n: int) -> Seq<(Seq<char>, usize)>
    decreases n,
{
    if n <= 0 || n > fs.len() {
        seq![]
    } else {
        let p = fuzzy_filter(fs, q, n - 1);
        if q.len() == 0 || contains(lowercase(fs[n - 1].0), q) {
            p.push(fs[n - 1])
        } else {
            p
        }
    }
}

/// Filtering the finder's files by its query, keeping the selection when it still points
/// at a match.
pub open spec fn fuzzy_spec(v: AppView) -> AppView {
    let m = fuzzy_filter(v.fuzzy_files, lowercase(v.fuzzy_query), v.fuzzy_files.len() as int);
    AppView {
        fuzzy_matches: m,
        fuzzy_selected_index: if v.fuzzy_selected_index >= m.len() {
            0
        } else {
            v.fuzzy_selected_index
        },
        ..v
    }
}

/// The finder opened on `found` (path and content of each Markdown file read).
pub open spec fn open_fuzzy_spec(v: AppView, found: Seq<(Seq<char>, Seq<char>)>) -> AppView {
    fuzzy_spec(
        AppView {
            fuzzy_active: true,
            fuzzy_query: seq![],
            fuzzy_selected_index: 0,
            fuzzy_files: found.map_values(
                |f: (Seq<char>, Seq<char>)| (f.0, tokens_for(f.1.len()) as usize),
            ),
            ..v
        },
    )
}

/// Choosing the selected file of the finder, whose content was read as `content` (`None`
/// when it could not be read).
pub open spec fn select_fuzzy_spec(v: AppView, content: Option<Seq<char>>) -> AppView {
    if v.fuzzy_matches.len() == 0 {
        v
    } else {
        let p = v.fuzzy_matches[v.fuzzy_selected_index as int].0;
        match content {
            Some(c) => AppView { fuzzy_active: false, ..load_spec(v, c, p, Some(p)) },
            None => v,
        }
    }
}

fn string_from(t: &str) -> (r: String)
    ensures
        r@ == t@,
{
    let mut r = String::new();
    push_str(&mut r, t);
    r
}

impl App {
    /// Finds the lines of the document that contain the search query (case-insensitively)
    /// and moves to the first.
    pub fn update_search_matches(&mut self)
        ensures
            final(self)@ == search_spec(old(self)@),
    {
        self.search_matches = Vec::new();
        if chars_of(self.search_query.as_str()).len() == 0 {
            assert(self@ =~= search_spec(old(self)@));
            return;
        }
        let q = to_lower_string(&self.search_query);
        let raw = chars_of(self.raw_text.as_str());
        let ls = crate::chunker::split_lines(raw.as_slice());
        let ghost lv = lines(self.raw_text@);
        let qc = chars_of(q.as_str());
        let mut matches: Vec<u16> = Vec::new();
        let mut idx: usize = 0;
        while idx < ls.len()
            invariant
                idx <= ls@.len(),
                crate::agent::vecs_view(ls@) == lv,
                qc@ == lowercase(old(self)@.search_query),
                matches@ == search_hits(lv, qc@, idx as int),
            decreases ls.len() - idx,
        {
            let lower = lower_chars(ls[idx].as_slice());
            assert(ls@[idx as int]@ == lv[idx as int]);
            if contains_chars(lower.as_slice(), qc.as_slice()) {
                #[verifier::truncate]
                let k = idx as u16;
                matches.push(k);
            }
            idx += 1;
        }
        self.search_matches = matches;
        if self.search_matches.len() > 0 {
            self.current_search_match = 0;
            self.scroll_offset = self.search_matches[0];
            let mut msg = string_from("Match 1/");
            push_decimal(&mut msg, self.search_matches.len());
            push_str(&mut msg, " (Press n/N to navigate)");
            self.status_message = Some(msg);
        } else {
            self.status_message = Some(string_from("No matches found"));
        }
        assert(self@ =~= search_spec(old(self)@));
    }

    /// Moves to the next search match, round to the first.
    pub fn next_search_match(&mut self)
        requires
            old(self).search_matches@.len() > 0 ==> old(self).current_search_match < usize::MAX,
        ensures
            final(self)@ == if old(self)@.search_matches.len() == 0 {
                old(self)@
            } else {
                at_match(
                    old(self)@,
                    (old(self)@.current_search_match + 1) % (old(self)@.search_matches.len() as int),
                )
            },
    {
        if self.search_matches.len() == 0 {
            return;
        }
        self.current_search_match = (self.current_search_match + 1) % self.search_matches.len();
        self.show_match();
    }

    /// Moves to the previous search match, round to the last.
    pub fn prev_search_match(&mut self)
        requires
            old(self).search_matches@.len() > 0 ==> old(self).current_search_match
                <= old(self).search_matches@.len(),
        ensures
            final(self)@ == if old(self)@.search_matches.len() == 0 {
                old(self)@
            } else {
                at_match(
                    old(self)@,
                    if old(self)@.current_search_match == 0 {
                        old(self)@.search_matches.len() - 1
                    } else {
                        old(self)@.current_search_match - 1
                    },
                )
            },
    {
        if self.search_matches.len() == 0 {
            return;
        }
        if self.current_search_match == 0 {
            self.current_search_match = self.search_matches.len() - 1;
        } else {
            self.current_search_match = self.current_search_match - 1;
        }
        self.show_match();
    }

    /// Scrolls to the current search match and reports its position.
    fn show_match(&mut self)
        requires
            old(self).current_search_match < old(self).search_matches@.len(),
        ensures
            final(self)@ == at_match(old(self)@, old(self).current_search_match as int),
    {
        self.scroll_offset = self.search_matches[self.current_search_match];
        let n = self.search_matches.len();
        assert(self.current_search_match < n);
        let mut msg = string_from("Match ");
        push_decimal(&mut msg, self.current_search_match + 1);
        push_str(&mut msg, "/");
        push_decimal(&mut msg, self.search_matches.len());
        self.status_message = Some(msg);
        assert(self@ =~= at_match(old(self)@, old(self).current_search_match as int));
    }

    /// Leaves search mode and forgets the query and its matches.
    pub fn clear_search(&mut self)
        ensures
            final(self)@ == (AppView {
                search_active: false,
                search_query: seq![],
                search_matches: seq![],
                current_search_match: 0,
                status_message: Some("Search cleared"@),
                ..old(self)@
            }),
    {
        self.search_active = false;
        self.search_query = String::new();
        self.search_matches = Vec::new();
        self.current_search_match = 0;
        self.status_message = Some(string_from("Search cleared"));
        assert(self@ =~= (AppView {
            search_active: false,
            search_query: seq![],
            search_matches: seq![],
            current_search_match: 0,
            status_message: Some("Search cleared"@),
            ..old(self)@
        }));
    }

    /// Switches to the next theme.
    pub fn cycle_theme(&mut self)
        ensures
            final(self)@ == (AppView {
                theme: theme_next(old(self)@.theme),
                status_message: Some("Theme set to: "@ + theme_name(theme_next(old(self)@.theme))),
                ..old(self)@
            }),
    {
        self.theme = self.theme.next();
        let mut msg = string_from("Theme set to: ");
        push_str(&mut msg, self.theme.name());
        self.status_message = Some(msg);
        assert(self@ =~= (AppView {
            theme: theme_next(old(self)@.theme),
            status_message: Some("Theme set to: "@ + theme_name(theme_next(old(self)@.theme))),
            ..old(self)@
        }));
    }

    /// Filters the finder's files by its query.
    pub fn update_fuzzy_matches(&mut self)
        ensures
            final(self)@ == fuzzy_spec(old(self)@),
    {
        let q = to_lower_string(&self.fuzzy_query);
        let qc = chars_of(q.as_str());
        let mut matches: Vec<(String, usize)> = Vec::new();
        let mut i: usize = 0;
        while i < self.fuzzy_files.len()
            invariant
                i <= self.fuzzy_files@.len(),
                qc@ == lowercase(self@.fuzzy_query),
                files_view(matches@) == fuzzy_filter(files_view(self.fuzzy_files@), qc@, i as int),
            decreases self.fuzzy_files.len() - i,
        {
            let path = &self.fuzzy_files[i].0;
            let lower = to_lower_string(path);
            let lc = chars_of(lower.as_str());
            if qc.len() == 0 || contains_chars(lc.as_slice(), qc.as_slice()) {
                let entry = (path.clone(), self.fuzzy_files[i].1);
                let ghost b = matches@;
                matches.push(entry);
                assert(files_view(matches@) =~= files_view(b).push((entry.0@, entry.1)));
            }
            i += 1;
        }
        self.fuzzy_matches = matches;
        if self.fuzzy_selected_index >= self.fuzzy_matches.len() {
            self.fuzzy_selected_index = 0;
        }
        assert(self@ =~= fuzzy_spec(old(self)@));
    }

    /// Opens the file finder on the Markdown files found, each with its content.
    pub fn open_fuzzy_finder(&mut self, found: Vec<(String, String)>)
        ensures
            final(self)@ == open_fuzzy_spec(
                old(self)@,
                found@.map_values(|f: (String, String)| (f.0@, f.1@)),
            ),
    {
        self.fuzzy_active = true;
        self.fuzzy_query = String::new();
        self.fuzzy_selected_index = 0;
        let ghost fv = found@.map_values(|f: (String, String)| (f.0@, f.1@));
        let ghost g = |f: (Seq<char>, Seq<char>)| (f.0, tokens_for(f.1.len()) as usize);
        let mut files: Vec<(String, usize)> = Vec::new();
        let mut i: usize = 0;
        while i < found.len()
            invariant
                i <= found@.len(),
                fv == found@.map_values(|f: (String, String)| (f.0@, f.1@)),
                g == (|f: (Seq<char>, Seq<char>)| (f.0, tokens_for(f.1.len()) as usize)),
                files_view(files@) == fv.take(i as int).map_values(g),
            decreases found.len() - i,
        {
            let stats = calculate_stats(found[i].1.as_str());
            let entry = (found[i].0.clone(), stats.estimated_tokens);
            let ghost b = files@;
            files.push(entry);
            i += 1;
            assert(files_view(files@) =~= files_view(b).push((entry.0@, entry.1)));
            assert(fv.take(i as int).map_values(g) =~= fv.take(i - 1).map_values(g).push(g(fv[i - 1])));
        }
        assert(fv.take(i as int) =~= fv);
        self.fuzzy_files = files;
        let ghost opened = self@;
        assert(opened =~= AppView {
            fuzzy_active: true,
            fuzzy_query: seq![],
            fuzzy_selected_index: 0,
            fuzzy_files: fv.map_values(g),
            ..old(self)@
        });
        self.update_fuzzy_matches();
    }

    /// The path of the finder's selected file, when the finder has matches.
    pub fn fuzzy_selection(&self) -> (r: Option<String>)
        requires
            self.fuzzy_matches@.len() > 0 ==> self.fuzzy_selected_index < self.fuzzy_matches@.len(),
        ensures
            crate::markdown::opt_view(r) == if self@.fuzzy_matches.len() == 0 {
                None
            } else {
                Some(self@.fuzzy_matches[self.fuzzy_selected_index as int].0)
            },
    {
        if self.fuzzy_matches.len() == 0 {
            None
        } else {
            Some(self.fuzzy_matches[self.fuzzy_selected_index].0.clone())
        }
    }

    /// Opens the finder's selected file, whose content the caller read (`None` when it
    /// could not be read).
    pub fn select_fuzzy_match(&mut self, content: Option<String>)
        requires
            old(self).fuzzy_matches@.len() > 0 ==> old(self).fuzzy_selected_index < old(
                self,
            ).fuzzy_matches@.len(),
        ensures
            final(self)@ == select_fuzzy_spec(old(self)@, crate::markdown::opt_view(content)),
    {
        if self.fuzzy_matches.len() == 0 {
            return;
        }
        let path = self.fuzzy_matches[self.fuzzy_selected_index].0.clone();
        match content {
            Some(c) => {
                let p2 = path.clone();
                self.load_new_document(c.as_str(), path.as_str(), Some(p2));
                self.fuzzy_active = false;
                assert(self@ =~= select_fuzzy_spec(old(self)@, crate::markdown::opt_view(content)));
            },
            None => {},
        }
    }

    /// Reloads the document of the active path from `content`, its new text as the caller
    /// read it (`None` when it could not be read).
    pub fn reload_from_path(&mut self, content: Option<String>)
        ensures
            final(self)@ == reload_spec(old(self)@, crate::markdown::opt_view(content)),
    {
        match (&self.active_path, content) {
            (Some(p), Some(c)) => {
                let mut msg = string_from("[Watcher] Live reloaded ");
                push_str(&mut msg, p.as_str());
                self.show_document(c.as_str());
                self.status_message = Some(msg);
            },
            _ => {},
        }
    }
}

/// A `String` in lowercase.
fn to_lower_string(s: &String) -> (r: String)
    ensures
        r@ == lowercase(s@),
{
    crate::text::to_lower(s.as_str())
}

// ---------------------------------------------------------------------------
// Links, clipboard and keys
// ---------------------------------------------------------------------------

/// A link to another file that the reader asks the caller to open: the file part, the
/// anchor after `#`, if any, and the whole destination.
#[derive(Debug, Clone, PartialEq, Eq)]
pub struct FileLinkRequest {
    pub file: String,
    pub anchor: Option<String>,
    pub url: String,
}

/// The value of a file link request.
#[verifier::ext_equal]
pub struct FileLinkView {
    pub file: Seq<char>,
    pub anchor: Option<Seq<char>>,
    pub url: Seq<char>,
}

impl View for FileLinkRequest {
    type V = FileLinkView;

    open spec fn view(&self) -> FileLinkView {
        FileLinkView { file: self.file@, anchor: crate::markdown::opt_view(self.anchor), url: self.url@ }
    }
}

/// What became of a linked file: missing, unreadable, or read with this content.
#[derive(Debug, Clone, PartialEq, Eq)]
pub enum LinkTarget {
    Missing,
    Unreadable,
    Loaded(String),
}

/// What became of a clipboard write.
#[derive(Debug, Clone, Copy, PartialEq, Eq, Structural)]
pub enum ClipboardOutcome {
    Copied,
    WriteFailed,
    Unavailable,
}

/// Whether link `l` is on line `cur` or within two lines of it.
pub open spec fn near_line(l: LinkView, cur: int) -> bool {
    l.line_number == cur || (l.line_number - cur <= 2 && cur - l.line_number <= 2)
}

/// The first link from index `i` near line `cur`.
pub open spec fn first_near_link(ls: Seq<LinkView>, cur: int, i: int) -> Option<int>
    decreases ls.len() - i,
{
    if i < 0 || i >= ls.len() {
        None
    } else if near_line(ls[i], cur) {
        Some(i)
    } else {
        first_near_link(ls, cur, i + 1)
    }
}

/// The lowercase title with spaces made dashes.
pub open spec fn slug(t: Seq<char>) -> Seq<char> {
    lowercase(t).map_values(|c: char| if c == ' ' { '-' } else { c })
}

/// Whether a heading answers an anchor target.
pub open spec fn heading_answers(h: HeadingView, target: Seq<char>) -> bool {
    contains(slug(h.title), target) || contains(lowercase(h.title), target)
}

/// The first heading from index `i` that answers `target`.
pub open spec fn first_answering(hs: Seq<HeadingView>, target: Seq<char>, i: int) -> Option<int>
    decreases hs.len() - i,
{
    if i < 0 || i >= hs.len() {
        None
    } else if heading_answers(hs[i], target) {
        Some(i)
    } else {
        first_answering(hs, target, i + 1)
    }
}

/// The scroll offset that shows heading `h`.
pub open spec fn heading_offset(h: HeadingView) -> u16 {
    dec(h.start_line as int) as u16
}

/// Following the link on (or near) the current line: an anchor moves to the first heading
/// that answers it; a file link is handed back as a request, the state unchanged.
pub open spec fn follow_spec(v: AppView) -> (AppView, Option<FileLinkView>) {
    match first_near_link(v.links, v.scroll_offset + 1, 0) {
        None => (v, None),
        Some(i) => {
            let l = v.links[i];
            if l.url.len() > 0 && l.url[0] == '#' {
                let target = lowercase(l.url.subrange(hashes_end(l.url, 0), l.url.len() as int));
                match first_answering(v.headings, target, 0) {
                    Some(j) => (
                        AppView {
                            scroll_offset: heading_offset(v.headings[j]),
                            status_message: Some("Jumped to section: "@ + v.headings[j].title),
                            ..v
                        },
                        None,
                    ),
                    None => (AppView { status_message: Some("Section not found: "@ + l.url), ..v }, None),
                }
            } else {
                let k = crate::text::char_from(l.url, '#', 0);
                (
                    v,
                    Some(
                        FileLinkView {
                            file: l.url.subrange(0, k),
                            anchor: if k < l.url.len() {
                                Some(l.url.subrange(k + 1, l.url.len() as int))
                            } else {
                                None
                            },
                            url: l.url,
                        },
                    ),
                )
            }
        },
    }
}

/// Finishing a file link with what became of the file.
pub open spec fn complete_link_spec(v: AppView, req: FileLinkView, target: LinkTarget) -> AppView {
    match target {
        LinkTarget::Missing => AppView { status_message: Some("Link target not found: "@ + req.url), ..v },
        LinkTarget::Unreadable => AppView { status_message: Some("Failed to read file: "@ + req.file), ..v },
        LinkTarget::Loaded(c) => {
            let w = load_spec(v, c@, req.file, Some(req.file));
            match req.anchor {
                Some(a) => match first_answering(w.headings, lowercase(a), 0) {
                    Some(j) => AppView {
                        scroll_offset: heading_offset(w.headings[j]),
                        status_message: Some("Loaded file and jumped to: "@ + w.headings[j].title),
                        ..w
                    },
                    None => w,
                },
                None => w,
            }
        },
    }
}

/// The status of a clipboard write of the clean text.
pub open spec fn clean_copy_message(o: ClipboardOutcome) -> Seq<char> {
    match o {
        ClipboardOutcome::Copied => "Copied token-thrifty text to clipboard!"@,
        ClipboardOutcome::WriteFailed => "Failed to write clipboard text."@,
        ClipboardOutcome::Unavailable => "Clipboard unavailable."@,
    }
}

/// The status of a clipboard write of a code block in `language`.
pub open spec fn code_copy_message(language: Seq<char>, o: ClipboardOutcome) -> Seq<char> {
    match o {
        ClipboardOutcome::Copied => "Copied code block ("@ + language + ") to clipboard!"@,
        ClipboardOutcome::WriteFailed => "Failed to copy code block."@,
        ClipboardOutcome::Unavailable => "Clipboard unavailable."@,
    }
}

/// The index of the first link near line `cur`.
fn find_near_link(links: &Vec<DocumentLink>, cur: usize) -> (r: Option<usize>)
    ensures
        match r {
            Some(i) => first_near_link(links_view(links@), cur as int, 0) == Some(i as int) && i < links@.len(),
            None => first_near_link(links_view(links@), cur as int, 0) is None,
        },
{
    let ghost lv = links_view(links@);
    let mut i: usize = 0;
    while i < links.len()
        invariant
            i <= links@.len(),
            lv == links_view(links@),
            first_near_link(lv, cur as int, 0) == first_near_link(lv, cur as int, i as int),
        decreases links.len() - i,
    {
        let l = links[i].line_number;
        assert(lv[i as int] == links@[i as int]@);
        if l == cur || (if l >= cur { l - cur <= 2 } else { cur - l <= 2 }) {
            return Some(i);
        }
        i += 1;
    }
    None
}

/// The index of the first heading that answers `target`.
fn find_answering(hs: &Vec<HeadingNode>, target: &Vec<char>) -> (r: Option<usize>)
    ensures
        match r {
            Some(j) => first_answering(headings_view(hs@), target@, 0) == Some(j as int) && j < hs@.len(),
            None => first_answering(headings_view(hs@), target@, 0) is None,
        },
{
    let ghost hv = headings_view(hs@);
    proof {
        lemma_headings_view(hs@);
    }
    let mut i: usize = 0;
    while i < hs.len()
        invariant
            i <= hs@.len(),
            hv == headings_view(hs@),
            hv.len() == hs@.len(),
            forall|j: int| 0 <= j < hs@.len() ==> hv[j] == heading_view(#[trigger] hs@[j]),
            first_answering(hv, target@, 0) == first_answering(hv, target@, i as int),
        decreases hs.len() - i,
    {
        let t = chars_of(hs[i].title.as_str());
        let lower = lower_chars(t.as_slice());
        let mut slugged: Vec<char> = Vec::new();
        let mut k: usize = 0;
        while k < lower.len()
            invariant
                k <= lower@.len(),
                slugged@ == lower@.take(k as int).map_values(|c: char| if c == ' ' { '-' } else { c }),
            decreases lower.len() - k,
        {
            let c = lower[k];
            slugged.push(if c == ' ' { '-' } else { c });
            k += 1;
            assert(slugged@ =~= lower@.take(k as int).map_values(|c: char| if c == ' ' { '-' } else { c }));
        }
        assert(lower@.take(k as int) =~= lower@);
        assert(hv[i as int].title == t@);
        if contains_chars(slugged.as_slice(), target.as_slice()) || contains_chars(
            lower.as_slice(),
            target.as_slice(),
        ) {
            return Some(i);
        }
        i += 1;
    }
    None
}

impl App {
    /// Moves to heading `j` and reports it after `prefix`.
    fn jump_to_heading(&mut self, j: usize, prefix: &str)
        requires
            j < old(self).headings@.len(),
        ensures
            final(self)@ == (AppView {
                scroll_offset: heading_offset(old(self)@.headings[j as int]),
                status_message: Some(prefix@ + old(self)@.headings[j as int].title),
                ..old(self)@
            }),
    {
        proof {
            lemma_headings_view(self.headings@);
        }
        #[verifier::truncate]
        let off = self.headings[j].start_line.saturating_sub(1) as u16;
        self.scroll_offset = off;
        let mut msg = string_from(prefix);
        push_str(&mut msg, self.headings[j].title.as_str());
        self.status_message = Some(msg);
        assert(self@ =~= (AppView {
            scroll_offset: heading_offset(old(self)@.headings[j as int]),
            status_message: Some(prefix@ + old(self)@.headings[j as int].title),
            ..old(self)@
        }));
    }

    /// Follows the link on (or within two lines of) the current line.  An anchor link
    /// moves to the first heading that answers it; a link to another file comes back as a
    /// request for the caller to open, leaving the state unchanged.
    pub fn follow_current_line_link(&mut self) -> (r: Option<FileLinkRequest>)
        ensures
            (final(self)@, match r {
                Some(q) => Some(q@),
                None => None,
            }) == follow_spec(old(self)@),
    {
        let cur = (self.scroll_offset as usize) + 1;
        let found = find_near_link(&self.links, cur);
        let i = match found {
            None => {
                return None;
            },
            Some(i) => i,
        };
        let url = chars_of(self.links[i].url.as_str());
        assert(links_view(self.links@)[i as int] == self.links@[i as int]@);
        if url.len() > 0 && url[0] == '#' {
            let mut h: usize = 0;
            while h < url.len() && url[h] == '#'
                invariant
                    h <= url@.len(),
                    hashes_end(url@, 0) == hashes_end(url@, h as int),
                decreases url.len() - h,
            {
                h += 1;
            }
            let rest = crate::agent::slice_range(url.as_slice(), h, url.len());
            let target = lower_chars(rest.as_slice());
            match find_answering(&self.headings, &target) {
                Some(j) => {
                    self.jump_to_heading(j, "Jumped to section: ");
                },
                None => {
                    let mut msg = string_from("Section not found: ");
                    push_str(&mut msg, self.links[i].url.as_str());
                    self.status_message = Some(msg);
                    assert(self@ =~= follow_spec(old(self)@).0);
                },
            }
            None
        } else {
            let k = crate::text::char_index_from(url.as_slice(), '#', 0);
            let file = crate::text::string_of_range(url.as_slice(), 0, k);
            let anchor = if k < url.len() {
                Some(crate::text::string_of_range(url.as_slice(), k + 1, url.len()))
            } else {
                None
            };
            let req = FileLinkRequest { file, anchor, url: self.links[i].url.clone() };
            assert(req@ =~= follow_spec(old(self)@).1.unwrap());
            Some(req)
        }
    }

    /// Finishes following a link to another file with what became of the file: loads it
    /// (and moves to the anchor's heading, if one answers), or reports why not.
    pub fn complete_file_link(&mut self, req: &FileLinkRequest, target: LinkTarget)
        ensures
            final(self)@ == complete_link_spec(old(self)@, req@, target),
    {
        match target {
            LinkTarget::Missing => {
                let mut msg = string_from("Link target not found: ");
                push_str(&mut msg, req.url.as_str());
                self.status_message = Some(msg);
                assert(self@ =~= complete_link_spec(old(self)@, req@, target));
            },
            LinkTarget::Unreadable => {
                let mut msg = string_from("Failed to read file: ");
                push_str(&mut msg, req.file.as_str());
                self.status_message = Some(msg);
                assert(self@ =~= complete_link_spec(old(self)@, req@, target));
            },
            LinkTarget::Loaded(c) => {
                self.load_new_document(c.as_str(), req.file.as_str(), Some(req.file.clone()));
                match &req.anchor {
                    Some(a) => {
                        let t = lower_chars(chars_of(a.as_str()).as_slice());
                        match find_answering(&self.headings, &t) {
                            Some(j) => {
                                self.jump_to_heading(j, "Loaded file and jumped to: ");
                            },
                            None => {},
                        }
                    },
                    None => {},
                }
            },
        }
    }

    /// Reports a clipboard write of the clean text.
    pub fn copy_clean_text_to_clipboard(&mut self, outcome: ClipboardOutcome)
        ensures
            final(self)@ == (AppView { status_message: Some(clean_copy_message(outcome)), ..old(self)@ }),
    {
        let msg = match outcome {
            ClipboardOutcome::Copied => string_from("Copied token-thrifty text to clipboard!"),
            ClipboardOutcome::WriteFailed => string_from("Failed to write clipboard text."),
            ClipboardOutcome::Unavailable => string_from("Clipboard unavailable."),
        };
        self.status_message = Some(msg);
        assert(self@ =~= (AppView { status_message: Some(clean_copy_message(outcome)), ..old(self)@ }));
    }

    /// The code block to copy: the document's first.
    pub fn focused_code_block(&self) -> (r: Option<crate::agent::CodeBlock>)
        ensures
            match r {
                Some(b) => code_blocks_spec(self@.raw_text, None).len() > 0 && b@ == code_blocks_spec(
                    self@.raw_text,
                    None,
                )[0],
                None => code_blocks_spec(self@.raw_text, None).len() == 0,
            },
    {
        let mut blocks = extract_code_blocks(self.raw_text.as_str(), None);
        if blocks.len() == 0 {
            None
        } else {
            assert(crate::agent::code_blocks_view(blocks@)[0] == blocks@[0]@);
            Some(blocks.remove(0))
        }
    }

    /// Reports copying the focused code block: `None` when the document has none, else its
    /// language and what became of the clipboard write.
    pub fn copy_focused_code_block(&mut self, copied: Option<(String, ClipboardOutcome)>)
        ensures
            final(self)@ == (AppView {
                status_message: Some(
                    match copied {
                        None => "No code blocks found in document."@,
                        Some(c) => code_copy_message(c.0@, c.1),
                    },
                ),
                ..old(self)@
            }),
    {
        let msg = match &copied {
            None => string_from("No code blocks found in document."),
            Some((lang, ClipboardOutcome::Copied)) => {
                let mut m = string_from("Copied code block (");
                push_str(&mut m, lang.as_str());
                push_str(&mut m, ") to clipboard!");
                m
            },
            Some((_, ClipboardOutcome::WriteFailed)) => string_from("Failed to copy code block."),
            Some((_, ClipboardOutcome::Unavailable)) => string_from("Clipboard unavailable."),
        };
        self.status_message = Some(msg);
        assert(self@ =~= (AppView {
            status_message: Some(
                match copied {
                    None => "No code blocks found in document."@,
                    Some(c) => code_copy_message(c.0@, c.1),
                },
            ),
            ..old(self)@
        }));
    }
}

/// A key of the keyboard, as the reader tells keys apart.
#[derive(Debug, Clone, Copy, PartialEq, Eq, Structural)]
pub enum Key {
    Char(char),
    Esc,
    Enter,
    Backspace,
    Up,
    Down,
    Tab,
    Other,
}

/// Outside work that a key asks of the caller.
#[derive(Debug, Clone, PartialEq, Eq)]
pub enum KeyAction {
    Nothing,
    OpenFuzzyFinder,
    ReadFuzzySelection,
    OpenFile(FileLinkRequest),
    CopyCodeBlock,
    CopyCleanText,
}

/// The value of a key action.
pub enum ActionView {
    Nothing,
    OpenFuzzyFinder,
    ReadFuzzySelection,
    OpenFile(FileLinkView),
    CopyCodeBlock,
    CopyCleanText,
}

impl View for KeyAction {
    type V = ActionView;

    open spec fn view(&self) -> ActionView {
        match self {
            KeyAction::Nothing => ActionView::Nothing,
            KeyAction::OpenFuzzyFinder => ActionView::OpenFuzzyFinder,
            KeyAction::ReadFuzzySelection => ActionView::ReadFuzzySelection,
            KeyAction::OpenFile(r) => ActionView::OpenFile(r@),
            KeyAction::CopyCodeBlock => ActionView::CopyCodeBlock,
            KeyAction::CopyCleanText => ActionView::CopyCleanText,
        }
    }
}

/// `s` without its last character, if it has one.
pub open spec fn pop_last(s: Seq<char>) -> Seq<char> {
    if s.len() > 0 {
        s.drop_last()
    } else {
        s
    }
}

/// Moving the table of contents selection to entry `i`.
pub open spec fn select_toc(v: AppView, i: int) -> AppView {
    AppView { selected_toc_index: i as usize, scroll_offset: heading_offset(v.headings[i]), ..v }
}

/// A key in the file finder.
pub open spec fn fuzzy_key(v: AppView, key: Key, ctrl: bool) -> (AppView, ActionView) {
    match key {
        Key::Esc => (AppView { fuzzy_active: false, ..v }, ActionView::Nothing),
        Key::Enter => (v, ActionView::ReadFuzzySelection),
        _ => if (key == Key::Up || key == Key::Char('k')) && ctrl {
            (
                AppView {
                    fuzzy_selected_index: if v.fuzzy_selected_index > 0 {
                        (v.fuzzy_selected_index - 1) as usize
                    } else {
                        v.fuzzy_selected_index
                    },
                    ..v
                },
                ActionView::Nothing,
            )
        } else if (key == Key::Down || key == Key::Char('j')) && ctrl {
            (
                AppView {
                    fuzzy_selected_index: if v.fuzzy_matches.len() > 0 {
                        if v.fuzzy_selected_index + 1 < v.fuzzy_matches.len() - 1 {
                            (v.fuzzy_selected_index + 1) as usize
                        } else {
                            (v.fuzzy_matches.len() - 1) as usize
                        }
                    } else {
                        v.fuzzy_selected_index
                    },
                    ..v
                },
                ActionView::Nothing,
            )
        } else {
            match key {
                Key::Backspace => (
                    fuzzy_spec(AppView { fuzzy_query: pop_last(v.fuzzy_query), ..v }),
                    ActionView::Nothing,
                ),
                Key::Char(c) => (
                    fuzzy_spec(AppView { fuzzy_query: v.fuzzy_query.push(c), ..v }),
                    ActionView::Nothing,
                ),
                _ => (v, ActionView::Nothing),
            }
        },
    }
}

/// A key while typing a search.
pub open spec fn search_key(v: AppView, key: Key, ctrl: bool) -> AppView {
    match key {
        Key::Char(c) => if c == 'c' && ctrl {
            AppView { should_quit: true, ..v }
        } else {
            AppView { search_query: v.search_query.push(c), ..v }
        },
        Key::Enter => search_spec(AppView { search_active: false, ..v }),
        Key::Esc => clear_search_spec(v),
        Key::Backspace => AppView { search_query: pop_last(v.search_query), ..v },
        _ => v,
    }
}

/// Leaving search.
pub open spec fn clear_search_spec(v: AppView) -> AppView {
    AppView {
        search_active: false,
        search_query: seq![],
        search_matches: seq![],
        current_search_match: 0,
        status_message: Some("Search cleared"@),
        ..v
    }
}

/// Scrolling down by `amount`.
pub open spec fn scroll_down_spec(v: AppView, amount: u16) -> AppView {
    AppView {
        scroll_offset: if u16_add_capped(v.scroll_offset, amount) < max_scroll(v) {
            u16_add_capped(v.scroll_offset, amount)
        } else {
            max_scroll(v)
        },
        ..v
    }
}

/// Scrolling up by `amount`.
pub open spec fn scroll_up_spec(v: AppView, amount: u16) -> AppView {
    AppView {
        scroll_offset: if v.scroll_offset >= amount {
            (v.scroll_offset - amount) as u16
        } else {
            0
        },
        ..v
    }
}

/// Scrolling down never goes past the last rendered line, and jumping to the bottom lands
/// on it.
pub proof fn law_scroll_stays_in_document(v: AppView, amount: u16)
    ensures
        scroll_down_spec(v, amount).scroll_offset <= max_scroll(v),
        scroll_up_spec(v, amount).scroll_offset <= v.scroll_offset,
{
}

/// The next search match, if any.
pub open spec fn next_match_spec(v: AppView) -> AppView {
    if v.search_matches.len() == 0 {
        v
    } else {
        at_match(v, (v.current_search_match + 1) % (v.search_matches.len() as int))
    }
}

/// The previous search match, if any.
pub open spec fn prev_match_spec(v: AppView) -> AppView {
    if v.search_matches.len() == 0 {
        v
    } else {
        at_match(
            v,
            if v.current_search_match == 0 {
                v.search_matches.len() - 1
            } else {
                v.current_search_match - 1
            },
        )
    }
}

/// Stepping through search matches stays among them and undoes itself: `n` then `N`, or
/// `N` then `n`, comes back to the match it started from, scrolled to its line.
pub proof fn law_search_steps_undo(v: AppView)
    requires
        0 < v.search_matches.len() <= usize::MAX,
        v.current_search_match < v.search_matches.len(),
    ensures
        next_match_spec(v).current_search_match < v.search_matches.len(),
        prev_match_spec(v).current_search_match < v.search_matches.len(),
        prev_match_spec(next_match_spec(v)).current_search_match == v.current_search_match,
        next_match_spec(prev_match_spec(v)).current_search_match == v.current_search_match,
        prev_match_spec(next_match_spec(v)).scroll_offset == v.search_matches[v.current_search_match as int],
        next_match_spec(prev_match_spec(v)).scroll_offset == v.search_matches[v.current_search_match as int],
{
    let n = v.search_matches.len() as int;
    let c = v.current_search_match as int;
    if c + 1 < n {
        assert((c + 1) % n == c + 1) by (nonlinear_arith)
            requires
                0 <= c + 1 < n,
        ;
    } else {
        assert((c + 1) % n == 0) by (nonlinear_arith)
            requires
                c + 1 == n,
                n > 0,
        ;
    }
    if c == 0 {
        assert((n - 1 + 1) % n == 0) by (nonlinear_arith)
            requires
                n > 0,
        ;
    } else {
        assert((c - 1 + 1) % n == c) by (nonlinear_arith)
            requires
                0 < c < n,
        ;
    }
}

/// A key while reading.
pub open spec fn reading_key(v: AppView, key: Key, ctrl: bool) -> (AppView, ActionView) {
    if key == Key::Char('q') || (key == Key::Char('c') && ctrl) {
        (AppView { should_quit: true, ..v }, ActionView::Nothing)
    } else if (key == Key::Char('p') && ctrl) || key == Key::Char('f') {
        (v, ActionView::OpenFuzzyFinder)
    } else if key == Key::Char('t') {
        (
            AppView {
                theme: theme_next(v.theme),
                status_message: Some("Theme set to: "@ + theme_name(theme_next(v.theme))),
                ..v
            },
            ActionView::Nothing,
        )
    } else if key == Key::Char('y') {
        (v, ActionView::CopyCodeBlock)
    } else if key == Key::Esc {
        (
            if v.search_query.len() > 0 || v.search_matches.len() > 0 || v.search_active {
                clear_search_spec(v)
            } else if v.status_message is Some {
                AppView { status_message: None, ..v }
            } else if v.show_toc {
                AppView { show_toc: false, ..v }
            } else {
                AppView { should_quit: true, ..v }
            },
            ActionView::Nothing,
        )
    } else if key == Key::Char('c') && v.search_query.len() > 0 {
        (clear_search_spec(v), ActionView::Nothing)
    } else if key == Key::Enter {
        let f = follow_spec(v);
        (
            f.0,
            match f.1 {
                Some(r) => ActionView::OpenFile(r),
                None => ActionView::Nothing,
            },
        )
    } else if key == Key::Backspace {
        (backtrack_spec(v), ActionView::Nothing)
    } else if key == Key::Char('g') {
        (AppView { scroll_offset: 0, ..v }, ActionView::Nothing)
    } else if key == Key::Char('G') {
        (AppView { scroll_offset: max_scroll(v), ..v }, ActionView::Nothing)
    } else if key == Key::Char('j') || key == Key::Down {
        (
            if v.show_toc && v.headings.len() > 0 {
                select_toc(v, (v.selected_toc_index + 1) % (v.headings.len() as int))
            } else {
                scroll_down_spec(v, 1)
            },
            ActionView::Nothing,
        )
    } else if key == Key::Char('k') || key == Key::Up {
        (
            if v.show_toc && v.headings.len() > 0 {
                select_toc(
                    v,
                    if v.selected_toc_index == 0 {
                        v.headings.len() - 1
                    } else {
                        v.selected_toc_index - 1
                    },
                )
            } else {
                scroll_up_spec(v, 1)
            },
            ActionView::Nothing,
        )
    } else if key == Key::Char('d') && ctrl {
        (scroll_down_spec(v, 10), ActionView::Nothing)
    } else if key == Key::Char('u') && ctrl {
        (scroll_up_spec(v, 10), ActionView::Nothing)
    } else if key == Key::Char('n') {
        (next_match_spec(v), ActionView::Nothing)
    } else if key == Key::Char('N') {
        (prev_match_spec(v), ActionView::Nothing)
    } else if key == Key::Tab || key == Key::Char('b') {
        (AppView { show_toc: !v.show_toc, ..v }, ActionView::Nothing)
    } else if key == Key::Char('/') {
        (AppView { search_active: true, search_query: seq![], ..v }, ActionView::Nothing)
    } else if key == Key::Char('a') {
        (v, ActionView::CopyCleanText)
    } else {
        (v, ActionView::Nothing)
    }
}

/// A key pressed in the reader: the file finder, then search, take keys first.
pub open spec fn handle_key_spec(v: AppView, key: Key, ctrl: bool) -> (AppView, ActionView) {
    if v.fuzzy_active {
        fuzzy_key(v, key, ctrl)
    } else if v.search_active {
        (search_key(v, key, ctrl), ActionView::Nothing)
    } else {
        reading_key(v, key, ctrl)
    }
}

/// The keys on which the reader's own arithmetic would overflow, or its indexing fail.
pub open spec fn key_is_safe(v: AppView, key: Key, ctrl: bool) -> bool {
    if v.fuzzy_active {
        (key == Key::Down || key == Key::Char('j')) && ctrl && v.fuzzy_matches.len() > 0
            ==> v.fuzzy_selected_index < usize::MAX
    } else if v.search_active {
        true
    } else {
        &&& (key == Key::Char('j') || key == Key::Down) && v.show_toc
            && v.headings.len() > 0 ==> v.selected_toc_index < usize::MAX
        &&& (key == Key::Char('k') || key == Key::Up) && v.show_toc && v.headings.len() > 0
            ==> v.selected_toc_index <= v.headings.len()
        &&& key == Key::Char('n') && v.search_matches.len() > 0 ==> v.current_search_match
            < usize::MAX
        &&& key == Key::Char('N') && v.search_matches.len() > 0 ==> v.current_search_match
            <= v.search_matches.len()
    }
}

/// `s` without its last character.
fn pop_string(s: &String) -> (r: String)
    ensures
        r@ == pop_last(s@),
{
    let cs = chars_of(s.as_str());
    if cs.len() == 0 {
        return String::new();
    }
    crate::text::string_of_range(cs.as_slice(), 0, cs.len() - 1)
}

/// `s` with `c` appended.
fn pushed_string(s: &String, c: char) -> (r: String)
    ensures
        r@ == s@.push(c),
{
    let mut r = s.clone();
    crate::text::push_char(&mut r, c);
    r
}

impl App {
    /// Whether the reader can take a key without its arithmetic or indexing going out of
    /// range; a key that fails this is ignored.
    pub fn accepts_key(&self, key: Key, ctrl: bool) -> (r: bool)
        ensures
            r == key_is_safe(self@, key, ctrl),
    {
        proof {
            crate::outline::lemma_headings_view(self.headings@);
        }
        assert(self@.fuzzy_matches.len() == self.fuzzy_matches@.len());
        if self.fuzzy_active {
            !((key == Key::Down || key == Key::Char('j')) && ctrl && self.fuzzy_matches.len() > 0)
                || self.fuzzy_selected_index < usize::MAX
        } else if self.search_active {
            true
        } else {
            let toc = self.show_toc && self.headings.len() > 0;
            let down_ok = !((key == Key::Char('j') || key == Key::Down) && toc) || self.selected_toc_index
                < usize::MAX;
            let up_ok = !((key == Key::Char('k') || key == Key::Up) && toc) || self.selected_toc_index
                <= self.headings.len();
            let next_ok = !(key == Key::Char('n') && self.search_matches.len() > 0) || self.current_search_match
                < usize::MAX;
            let prev_ok = !(key == Key::Char('N') && self.search_matches.len() > 0) || self.current_search_match
                <= self.search_matches.len();
            down_ok && up_ok && next_ok && prev_ok
        }
    }

    /// Handles a key (with the Control modifier or not) and returns the outside work it
    /// asks for: opening the file finder, reading the finder's selection, opening a linked
    /// file, or copying to the clipboard.
    pub fn handle_key(&mut self, key: Key, ctrl: bool) -> (r: KeyAction)
        requires
            key_is_safe(old(self)@, key, ctrl),
        ensures
            (final(self)@, r@) == handle_key_spec(old(self)@, key, ctrl),
    {
        if self.fuzzy_active {
            match key {
                Key::Esc => {
                    self.fuzzy_active = false;
                    assert(self@ =~= handle_key_spec(old(self)@, key, ctrl).0);
                    return KeyAction::Nothing;
                },
                Key::Enter => {
                    return KeyAction::ReadFuzzySelection;
                },
                _ => {},
            }
            if (key == Key::Up || key == Key::Char('k')) && ctrl {
                if self.fuzzy_selected_index > 0 {
                    self.fuzzy_selected_index = self.fuzzy_selected_index - 1;
                }
                assert(self@ =~= handle_key_spec(old(self)@, key, ctrl).0);
                return KeyAction::Nothing;
            }
            if (key == Key::Down || key == Key::Char('j')) && ctrl {
                if self.fuzzy_matches.len() > 0 {
                    let next = self.fuzzy_selected_index + 1;
                    let last = self.fuzzy_matches.len() - 1;
                    self.fuzzy_selected_index = if next < last {
                        next
                    } else {
                        last
                    };
                }
                assert(self@ =~= handle_key_spec(old(self)@, key, ctrl).0);
                return KeyAction::Nothing;
            }
            match key {
                Key::Backspace => {
                    self.fuzzy_query = pop_string(&self.fuzzy_query);
                    self.update_fuzzy_matches();
                },
                Key::Char(c) => {
                    self.fuzzy_query = pushed_string(&self.fuzzy_query, c);
                    self.update_fuzzy_matches();
                },
                _ => {},
            }
            return KeyAction::Nothing;
        }
        if self.search_active {
            match key {
                Key::Char(c) => {
                    if c == 'c' && ctrl {
                        self.should_quit = true;
                    } else {
                        self.search_query = pushed_string(&self.search_query, c);
                    }
                },
                Key::Enter => {
                    self.search_active = false;
                    self.update_search_matches();
                },
                Key::Esc => {
                    self.clear_search();
                },
                Key::Backspace => {
                    self.search_query = pop_string(&self.search_query);
                },
                _ => {},
            }
            assert(self@ =~= handle_key_spec(old(self)@, key, ctrl).0);
            return KeyAction::Nothing;
        }
        self.reading_key(key, ctrl)
    }

    /// Handles a key while reading.
    fn reading_key(&mut self, key: Key, ctrl: bool) -> (r: KeyAction)
        requires
            !old(self).fuzzy_active,
            !old(self).search_active,
            key_is_safe(old(self)@, key, ctrl),
        ensures
            (final(self)@, r@) == reading_key(old(self)@, key, ctrl),
    {
        proof {
            lemma_headings_view(self.headings@);
        }
        let query_empty = chars_of(self.search_query.as_str()).len() == 0;
        if key == Key::Char('q') || (key == Key::Char('c') && ctrl) {
            self.should_quit = true;
            assert(self@ =~= reading_key(old(self)@, key, ctrl).0);
            KeyAction::Nothing
        } else if (key == Key::Char('p') && ctrl) || key == Key::Char('f') {
            KeyAction::OpenFuzzyFinder
        } else if key == Key::Char('t') {
            self.cycle_theme();
            KeyAction::Nothing
        } else if key == Key::Char('y') {
            KeyAction::CopyCodeBlock
        } else if key == Key::Esc {
            if !query_empty || self.search_matches.len() > 0 || self.search_active {
                self.clear_search();
            } else if self.status_message.is_some() {
                self.status_message = None;
            } else if self.show_toc {
                self.show_toc = false;
            } else {
                self.should_quit = true;
            }
            assert(self@ =~= reading_key(old(self)@, key, ctrl).0);
            KeyAction::Nothing
        } else if key == Key::Char('c') && !query_empty {
            self.clear_search();
            KeyAction::Nothing
        } else if key == Key::Enter {
            match self.follow_current_line_link() {
                Some(req) => KeyAction::OpenFile(req),
                None => KeyAction::Nothing,
            }
        } else if key == Key::Backspace {
            self.backtrack_history();
            KeyAction::Nothing
        } else if key == Key::Char('g') {
            self.jump_to_top();
            KeyAction::Nothing
        } else if key == Key::Char('G') {
            self.jump_to_bottom();
            KeyAction::Nothing
        } else if key == Key::Char('j') || key == Key::Down {
            if self.show_toc && self.headings.len() > 0 {
                self.selected_toc_index = (self.selected_toc_index + 1) % self.headings.len();
                self.move_to_toc_entry();
            } else {
                self.scroll_down(1);
            }
            KeyAction::Nothing
        } else if key == Key::Char('k') || key == Key::Up {
            if self.show_toc && self.headings.len() > 0 {
                if self.selected_toc_index == 0 {
                    self.selected_toc_index = self.headings.len() - 1;
                } else {
                    self.selected_toc_index = self.selected_toc_index - 1;
                }
                self.move_to_toc_entry();
            } else {
                self.scroll_up(1);
            }
            KeyAction::Nothing
        } else if key == Key::Char('d') && ctrl {
            self.scroll_down(10);
            KeyAction::Nothing
        } else if key == Key::Char('u') && ctrl {
            self.scroll_up(10);
            KeyAction::Nothing
        } else if key == Key::Char('n') {
            self.next_search_match();
            KeyAction::Nothing
        } else if key == Key::Char('N') {
            self.prev_search_match();
            KeyAction::Nothing
        } else if key == Key::Tab || key == Key::Char('b') {
            self.toggle_toc();
            KeyAction::Nothing
        } else if key == Key::Char('/') {
            self.search_active = true;
            self.search_query = String::new();
            assert(self@ =~= reading_key(old(self)@, key, ctrl).0);
            KeyAction::Nothing
        } else if key == Key::Char('a') {
            KeyAction::CopyCleanText
        } else {
            KeyAction::Nothing
        }
    }

    /// Scrolls to the selected entry of the table of contents.
    fn move_to_toc_entry(&mut self)
        requires
            old(self).selected_toc_index < old(self).headings@.len(),
        ensures
            final(self)@ == select_toc(old(self)@, old(self).selected_toc_index as int),
    {
        proof {
            lemma_headings_view(self.headings@);
        }
        #[verifier::truncate]
        let off = self.headings[self.selected_toc_index].start_line.saturating_sub(1) as u16;
        self.scroll_offset = off;
        assert(self@ =~= select_toc(old(self)@, old(self).selected_toc_index as int));
    }
}

/// The status bar's text: the finder's or the search's help, the status message, the
/// search summary, or the reading position.
pub open spec fn status_text_spec(v: AppView) -> Seq<char> {
    if v.fuzzy_active {
        " [Fuzzy Finder] Type to filter | Ctrl+J/K: Navigate | Enter: Open | Esc: Close"@
    } else if v.search_active {
        " [Search Mode] Query: \""@ + v.search_query
            + "\"_ | [Enter]: Find | [Esc]: Cancel Search | [Ctrl+C]: Quit"@
    } else {
        match v.status_message {
            Some(m) => m,
            None => if v.search_query.len() > 0 {
                " Search: \""@ + v.search_query + "\" ("@ + decimal(
                    if v.search_matches.len() == 0 {
                        0nat
                    } else {
                        (v.current_search_match + 1) as nat
                    },
                ) + "/"@ + decimal(v.search_matches.len())
                    + " matches) | [n/N]: Match | [Esc/c]: Clear Search | [j/k]: Scroll | [q]: Quit"@
            } else {
                " Line: "@ + decimal((v.scroll_offset + 1) as nat) + "/"@ + decimal(
                    v.rendered_line_count as nat,
                ) + " | Est. Tokens: "@ + decimal(v.estimated_tokens as nat)
                    + " | [Ctrl+P/f]: Finder | [t]: Theme | [y]: Copy Code | [Tab/b]: TOC | [/]: Search | [q]: Quit"@
            },
        }
    }
}

impl App {
    /// Moves the table of contents selection to entry `idx` (a click on it), if there is one.
    pub fn select_toc_entry(&mut self, idx: usize)
        ensures
            final(self)@ == if idx < old(self)@.headings.len() {
                select_toc(old(self)@, idx as int)
            } else {
                old(self)@
            },
    {
        proof {
            lemma_headings_view(self.headings@);
        }
        if idx < self.headings.len() {
            self.selected_toc_index = idx;
            self.move_to_toc_entry();
        }
    }

    /// The status bar's text.
    pub fn status_text(&self) -> (r: String)
        requires
            !self.fuzzy_active && !self.search_active && self.status_message is None
                && self@.search_query.len() > 0 && self.search_matches@.len() > 0
                ==> self.current_search_match < usize::MAX,
        ensures
            r@ == status_text_spec(self@),
    {
        if self.fuzzy_active {
            return string_from(" [Fuzzy Finder] Type to filter | Ctrl+J/K: Navigate | Enter: Open | Esc: Close");
        }
        if self.search_active {
            let mut t = string_from(" [Search Mode] Query: \"");
            push_str(&mut t, self.search_query.as_str());
            push_str(&mut t, "\"_ | [Enter]: Find | [Esc]: Cancel Search | [Ctrl+C]: Quit");
            return t;
        }
        match &self.status_message {
            Some(m) => m.clone(),
            None => {
                if chars_of(self.search_query.as_str()).len() > 0 {
                    let mut t = string_from(" Search: \"");
                    push_str(&mut t, self.search_query.as_str());
                    push_str(&mut t, "\" (");
                    let cur = if self.search_matches.len() == 0 {
                        0
                    } else {
                        self.current_search_match + 1
                    };
                    push_decimal(&mut t, cur);
                    push_str(&mut t, "/");
                    push_decimal(&mut t, self.search_matches.len());
                    push_str(&mut t, " matches) | [n/N]: Match | [Esc/c]: Clear Search | [j/k]: Scroll | [q]: Quit");
                    t
                } else {
                    let mut t = string_from(" Line: ");
                    push_decimal(&mut t, self.scroll_offset as usize + 1);
                    push_str(&mut t, "/");
                    push_decimal(&mut t, self.rendered_line_count);
                    push_str(&mut t, " | Est. Tokens: ");
                    push_decimal(&mut t, self.estimated_tokens);
                    push_str(&mut t, " | [Ctrl+P/f]: Finder | [t]: Theme | [y]: Copy Code | [Tab/b]: TOC | [/]: Search | [q]: Quit");
                    t
                }
            },
        }
    }
}

} // verus!
