//! Rich rendering of Markdown into styled lines: header hierarchy, blockquotes, nested
//! lists, task checkboxes, grid tables and highlighted code blocks.
use crate::markdown::{markdown_events, parse_markdown, EventKind, MdEvent, MdEventView, TagKind, EXTENDED_OPTIONS};
use crate::text::{
    chars_of, contains, contains_chars, join, lemma_lines_len_bound, lines, lower_chars, lowercase,
    push_chars, string_of, to_upper, trim, trim_chars, uppercase,
};
use crate::chunker::split_lines;
use crate::agent::vecs_view;
use crate::tui::app::{theme_header_tone, theme_syntect_name, theme_text_tone, AppTheme};
use vstd::prelude::*;

verus! {

/// A terminal color.
#[derive(Debug, Clone, Copy, PartialEq, Eq)]
pub enum Tone {
    Black,
    Green,
    Yellow,
    Blue,
    Magenta,
    Cyan,
    White,
    DarkGray,
    LightRed,
    LightGreen,
    Rgb(u8, u8, u8),
}

/// The style of a span: foreground and background colors, bold and underlined.
#[derive(Debug, Clone, Copy, PartialEq, Eq)]
pub struct SpanStyle {
    pub fg: Option<Tone>,
    pub bg: Option<Tone>,
    pub bold: bool,
    pub underlined: bool,
}

/// A run of text in one style.
#[derive(Debug, Clone, PartialEq, Eq)]
pub struct StyledSpan {
    pub text: String,
    pub style: SpanStyle,
}

/// A rendered line: its spans, left to right.
#[derive(Debug, Clone, PartialEq, Eq)]
pub struct RenderedLine {
    pub spans: Vec<StyledSpan>,
}

/// The value of a span.
#[verifier::ext_equal]
pub struct SpanView {
    pub text: Seq<char>,
    pub style: SpanStyle,
}

impl View for StyledSpan {
    type V = SpanView;

    open spec fn view(&self) -> SpanView {
        SpanView { text: self.text@, style: self.style }
    }
}

impl View for RenderedLine {
    type V = Seq<SpanView>;

    open spec fn view(&self) -> Seq<SpanView> {
        self.spans@.map_values(|s: StyledSpan| s@)
    }
}

/// The values of a list of rendered lines.
pub open spec fn lines_view(v: Seq<RenderedLine>) -> Seq<Seq<SpanView>> {
    v.map_values(|l: RenderedLine| l@)
}

/// No color and no modifier.
pub open spec fn plain_style() -> SpanStyle {
    SpanStyle { fg: None, bg: None, bold: false, underlined: false }
}

/// A foreground color.
pub open spec fn fg_style(t: Tone) -> SpanStyle {
    SpanStyle { fg: Some(t), bg: None, bold: false, underlined: false }
}

/// A bold foreground color.
pub open spec fn bold_style(t: Tone) -> SpanStyle {
    SpanStyle { fg: Some(t), bg: None, bold: true, underlined: false }
}

/// A span.
pub open spec fn span(text: Seq<char>, style: SpanStyle) -> SpanView {
    SpanView { text, style }
}

/// A line of one span.
pub open spec fn one_span(text: Seq<char>, style: SpanStyle) -> Seq<SpanView> {
    seq![span(text, style)]
}

/// `n` copies of `c`.
pub open spec fn repeat(c: char, n: int) -> Seq<char> {
    Seq::new(if n > 0 { n as nat } else { 0 }, |i: int| c)
}

fn plain() -> (r: SpanStyle)
    ensures
        r == plain_style(),
{
    SpanStyle { fg: None, bg: None, bold: false, underlined: false }
}

fn fg(t: Tone) -> (r: SpanStyle)
    ensures
        r == fg_style(t),
{
    SpanStyle { fg: Some(t), bg: None, bold: false, underlined: false }
}

fn bold(t: Tone) -> (r: SpanStyle)
    ensures
        r == bold_style(t),
{
    SpanStyle { fg: Some(t), bg: None, bold: true, underlined: false }
}

/// A span of `text`.
fn styled(text: &str, style: SpanStyle) -> (r: StyledSpan)
    ensures
        r@ == span(text@, style),
{
    let mut s = String::new();
    crate::text::push_str(&mut s, text);
    StyledSpan { text: s, style }
}

/// A span of the characters `cs`.
fn styled_chars(cs: &[char], style: SpanStyle) -> (r: StyledSpan)
    ensures
        r@ == span(cs@, style),
{
    StyledSpan { text: string_of(cs), style }
}

/// A line of one span.
fn single(s: StyledSpan) -> (r: RenderedLine)
    ensures
        r@ == seq![s@],
{
    let mut spans = Vec::new();
    spans.push(s);
    let r = RenderedLine { spans };
    assert(r@ =~= seq![s@]);
    r
}

/// Appends `n` copies of `c`.
fn push_repeat(v: &mut Vec<char>, c: char, n: usize)
    ensures
        final(v)@ == old(v)@ + repeat(c, n as int),
{
    let mut i: usize = 0;
    while i < n
        invariant
            i <= n,
            v@ == old(v)@ + repeat(c, i as int),
        decreases n - i,
    {
        v.push(c);
        i += 1;
        assert(v@ =~= old(v)@ + repeat(c, i as int));
    }
}

/// Appends the characters of `t`.
fn push_lit(v: &mut Vec<char>, t: &str)
    ensures
        final(v)@ == old(v)@ + t@,
{
    let cs = chars_of(t);
    let mut i: usize = 0;
    while i < cs.len()
        invariant
            i <= cs.len(),
            cs@ == t@,
            v@ == old(v)@ + cs@.take(i as int),
        decreases cs.len() - i,
    {
        v.push(cs[i]);
        i += 1;
        assert(v@ =~= old(v)@ + cs@.take(i as int));
    }
    assert(cs@.take(cs.len() as int) =~= cs@);
}

/// Appends `cs`.
fn push_all(v: &mut Vec<char>, cs: &[char])
    ensures
        final(v)@ == old(v)@ + cs@,
{
    let mut i: usize = 0;
    while i < cs.len()
        invariant
            i <= cs.len(),
            v@ == old(v)@ + cs@.take(i as int),
        decreases cs.len() - i,
    {
        v.push(cs[i]);
        i += 1;
        assert(v@ =~= old(v)@ + cs@.take(i as int));
    }
    assert(cs@.take(cs.len() as int) =~= cs@);
}

// ---------------------------------------------------------------------------
// Outside calls
// ---------------------------------------------------------------------------

/// The display width in terminal columns that `unicode-width` gives a string.
pub uninterp spec fn display_width(s: Seq<char>) -> usize;

/// The spans that `syntect` highlights in the lines `code`, line by line, with the syntax
/// of file extension `lang` (plain text when none is known) and the theme named `theme`:
/// for each span, its foreground color and text.
pub uninterp spec fn highlighted(lang: Seq<char>, theme: Seq<char>, code: Seq<Seq<char>>) -> Seq<
    Seq<(u8, u8, u8, Seq<char>)>,
>;

/// Calls `UnicodeWidthStr::width` of `unicode-width`.
#[verifier::external_body]
fn text_width(s: &str) -> (r: usize)
    ensures
        r == display_width(s@),
{
    unicode_width::UnicodeWidthStr::width(s)
}

/// Highlights the lines of a code block with `syntect`'s default syntaxes and themes:
/// `HighlightLines::highlight_line` on each line in turn (a line it fails on has no span).
/// The result has one entry per line; what the spans are is left to `highlighted`.
#[verifier::external_body]
fn highlight_code(lang: &str, theme: &str, code: &Vec<String>) -> (r: Vec<Vec<(u8, u8, u8, String)>>)
    requires
        theme@ == "base16-ocean.dark"@ || theme@ == "base16-eighties.dark"@ || theme@
            == "base16-mocha.dark"@,
    ensures
        r@.len() == code@.len(),
        r.deep_view() == highlighted(lang@, theme@, code.deep_view()),
{
    let ps = syntect::parsing::SyntaxSet::load_defaults_newlines();
    let ts = syntect::highlighting::ThemeSet::load_defaults();
    let syntax = ps.find_syntax_by_extension(lang).unwrap_or_else(|| ps.find_syntax_plain_text());
    let mut h = syntect::easy::HighlightLines::new(syntax, &ts.themes[theme]);
    code.iter().map(|l| {
        h.highlight_line(l, &ps).unwrap_or_default().into_iter().map(|(st, t)| {
            (st.foreground.r, st.foreground.g, st.foreground.b, t.to_string())
        }).collect()
    }).collect()
}

// ---------------------------------------------------------------------------
// Text lines
// ---------------------------------------------------------------------------

/// The style of a heading of `level`.
pub open spec fn heading_style(level: u32) -> SpanStyle {
    if level == 1 {
        SpanStyle { fg: Some(Tone::Magenta), bg: None, bold: true, underlined: true }
    } else if level == 2 {
        bold_style(Tone::Cyan)
    } else if level == 3 {
        bold_style(Tone::Green)
    } else if level == 4 {
        bold_style(Tone::Yellow)
    } else if level == 5 {
        bold_style(Tone::Blue)
    } else {
        bold_style(Tone::DarkGray)
    }
}

/// The style of a line that matches the search.
pub open spec fn search_style() -> SpanStyle {
    SpanStyle { fg: Some(Tone::Black), bg: Some(Tone::Yellow), bold: true, underlined: false }
}

/// The rendering of one line of text: a blockquote bar, then the heading prefix and text in
/// the heading's style, or the text highlighted as a search match, or in the theme's color.
pub open spec fn text_line(
    l: Seq<char>,
    quote: bool,
    level: u32,
    query: Seq<char>,
    theme: AppTheme,
) -> Seq<SpanView> {
    (if quote {
        one_span("│ "@, bold_style(Tone::Yellow))
    } else {
        seq![]
    }) + (if level > 0 {
        seq![
            span(repeat('#', level as int) + " "@, heading_style(level)),
            span(l, heading_style(level)),
        ]
    } else if query.len() > 0 && contains(lowercase(l), lowercase(query)) {
        one_span(l, search_style())
    } else {
        one_span(l, fg_style(theme_text_tone(theme)))
    })
}

/// The rendering of lines of text.
pub open spec fn text_lines(
    ls: Seq<Seq<char>>,
    quote: bool,
    level: u32,
    query: Seq<char>,
    theme: AppTheme,
) -> Seq<Seq<SpanView>> {
    ls.map_values(|l: Seq<char>| text_line(l, quote, level, query, theme))
}

fn heading_style_of(level: u32) -> (r: SpanStyle)
    ensures
        r == heading_style(level),
{
    if level == 1 {
        SpanStyle { fg: Some(Tone::Magenta), bg: None, bold: true, underlined: true }
    } else if level == 2 {
        bold(Tone::Cyan)
    } else if level == 3 {
        bold(Tone::Green)
    } else if level == 4 {
        bold(Tone::Yellow)
    } else if level == 5 {
        bold(Tone::Blue)
    } else {
        bold(Tone::DarkGray)
    }
}

/// The rendering of one line of text.
fn render_text_line(
    l: &Vec<char>,
    quote: bool,
    level: u32,
    query: &Vec<char>,
    theme: AppTheme,
) -> (r: RenderedLine)
    ensures
        r@ == text_line(l@, quote, level, query@, theme),
{
    let mut spans: Vec<StyledSpan> = Vec::new();
    if quote {
        spans.push(styled("│ ", bold(Tone::Yellow)));
    }
    let ghost pre = spans@.map_values(|s: StyledSpan| s@);
    if level > 0 {
        let st = heading_style_of(level);
        let mut prefix: Vec<char> = Vec::new();
        push_repeat(&mut prefix, '#', level as usize);
        prefix.push(' ');
        assert(prefix@ =~= repeat('#', level as int) + " "@) by {
            reveal_strlit(" ");
        }
        spans.push(styled_chars(prefix.as_slice(), st));
        spans.push(styled_chars(l.as_slice(), st));
    } else if query.len() > 0 && contains_chars(
        lower_chars(l.as_slice()).as_slice(),
        lower_chars(query.as_slice()).as_slice(),
    ) {
        spans.push(
            styled_chars(
                l.as_slice(),
                SpanStyle { fg: Some(Tone::Black), bg: Some(Tone::Yellow), bold: true, underlined: false },
            ),
        );
    } else {
        spans.push(styled_chars(l.as_slice(), fg(theme.text_color())));
    }
    let r = RenderedLine { spans };
    assert(r@ =~= text_line(l@, quote, level, query@, theme));
    r
}

// ---------------------------------------------------------------------------
// Code blocks
// ---------------------------------------------------------------------------

/// The label of a code block in language `lang`.
pub open spec fn code_tag(lang: Seq<char>) -> Seq<char> {
    if trim(lang).len() == 0 {
        "CODE"@
    } else {
        uppercase(trim(lang))
    }
}

/// The spans of a highlighted line.
pub open spec fn highlighted_line(l: Seq<(u8, u8, u8, Seq<char>)>) -> Seq<SpanView> {
    l.map_values(|x: (u8, u8, u8, Seq<char>)| span(x.3, fg_style(Tone::Rgb(x.0, x.1, x.2))))
}

/// The rendering of a code block: a labelled top border, the highlighted lines and a bottom
/// border.
pub open spec fn code_block_lines(lang: Seq<char>, code: Seq<Seq<char>>, theme: AppTheme) -> Seq<
    Seq<SpanView>,
> {
    seq![
        seq![
            span("┌─ [ "@, fg_style(Tone::DarkGray)),
            span(code_tag(lang), bold_style(Tone::Yellow)),
            span(" ] ────────────────────────────────────────┐"@, fg_style(Tone::DarkGray)),
        ],
    ] + highlighted(lang, theme_syntect_name(theme), code).map_values(
        |l: Seq<(u8, u8, u8, Seq<char>)>| highlighted_line(l),
    ) + seq![one_span("└──────────────────────────────────────────────────┘"@, fg_style(Tone::DarkGray))]
}

/// Appends the rendering of a code block.
fn render_code_block(out: &mut Vec<RenderedLine>, lang: &String, code: &Vec<String>, theme: AppTheme)
    ensures
        lines_view(final(out)@) == lines_view(old(out)@) + code_block_lines(lang@, code.deep_view(), theme),
{
    let ghost start = lines_view(out@);
    let lang_chars = chars_of(lang.as_str());
    let t = trim_chars(lang_chars.as_slice());
    let tag = if t.len() == 0 {
        let mut s = String::new();
        crate::text::push_str(&mut s, "CODE");
        s
    } else {
        to_upper(string_of(t.as_slice()).as_str())
    };
    let mut head: Vec<StyledSpan> = Vec::new();
    head.push(styled("┌─ [ ", fg(Tone::DarkGray)));
    head.push(StyledSpan { text: tag, style: bold(Tone::Yellow) });
    head.push(styled(" ] ────────────────────────────────────────┐", fg(Tone::DarkGray)));
    let hl = highlight_code(lang.as_str(), theme.syntect_theme(), code);
    let ghost hv = highlighted(lang@, theme_syntect_name(theme), code.deep_view());
    let ghost before = out@;
    let hline = RenderedLine { spans: head };
    out.push(hline);
    assert(lines_view(out@) =~= start + seq![hline@]);
    let mut i: usize = 0;
    while i < hl.len()
        invariant
            i <= hl@.len(),
            hl.deep_view() == hv,
            lines_view(out@) == start + seq![hline@] + hv.map_values(
                |l: Seq<(u8, u8, u8, Seq<char>)>| highlighted_line(l),
            ).take(i as int),
        decreases hl.len() - i,
    {
        let mut spans: Vec<StyledSpan> = Vec::new();
        let mut j: usize = 0;
        assert(hl@[i as int].deep_view() == hv[i as int]);
        while j < hl[i].len()
            invariant
                i < hl@.len(),
                j <= hl@[i as int]@.len(),
                hl@[i as int].deep_view() == hv[i as int],
                spans@.map_values(|s: StyledSpan| s@) == highlighted_line(hv[i as int]).take(j as int),
            decreases hl@[i as int]@.len() - j,
        {
            let e = &hl[i][j];
            assert(hv[i as int][j as int] == (e.0, e.1, e.2, e.3@));
            let sp = StyledSpan { text: e.3.clone(), style: fg(Tone::Rgb(e.0, e.1, e.2)) };
            let ghost b = spans@;
            spans.push(sp);
            j += 1;
            assert(spans@.map_values(|s: StyledSpan| s@) =~= b.map_values(|s: StyledSpan| s@).push(sp@));
            assert(spans@.map_values(|s: StyledSpan| s@) =~= highlighted_line(hv[i as int]).take(j as int));
        }
        let line = RenderedLine { spans };
        assert(line@ =~= highlighted_line(hv[i as int]));
        let ghost b = out@;
        out.push(line);
        i += 1;
        assert(lines_view(out@) =~= lines_view(b).push(line@));
        assert(lines_view(out@) =~= start + seq![hline@] + hv.map_values(
            |l: Seq<(u8, u8, u8, Seq<char>)>| highlighted_line(l),
        ).take(i as int));
    }
    let foot = single(styled("└──────────────────────────────────────────────────┘", fg(Tone::DarkGray)));
    let ghost b = out@;
    out.push(foot);
    assert(lines_view(out@) =~= lines_view(b).push(foot@));
    assert(hv.map_values(|l: Seq<(u8, u8, u8, Seq<char>)>| highlighted_line(l)).take(i as int)
        =~= hv.map_values(|l: Seq<(u8, u8, u8, Seq<char>)>| highlighted_line(l)));
    assert(hline@ =~= seq![
        span("┌─ [ "@, fg_style(Tone::DarkGray)),
        span(code_tag(lang@), bold_style(Tone::Yellow)),
        span(" ] ────────────────────────────────────────┐"@, fg_style(Tone::DarkGray)),
    ]);
    assert(lines_view(out@) =~= start + code_block_lines(lang@, code.deep_view(), theme));
}

// ---------------------------------------------------------------------------
// Tables
// ---------------------------------------------------------------------------

/// The number of columns of a table: its longest row.
pub open spec fn max_cols(rows: Seq<Seq<Seq<char>>>) -> nat
    decreases rows.len(),
{
    if rows.len() == 0 {
        0
    } else {
        let m = max_cols(rows.drop_last());
        if rows.last().len() > m {
            rows.last().len()
        } else {
            m
        }
    }
}

/// The display width of column `c`: its widest cell.
pub open spec fn col_width(rows: Seq<Seq<Seq<char>>>, c: int) -> int
    decreases rows.len(),
{
    if rows.len() == 0 {
        0
    } else {
        let m = col_width(rows.drop_last(), c);
        let w: int = if 0 <= c < rows.last().len() {
            display_width(rows.last()[c]) as int
        } else {
            0
        };
        if w > m {
            w
        } else {
            m
        }
    }
}

/// The column widths of a table.
pub open spec fn col_widths(rows: Seq<Seq<Seq<char>>>) -> Seq<int> {
    Seq::new(max_cols(rows), |c: int| col_width(rows, c))
}

/// A horizontal border: `l`, then a run of `─` two longer than each column, separated by
/// `m`, then `r`.
pub open spec fn border(l: Seq<char>, m: Seq<char>, r: Seq<char>, ws: Seq<int>) -> Seq<char> {
    l + join(ws.map_values(|w: int| repeat('─', w + 2)), m) + r
}

/// The cells of the first `n` columns of a row, each padded to its column and followed by a
/// bar.
pub open spec fn row_cells(row: Seq<Seq<char>>, ws: Seq<int>, style: SpanStyle, n: int) -> Seq<
    SpanView,
>
    decreases n,
{
    if n <= 0 {
        seq![]
    } else {
        let c = n - 1;
        let cell = if c < row.len() {
            row[c]
        } else {
            seq![]
        };
        row_cells(row, ws, style, n - 1) + seq![
            span(" "@ + cell + repeat(' ', ws[c] - display_width(cell)) + " "@, style),
            span("│"@, fg_style(Tone::DarkGray)),
        ]
    }
}

/// One table row.
pub open spec fn row_line(row: Seq<Seq<char>>, ws: Seq<int>, style: SpanStyle) -> Seq<SpanView> {
    one_span("│"@, fg_style(Tone::DarkGray)) + row_cells(row, ws, style, ws.len() as int)
}

/// The rendering of a table: top border, header row, separator, body rows, bottom border.
pub open spec fn table_lines(rows: Seq<Seq<Seq<char>>>, theme: AppTheme) -> Seq<Seq<SpanView>> {
    let ws = col_widths(rows);
    let body = fg_style(theme_text_tone(theme));
    seq![
        one_span(border("┌"@, "┬"@, "┐"@, ws), fg_style(Tone::DarkGray)),
        row_line(rows[0], ws, bold_style(theme_header_tone(theme))),
        one_span(border("├"@, "┼"@, "┤"@, ws), fg_style(Tone::DarkGray)),
    ] + rows.subrange(1, rows.len() as int).map_values(|r: Seq<Seq<char>>| row_line(r, ws, body))
        + seq![one_span(border("└"@, "┴"@, "┘"@, ws), fg_style(Tone::DarkGray))]
}

/// The column widths of a table.
fn table_widths(rows: &Vec<Vec<String>>) -> (r: Vec<usize>)
    ensures
        r@.len() == col_widths(rows.deep_view()).len(),
        forall|c: int| 0 <= c < r@.len() ==> r@[c] == col_widths(rows.deep_view())[c],
{
    let ghost rv = rows.deep_view();
    let mut cc: usize = 0;
    let mut k: usize = 0;
    while k < rows.len()
        invariant
            k <= rows@.len(),
            rv == rows.deep_view(),
            cc == max_cols(rv.take(k as int)),
        decreases rows.len() - k,
    {
        assert(rv.take(k + 1).drop_last() =~= rv.take(k as int));
        if rows[k].len() > cc {
            cc = rows[k].len();
        }
        k += 1;
    }
    assert(rv.take(k as int) =~= rv);
    let mut widths: Vec<usize> = Vec::new();
    let mut c: usize = 0;
    while c < cc
        invariant
            c <= cc,
            widths@.len() == c,
            forall|j: int| 0 <= j < c ==> widths@[j] == 0,
        decreases cc - c,
    {
        widths.push(0);
        c += 1;
    }
    let mut k: usize = 0;
    while k < rows.len()
        invariant
            k <= rows@.len(),
            rv == rows.deep_view(),
            cc == max_cols(rv),
            widths@.len() == cc,
            forall|j: int| 0 <= j < cc ==> widths@[j] == col_width(rv.take(k as int), j),
        decreases rows.len() - k,
    {
        let ghost prev = widths@;
        assert(rv.take(k + 1).drop_last() =~= rv.take(k as int));
        assert(rows@[k as int].deep_view() == rv[k as int]);
        proof {
            lemma_max_cols_bound(rv, k as int);
        }
        let mut j: usize = 0;
        while j < rows[k].len()
            invariant
                k < rows@.len(),
                j <= rows@[k as int]@.len(),
                rows@[k as int]@.len() <= cc,
                rv == rows.deep_view(),
                rows@[k as int].deep_view() == rv[k as int],
                rv.take(k + 1).drop_last() == rv.take(k as int),
                widths@.len() == cc,
                prev.len() == cc,
                forall|x: int| 0 <= x < cc ==> prev[x] == col_width(rv.take(k as int), x),
                forall|x: int| 0 <= x < j ==> widths@[x] == col_width(rv.take(k + 1), x),
                forall|x: int| j <= x < cc ==> widths@[x] == prev[x],
            decreases rows@[k as int]@.len() - j,
        {
            let w = text_width(rows[k][j].as_str());
            assert(rv[k as int][j as int] == rows@[k as int]@[j as int]@);
            proof {
                lemma_col_width_step(rv, k as int, j as int);
            }
            assert(rv[k as int].len() == rows@[k as int]@.len());
            assert(w == display_width(rv[k as int][j as int]));
            assert(j < cc);
            assert(widths@[j as int] == prev[j as int]);
            assert(prev[j as int] == col_width(rv.take(k as int), j as int));
            assert(widths@[j as int] == col_width(rv.take(k as int), j as int));
            if j < widths.len() && w > widths[j] {
                widths.set(j, w);
            }
            assert(widths@[j as int] == col_width(rv.take(k + 1), j as int));
            j += 1;
        }
        assert forall|x: int| 0 <= x < cc implies widths@[x] == col_width(rv.take(k + 1), x) by {
            lemma_col_width_step(rv, k as int, x);
            assert(rv[k as int].len() == rows@[k as int]@.len());
            if x >= j {
                lemma_col_width_nonneg(rv.take(k as int), x);
                assert(widths@[x] == prev[x]);
                assert(prev[x] == col_width(rv.take(k as int), x));
            }
        }
        k += 1;
    }
    assert(rv.take(k as int) =~= rv);
    widths
}

/// The width of a column after one more row.
proof fn lemma_col_width_step(rows: Seq<Seq<Seq<char>>>, k: int, c: int)
    requires
        0 <= k < rows.len(),
    ensures
        col_width(rows.take(k + 1), c) == {
            let m = col_width(rows.take(k), c);
            let w: int = if 0 <= c < rows[k].len() {
                display_width(rows[k][c]) as int
            } else {
                0
            };
            if w > m {
                w
            } else {
                m
            }
        },
{
    assert(rows.take(k + 1).drop_last() =~= rows.take(k));
    assert(rows.take(k + 1).last() == rows[k]);
}

/// Column widths are never negative.
proof fn lemma_col_width_nonneg(rows: Seq<Seq<Seq<char>>>, c: int)
    ensures
        col_width(rows, c) >= 0,
    decreases rows.len(),
{
    if rows.len() > 0 {
        lemma_col_width_nonneg(rows.drop_last(), c);
    }
}

/// A row never has more cells than the table has columns.
proof fn lemma_max_cols_bound(rows: Seq<Seq<Seq<char>>>, k: int)
    requires
        0 <= k < rows.len(),
    ensures
        rows[k].len() <= max_cols(rows),
    decreases rows.len(),
{
    if k < rows.len() - 1 {
        lemma_max_cols_bound(rows.drop_last(), k);
        assert(rows.drop_last()[k] == rows[k]);
    }
}

/// Widths as integers.
pub open spec fn widths_view(w: Seq<usize>) -> Seq<int> {
    w.map_values(|x: usize| x as int)
}

/// The text of a horizontal border.
fn border_text(l: &str, m: &str, r: &str, widths: &Vec<usize>) -> (out: Vec<char>)
    ensures
        out@ == border(l@, m@, r@, widths_view(widths@)),
{
    let ghost ws = widths_view(widths@);
    let ghost f = |w: int| repeat('─', w + 2);
    let mut out: Vec<char> = Vec::new();
    push_lit(&mut out, l);
    let ghost lv = out@;
    let mut c: usize = 0;
    assert(ws.take(0).map_values(f) =~= Seq::<Seq<char>>::empty());
    while c < widths.len()
        invariant
            c <= widths@.len(),
            ws == widths_view(widths@),
            f == (|w: int| repeat('─', w + 2)),
            lv == l@,
            out@ == lv + join(ws.take(c as int).map_values(f), m@),
        decreases widths.len() - c,
    {
        let ghost prev = ws.take(c as int).map_values(f);
        if c > 0 {
            push_lit(&mut out, m);
        }
        push_repeat(&mut out, '─', widths[c]);
        out.push('─');
        out.push('─');
        proof {
            let piece = repeat('─', widths@[c as int] as int + 2);
            assert(repeat('─', widths@[c as int] as int) + seq!['─'] + seq!['─'] =~= piece);
            assert(ws.take(c + 1).map_values(f) =~= prev.push(piece));
            crate::agent::lemma_join_push(prev, piece, m@);
        }
        c += 1;
        assert(out@ =~= lv + join(ws.take(c as int).map_values(f), m@));
    }
    assert(ws.take(c as int) =~= ws);
    push_lit(&mut out, r);
    out
}

/// The spans of one table row.
fn render_row(row: &Vec<String>, widths: &Vec<usize>, style: SpanStyle) -> (r: RenderedLine)
    ensures
        r@ == row_line(row.deep_view(), widths_view(widths@), style),
{
    let ghost rv = row.deep_view();
    let ghost ws = widths_view(widths@);
    let mut spans: Vec<StyledSpan> = Vec::new();
    spans.push(styled("│", fg(Tone::DarkGray)));
    let ghost first = spans@.map_values(|s: StyledSpan| s@);
    let mut c: usize = 0;
    while c < widths.len()
        invariant
            c <= widths@.len(),
            rv == row.deep_view(),
            ws == widths_view(widths@),
            first == one_span("│"@, fg_style(Tone::DarkGray)),
            spans@.map_values(|s: StyledSpan| s@) == first + row_cells(rv, ws, style, c as int),
        decreases widths.len() - c,
    {
        let mut cell: Vec<char> = Vec::new();
        if c < row.len() {
            cell = chars_of(row[c].as_str());
        }
        assert(cell@ == if c < rv.len() { rv[c as int] } else { seq![] });
        let cw = text_width(string_of(cell.as_slice()).as_str());
        let pad = widths[c].saturating_sub(cw);
        let mut text: Vec<char> = Vec::new();
        text.push(' ');
        push_all(&mut text, cell.as_slice());
        push_repeat(&mut text, ' ', pad);
        text.push(' ');
        assert(text@ =~= " "@ + cell@ + repeat(' ', ws[c as int] - display_width(cell@)) + " "@) by {
            reveal_strlit(" ");
        }
        let ghost b = spans@;
        let s1 = styled_chars(text.as_slice(), style);
        let s2 = styled("│", fg(Tone::DarkGray));
        spans.push(s1);
        spans.push(s2);
        c += 1;
        assert(spans@.map_values(|s: StyledSpan| s@) =~= b.map_values(|s: StyledSpan| s@) + seq![
            s1@,
            s2@,
        ]);
        assert(spans@.map_values(|s: StyledSpan| s@) =~= first + row_cells(rv, ws, style, c as int));
    }
    RenderedLine { spans }
}

/// Appends the rendering of a table with at least one row.
fn render_table(out: &mut Vec<RenderedLine>, rows: &Vec<Vec<String>>, theme: AppTheme)
    requires
        rows@.len() > 0,
    ensures
        lines_view(final(out)@) == lines_view(old(out)@) + table_lines(rows.deep_view(), theme),
{
    let ghost rv = rows.deep_view();
    let ghost start = lines_view(out@);
    let widths = table_widths(rows);
    let ghost ws = widths_view(widths@);
    assert(ws =~= col_widths(rv));
    let dark = fg(Tone::DarkGray);
    let top = single(StyledSpan { text: string_of(border_text("┌", "┬", "┐", &widths).as_slice()), style: dark });
    let head = render_row(&rows[0], &widths, bold(theme.header_color()));
    let sep = single(StyledSpan { text: string_of(border_text("├", "┼", "┤", &widths).as_slice()), style: dark });
    out.push(top);
    out.push(head);
    out.push(sep);
    assert(rows@[0].deep_view() == rv[0]);
    let ghost f = |r: Seq<Seq<char>>| row_line(r, ws, fg_style(theme_text_tone(theme)));
    let ghost mid = start + seq![top@, head@, sep@];
    assert(lines_view(out@) =~= mid);
    let body = fg(theme.text_color());
    let mut k: usize = 1;
    while k < rows.len()
        invariant
            1 <= k <= rows@.len(),
            rv == rows.deep_view(),
            ws == widths_view(widths@),
            body == fg_style(theme_text_tone(theme)),
            f == (|r: Seq<Seq<char>>| row_line(r, ws, fg_style(theme_text_tone(theme)))),
            lines_view(out@) == mid + rv.subrange(1, k as int).map_values(f),
        decreases rows.len() - k,
    {
        let line = render_row(&rows[k], &widths, body);
        assert(rows@[k as int].deep_view() == rv[k as int]);
        let ghost b = out@;
        out.push(line);
        k += 1;
        assert(lines_view(out@) =~= lines_view(b).push(line@));
        assert(rv.subrange(1, k as int).map_values(f) =~= rv.subrange(1, k - 1).map_values(f).push(
            f(rv[k - 1]),
        ));
    }
    let bottom = single(StyledSpan { text: string_of(border_text("└", "┴", "┘", &widths).as_slice()), style: dark });
    let ghost b = out@;
    out.push(bottom);
    assert(lines_view(out@) =~= lines_view(b).push(bottom@));
    assert(lines_view(out@) =~= start + table_lines(rv, theme));
}

// ---------------------------------------------------------------------------
// The event fold
// ---------------------------------------------------------------------------

/// The state of rendering: the lines so far, the open code block (language and lines), the
/// blockquote flag, the heading level, the list depth and the open table (rows so far, the
/// row and the cell being read).
#[verifier::ext_equal]
pub struct RenderState {
    pub lines: Seq<Seq<SpanView>>,
    pub in_code: bool,
    pub lang: Seq<char>,
    pub code: Seq<Seq<char>>,
    pub quote: bool,
    pub heading: u32,
    pub depth: nat,
    pub in_table: bool,
    pub in_head: bool,
    pub rows: Seq<Seq<Seq<char>>>,
    pub row: Seq<Seq<char>>,
    pub cell: Seq<char>,
}

/// The bullet of a list item at list depth `d`.
pub open spec fn bullet(d: nat) -> Seq<char> {
    if d <= 1 {
        "  • "@
    } else if d == 2 {
        "    ⁃ "@
    } else {
        "      ▪ "@
    }
}

/// One event read by the renderer.
pub open spec fn render_step(st: RenderState, e: MdEventView, query: Seq<char>, theme: AppTheme) -> RenderState {
    match e.kind {
        EventKind::Start => match e.tag {
            TagKind::Table => RenderState { in_table: true, rows: seq![], ..st },
            TagKind::TableHead => RenderState { in_head: true, row: seq![], ..st },
            TagKind::TableRow => RenderState { row: seq![], ..st },
            TagKind::TableCell => RenderState { cell: seq![], ..st },
            TagKind::Heading => RenderState { heading: e.level, ..st },
            TagKind::BlockQuote => RenderState { quote: true, ..st },
            TagKind::List => RenderState { depth: st.depth + 1, ..st },
            TagKind::CodeBlock => RenderState {
                in_code: true,
                code: seq![],
                lang: if e.has_text {
                    e.text
                } else {
                    "text"@
                },
                ..st
            },
            TagKind::Item => RenderState {
                lines: st.lines.push(one_span(bullet(st.depth), fg_style(Tone::Cyan))),
                ..st
            },
            _ => st,
        },
        EventKind::End => match e.tag {
            TagKind::Table => if st.in_table && st.rows.len() > 0 {
                RenderState { lines: st.lines + table_lines(st.rows, theme), in_table: false, ..st }
            } else {
                st
            },
            TagKind::TableHead => if st.row.len() > 0 {
                RenderState { in_head: false, rows: st.rows.push(st.row), row: seq![], ..st }
            } else {
                RenderState { in_head: false, ..st }
            },
            TagKind::TableRow => if st.row.len() > 0 && !st.in_head {
                RenderState { rows: st.rows.push(st.row), row: seq![], ..st }
            } else {
                st
            },
            TagKind::TableCell => RenderState { row: st.row.push(trim(st.cell)), cell: seq![], ..st },
            TagKind::Heading => RenderState { heading: 0, ..st },
            TagKind::BlockQuote => RenderState { quote: false, ..st },
            TagKind::List => RenderState {
                depth: if st.depth > 0 {
                    (st.depth - 1) as nat
                } else {
                    0
                },
                ..st
            },
            TagKind::CodeBlock => if st.in_code {
                RenderState {
                    lines: st.lines + code_block_lines(st.lang, st.code, theme),
                    in_code: false,
                    ..st
                }
            } else {
                st
            },
            _ => st,
        },
        EventKind::TaskListMarker => RenderState {
            lines: st.lines.push(
                if e.checked {
                    one_span("[✓] "@, bold_style(Tone::Green))
                } else {
                    one_span("[ ] "@, bold_style(Tone::DarkGray))
                },
            ),
            ..st
        },
        EventKind::Text => if st.in_table {
            RenderState { cell: st.cell + e.text, ..st }
        } else if st.in_code {
            RenderState { code: st.code + lines(e.text), ..st }
        } else {
            RenderState {
                lines: st.lines + text_lines(lines(e.text), st.quote, st.heading, query, theme),
                ..st
            }
        },
        EventKind::Code => if st.in_table {
            RenderState { cell: st.cell + "`"@ + e.text + "`"@, ..st }
        } else {
            RenderState {
                lines: st.lines.push(
                    one_span(
                        " `"@ + e.text + "` "@,
                        SpanStyle {
                            fg: Some(Tone::LightGreen),
                            bg: Some(Tone::Rgb(40, 44, 52)),
                            bold: false,
                            underlined: false,
                        },
                    ),
                ),
                ..st
            }
        },
        EventKind::Rule => RenderState {
            lines: st.lines.push(one_span("──────────────"@, fg_style(Tone::DarkGray))),
            ..st
        },
        _ => st,
    }
}

/// The renderer's state after the first `n` events.
pub open spec fn render_fold(es: Seq<MdEventView>, query: Seq<char>, theme: AppTheme, n: int) -> RenderState
    decreases n,
{
    if n <= 0 || n > es.len() {
        RenderState {
            lines: seq![],
            in_code: false,
            lang: seq![],
            code: seq![],
            quote: false,
            heading: 0,
            depth: 0,
            in_table: false,
            in_head: false,
            rows: seq![],
            row: seq![],
            cell: seq![],
        }
    } else {
        render_step(render_fold(es, query, theme, n - 1), es[n - 1], query, theme)
    }
}

/// The rendering of `raw`: the lines that its events (tables, task lists, strikethrough and
/// footnotes enabled) give, or the raw text as one line when they give none.
pub open spec fn render_spec(raw: Seq<char>, query: Seq<char>, theme: AppTheme) -> Seq<Seq<SpanView>> {
    let es = markdown_events(raw, EXTENDED_OPTIONS);
    let st = render_fold(es, query, theme, es.len() as int);
    if st.lines.len() == 0 {
        seq![one_span(raw, plain_style())]
    } else {
        st.lines
    }
}

/// Rendering always gives at least one line.
pub proof fn law_rendering_never_empty(raw: Seq<char>, query: Seq<char>, theme: AppTheme)
    ensures
        render_spec(raw, query, theme).len() >= 1,
{
}

/// The renderer's executable state.
struct Renderer {
    lines: Vec<RenderedLine>,
    in_code: bool,
    lang: String,
    code: Vec<String>,
    quote: bool,
    heading: u32,
    depth: usize,
    in_table: bool,
    in_head: bool,
    rows: Vec<Vec<String>>,
    row: Vec<String>,
    cell: Vec<char>,
}

spec fn renderer_view(r: Renderer) -> RenderState {
    RenderState {
        lines: lines_view(r.lines@),
        in_code: r.in_code,
        lang: r.lang@,
        code: r.code.deep_view(),
        quote: r.quote,
        heading: r.heading,
        depth: r.depth as nat,
        in_table: r.in_table,
        in_head: r.in_head,
        rows: r.rows.deep_view(),
        row: r.row.deep_view(),
        cell: r.cell@,
    }
}

/// Appends lines of text to `v` as strings.
fn push_text_lines(v: &mut Vec<String>, text: &Vec<char>)
    ensures
        final(v).deep_view() == old(v).deep_view() + lines(text@),
{
    let ls = split_lines(text.as_slice());
    let mut i: usize = 0;
    while i < ls.len()
        invariant
            i <= ls@.len(),
            vecs_view(ls@) == lines(text@),
            v.deep_view() == old(v).deep_view() + lines(text@).take(i as int),
        decreases ls.len() - i,
    {
        let ghost b = v.deep_view();
        let s = string_of(ls[i].as_slice());
        assert(s@ == lines(text@)[i as int]);
        v.push(s);
        i += 1;
        assert(v.deep_view() =~= b.push(s@));
        assert(v.deep_view() =~= old(v).deep_view() + lines(text@).take(i as int));
    }
    assert(lines(text@).take(i as int) =~= lines(text@));
}

/// Appends the rendering of the lines of a text.
fn render_text_block(
    out: &mut Vec<RenderedLine>,
    text: &Vec<char>,
    quote: bool,
    heading: u32,
    query: &Vec<char>,
    theme: AppTheme,
)
    ensures
        lines_view(final(out)@) == lines_view(old(out)@) + text_lines(
            lines(text@),
            quote,
            heading,
            query@,
            theme,
        ),
{
    let ls = split_lines(text.as_slice());
    let ghost start = lines_view(out@);
    let ghost f = |l: Seq<char>| text_line(l, quote, heading, query@, theme);
    let mut i: usize = 0;
    while i < ls.len()
        invariant
            i <= ls@.len(),
            vecs_view(ls@) == lines(text@),
            f == (|l: Seq<char>| text_line(l, quote, heading, query@, theme)),
            lines_view(out@) == start + lines(text@).take(i as int).map_values(f),
        decreases ls.len() - i,
    {
        let line = render_text_line(&ls[i], quote, heading, query, theme);
        let ghost before = out@;
        out.push(line);
        i += 1;
        assert(lines_view(out@) =~= lines_view(before).push(line@));
        assert(lines(text@).take(i as int).map_values(f) =~= lines(text@).take(i - 1).map_values(
            f,
        ).push(f(lines(text@)[i - 1])));
    }
    assert(lines(text@).take(i as int) =~= lines(text@));
}

/// Reads one event.
fn render_event(r: &mut Renderer, e: &MdEvent, query: &Vec<char>, theme: AppTheme)
    requires
        old(r).depth < usize::MAX,
    ensures
        renderer_view(*final(r)) == render_step(renderer_view(*old(r)), e@, query@, theme),
        final(r).depth <= old(r).depth + 1,
{
    let ghost st = renderer_view(*r);
    match e.kind {
        EventKind::Start => match e.tag {
            TagKind::Table => {
                r.in_table = true;
                r.rows = Vec::new();
            },
            TagKind::TableHead => {
                r.in_head = true;
                r.row = Vec::new();
            },
            TagKind::TableRow => {
                r.row = Vec::new();
            },
            TagKind::TableCell => {
                r.cell = Vec::new();
            },
            TagKind::Heading => {
                r.heading = e.level;
            },
            TagKind::BlockQuote => {
                r.quote = true;
            },
            TagKind::List => {
                r.depth = r.depth + 1;
            },
            TagKind::CodeBlock => {
                r.in_code = true;
                r.code = Vec::new();
                if e.has_text {
                    r.lang = e.text.clone();
                } else {
                    let mut s = String::new();
                    crate::text::push_str(&mut s, "text");
                    r.lang = s;
                }
            },
            TagKind::Item => {
                let b = if r.depth <= 1 {
                    "  • "
                } else if r.depth == 2 {
                    "    ⁃ "
                } else {
                    "      ▪ "
                };
                let line = single(styled(b, fg(Tone::Cyan)));
                let ghost before = r.lines@;
                r.lines.push(line);
                assert(lines_view(r.lines@) =~= lines_view(before).push(line@));
            },
            _ => {},
        },
        EventKind::End => match e.tag {
            TagKind::Table => {
                if r.in_table && r.rows.len() > 0 {
                    render_table(&mut r.lines, &r.rows, theme);
                    r.in_table = false;
                }
            },
            TagKind::TableHead => {
                r.in_head = false;
                if r.row.len() > 0 {
                    let mut row: Vec<String> = Vec::new();
                    std::mem::swap(&mut row, &mut r.row);
                    let ghost before = r.rows.deep_view();
                    r.rows.push(row);
                    assert(r.rows.deep_view() =~= before.push(row.deep_view()));
                }
            },
            TagKind::TableRow => {
                if r.row.len() > 0 && !r.in_head {
                    let mut row: Vec<String> = Vec::new();
                    std::mem::swap(&mut row, &mut r.row);
                    let ghost before = r.rows.deep_view();
                    r.rows.push(row);
                    assert(r.rows.deep_view() =~= before.push(row.deep_view()));
                }
            },
            TagKind::TableCell => {
                let t = trim_chars(r.cell.as_slice());
                let s = string_of(t.as_slice());
                let ghost before = r.row.deep_view();
                r.row.push(s);
                assert(r.row.deep_view() =~= before.push(s@));
                r.cell = Vec::new();
            },
            TagKind::Heading => {
                r.heading = 0;
            },
            TagKind::BlockQuote => {
                r.quote = false;
            },
            TagKind::List => {
                r.depth = r.depth.saturating_sub(1);
            },
            TagKind::CodeBlock => {
                if r.in_code {
                    render_code_block(&mut r.lines, &r.lang, &r.code, theme);
                    r.in_code = false;
                }
            },
            _ => {},
        },
        EventKind::TaskListMarker => {
            let line = if e.checked {
                single(styled("[✓] ", bold(Tone::Green)))
            } else {
                single(styled("[ ] ", bold(Tone::DarkGray)))
            };
            let ghost before = r.lines@;
            r.lines.push(line);
            assert(lines_view(r.lines@) =~= lines_view(before).push(line@));
        },
        EventKind::Text => {
            let text = chars_of(e.text.as_str());
            if r.in_table {
                push_all(&mut r.cell, text.as_slice());
            } else if r.in_code {
                push_text_lines(&mut r.code, &text);
            } else {
                render_text_block(&mut r.lines, &text, r.quote, r.heading, query, theme);
            }
        },
        EventKind::Code => {
            let text = chars_of(e.text.as_str());
            if r.in_table {
                r.cell.push('`');
                push_all(&mut r.cell, text.as_slice());
                r.cell.push('`');
                assert(r.cell@ =~= st.cell + "`"@ + e.text@ + "`"@) by {
                    reveal_strlit("`");
                }
            } else {
                let mut t: Vec<char> = Vec::new();
                t.push(' ');
                t.push('`');
                push_all(&mut t, text.as_slice());
                t.push('`');
                t.push(' ');
                assert(t@ =~= " `"@ + e.text@ + "` "@) by {
                    reveal_strlit(" `");
                    reveal_strlit("` ");
                }
                let line = single(
                    styled_chars(
                        t.as_slice(),
                        SpanStyle {
                            fg: Some(Tone::LightGreen),
                            bg: Some(Tone::Rgb(40, 44, 52)),
                            bold: false,
                            underlined: false,
                        },
                    ),
                );
                let ghost before = r.lines@;
                r.lines.push(line);
                assert(lines_view(r.lines@) =~= lines_view(before).push(line@));
            }
        },
        EventKind::Rule => {
            let line = single(styled("──────────────", fg(Tone::DarkGray)));
            let ghost before = r.lines@;
            r.lines.push(line);
            assert(lines_view(r.lines@) =~= lines_view(before).push(line@));
        },
        _ => {},
    }
    assert(renderer_view(*r) =~= render_step(st, e@, query@, theme));
}

/// Renders Markdown into styled lines: header hierarchy, blockquotes, nested lists, task
/// checkboxes, grid tables and highlighted code blocks; lines of text that contain
/// `search_query` (case-insensitively) are highlighted.
pub fn render_rich_markdown(raw_text: &str, search_query: &str, theme: AppTheme) -> (r: Vec<RenderedLine>)
    ensures
        lines_view(r@) == render_spec(raw_text@, search_query@, theme),
{
    let events = parse_markdown(raw_text);
    let ghost es = markdown_events(raw_text@, EXTENDED_OPTIONS);
    let query = chars_of(search_query);
    let mut r = Renderer {
        lines: Vec::new(),
        in_code: false,
        lang: String::new(),
        code: Vec::new(),
        quote: false,
        heading: 0,
        depth: 0,
        in_table: false,
        in_head: false,
        rows: Vec::new(),
        row: Vec::new(),
        cell: Vec::new(),
    };
    assert(renderer_view(r) =~= render_fold(es, query@, theme, 0));
    let mut i: usize = 0;
    while i < events.len()
        invariant
            i <= events@.len(),
            events@.len() == es.len(),
            forall|j: int| 0 <= j < events@.len() ==> (#[trigger] events@[j])@ == es[j],
            query@ == search_query@,
            r.depth <= i,
            renderer_view(r) == render_fold(es, query@, theme, i as int),
        decreases events.len() - i,
    {
        render_event(&mut r, &events[i], &query, theme);
        i += 1;
    }
    if r.lines.len() == 0 {
        let mut lines: Vec<RenderedLine> = Vec::new();
        lines.push(single(styled(raw_text, plain())));
        assert(lines_view(lines@) =~= seq![one_span(raw_text@, plain_style())]);
        return lines;
    }
    r.lines
}

/// The text of a line: its spans' texts, left to right.
pub open spec fn line_text(spans: Seq<SpanView>) -> Seq<char>
    decreases spans.len(),
{
    if spans.len() == 0 {
        seq![]
    } else {
        line_text(spans.drop_last()) + spans.last().text
    }
}

impl RenderedLine {
    /// The text of the line, its spans' texts joined.
    pub fn text(&self) -> (r: String)
        ensures
            r@ == line_text(self@),
    {
        let mut out = String::new();
        let mut i: usize = 0;
        while i < self.spans.len()
            invariant
                i <= self.spans@.len(),
                out@ == line_text(self@.take(i as int)),
            decreases self.spans.len() - i,
        {
            crate::text::push_str(&mut out, self.spans[i].text.as_str());
            assert(self@.take(i + 1).drop_last() =~= self@.take(i as int));
            i += 1;
        }
        assert(self@.take(i as int) =~= self@);
        out
    }
}

} // verus!
