//! The Markdown event stream, as produced by `pulldown-cmark`, in the library's own terms.
use crate::text::{chars_eq_str, chars_of, starts_with, starts_with_str, string_of};
use pulldown_cmark::{CodeBlockKind as K, Event as E, Options, Parser, Tag as T};
use vstd::prelude::*;

verus! {

/// Parser options of the document views: tables, footnotes, strikethrough and task lists
/// (`ENABLE_TABLES | ENABLE_FOOTNOTES | ENABLE_STRIKETHROUGH | ENABLE_TASKLISTS`).
pub const EXTENDED_OPTIONS: u32 = 30;

/// Plain CommonMark, with no extension.
pub const PLAIN_OPTIONS: u32 = 0;

/// The events that `pulldown_cmark::Parser::new_ext(text, options)` yields, one record per
/// event: its kind (0 start, 1 end, 2 text, 3 inline code, 4 HTML or inline HTML, 5 soft or
/// hard break, 6 rule, 7 task list marker, 8 any other), for start and end events the `Debug`
/// name of the tag's `TagEnd` (for a task list marker, `true` or `false`), and the event's
/// text: the destination of a link or image, the info string of a fenced code block, or the
/// text of a text, code or HTML event; and the byte offset in `text` where the event's
/// source begins (the start of its range in `into_offset_iter`).
pub uninterp spec fn markdown_event_stream(text: Seq<char>, options: u32) -> Seq<
    (u8, Seq<char>, Option<Seq<char>>, usize),
>;

/// The value of an optional string.
pub open spec fn opt_view(o: Option<String>) -> Option<Seq<char>> {
    match o {
        Some(s) => Some(s@),
        None => None,
    }
}

/// Runs `pulldown_cmark::Parser::new_ext` on `text` and returns, per event, its kind and
/// the `Debug` name of its tag (the first two parts of `markdown_event_stream`).
#[verifier::external_body]
fn event_kinds(text: &str, options: u32) -> (r: Vec<(u8, String)>)
    ensures
        r@.len() == markdown_event_stream(text@, options).len(),
        forall|i: int|
            0 <= i < r@.len() ==> (#[trigger] r@[i]).0 == markdown_event_stream(text@, options)[i].0
                && r@[i].1@ == markdown_event_stream(text@, options)[i].1,
{
    let mut r = Vec::new();
    for e in Parser::new_ext(text, Options::from_bits_truncate(options)) {
        r.push(match e {
            E::Start(t) => (0, format!("{:?}", t.to_end())),
            E::End(t) => (1, format!("{:?}", t)),
            E::Text(_) => (2, String::new()),
            E::Code(_) => (3, String::new()),
            E::Html(_) | E::InlineHtml(_) => (4, String::new()),
            E::SoftBreak | E::HardBreak => (5, String::new()),
            E::Rule => (6, String::new()),
            E::TaskListMarker(b) => (7, b.to_string()),
            _ => (8, String::new()),
        });
    }
    r
}

/// Runs `pulldown_cmark::Parser::new_ext` on `text` and returns, per event, its text
/// (the third part of `markdown_event_stream`).
#[verifier::external_body]
fn event_texts(text: &str, options: u32) -> (r: Vec<Option<String>>)
    ensures
        r@.len() == markdown_event_stream(text@, options).len(),
        forall|i: int|
            0 <= i < r@.len() ==> opt_view(#[trigger] r@[i]) == markdown_event_stream(text@, options)[i].2,
{
    let mut r = Vec::new();
    for e in Parser::new_ext(text, Options::from_bits_truncate(options)) {
        r.push(match e {
            E::Start(T::Link { dest_url: u, .. } | T::Image { dest_url: u, .. }) => Some(u.into_string()),
            E::Start(T::CodeBlock(K::Fenced(u))) => Some(u.into_string()),
            E::Text(u) | E::Code(u) | E::Html(u) | E::InlineHtml(u) => Some(u.into_string()),
            _ => None,
        });
    }
    r
}

/// Runs `pulldown_cmark::Parser::new_ext` on `text` through `into_offset_iter` (which yields
/// the same events with their source ranges) and returns, per event, the byte offset where
/// its range starts (the fourth part of `markdown_event_stream`).
#[verifier::external_body]
fn event_offsets(text: &str, options: u32) -> (r: Vec<usize>)
    ensures
        r@.len() == markdown_event_stream(text@, options).len(),
        forall|i: int| 0 <= i < r@.len() ==> #[trigger] r@[i] == markdown_event_stream(text@, options)[i].3,
{
    let mut r = Vec::new();
    for (_, range) in Parser::new_ext(text, Options::from_bits_truncate(options)).into_offset_iter() {
        r.push(range.start);
    }
    r
}

/// What kind of event a Markdown event is.
#[derive(Debug, Clone, Copy, PartialEq, Eq, Structural)]
pub enum EventKind {
    Start,
    End,
    Text,
    Code,
    Html,
    Break,
    Rule,
    TaskListMarker,
    Other,
}

/// The tag that a start or end event opens or closes.
#[derive(Debug, Clone, Copy, PartialEq, Eq, Structural)]
pub enum TagKind {
    Paragraph,
    Heading,
    BlockQuote,
    CodeBlock,
    List,
    Item,
    Table,
    TableHead,
    TableRow,
    TableCell,
    Link,
    Image,
    Other,
}

/// One Markdown event: its kind, its tag (for start and end events), the heading level (for
/// headings), its text (see `markdown_event_stream`; `has_text` tells whether there is one, so
/// that a fenced code block is told from an indented one), a task marker's state, and the
/// byte offset of the event's source.
#[derive(Debug)]
pub struct MdEvent {
    pub kind: EventKind,
    pub tag: TagKind,
    pub level: u32,
    pub text: String,
    pub has_text: bool,
    pub checked: bool,
    pub offset: usize,
}

/// The value of a Markdown event.
#[verifier::ext_equal]
pub struct MdEventView {
    pub kind: EventKind,
    pub tag: TagKind,
    pub level: u32,
    pub text: Seq<char>,
    pub has_text: bool,
    pub checked: bool,
    pub offset: usize,
}

impl View for MdEvent {
    type V = MdEventView;

    open spec fn view(&self) -> MdEventView {
        MdEventView {
            kind: self.kind,
            tag: self.tag,
            level: self.level,
            text: self.text@,
            has_text: self.has_text,
            checked: self.checked,
            offset: self.offset,
        }
    }
}

/// The tag whose `TagEnd` has the `Debug` name `name`.
pub open spec fn tag_of(name: Seq<char>) -> TagKind {
    if name == "Paragraph"@ {
        TagKind::Paragraph
    } else if starts_with(name, "Heading("@) {
        TagKind::Heading
    } else if name == "BlockQuote"@ {
        TagKind::BlockQuote
    } else if name == "CodeBlock"@ {
        TagKind::CodeBlock
    } else if starts_with(name, "List("@) {
        TagKind::List
    } else if name == "Item"@ {
        TagKind::Item
    } else if name == "Table"@ {
        TagKind::Table
    } else if name == "TableHead"@ {
        TagKind::TableHead
    } else if name == "TableRow"@ {
        TagKind::TableRow
    } else if name == "TableCell"@ {
        TagKind::TableCell
    } else if name == "Link"@ {
        TagKind::Link
    } else if name == "Image"@ {
        TagKind::Image
    } else {
        TagKind::Other
    }
}

/// The level in a `Debug` name `Heading(Hn)`, or 0.
pub open spec fn level_of(name: Seq<char>) -> u32 {
    if name.len() >= 10 && 49 <= name[9] as u32 <= 54 {
        (name[9] as u32 - 48) as u32
    } else {
        0
    }
}

/// The library's reading of one event record of `markdown_event_stream`.
pub open spec fn decode_event(r: (u8, Seq<char>, Option<Seq<char>>, usize)) -> MdEventView {
    let kind = if r.0 == 0 {
        EventKind::Start
    } else if r.0 == 1 {
        EventKind::End
    } else if r.0 == 2 {
        EventKind::Text
    } else if r.0 == 3 {
        EventKind::Code
    } else if r.0 == 4 {
        EventKind::Html
    } else if r.0 == 5 {
        EventKind::Break
    } else if r.0 == 6 {
        EventKind::Rule
    } else if r.0 == 7 {
        EventKind::TaskListMarker
    } else {
        EventKind::Other
    };
    let tagged = r.0 == 0 || r.0 == 1;
    MdEventView {
        kind,
        tag: if tagged {
            tag_of(r.1)
        } else {
            TagKind::Other
        },
        level: if tagged {
            level_of(r.1)
        } else {
            0
        },
        text: match r.2 {
            Some(t) => t,
            None => seq![],
        },
        has_text: r.2 is Some,
        checked: r.0 == 7 && r.1 == "true"@,
        offset: r.3,
    }
}

/// The events of `text` under `options`, read by the library.
pub open spec fn markdown_events(text: Seq<char>, options: u32) -> Seq<MdEventView> {
    markdown_event_stream(text, options).map_values(
        |r: (u8, Seq<char>, Option<Seq<char>>, usize)| decode_event(r),
    )
}

/// The tag named `name`.
fn decode_tag(name: &[char]) -> (r: TagKind)
    ensures
        r == tag_of(name@),
{
    if chars_eq_str(name, "Paragraph") {
        TagKind::Paragraph
    } else if starts_with_str(name, "Heading(") {
        TagKind::Heading
    } else if chars_eq_str(name, "BlockQuote") {
        TagKind::BlockQuote
    } else if chars_eq_str(name, "CodeBlock") {
        TagKind::CodeBlock
    } else if starts_with_str(name, "List(") {
        TagKind::List
    } else if chars_eq_str(name, "Item") {
        TagKind::Item
    } else if chars_eq_str(name, "Table") {
        TagKind::Table
    } else if chars_eq_str(name, "TableHead") {
        TagKind::TableHead
    } else if chars_eq_str(name, "TableRow") {
        TagKind::TableRow
    } else if chars_eq_str(name, "TableCell") {
        TagKind::TableCell
    } else if chars_eq_str(name, "Link") {
        TagKind::Link
    } else if chars_eq_str(name, "Image") {
        TagKind::Image
    } else {
        TagKind::Other
    }
}

/// The events of `text` under `options`.
pub fn markdown_events_of(text: &str, options: u32) -> (r: Vec<MdEvent>)
    ensures
        r@.len() == markdown_events(text@, options).len(),
        forall|i: int| 0 <= i < r@.len() ==> (#[trigger] r@[i])@ == markdown_events(text@, options)[i],
{
    let kinds = event_kinds(text, options);
    let texts = event_texts(text, options);
    let offsets = event_offsets(text, options);
    let ghost stream = markdown_event_stream(text@, options);
    let mut r: Vec<MdEvent> = Vec::new();
    let mut i: usize = 0;
    while i < kinds.len()
        invariant
            i <= kinds.len(),
            stream == markdown_event_stream(text@, options),
            kinds@.len() == stream.len(),
            texts@.len() == stream.len(),
            forall|j: int|
                0 <= j < kinds@.len() ==> (#[trigger] kinds@[j]).0 == stream[j].0 && kinds@[j].1@
                    == stream[j].1,
            forall|j: int| 0 <= j < texts@.len() ==> opt_view(#[trigger] texts@[j]) == stream[j].2,
            offsets@.len() == stream.len(),
            forall|j: int| 0 <= j < offsets@.len() ==> #[trigger] offsets@[j] == stream[j].3,
            r@.len() == i,
            forall|j: int| 0 <= j < i ==> (#[trigger] r@[j])@ == decode_event(stream[j]),
        decreases kinds.len() - i,
    {
        let code = kinds[i].0;
        let name = chars_of(kinds[i].1.as_str());
        let kind = if code == 0 {
            EventKind::Start
        } else if code == 1 {
            EventKind::End
        } else if code == 2 {
            EventKind::Text
        } else if code == 3 {
            EventKind::Code
        } else if code == 4 {
            EventKind::Html
        } else if code == 5 {
            EventKind::Break
        } else if code == 6 {
            EventKind::Rule
        } else if code == 7 {
            EventKind::TaskListMarker
        } else {
            EventKind::Other
        };
        let tagged = code == 0 || code == 1;
        let tag = if tagged {
            decode_tag(name.as_slice())
        } else {
            TagKind::Other
        };
        let level: u32 = if tagged && name.len() >= 10 && 49 <= name[9] as u32 && name[9] as u32
            <= 54 {
            name[9] as u32 - 48
        } else {
            0
        };
        let checked = code == 7 && chars_eq_str(name.as_slice(), "true");
        let (t, has_text) = match &texts[i] {
            Some(s) => (s.clone(), true),
            None => (String::new(), false),
        };
        let ev = MdEvent { kind, tag, level, text: t, has_text, checked, offset: offsets[i] };
        assert(ev@ =~= decode_event(stream[i as int]));
        r.push(ev);
        i += 1;
    }
    r
}

/// Parses Markdown into its event stream with tables, task lists, strikethrough and
/// footnotes enabled.
pub fn parse_markdown(input: &str) -> (r: Vec<MdEvent>)
    ensures
        r@.len() == markdown_events(input@, EXTENDED_OPTIONS).len(),
        forall|i: int|
            0 <= i < r@.len() ==> (#[trigger] r@[i])@ == markdown_events(input@, EXTENDED_OPTIONS)[i],
{
    markdown_events_of(input, EXTENDED_OPTIONS)
}

} // verus!
