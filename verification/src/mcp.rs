//! The decisions of the Model Context Protocol server: which method and tool a request
//! names, which file a path argument names, and the texts its answers carry.
use crate::agent::{code_blocks_view, CodeBlock, CodeBlockView};
use crate::chunker::{join_lines, joined, split_lines};
use crate::agent::vecs_view;
use crate::outline::{extract_outline, headings_view, lemma_headings_view, outline_headings, preorder, HeadingNode, HeadingView};
use crate::text::{
    chars_eq_str, chars_of, contains, contains_chars, decimal, lines, lower_chars, lowercase,
    push_decimal, push_str, starts_with, starts_with_str, string_of, string_of_range, trim,
    trim_range,
};
use crate::tui::app::flatten_headings;
use crate::agent::{
    calculate_stats, clean_markdown, clean_markdown_spec, code_blocks_spec, extract_code_blocks,
    tokens_for, DocumentStats,
};
use crate::chunker::{chunk_markdown, chunk_markdown_spec, chunks_view, ChunkView, MarkdownChunk};
use crate::markdown::opt_view;
use crate::outline::{
    count_all, dec, document_headings, lemma_section_end_at_peer, max_level, section_end, section_nodes, OutlineTree,
};
use crate::text::word_count;
use crate::index::texts;
use crate::llmstxt::{docs_view, generate_llmstxt, llms_spec, LlmsDoc, LlmsTxtOutput, LlmsView};
use vstd::prelude::*;

verus! {

/// The JSON-RPC methods the server answers.
#[derive(Debug, Clone, Copy, PartialEq, Eq, Structural)]
pub enum McpMethod {
    Initialize,
    PromptsList,
    PromptsGet,
    ResourcesList,
    ResourcesRead,
    ToolsList,
    ToolsCall,
    Notification,
    Unknown,
}

/// The tools the server offers.
#[derive(Debug, Clone, Copy, PartialEq, Eq, Structural)]
pub enum McpTool {
    GenerateLlms,
    SearchSections,
    ReadClean,
    Outline,
    ReadSection,
    CodeBlocks,
    Chunk,
    EstimateTokens,
    Unknown,
}

/// The method a name stands for; notifications (`$/...`, `notifications/...`) are silent.
pub open spec fn method_of(m: Seq<char>) -> McpMethod {
    if starts_with(m, "$/"@) || starts_with(m, "notifications/"@) {
        McpMethod::Notification
    } else if m == "initialize"@ {
        McpMethod::Initialize
    } else if m == "prompts/list"@ {
        McpMethod::PromptsList
    } else if m == "prompts/get"@ {
        McpMethod::PromptsGet
    } else if m == "resources/list"@ {
        McpMethod::ResourcesList
    } else if m == "resources/read"@ {
        McpMethod::ResourcesRead
    } else if m == "tools/list"@ {
        McpMethod::ToolsList
    } else if m == "tools/call"@ {
        McpMethod::ToolsCall
    } else {
        McpMethod::Unknown
    }
}

/// The tool a name stands for.
pub open spec fn tool_of(n: Seq<char>) -> McpTool {
    if n == "generate_llms_txt"@ {
        McpTool::GenerateLlms
    } else if n == "search_markdown_sections"@ {
        McpTool::SearchSections
    } else if n == "read_clean_markdown"@ {
        McpTool::ReadClean
    } else if n == "get_markdown_outline"@ {
        McpTool::Outline
    } else if n == "read_markdown_section"@ {
        McpTool::ReadSection
    } else if n == "extract_code_blocks"@ {
        McpTool::CodeBlocks
    } else if n == "chunk_markdown"@ {
        McpTool::Chunk
    } else if n == "estimate_tokens"@ {
        McpTool::EstimateTokens
    } else {
        McpTool::Unknown
    }
}

/// Classifies a request's method.
pub fn classify_method(method: &str) -> (r: McpMethod)
    ensures
        r == method_of(method@),
{
    let m = chars_of(method);
    let s = m.as_slice();
    if starts_with_str(s, "$/") || starts_with_str(s, "notifications/") {
        McpMethod::Notification
    } else if chars_eq_str(s, "initialize") {
        McpMethod::Initialize
    } else if chars_eq_str(s, "prompts/list") {
        McpMethod::PromptsList
    } else if chars_eq_str(s, "prompts/get") {
        McpMethod::PromptsGet
    } else if chars_eq_str(s, "resources/list") {
        McpMethod::ResourcesList
    } else if chars_eq_str(s, "resources/read") {
        McpMethod::ResourcesRead
    } else if chars_eq_str(s, "tools/list") {
        McpMethod::ToolsList
    } else if chars_eq_str(s, "tools/call") {
        McpMethod::ToolsCall
    } else {
        McpMethod::Unknown
    }
}

/// Classifies a tool name.
pub fn classify_tool(name: &str) -> (r: McpTool)
    ensures
        r == tool_of(name@),
{
    let n = chars_of(name);
    let s = n.as_slice();
    if chars_eq_str(s, "generate_llms_txt") {
        McpTool::GenerateLlms
    } else if chars_eq_str(s, "search_markdown_sections") {
        McpTool::SearchSections
    } else if chars_eq_str(s, "read_clean_markdown") {
        McpTool::ReadClean
    } else if chars_eq_str(s, "get_markdown_outline") {
        McpTool::Outline
    } else if chars_eq_str(s, "read_markdown_section") {
        McpTool::ReadSection
    } else if chars_eq_str(s, "extract_code_blocks") {
        McpTool::CodeBlocks
    } else if chars_eq_str(s, "chunk_markdown") {
        McpTool::Chunk
    } else if chars_eq_str(s, "estimate_tokens") {
        McpTool::EstimateTokens
    } else {
        McpTool::Unknown
    }
}

/// `s` with every leading copy of `p` removed (`str::trim_start_matches`).
pub open spec fn strip_all(s: Seq<char>, p: Seq<char>) -> Seq<char>
    decreases s.len(),
{
    if p.len() > 0 && starts_with(s, p) {
        strip_all(s.subrange(p.len() as int, s.len() as int), p)
    } else {
        s
    }
}

/// The file a path argument names, with `file:///` and `file://` prefixes removed, or why
/// it names none.
pub open spec fn file_argument(requested: Seq<char>) -> Result<Seq<char>, Seq<char>> {
    let t = strip_all(strip_all(requested, "file:///"@), "file://"@);
    if trim(t).len() == 0 {
        Err("Path argument cannot be empty"@)
    } else {
        Ok(t)
    }
}

/// Removes every leading copy of `p` from `s[a..]`.
fn strip_all_from(s: &[char], a: usize, p: &str) -> (r: usize)
    requires
        a <= s.len(),
    ensures
        a <= r <= s.len(),
        s@.subrange(r as int, s.len() as int) == strip_all(s@.subrange(a as int, s.len() as int), p@),
    decreases s.len() - a,
{
    let pc = chars_of(p);
    let t = crate::agent::slice_range(s, a, s.len());
    if pc.len() > 0 && crate::text::starts_with_chars(t.as_slice(), pc.as_slice()) {
        assert(s@.subrange(a + pc@.len(), s.len() as int) =~= s@.subrange(a as int, s.len() as int).subrange(
            pc@.len() as int,
            s.len() - a,
        ));
        strip_all_from(s, a + pc.len(), p)
    } else {
        a
    }
}

/// The file a path argument names (prefixes `file:///` and `file://` removed), or the
/// message that says it names none.
pub fn strip_file_uri(requested: &str) -> (r: Result<String, String>)
    ensures
        match r {
            Ok(p) => file_argument(requested@) == Ok::<Seq<char>, Seq<char>>(p@),
            Err(m) => file_argument(requested@) == Err::<Seq<char>, Seq<char>>(m@),
        },
{
    let s = chars_of(requested);
    assert(s@.subrange(0, s@.len() as int) =~= s@);
    let a = strip_all_from(s.as_slice(), 0, "file:///");
    let b = strip_all_from(s.as_slice(), a, "file://");
    let (x, y) = trim_range(s.as_slice(), b, s.len());
    if x == y {
        let mut m = String::new();
        push_str(&mut m, "Path argument cannot be empty");
        Err(m)
    } else {
        Ok(string_of_range(s.as_slice(), b, s.len()))
    }
}

/// The message for a path argument that names no file.
pub fn invalid_path_message(requested: &str) -> (r: String)
    ensures
        r@ == "File not found or invalid path: "@ + requested@,
{
    let mut m = String::new();
    push_str(&mut m, "File not found or invalid path: ");
    push_str(&mut m, requested);
    m
}

/// The first heading from `i` whose lowercase title contains `target`.
pub open spec fn first_titled(hs: Seq<HeadingView>, target: Seq<char>, i: int) -> Option<int>
    decreases hs.len() - i,
{
    if i < 0 || i >= hs.len() {
        None
    } else if contains(lowercase(hs[i].title), target) {
        Some(i)
    } else {
        first_titled(hs, target, i + 1)
    }
}

/// The lines of the section that starts at line `start` (from 1) and ends at `end`:
/// at least the heading line, none when it lies outside the document.
pub open spec fn section_lines(ls: Seq<Seq<char>>, start: int, end: int) -> Seq<Seq<char>> {
    if 1 <= start <= ls.len() {
        let last = if end > start { end } else { start };
        ls.subrange(start - 1, if last < ls.len() { last } else { ls.len() as int })
    } else {
        seq![]
    }
}

/// The section of a document under the first heading whose title contains `heading`
/// (case-insensitively), empty when none does.
pub open spec fn section_spec(content: Seq<char>, heading: Seq<char>) -> Seq<char> {
    let hs = preorder(outline_headings(content));
    match first_titled(hs, lowercase(heading), 0) {
        Some(i) => joined(section_lines(lines(content), hs[i].start_line as int, hs[i].end_line as int)),
        None => seq![],
    }
}

/// A heading found from `k` on lies at `k` or after it, among the headings.
pub proof fn lemma_first_titled_bound(hs: Seq<HeadingView>, target: Seq<char>, k: int)
    requires
        0 <= k,
    ensures
        first_titled(hs, target, k) matches Some(i) ==> k <= i < hs.len(),
    decreases hs.len() - k,
{
    if k < hs.len() && !contains(lowercase(hs[k].title), target) {
        lemma_first_titled_bound(hs, target, k + 1);
    }
}

/// Whether `e` is where the section of heading `i` of `hs` (headings in document order)
/// ends in a document of `n` lines: the line before the next heading of the same or a
/// higher level, or the last line when only deeper headings follow.
pub open spec fn section_ends_at(hs: Seq<HeadingView>, i: int, n: int, e: int) -> bool {
    ||| exists|j: int|
        i < j < hs.len() && (#[trigger] hs[j]).level <= hs[i].level && (forall|m: int| i < m < j ==> #[trigger] hs[m].level > hs[i].level)
            && e == dec(hs[j].start_line as int)
    ||| (forall|m: int| i < m < hs.len() ==> #[trigger] hs[m].level > hs[i].level) && e == n
}

/// The section read under a heading runs from the heading's line to the line before the
/// next heading of the same or a higher level (or to the end of the document), so its
/// subsections are part of it; where no heading matches, nothing is read.
pub proof fn law_section_runs_to_next_peer(content: Seq<char>, heading: Seq<char>, e: int)
    requires
        lines(content).len() <= usize::MAX,
    ensures
        ({
            let hs = preorder(outline_headings(content));
            let ls = lines(content);
            match first_titled(hs, lowercase(heading), 0) {
                None => section_spec(content, heading) == Seq::<char>::empty(),
                Some(i) => section_ends_at(hs, i, ls.len() as int, e) ==> section_spec(content, heading) == (if 1
                    <= hs[i].start_line <= ls.len() {
                    let last = if e > hs[i].start_line {
                        e
                    } else {
                        hs[i].start_line as int
                    };
                    joined(ls.subrange(hs[i].start_line - 1, if last < ls.len() {
                        last
                    } else {
                        ls.len() as int
                    }))
                } else {
                    Seq::<char>::empty()
                }),
            }
        }),
{
    let hs = preorder(outline_headings(content));
    let ls = lines(content);
    let flat = document_headings(content);
    let nodes = section_nodes(flat, ls);
    assert forall|m: int| 0 <= m < nodes.len() implies (#[trigger] nodes[m]).children.len() == 0 by {}
    crate::outline::lemma_preorder_nest_all(nodes);
    let lh = hs.map_values(|h: HeadingView| crate::outline::leaf(h));
    let ln = nodes.map_values(|h: HeadingView| crate::outline::leaf(h));
    assert(lh == ln);
    assert(hs.len() == nodes.len());
    assert forall|m: int| 0 <= m < hs.len() implies #[trigger] hs[m].level == flat[m].level && hs[m].start_line
        == flat[m].start_line && hs[m].end_line == section_end(flat, m, m + 1, ls.len() as int) as usize by {
        assert(lh[m] == ln[m]);
    }
    if let Some(i) = first_titled(hs, lowercase(heading), 0) {
        lemma_first_titled_bound(hs, lowercase(heading), 0);
        if section_ends_at(hs, i, ls.len() as int, e) {
            lemma_section_end_at_peer(flat, i, i + 1, ls.len() as int);
            let se = section_end(flat, i, i + 1, ls.len() as int);
            if exists|j: int|
                i < j < hs.len() && (#[trigger] hs[j]).level <= hs[i].level && (forall|m: int| i < m < j ==> #[trigger] hs[m].level > hs[i].level)
                    && e == dec(hs[j].start_line as int) {
                let j = choose|j: int|
                    i < j < hs.len() && (#[trigger] hs[j]).level <= hs[i].level && (forall|m: int| i < m < j ==> #[trigger] hs[m].level > hs[i].level)
                        && e == dec(hs[j].start_line as int);
                assert(flat[j].level <= flat[i].level);
                assert forall|m: int| i + 1 <= m < j implies #[trigger] flat[m].level > flat[i].level by {
                    assert(hs[m].level > hs[i].level);
                }
                assert(se == e);
            } else {
                assert forall|m: int| i + 1 <= m < flat.len() implies #[trigger] flat[m].level > flat[i].level by {
                    assert(hs[m].level > hs[i].level);
                }
                assert(se == e);
            }
            assert(0 <= e <= usize::MAX);
            assert(hs[i].end_line == e);
        }
    }
}

/// The first flattened heading whose lowercase title contains `target`.
fn find_titled(hs: &Vec<HeadingNode>, target: &Vec<char>) -> (r: Option<usize>)
    ensures
        match r {
            Some(i) => first_titled(headings_view(hs@), target@, 0) == Some(i as int) && i < hs@.len(),
            None => first_titled(headings_view(hs@), target@, 0) is None,
        },
{
    let ghost hv = headings_view(hs@);
    proof {
        lemma_headings_view(hs@);
    }
    let mut i: usize = 0;
    while i < hs.len()
        invariant
            i <= hs@.len(),
            hv == headings_view(hs@),
            hv.len() == hs@.len(),
            forall|j: int| 0 <= j < hs@.len() ==> hv[j] == crate::outline::heading_view(#[trigger] hs@[j]),
            first_titled(hv, target@, 0) == first_titled(hv, target@, i as int),
        decreases hs.len() - i,
    {
        let t = lower_chars(chars_of(hs[i].title.as_str()).as_slice());
        assert(hv[i as int].title == hs@[i as int].title@);
        if contains_chars(t.as_slice(), target.as_slice()) {
            return Some(i);
        }
        i += 1;
    }
    None
}

/// Reads the section of a document under the first heading whose title contains `heading`
/// (case-insensitively): from the heading line to the section's last line.
pub fn read_markdown_section(content: &str, heading: &str) -> (r: String)
    ensures
        r@ == section_spec(content@, heading@),
{
    let target = lower_chars(chars_of(heading).as_slice());
    let outline = extract_outline(content);
    let flat = flatten_headings(outline.headings.as_slice());
    proof {
        lemma_headings_view(flat@);
    }
    match find_titled(&flat, &target) {
        None => String::new(),
        Some(i) => {
            let ls = split_lines(chars_of(content).as_slice());
            let start = flat[i].start_line;
            let end = flat[i].end_line;
            if 1 <= start && start <= ls.len() {
                let last = if end > start { end } else { start };
                let stop = if last < ls.len() { last } else { ls.len() };
                let text = join_lines(&ls, start - 1, stop);
                string_of(text.as_slice())
            } else {
                String::new()
            }
        },
    }
}

/// The headings of a document whose lowercase title contains the lowercase `query`.
pub open spec fn titled_headings(content: Seq<char>, query: Seq<char>) -> Seq<HeadingView> {
    preorder(outline_headings(content)).filter(|h: HeadingView| contains(lowercase(h.title), lowercase(query)))
}

/// The flattened headings of a document whose title contains `query` (case-insensitively).
pub fn matching_headings(content: &str, query: &str) -> (r: Vec<HeadingNode>)
    ensures
        headings_view(r@) == titled_headings(content@, query@),
{
    let q = lower_chars(chars_of(query).as_slice());
    let outline = extract_outline(content);
    let mut flat = flatten_headings(outline.headings.as_slice());
    let ghost hv = headings_view(flat@);
    let ghost keep = |h: HeadingView| contains(lowercase(h.title), lowercase(query@));
    proof {
        lemma_headings_view(flat@);
    }
    let mut out: Vec<HeadingNode> = Vec::new();
    let mut i: usize = 0;
    while i < flat.len()
        invariant
            i <= flat@.len(),
            hv.len() == flat@.len(),
            hv == preorder(outline_headings(content@)),
            forall|j: int| 0 <= j < flat@.len() ==> hv[j] == crate::outline::heading_view(#[trigger] flat@[j]),
            q@ == lowercase(query@),
            keep == (|h: HeadingView| contains(lowercase(h.title), lowercase(query@))),
            headings_view(out@) == hv.take(i as int).filter(keep),
        decreases flat.len() - i,
    {
        let t = lower_chars(chars_of(flat[i].title.as_str()).as_slice());
        let ghost before = hv.take(i as int);
        assert(hv.take(i + 1) =~= before.push(hv[i as int]));
        assert(before.push(hv[i as int]).filter(keep) == if keep(hv[i as int]) {
            before.filter(keep).push(hv[i as int])
        } else {
            before.filter(keep)
        }) by {
            reveal(Seq::filter);
            assert(before.push(hv[i as int]).drop_last() =~= before);
        }
        if contains_chars(t.as_slice(), q.as_slice()) {
            let node = crate::tui::app::copy_node(&flat[i]);
            let ghost ob = out@;
            out.push(node);
            proof {
                crate::outline::lemma_headings_view_push(ob, node);
            }
        }
        i += 1;
    }
    assert(hv.take(i as int) =~= hv);
    out
}

/// The code blocks as the server lists them: `// Lang: <language>` over each block's code,
/// blocks separated by `---` lines.
pub open spec fn code_listing(bs: Seq<CodeBlockView>) -> Seq<char>
    decreases bs.len(),
{
    if bs.len() == 0 {
        seq![]
    } else {
        code_listing(bs.drop_last()) + (if bs.len() > 1 {
            "\n---\n"@
        } else {
            seq![]
        }) + "// Lang: "@ + bs.last().language + "\n"@ + bs.last().code
    }
}

/// Lists code blocks for the server's answer.
pub fn code_blocks_listing(blocks: &Vec<CodeBlock>) -> (r: String)
    ensures
        r@ == code_listing(code_blocks_view(blocks@)),
{
    let ghost bv = code_blocks_view(blocks@);
    let mut out = String::new();
    let mut i: usize = 0;
    while i < blocks.len()
        invariant
            i <= blocks@.len(),
            bv == code_blocks_view(blocks@),
            out@ == code_listing(bv.take(i as int)),
        decreases blocks.len() - i,
    {
        if i > 0 {
            push_str(&mut out, "\n---\n");
        }
        push_str(&mut out, "// Lang: ");
        push_str(&mut out, blocks[i].language.as_str());
        push_str(&mut out, "\n");
        push_str(&mut out, blocks[i].code.as_str());
        assert(bv.take(i + 1).drop_last() =~= bv.take(i as int));
        assert(bv[i as int] == blocks@[i as int]@);
        i += 1;
    }
    assert(bv.take(i as int) =~= bv);
    out
}

/// The text of a prompt, given the document's clean text and, for the architecture prompt,
/// its outline as JSON and its number of code blocks; `None` for an unknown prompt.
pub open spec fn prompt_text_spec(name: Seq<char>, cleaned: Seq<char>, outline_json: Seq<char>, blocks: nat) -> Option<Seq<char>> {
    if name == "summarize_markdown"@ {
        Some("Please provide a concise summary of the following Markdown document:\n\n"@ + cleaned)
    } else if name == "extract_architecture_decisions"@ {
        Some(
            "Analyze the architecture decisions from this outline:\n\nTree: "@ + outline_json
                + "\n\nCode Snippets Count: "@ + decimal(blocks),
        )
    } else {
        None
    }
}

/// The text of a prompt, `None` for an unknown prompt.
pub fn prompt_text(name: &str, cleaned: &str, outline_json: &str, blocks: usize) -> (r: Option<String>)
    ensures
        crate::markdown::opt_view(r) == prompt_text_spec(name@, cleaned@, outline_json@, blocks as nat),
{
    let n = chars_of(name);
    if chars_eq_str(n.as_slice(), "summarize_markdown") {
        let mut t = String::new();
        push_str(&mut t, "Please provide a concise summary of the following Markdown document:\n\n");
        push_str(&mut t, cleaned);
        Some(t)
    } else if chars_eq_str(n.as_slice(), "extract_architecture_decisions") {
        let mut t = String::new();
        push_str(&mut t, "Analyze the architecture decisions from this outline:\n\nTree: ");
        push_str(&mut t, outline_json);
        push_str(&mut t, "\n\nCode Snippets Count: ");
        push_decimal(&mut t, blocks);
        Some(t)
    } else {
        None
    }
}

// ---------------------------------------------------------------------------
// Requests and replies
// ---------------------------------------------------------------------------

/// What the server reads of a JSON-RPC message: the id (as its JSON text), the method, and
/// from the params the name, the uri and the arguments `path`, `query`, `heading`, `lang`
/// and `max_tokens`; each only where the message holds it with the right JSON type.
#[derive(Debug, Clone, PartialEq, Eq)]
pub struct McpRequest {
    pub id: Option<String>,
    pub method: Option<String>,
    pub name: Option<String>,
    pub uri: Option<String>,
    pub path: Option<String>,
    pub query: Option<String>,
    pub heading: Option<String>,
    pub lang: Option<String>,
    pub max_tokens: Option<u64>,
}

/// The value of a request.
#[verifier::ext_equal]
pub struct RequestView {
    pub id: Option<Seq<char>>,
    pub method: Option<Seq<char>>,
    pub name: Option<Seq<char>>,
    pub uri: Option<Seq<char>>,
    pub path: Option<Seq<char>>,
    pub query: Option<Seq<char>>,
    pub heading: Option<Seq<char>>,
    pub lang: Option<Seq<char>>,
    pub max_tokens: Option<u64>,
}

impl View for McpRequest {
    type V = RequestView;

    open spec fn view(&self) -> RequestView {
        RequestView {
            id: opt_view(self.id),
            method: opt_view(self.method),
            name: opt_view(self.name),
            uri: opt_view(self.uri),
            path: opt_view(self.path),
            query: opt_view(self.query),
            heading: opt_view(self.heading),
            lang: opt_view(self.lang),
            max_tokens: self.max_tokens,
        }
    }
}

/// The value of an optional request.
pub open spec fn opt_request(r: Option<McpRequest>) -> Option<RequestView> {
    match r {
        Some(q) => Some(q@),
        None => None,
    }
}

/// What `parse_request` reads from the message text `raw`: `None` where `raw` is not JSON.
pub uninterp spec fn json_request(raw: Seq<char>) -> Option<RequestView>;

/// Parses a message with `serde_json::from_str` into a `serde_json::Value` and reads from
/// it the id (written back with `Value::to_string`), the method, and the fields of the
/// params and their arguments, each through `Value::as_str` (`as_u64` for `max_tokens`);
/// indexing a `Value` gives `Null` where a key is missing. `None` where `raw` is not JSON.
/// What comes out is left to `json_request`.
#[verifier::external_body]
pub fn parse_request(raw: &str) -> (r: Option<McpRequest>)
    ensures
        opt_request(r) == json_request(raw@),
{
    let v: serde_json::Value = serde_json::from_str(raw).ok()?;
    let p = &v["params"];
    let a = &p["arguments"];
    Some(McpRequest {
        id: v.get("id").map(ToString::to_string),
        method: v["method"].as_str().map(String::from),
        name: p["name"].as_str().map(String::from),
        uri: p["uri"].as_str().map(String::from),
        path: a["path"].as_str().map(String::from),
        query: a["query"].as_str().map(String::from),
        heading: a["heading"].as_str().map(String::from),
        lang: a["lang"].as_str().map(String::from),
        max_tokens: a["max_tokens"].as_u64(),
    })
}

/// A reply of the server, before it is written as JSON.
#[derive(Debug)]
pub enum McpReply {
    Error { code: i32, message: String },
    Initialize,
    PromptsList,
    ResourcesList { uris: Vec<String> },
    ToolsList,
    IndexSearch { query: String },
    Prompt { name: String, cleaned: String, outline: OutlineTree, blocks: usize },
    Resource { uri: String, text: String },
    ToolText { text: String },
    ToolHeadings { headings: Vec<HeadingNode> },
    ToolOutline { outline: OutlineTree },
    ToolChunks { chunks: Vec<MarkdownChunk> },
    ToolStats { stats: DocumentStats },
    Llms { output: LlmsTxtOutput, text: String },
}

/// The value of a reply; an outline is its headings, section count and depth, and the
/// statistics are lines, words, characters and tokens.
pub enum ReplyView {
    Error { code: i32, message: Seq<char> },
    Initialize,
    PromptsList,
    ResourcesList { uris: Seq<Seq<char>> },
    ToolsList,
    IndexSearch { query: Seq<char> },
    Prompt { name: Seq<char>, cleaned: Seq<char>, headings: Seq<HeadingView>, sections: usize, depth: u32, blocks: usize },
    Resource { uri: Seq<char>, text: Seq<char> },
    ToolText { text: Seq<char> },
    ToolHeadings { headings: Seq<HeadingView> },
    ToolOutline { headings: Seq<HeadingView>, sections: usize, depth: u32 },
    ToolChunks { chunks: Seq<ChunkView> },
    ToolStats { lines: usize, words: usize, characters: usize, tokens: usize },
    Llms { output: LlmsView, text: Seq<char> },
}

impl View for McpReply {
    type V = ReplyView;

    open spec fn view(&self) -> ReplyView {
        match self {
            McpReply::Error { code, message } => ReplyView::Error { code: *code, message: message@ },
            McpReply::Initialize => ReplyView::Initialize,
            McpReply::PromptsList => ReplyView::PromptsList,
            McpReply::ResourcesList { uris } => ReplyView::ResourcesList { uris: texts(uris@) },
            McpReply::ToolsList => ReplyView::ToolsList,
            McpReply::IndexSearch { query } => ReplyView::IndexSearch { query: query@ },
            McpReply::Prompt { name, cleaned, outline, blocks } => ReplyView::Prompt {
                name: name@,
                cleaned: cleaned@,
                headings: headings_view(outline.headings@),
                sections: outline.total_sections,
                depth: outline.max_depth,
                blocks: *blocks,
            },
            McpReply::Resource { uri, text } => ReplyView::Resource { uri: uri@, text: text@ },
            McpReply::ToolText { text } => ReplyView::ToolText { text: text@ },
            McpReply::ToolHeadings { headings } => ReplyView::ToolHeadings { headings: headings_view(headings@) },
            McpReply::ToolOutline { outline } => ReplyView::ToolOutline {
                headings: headings_view(outline.headings@),
                sections: outline.total_sections,
                depth: outline.max_depth,
            },
            McpReply::ToolChunks { chunks } => ReplyView::ToolChunks { chunks: chunks_view(chunks@) },
            McpReply::ToolStats { stats } => ReplyView::ToolStats {
                lines: stats.lines,
                words: stats.words,
                characters: stats.characters,
                tokens: stats.estimated_tokens,
            },
            McpReply::Llms { output, text } => ReplyView::Llms { output: output@, text: text@ },
        }
    }
}

/// What the server does with a message: stay silent, reply at once, read the file a path
/// argument names and then answer, or gather the project's documents for `llms.txt`.
#[derive(Debug)]
pub enum McpStep {
    Silent,
    Reply(McpReply),
    Read { path: String },
    Gather,
}

/// The value of a step.
pub enum StepView {
    Silent,
    Reply(ReplyView),
    Read(Seq<char>),
    Gather,
}

impl View for McpStep {
    type V = StepView;

    open spec fn view(&self) -> StepView {
        match self {
            McpStep::Silent => StepView::Silent,
            McpStep::Reply(r) => StepView::Reply(r@),
            McpStep::Read { path } => StepView::Read(path@),
            McpStep::Gather => StepView::Gather,
        }
    }
}

/// The resources the server lists: a local Markdown document, the `llms.txt` index and
/// the `llms-full.txt` text.
pub open spec fn resource_uris() -> Seq<Seq<char>> {
    seq!["file:///path/to/markdown.md"@, "llms://index"@, "llms://full"@]
}

/// Whether a resource is one of the generated `llms.txt` texts.
pub open spec fn is_llms_uri(u: Seq<char>) -> bool {
    u == "llms://index"@ || u == "llms://full"@
}

/// An optional text, empty where it is missing.
pub open spec fn or_empty(o: Option<Seq<char>>) -> Seq<char> {
    match o {
        Some(s) => s,
        None => seq![],
    }
}

/// The first step on a message: text that is not JSON gets the parse error (-32700), a
/// message without a string method the invalid-request error (-32600), a notification no
/// reply, an unknown method -32601; `initialize` and the lists are answered at once; reading
/// an `llms://` resource and the `generate_llms_txt` tool gather the project's documents; a
/// search tool call with an empty path searches the index; `prompts/get` and `tools/call`
/// read their `path` argument and `resources/read` its `uri`.
pub open spec fn step_spec(q: Option<RequestView>) -> StepView {
    match q {
        None => StepView::Reply(ReplyView::Error { code: -32700i32, message: "Parse error"@ }),
        Some(q) => match q.method {
            None => StepView::Reply(ReplyView::Error { code: -32600i32, message: "Invalid Request"@ }),
            Some(m) => match method_of(m) {
                McpMethod::Notification => StepView::Silent,
                McpMethod::Initialize => StepView::Reply(ReplyView::Initialize),
                McpMethod::PromptsList => StepView::Reply(ReplyView::PromptsList),
                McpMethod::ResourcesList => StepView::Reply(ReplyView::ResourcesList { uris: resource_uris() }),
                McpMethod::ToolsList => StepView::Reply(ReplyView::ToolsList),
                McpMethod::Unknown => StepView::Reply(
                    ReplyView::Error { code: -32601i32, message: "Method not found"@ },
                ),
                McpMethod::PromptsGet => StepView::Read(or_empty(q.path)),
                McpMethod::ResourcesRead => if is_llms_uri(or_empty(q.uri)) {
                    StepView::Gather
                } else {
                    StepView::Read(or_empty(q.uri))
                },
                McpMethod::ToolsCall => if tool_of(or_empty(q.name)) == McpTool::GenerateLlms {
                    StepView::Gather
                } else if tool_of(or_empty(q.name)) == McpTool::SearchSections && trim(
                    or_empty(q.path),
                ).len() == 0 {
                    StepView::Reply(ReplyView::IndexSearch { query: or_empty(q.query) })
                } else {
                    StepView::Read(or_empty(q.path))
                },
            },
        },
    }
}

/// The value of a file read: its text, or the message of the error.
pub open spec fn read_view(f: Result<String, String>) -> Result<Seq<char>, Seq<char>> {
    match f {
        Ok(t) => Ok(t@),
        Err(m) => Err(m@),
    }
}

/// Whether a prompt of that name exists.
pub open spec fn prompt_known(name: Seq<char>) -> bool {
    prompt_text_spec(name, seq![], seq![], 0) is Some
}

/// The answer to a request once its file was read: an unreadable file gives -32602 with
/// the read's message; `prompts/get` gives the named prompt's inputs (or -32602 for an
/// unknown prompt), `resources/read` the clean text, and `tools/call` what its tool gives
/// (-32601 for an unknown tool), `chunk_markdown` with a budget of 500 tokens by default.
pub open spec fn reply_spec(q: RequestView, file: Result<Seq<char>, Seq<char>>) -> ReplyView {
    match file {
        Err(m) => ReplyView::Error { code: -32602i32, message: m },
        Ok(c) => match method_of(or_empty(q.method)) {
            McpMethod::PromptsGet => if prompt_known(or_empty(q.name)) {
                ReplyView::Prompt {
                    name: or_empty(q.name),
                    cleaned: clean_markdown_spec(c),
                    headings: outline_headings(c),
                    sections: count_all(outline_headings(c)) as usize,
                    depth: max_level(outline_headings(c)),
                    blocks: code_blocks_spec(c, None).len() as usize,
                }
            } else {
                ReplyView::Error { code: -32602i32, message: "Unknown prompt: "@ + or_empty(q.name) }
            },
            McpMethod::ResourcesRead => ReplyView::Resource { uri: or_empty(q.uri), text: clean_markdown_spec(c) },
            _ => match tool_of(or_empty(q.name)) {
                McpTool::SearchSections => ReplyView::ToolHeadings {
                    headings: titled_headings(c, or_empty(q.query)),
                },
                McpTool::ReadClean => ReplyView::ToolText { text: clean_markdown_spec(c) },
                McpTool::Outline => ReplyView::ToolOutline {
                    headings: outline_headings(c),
                    sections: count_all(outline_headings(c)) as usize,
                    depth: max_level(outline_headings(c)),
                },
                McpTool::ReadSection => ReplyView::ToolText { text: section_spec(c, or_empty(q.heading)) },
                McpTool::CodeBlocks => ReplyView::ToolText { text: code_listing(code_blocks_spec(c, q.lang)) },
                McpTool::Chunk => ReplyView::ToolChunks {
                    chunks: chunk_markdown_spec(
                        c,
                        match q.max_tokens {
                            Some(m) => (m as usize) as int,
                            None => 500,
                        },
                    ),
                },
                McpTool::EstimateTokens => ReplyView::ToolStats {
                    lines: lines(c).len() as usize,
                    words: word_count(c) as usize,
                    characters: c.len() as usize,
                    tokens: tokens_for(c.len()) as usize,
                },
                McpTool::GenerateLlms => llms_reply(llms_spec(seq![(or_empty(q.path), c)])),
                McpTool::Unknown => ReplyView::Error { code: -32601i32, message: "Unknown tool: "@ + or_empty(q.name) },
            },
        },
    }
}

/// The report of a generation: the files processed and the tokens, raw, clean and saved.
pub open spec fn llms_message(o: LlmsView) -> Seq<char> {
    "Successfully generated llms.txt & llms-full.txt across "@ + decimal(o.files as nat) + " files!\n- Raw Tokens: "@
        + decimal(o.raw as nat) + "\n- Clean Payload Tokens: "@ + decimal(o.clean as nat) + "\n- Tokens Saved: "@
        + decimal(o.saved as nat)
}

/// The answer to a generation: its texts, to be written out, and its report.
pub open spec fn llms_reply(o: LlmsView) -> ReplyView {
    ReplyView::Llms { output: o, text: llms_message(o) }
}

/// The answer to a request once the project's documents `ds` were gathered: reading
/// `llms://index` gives the `llms.txt` index, another `llms://` resource the `llms-full.txt`
/// text, and a tool call the generated texts with their report.
pub open spec fn gathered_spec(q: RequestView, ds: Seq<(Seq<char>, Seq<char>)>) -> ReplyView {
    if method_of(or_empty(q.method)) == McpMethod::ResourcesRead {
        ReplyView::Resource {
            uri: or_empty(q.uri),
            text: if or_empty(q.uri) == "llms://index"@ {
                llms_spec(ds).index
            } else {
                llms_spec(ds).full
            },
        }
    } else {
        llms_reply(llms_spec(ds))
    }
}

/// An optional text as a string slice, empty where it is missing.
fn text_of(o: &Option<String>) -> (r: &str)
    ensures
        r@ == or_empty(opt_view(*o)),
{
    match o {
        Some(s) => s.as_str(),
        None => {
            proof {
                reveal_strlit("");
            }
            ""
        },
    }
}

/// `a` followed by `b`.
fn concat(a: &str, b: &str) -> (r: String)
    ensures
        r@ == a@ + b@,
{
    let mut r = a.to_owned();
    push_str(&mut r, b);
    r
}

/// The first step on a message that `parse_request` read (`None` for text that is not JSON).
pub fn decide_request(req: &Option<McpRequest>) -> (r: McpStep)
    ensures
        r@ == step_spec(opt_request(*req)),
{
    let q = match req {
        None => return McpStep::Reply(McpReply::Error { code: -32700i32, message: "Parse error".to_owned() }),
        Some(q) => q,
    };
    let m = match &q.method {
        None => return McpStep::Reply(McpReply::Error { code: -32600i32, message: "Invalid Request".to_owned() }),
        Some(m) => m,
    };
    match classify_method(m.as_str()) {
        McpMethod::Notification => McpStep::Silent,
        McpMethod::Initialize => McpStep::Reply(McpReply::Initialize),
        McpMethod::PromptsList => McpStep::Reply(McpReply::PromptsList),
        McpMethod::ResourcesList => {
            let mut uris: Vec<String> = Vec::new();
            uris.push("file:///path/to/markdown.md".to_owned());
            uris.push("llms://index".to_owned());
            uris.push("llms://full".to_owned());
            assert(texts(uris@) =~= resource_uris());
            McpStep::Reply(McpReply::ResourcesList { uris })
        },
        McpMethod::ToolsList => McpStep::Reply(McpReply::ToolsList),
        McpMethod::Unknown => McpStep::Reply(McpReply::Error { code: -32601i32, message: "Method not found".to_owned() }),
        McpMethod::PromptsGet => McpStep::Read { path: text_of(&q.path).to_owned() },
        McpMethod::ResourcesRead => {
            let uri = text_of(&q.uri);
            if is_llms(uri) {
                McpStep::Gather
            } else {
                McpStep::Read { path: uri.to_owned() }
            }
        },
        McpMethod::ToolsCall => {
            let path = text_of(&q.path);
            let pc = chars_of(path);
            let (a, b) = trim_range(pc.as_slice(), 0, pc.len());
            assert(pc@.subrange(0, pc@.len() as int) =~= pc@);
            let tool = classify_tool(text_of(&q.name));
            if tool == McpTool::GenerateLlms {
                McpStep::Gather
            } else if tool == McpTool::SearchSections && a == b {
                McpStep::Reply(McpReply::IndexSearch { query: text_of(&q.query).to_owned() })
            } else {
                McpStep::Read { path: path.to_owned() }
            }
        },
    }
}

/// The answer to a request once the file it names was read (`Err` with the message where
/// it could not be).
pub fn answer_request(req: &McpRequest, file: Result<String, String>) -> (r: McpReply)
    ensures
        r@ == reply_spec(req@, read_view(file)),
{
    let c = match file {
        Err(m) => return McpReply::Error { code: -32602i32, message: m },
        Ok(c) => c,
    };
    let content = c.as_str();
    match classify_method(text_of(&req.method)) {
        McpMethod::PromptsGet => {
            let name = text_of(&req.name);
            proof {
                reveal_strlit("");
            }
            if prompt_text(name, "", "", 0).is_some() {
                McpReply::Prompt {
                    name: name.to_owned(),
                    cleaned: clean_markdown(content),
                    outline: extract_outline(content),
                    blocks: extract_code_blocks(content, None).len(),
                }
            } else {
                McpReply::Error { code: -32602i32, message: concat("Unknown prompt: ", name) }
            }
        },
        McpMethod::ResourcesRead => McpReply::Resource { uri: text_of(&req.uri).to_owned(), text: clean_markdown(content) },
        _ => {
            let name = text_of(&req.name);
            match classify_tool(name) {
                McpTool::SearchSections => McpReply::ToolHeadings { headings: matching_headings(content, text_of(&req.query)) },
                McpTool::ReadClean => McpReply::ToolText { text: clean_markdown(content) },
                McpTool::Outline => McpReply::ToolOutline { outline: extract_outline(content) },
                McpTool::ReadSection => McpReply::ToolText { text: read_markdown_section(content, text_of(&req.heading)) },
                McpTool::CodeBlocks => {
                    let lang: Option<&str> = match &req.lang {
                        Some(l) => Some(l.as_str()),
                        None => None,
                    };
                    McpReply::ToolText { text: code_blocks_listing(&extract_code_blocks(content, lang)) }
                },
                McpTool::Chunk => {
                    let budget: usize = match req.max_tokens {
                        Some(m) => m as usize,
                        None => 500,
                    };
                    McpReply::ToolChunks { chunks: chunk_markdown(content, budget) }
                },
                McpTool::EstimateTokens => McpReply::ToolStats { stats: calculate_stats(content) },
                McpTool::GenerateLlms => {
                    let mut docs: Vec<LlmsDoc> = Vec::new();
                    docs.push(LlmsDoc { path: text_of(&req.path).to_owned(), content: c.clone() });
                    assert(docs_view(docs@) =~= seq![(or_empty(req@.path), c@)]);
                    llms_answer(generate_llmstxt(&docs))
                },
                McpTool::Unknown => McpReply::Error { code: -32601i32, message: concat("Unknown tool: ", name) },
            }
        },
    }
}

/// Whether `uri` names one of the generated `llms.txt` texts.
fn is_llms(uri: &str) -> (r: bool)
    ensures
        r == is_llms_uri(uri@),
{
    let u = chars_of(uri);
    chars_eq_str(u.as_slice(), "llms://index") || chars_eq_str(u.as_slice(), "llms://full")
}

/// The answer to a generation, with its report.
fn llms_answer(output: LlmsTxtOutput) -> (r: McpReply)
    ensures
        r@ == llms_reply(output@),
{
    let mut t = String::new();
    push_str(&mut t, "Successfully generated llms.txt & llms-full.txt across ");
    push_decimal(&mut t, output.files_processed);
    push_str(&mut t, " files!\n- Raw Tokens: ");
    push_decimal(&mut t, output.total_raw_tokens);
    push_str(&mut t, "\n- Clean Payload Tokens: ");
    push_decimal(&mut t, output.total_clean_tokens);
    push_str(&mut t, "\n- Tokens Saved: ");
    push_decimal(&mut t, output.tokens_saved);
    McpReply::Llms { output, text: t }
}

/// The answer to a request once the project's documents were gathered.
pub fn answer_gathered(req: &McpRequest, docs: &Vec<LlmsDoc>) -> (r: McpReply)
    ensures
        r@ == gathered_spec(req@, docs_view(docs@)),
{
    let output = generate_llmstxt(docs);
    if classify_method(text_of(&req.method)) == McpMethod::ResourcesRead {
        let uri = text_of(&req.uri);
        let u = chars_of(uri);
        let text = if chars_eq_str(u.as_slice(), "llms://index") {
            output.index_content
        } else {
            output.full_content
        };
        McpReply::Resource { uri: uri.to_owned(), text }
    } else {
        llms_answer(output)
    }
}

/// The protocol's fixed answers: text that is not JSON gets the parse error with no id, a
/// notification gets no reply at all, the resource and tool lists are answered without
/// reading a file (the resources being a local document and the two `llms.txt` texts), the
/// `llms.txt` tool and resources gather the project's documents, a missing path argument
/// names no file, and a failed read is answered with -32602 and the read's message.
pub proof fn law_protocol_answers(q: RequestView, m: Seq<char>)
    ensures
        step_spec(None) == (StepView::Reply(ReplyView::Error { code: -32700i32, message: "Parse error"@ })),
        (q.method matches Some(x) && method_of(x) == McpMethod::Notification) ==> (step_spec(Some(q)) is Silent),
        q.method == Some("resources/list"@) ==> step_spec(Some(q)) == (StepView::Reply(
            ReplyView::ResourcesList { uris: resource_uris() },
        )),
        (q.method matches Some(x) && method_of(x) == McpMethod::ToolsCall) && q.name == Some("generate_llms_txt"@) ==> (step_spec(Some(q)) is Gather),
        (q.method matches Some(x) && method_of(x) == McpMethod::ResourcesRead) && (q.uri == Some("llms://index"@) || q.uri == Some("llms://full"@)) ==> (step_spec(Some(q)) is Gather),
        q.method == Some("tools/list"@) ==> step_spec(Some(q)) == (StepView::Reply(ReplyView::ToolsList)),
        file_argument(or_empty(None)) == (Err::<Seq<char>, Seq<char>>("Path argument cannot be empty"@)),
        reply_spec(q, Err(m)) == (ReplyView::Error { code: -32602i32, message: m }),
{
    reveal_strlit("resources/list");
    reveal_strlit("tools/list");
    reveal_strlit("$/");
    reveal_strlit("notifications/");
    reveal_strlit("initialize");
    reveal_strlit("prompts/list");
    reveal_strlit("prompts/get");
    reveal_strlit("file:///");
    reveal_strlit("file://");
    assert(!starts_with("resources/list"@, "$/"@)) by {
        assert("resources/list"@[0] != "$/"@[0]);
        assert("resources/list"@.subrange(0, 2)[0] == 'r');
    }
    assert(!starts_with("resources/list"@, "notifications/"@)) by {
        assert("resources/list"@.subrange(0, 14)[0] == 'r');
    }
    assert(!starts_with("tools/list"@, "$/"@)) by {
        assert("tools/list"@.subrange(0, 2)[0] == 't');
    }
    assert(!starts_with("tools/list"@, "notifications/"@));
    assert("resources/list"@ != "initialize"@) by {
        assert("initialize"@[0] == 'i');
    }
    assert("resources/list"@ != "prompts/list"@) by {
        assert("prompts/list"@[0] == 'p');
    }
    assert("resources/list"@ != "prompts/get"@) by {
        assert("prompts/get"@[0] == 'p');
    }
    assert("tools/list"@ != "initialize"@) by {
        assert("initialize"@[0] == 'i');
    }
    assert("tools/list"@ != "prompts/list"@) by {
        assert("prompts/list"@[0] == 'p');
    }
    assert("tools/list"@ != "prompts/get"@) by {
        assert("prompts/get"@[0] == 'p');
    }
    assert("tools/list"@ != "resources/list"@) by {
        assert("resources/list"@[0] == 'r');
    }
    assert("tools/list"@ != "resources/read"@) by {
        reveal_strlit("resources/read");
        assert("resources/read"@[0] == 'r');
    }
    let e: Seq<char> = seq![];
    assert(strip_all(e, "file:///"@) == e);
    assert(strip_all(e, "file://"@) == e);
    assert(trim(e) =~= e);
}

} // verus!
