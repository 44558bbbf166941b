//! The `llms.txt` generator: an index of a project's Markdown documents for AI agents
//! (`llms.txt`) and their concatenated token-thrifty text (`llms-full.txt`).
use crate::agent::{clean_markdown_spec, clean_markdown_with_report, tokens_for};
use crate::outline::{extract_outline, lemma_headings_view, outline_headings, preorder};
use crate::text::push_str;
use crate::tui::app::{add_capped, flatten_headings};
use vstd::prelude::*;

verus! {

/// A document to index: its path, as it is shown, and its text.
#[derive(Debug, Clone, PartialEq, Eq)]
pub struct LlmsDoc {
    pub path: String,
    pub content: String,
}

impl View for LlmsDoc {
    type V = (Seq<char>, Seq<char>);

    open spec fn view(&self) -> (Seq<char>, Seq<char>) {
        (self.path@, self.content@)
    }
}

/// The values of a list of documents.
pub open spec fn docs_view(ds: Seq<LlmsDoc>) -> Seq<(Seq<char>, Seq<char>)> {
    ds.map_values(|d: LlmsDoc| d@)
}

/// The generated texts and the token counts of the documents, raw and cleaned.
#[derive(Debug, Clone, PartialEq, Eq)]
pub struct LlmsTxtOutput {
    pub index_content: String,
    pub full_content: String,
    pub files_processed: usize,
    pub total_raw_tokens: usize,
    pub total_clean_tokens: usize,
    pub tokens_saved: usize,
}

/// The value of a generator's output.
pub struct LlmsView {
    pub index: Seq<char>,
    pub full: Seq<char>,
    pub files: usize,
    pub raw: usize,
    pub clean: usize,
    pub saved: usize,
}

impl View for LlmsTxtOutput {
    type V = LlmsView;

    open spec fn view(&self) -> LlmsView {
        LlmsView {
            index: self.index_content@,
            full: self.full_content@,
            files: self.files_processed,
            raw: self.total_raw_tokens,
            clean: self.total_clean_tokens,
            saved: self.tokens_saved,
        }
    }
}

/// The first lines of `llms.txt`.
pub open spec fn index_header() -> Seq<char> {
    "# Project Documentation Index\n\n> Markdown documents of this project, indexed for AI agents. Their token-thrifty text is in llms-full.txt.\n\n## Documents\n\n"@
}

/// The first line of `llms-full.txt`.
pub open spec fn full_header() -> Seq<char> {
    "# Project Documentation\n\n"@
}

/// The title of a document: the title of its first heading, or its path where it has none.
pub open spec fn doc_title(d: (Seq<char>, Seq<char>)) -> Seq<char> {
    let hs = preorder(outline_headings(d.1));
    if hs.len() > 0 {
        hs[0].title
    } else {
        d.0
    }
}

/// The index line of a document: `- [title](path)`.
pub open spec fn index_entry(d: (Seq<char>, Seq<char>)) -> Seq<char> {
    "- ["@ + doc_title(d) + "]("@ + d.0 + ")\n"@
}

/// The section of a document in `llms-full.txt`: its title, its path and its clean text.
pub open spec fn full_entry(d: (Seq<char>, Seq<char>)) -> Seq<char> {
    "## "@ + doc_title(d) + "\nSource: "@ + d.0 + "\n\n"@ + clean_markdown_spec(d.1) + "\n\n"@
}

/// The index lines of the documents, in order.
pub open spec fn index_entries(ds: Seq<(Seq<char>, Seq<char>)>) -> Seq<char>
    decreases ds.len(),
{
    if ds.len() == 0 {
        seq![]
    } else {
        index_entries(ds.drop_last()) + index_entry(ds.last())
    }
}

/// The sections of `llms-full.txt`, in order.
pub open spec fn full_entries(ds: Seq<(Seq<char>, Seq<char>)>) -> Seq<char>
    decreases ds.len(),
{
    if ds.len() == 0 {
        seq![]
    } else {
        full_entries(ds.drop_last()) + full_entry(ds.last())
    }
}

/// The raw tokens of the documents, summed up to `usize::MAX`.
pub open spec fn raw_total(ds: Seq<(Seq<char>, Seq<char>)>) -> usize
    decreases ds.len(),
{
    if ds.len() == 0 {
        0
    } else {
        add_capped(raw_total(ds.drop_last()), tokens_for(ds.last().1.len()))
    }
}

/// The tokens of the documents' clean texts, summed up to `usize::MAX`.
pub open spec fn clean_total(ds: Seq<(Seq<char>, Seq<char>)>) -> usize
    decreases ds.len(),
{
    if ds.len() == 0 {
        0
    } else {
        add_capped(clean_total(ds.drop_last()), tokens_for(clean_markdown_spec(ds.last().1).len()))
    }
}

/// What the generator gives for the documents `ds`.
pub open spec fn llms_spec(ds: Seq<(Seq<char>, Seq<char>)>) -> LlmsView {
    LlmsView {
        index: index_header() + index_entries(ds),
        full: full_header() + full_entries(ds),
        files: ds.len() as usize,
        raw: raw_total(ds),
        clean: clean_total(ds),
        saved: if raw_total(ds) >= clean_total(ds) {
            (raw_total(ds) - clean_total(ds)) as usize
        } else {
            0
        },
    }
}

/// The title of a document.
fn doc_title_of(path: &str, content: &str) -> (r: String)
    ensures
        r@ == doc_title((path@, content@)),
{
    let outline = extract_outline(content);
    let flat = flatten_headings(outline.headings.as_slice());
    proof {
        lemma_headings_view(flat@);
        lemma_headings_view(outline.headings@);
    }
    if flat.len() > 0 {
        assert(preorder(outline_headings(content@))[0].title == flat@[0].title@);
        flat[0].title.clone()
    } else {
        path.to_owned()
    }
}

/// `a + b`, or `usize::MAX` when it does not fit.
fn add_tokens(a: usize, b: usize) -> (r: usize)
    ensures
        r == add_capped(a, b as nat),
{
    match a.checked_add(b) {
        Some(s) => s,
        None => usize::MAX,
    }
}

/// Generates `llms.txt` (an index of the documents: a header, then a `- [title](path)`
/// line for each) and `llms-full.txt` (each document's title, path and clean text), and
/// counts the documents' raw and clean tokens.
pub fn generate_llmstxt(docs: &Vec<LlmsDoc>) -> (r: LlmsTxtOutput)
    ensures
        r@ == llms_spec(docs_view(docs@)),
{
    let ghost dv = docs_view(docs@);
    let mut index = String::new();
    push_str(&mut index, "# Project Documentation Index\n\n> Markdown documents of this project, indexed for AI agents. Their token-thrifty text is in llms-full.txt.\n\n## Documents\n\n");
    let mut full = String::new();
    push_str(&mut full, "# Project Documentation\n\n");
    let mut raw: usize = 0;
    let mut clean: usize = 0;
    let mut i: usize = 0;
    assert(index@ =~= index_header() + index_entries(dv.take(0)));
    assert(full@ =~= full_header() + full_entries(dv.take(0)));
    while i < docs.len()
        invariant
            i <= docs@.len(),
            dv == docs_view(docs@),
            index@ == index_header() + index_entries(dv.take(i as int)),
            full@ == full_header() + full_entries(dv.take(i as int)),
            raw == raw_total(dv.take(i as int)),
            clean == clean_total(dv.take(i as int)),
        decreases docs.len() - i,
    {
        let d = &docs[i];
        let ghost pre = dv.take(i as int);
        assert(dv.take(i + 1).drop_last() =~= pre);
        assert(dv.take(i + 1).last() == (d.path@, d.content@));
        let title = doc_title_of(d.path.as_str(), d.content.as_str());
        let ghost ib = index@;
        push_str(&mut index, "- [");
        push_str(&mut index, title.as_str());
        push_str(&mut index, "](");
        push_str(&mut index, d.path.as_str());
        push_str(&mut index, ")\n");
        assert(index@ =~= index_header() + index_entries(dv.take(i + 1)));
        let report = clean_markdown_with_report(d.content.as_str());
        let ghost fb = full@;
        push_str(&mut full, "## ");
        push_str(&mut full, title.as_str());
        push_str(&mut full, "\nSource: ");
        push_str(&mut full, d.path.as_str());
        push_str(&mut full, "\n\n");
        push_str(&mut full, report.cleaned_text.as_str());
        push_str(&mut full, "\n\n");
        assert(full@ =~= full_header() + full_entries(dv.take(i + 1)));
        raw = add_tokens(raw, report.raw_tokens);
        clean = add_tokens(clean, report.cleaned_tokens);
        i += 1;
    }
    assert(dv.take(i as int) =~= dv);
    let saved = if raw >= clean {
        raw - clean
    } else {
        0
    };
    LlmsTxtOutput {
        index_content: index,
        full_content: full,
        files_processed: docs.len(),
        total_raw_tokens: raw,
        total_clean_tokens: clean,
        tokens_saved: saved,
    }
}

/// Whether `y` occurs in `x`.
pub open spec fn occurs_in(x: Seq<char>, y: Seq<char>) -> bool {
    exists|k: int| 0 <= k && k + y.len() <= x.len() && #[trigger] x.subrange(k, k + y.len()) == y
}

/// The entries of the first `i` documents begin those of the first `n`.
proof fn lemma_entries_prefix(ds: Seq<(Seq<char>, Seq<char>)>, i: int, n: int)
    requires
        0 <= i <= n <= ds.len(),
    ensures
        index_entries(ds.take(i)).len() <= index_entries(ds.take(n)).len(),
        index_entries(ds.take(n)).subrange(0, index_entries(ds.take(i)).len() as int) == index_entries(ds.take(i)),
        full_entries(ds.take(i)).len() <= full_entries(ds.take(n)).len(),
        full_entries(ds.take(n)).subrange(0, full_entries(ds.take(i)).len() as int) == full_entries(ds.take(i)),
    decreases n - i,
{
    if i < n {
        lemma_entries_prefix(ds, i, n - 1);
        assert(ds.take(n).drop_last() =~= ds.take(n - 1));
        let a = index_entries(ds.take(n - 1));
        let b = index_entries(ds.take(n));
        assert(b == a + index_entry(ds.take(n).last()));
        assert(b.subrange(0, index_entries(ds.take(i)).len() as int) =~= a.subrange(
            0,
            index_entries(ds.take(i)).len() as int,
        ));
        let fa = full_entries(ds.take(n - 1));
        let fb = full_entries(ds.take(n));
        assert(fb == fa + full_entry(ds.take(n).last()));
        assert(fb.subrange(0, full_entries(ds.take(i)).len() as int) =~= fa.subrange(
            0,
            full_entries(ds.take(i)).len() as int,
        ));
    } else {
        assert(index_entries(ds.take(n)).subrange(0, index_entries(ds.take(n)).len() as int) =~= index_entries(
            ds.take(n),
        ));
        assert(full_entries(ds.take(n)).subrange(0, full_entries(ds.take(n)).len() as int) =~= full_entries(
            ds.take(n),
        ));
    }
}

/// `llms.txt` lists every document, under its title, and `llms-full.txt` holds every
/// document's clean text, under its title and path.
pub proof fn law_llms_covers_every_document(ds: Seq<(Seq<char>, Seq<char>)>)
    ensures
        forall|i: int| 0 <= i < ds.len() ==> occurs_in(llms_spec(ds).index, index_entry(#[trigger] ds[i])),
        forall|i: int| 0 <= i < ds.len() ==> occurs_in(llms_spec(ds).full, full_entry(#[trigger] ds[i])),
{
    assert forall|i: int| 0 <= i < ds.len() implies occurs_in(llms_spec(ds).index, index_entry(#[trigger] ds[i]))
        && occurs_in(llms_spec(ds).full, full_entry(ds[i])) by {
        lemma_entries_prefix(ds, i + 1, ds.len() as int);
        assert(ds.take(ds.len() as int) =~= ds);
        assert(ds.take(i + 1).drop_last() =~= ds.take(i));
        assert(ds.take(i + 1).last() == ds[i]);
        let e = index_entries(ds.take(i + 1));
        let pre = index_entries(ds.take(i));
        let x = index_entry(ds[i]);
        assert(e == pre + x);
        let all = index_entries(ds);
        let ix = index_header() + all;
        let k: int = (index_header().len() + pre.len()) as int;
        assert(ix.subrange(k, k + x.len()) =~= e.subrange(pre.len() as int, e.len() as int)) by {
            assert(all.subrange(0, e.len() as int) == e);
        }
        assert(e.subrange(pre.len() as int, e.len() as int) =~= x);
        let f = full_entries(ds.take(i + 1));
        let fpre = full_entries(ds.take(i));
        let y = full_entry(ds[i]);
        assert(f == fpre + y);
        let fall = full_entries(ds);
        let fx = full_header() + fall;
        let k2: int = (full_header().len() + fpre.len()) as int;
        assert(fx.subrange(k2, k2 + y.len()) =~= f.subrange(fpre.len() as int, f.len() as int)) by {
            assert(fall.subrange(0, f.len() as int) == f);
        }
        assert(f.subrange(fpre.len() as int, f.len() as int) =~= y);
    }
}

} // verus!
