//! The per-document work of search and indexing: each line with the section it belongs
//! to, the lines that hit a query, the terms of a line and the trigrams of a term.
use crate::agent::vecs_view;
use crate::chunker::split_lines;
use crate::outline::{extract_outline, headings_view, lemma_headings_view, outline_headings, preorder, HeadingNode, HeadingView};
use crate::query::{trim_non_alnum, trim_non_alnum_range};
use crate::text::{
    alphanumeric, chars_of, contains, contains_chars, decimal, is_alphanumeric, is_whitespace,
    is_ws, lines, lower_chars, lowercase, push_decimal, push_str, string_of, string_of_range, trim,
    trim_chars, word_count,
};
use crate::tui::app::flatten_headings;
use vstd::prelude::*;

verus! {

/// A line of a document with the section it belongs to.
#[derive(Debug, Clone, PartialEq, Eq)]
pub struct IndexedLine {
    pub line_number: usize,
    pub line_snippet: String,
    pub line_words: usize,
    pub heading_path: String,
    pub heading_level: u32,
    pub heading_title: String,
    pub section_tokens: usize,
}

/// The value of an indexed line.
#[verifier::ext_equal]
pub struct IndexedLineView {
    pub line_number: usize,
    pub line_snippet: Seq<char>,
    pub line_words: usize,
    pub heading_path: Seq<char>,
    pub heading_level: u32,
    pub heading_title: Seq<char>,
    pub section_tokens: usize,
}

impl View for IndexedLine {
    type V = IndexedLineView;

    open spec fn view(&self) -> IndexedLineView {
        IndexedLineView {
            line_number: self.line_number,
            line_snippet: self.line_snippet@,
            line_words: self.line_words,
            heading_path: self.heading_path@,
            heading_level: self.heading_level,
            heading_title: self.heading_title@,
            section_tokens: self.section_tokens,
        }
    }
}

/// The values of a list of indexed lines.
pub open spec fn indexed_view(v: Seq<IndexedLine>) -> Seq<IndexedLineView> {
    v.map_values(|l: IndexedLine| l@)
}

/// Among the first `k` headings, the last whose section holds line `n`.
pub open spec fn heading_at(hs: Seq<HeadingView>, n: int, k: int) -> Option<int>
    decreases k,
{
    if k <= 0 || k > hs.len() {
        None
    } else if hs[k - 1].start_line <= n <= hs[k - 1].end_line {
        Some(k - 1)
    } else {
        heading_at(hs, n, k - 1)
    }
}

/// Line `n` (from 1) of a document whose flattened headings are `hs`, with its section:
/// `H<level>: <title>`, the level, the lowercase title and the section's tokens, or the
/// root document when no section holds it.
pub open spec fn indexed_line(hs: Seq<HeadingView>, l: Seq<char>, n: int) -> IndexedLineView {
    let words = word_count(l);
    let base = IndexedLineView {
        line_number: n as usize,
        line_snippet: trim(l),
        line_words: if words > 1 { words as usize } else { 1 },
        heading_path: "Root Document"@,
        heading_level: 0,
        heading_title: seq![],
        section_tokens: 0,
    };
    match heading_at(hs, n, hs.len() as int) {
        Some(i) => IndexedLineView {
            heading_path: "H"@ + decimal(hs[i].level as nat) + ": "@ + hs[i].title,
            heading_level: hs[i].level,
            heading_title: lowercase(hs[i].title),
            section_tokens: hs[i].token_count,
            ..base
        },
        None => base,
    }
}

/// Every line of a document with its section.
pub open spec fn index_lines_spec(content: Seq<char>) -> Seq<IndexedLineView> {
    let hs = preorder(outline_headings(content));
    let ls = lines(content);
    Seq::new(ls.len(), |i: int| indexed_line(hs, ls[i], i + 1))
}

/// The section of line `n` among the flattened headings.
fn find_heading_at(hs: &Vec<HeadingNode>, n: usize) -> (r: Option<usize>)
    ensures
        match r {
            Some(i) => heading_at(headings_view(hs@), n as int, hs@.len() as int) == Some(i as int)
                && i < hs@.len(),
            None => heading_at(headings_view(hs@), n as int, hs@.len() as int) is None,
        },
{
    let ghost hv = headings_view(hs@);
    proof {
        lemma_headings_view(hs@);
    }
    let mut k = hs.len();
    while k > 0
        invariant
            k <= hs@.len(),
            hv == headings_view(hs@),
            hv.len() == hs@.len(),
            forall|j: int| 0 <= j < hs@.len() ==> hv[j] == crate::outline::heading_view(#[trigger] hs@[j]),
            heading_at(hv, n as int, hs@.len() as int) == heading_at(hv, n as int, k as int),
        decreases k,
    {
        let h = &hs[k - 1];
        assert(hv[k - 1] == crate::outline::heading_view(*h));
        if h.start_line <= n && n <= h.end_line {
            return Some(k - 1);
        }
        k -= 1;
    }
    None
}

/// Line `n` of the document, with its section.
fn make_indexed_line(hs: &Vec<HeadingNode>, l: &Vec<char>, n: usize) -> (r: IndexedLine)
    ensures
        r@ == indexed_line(headings_view(hs@), l@, n as int),
{
    proof {
        lemma_headings_view(hs@);
    }
    let words = crate::text::count_words(l.as_slice());
    let snippet = string_of(trim_chars(l.as_slice()).as_slice());
    let line_words = if words > 1 { words } else { 1 };
    match find_heading_at(hs, n) {
        Some(i) => {
            let h = &hs[i];
            let mut path = String::new();
            push_str(&mut path, "H");
            push_decimal(&mut path, h.level as usize);
            push_str(&mut path, ": ");
            push_str(&mut path, h.title.as_str());
            let r = IndexedLine {
                line_number: n,
                line_snippet: snippet,
                line_words,
                heading_path: path,
                heading_level: h.level,
                heading_title: crate::text::to_lower(h.title.as_str()),
                section_tokens: h.token_count,
            };
            assert(r@ =~= indexed_line(headings_view(hs@), l@, n as int));
            r
        },
        None => {
            let mut path = String::new();
            push_str(&mut path, "Root Document");
            let r = IndexedLine {
                line_number: n,
                line_snippet: snippet,
                line_words,
                heading_path: path,
                heading_level: 0,
                heading_title: String::new(),
                section_tokens: 0,
            };
            assert(r@ =~= indexed_line(headings_view(hs@), l@, n as int));
            r
        },
    }
}

/// Every line of a document with the section it belongs to.
pub fn index_lines(content: &str) -> (r: Vec<IndexedLine>)
    ensures
        indexed_view(r@) == index_lines_spec(content@),
{
    let outline = extract_outline(content);
    let flat = flatten_headings(outline.headings.as_slice());
    let cs = chars_of(content);
    let ls = split_lines(cs.as_slice());
    let ghost hs = preorder(outline_headings(content@));
    let ghost lv = lines(content@);
    let mut out: Vec<IndexedLine> = Vec::new();
    let mut i: usize = 0;
    while i < ls.len()
        invariant
            i <= ls@.len(),
            vecs_view(ls@) == lv,
            headings_view(flat@) == hs,
            indexed_view(out@) == Seq::new(i as nat, |j: int| indexed_line(hs, lv[j], j + 1)),
        decreases ls.len() - i,
    {
        let line = make_indexed_line(&flat, &ls[i], i + 1);
        assert(ls@[i as int]@ == lv[i as int]);
        let ghost b = out@;
        out.push(line);
        i += 1;
        assert(indexed_view(out@) =~= indexed_view(b).push(line@));
        assert(indexed_view(out@) =~= Seq::new(i as nat, |j: int| indexed_line(hs, lv[j], j + 1)));
    }
    out
}

// ---------------------------------------------------------------------------
// Search hits
// ---------------------------------------------------------------------------

/// A line that hits a query: the file it is in, the line with its section, and its
/// lowercase text.
#[derive(Debug, Clone, PartialEq, Eq)]
pub struct RawHit {
    pub file_path: String,
    pub line: IndexedLine,
    pub line_lower: String,
}

/// The value of a raw hit.
#[verifier::ext_equal]
pub struct RawHitView {
    pub file_path: Seq<char>,
    pub line: IndexedLineView,
    pub line_lower: Seq<char>,
}

impl View for RawHit {
    type V = RawHitView;

    open spec fn view(&self) -> RawHitView {
        RawHitView { file_path: self.file_path@, line: self.line@, line_lower: self.line_lower@ }
    }
}

/// The hits of one file, with the number of hit lines and their words.
#[derive(Debug, Clone, PartialEq, Eq)]
pub struct FileHits {
    pub hits: Vec<RawHit>,
    pub sections: usize,
    pub words: usize,
}

/// Whether a lowercase line hits the terms: any of them occurs in it, or there is none.
pub open spec fn line_hits(line_lower: Seq<char>, terms: Seq<Seq<char>>) -> bool {
    terms.len() == 0 || exists|k: int| 0 <= k < terms.len() && contains(line_lower, #[trigger] terms[k])
}

/// The state of the hit scan: hits, hit lines and words (capped at `usize::MAX`).
#[verifier::ext_equal]
pub struct HitScan {
    pub hits: Seq<RawHitView>,
    pub sections: int,
    pub words: usize,
}

/// The hit scan of the first `n` lines of `content` (in file `path`) for `terms`.
pub open spec fn hit_fold(path: Seq<char>, content: Seq<char>, terms: Seq<Seq<char>>, n: int) -> HitScan
    decreases n,
{
    let ls = lines(content);
    if n <= 0 || n > ls.len() {
        HitScan { hits: seq![], sections: 0, words: 0 }
    } else {
        let prev = hit_fold(path, content, terms, n - 1);
        let lower = lowercase(ls[n - 1]);
        if line_hits(lower, terms) {
            let il = indexed_line(preorder(outline_headings(content)), ls[n - 1], n);
            HitScan {
                hits: prev.hits.push(RawHitView { file_path: path, line: il, line_lower: lower }),
                sections: prev.sections + 1,
                words: crate::tui::app::add_capped(prev.words, il.line_words as nat),
            }
        } else {
            prev
        }
    }
}

/// Whether lowercase line text `lower` holds one of `terms`.
pub open spec fn holds_a_term(lower: Seq<char>, terms: Seq<Seq<char>>) -> bool {
    exists|k: int| 0 <= k < terms.len() && contains(lower, #[trigger] terms[k])
}

/// Whether line `n` (from 1) is among the hits.
pub open spec fn line_is_hit(hits: Seq<RawHitView>, n: int) -> bool {
    exists|j: int| 0 <= j < hits.len() && (#[trigger] hits[j]).line.line_number == n
}

/// What the scan of the first `n` lines finds: each hit is one of those lines, holding a
/// term (any line where there is no term), and each such line is a hit.
proof fn lemma_hit_fold(path: Seq<char>, content: Seq<char>, terms: Seq<Seq<char>>, n: int)
    requires
        0 <= n <= lines(content).len(),
        lines(content).len() <= usize::MAX,
    ensures
        forall|j: int|
            0 <= j < hit_fold(path, content, terms, n).hits.len() ==> exists|i: int|
                0 <= i < n && (#[trigger] hit_fold(path, content, terms, n).hits[j]).line.line_number == i + 1
                    && hit_fold(path, content, terms, n).hits[j].line_lower == lowercase(lines(content)[i])
                    && (terms.len() == 0 || holds_a_term(lowercase(lines(content)[i]), terms)),
        forall|i: int|
            0 <= i < n && (terms.len() == 0 || holds_a_term(lowercase(lines(content)[i]), terms)) ==> #[trigger] line_is_hit(
                hit_fold(path, content, terms, n).hits,
                i + 1,
            ),
    decreases n,
{
    if n > 0 {
        lemma_hit_fold(path, content, terms, n - 1);
        let ls = lines(content);
        let prev = hit_fold(path, content, terms, n - 1);
        let s = hit_fold(path, content, terms, n);
        let lower = lowercase(ls[n - 1]);
        assert(line_hits(lower, terms) == (terms.len() == 0 || holds_a_term(lower, terms)));
        if line_hits(lower, terms) {
            let il = indexed_line(preorder(outline_headings(content)), ls[n - 1], n);
            assert(il.line_number == n);
            assert(s.hits == prev.hits.push(RawHitView { file_path: path, line: il, line_lower: lower }));
            assert forall|j: int| 0 <= j < s.hits.len() implies exists|i: int|
                0 <= i < n && (#[trigger] s.hits[j]).line.line_number == i + 1 && s.hits[j].line_lower == lowercase(ls[i])
                    && (terms.len() == 0 || holds_a_term(lowercase(ls[i]), terms)) by {
                if j < prev.hits.len() {
                    assert(s.hits[j] == prev.hits[j]);
                } else {
                    assert(s.hits[j].line.line_number == (n - 1) + 1);
                }
            }
            assert forall|i: int| 0 <= i < n && (terms.len() == 0 || holds_a_term(lowercase(ls[i]), terms)) implies #[trigger] line_is_hit(
                s.hits,
                i + 1,
            ) by {
                if i < n - 1 {
                    assert(line_is_hit(prev.hits, i + 1));
                    let j = choose|j: int| 0 <= j < prev.hits.len() && (#[trigger] prev.hits[j]).line.line_number == i + 1;
                    assert(s.hits[j] == prev.hits[j]);
                } else {
                    assert(s.hits[prev.hits.len() as int].line.line_number == i + 1);
                }
            }
        } else {
            assert(s == prev);
            assert forall|i: int| 0 <= i < n && (terms.len() == 0 || holds_a_term(lowercase(ls[i]), terms)) implies #[trigger] line_is_hit(
                s.hits,
                i + 1,
            ) by {
                assert(i < n - 1);
                assert(line_is_hit(prev.hits, i + 1));
            }
        }
    }
}

/// A scan of a file for query terms hits exactly the lines whose lowercase text holds at
/// least one of the terms (every line where there is no term), each with its line number
/// and lowercase text.
pub proof fn law_hits_are_lines_holding_a_term(path: Seq<char>, content: Seq<char>, terms: Seq<Seq<char>>)
    requires
        lines(content).len() <= usize::MAX,
    ensures
        forall|j: int|
            0 <= j < hit_fold(path, content, terms, lines(content).len() as int).hits.len() ==> exists|i: int|
                0 <= i < lines(content).len() && (#[trigger] hit_fold(path, content, terms, lines(content).len() as int).hits[j]).line.line_number
                    == i + 1 && hit_fold(path, content, terms, lines(content).len() as int).hits[j].line_lower == lowercase(
                    lines(content)[i],
                ) && (terms.len() == 0 || holds_a_term(lowercase(lines(content)[i]), terms)),
        forall|i: int, k: int|
            0 <= i < lines(content).len() && 0 <= k < terms.len() && #[trigger] contains(lowercase(lines(content)[i]), terms[k])
                ==> line_is_hit(hit_fold(path, content, terms, lines(content).len() as int).hits, i + 1),
        terms.len() == 0 ==> forall|i: int|
            0 <= i < lines(content).len() ==> #[trigger] line_is_hit(
                hit_fold(path, content, terms, lines(content).len() as int).hits,
                i + 1,
            ),
{
    let ls = lines(content);
    lemma_hit_fold(path, content, terms, ls.len() as int);
    assert forall|i: int, k: int|
        0 <= i < ls.len() && 0 <= k < terms.len() && #[trigger] contains(lowercase(ls[i]), terms[k]) implies line_is_hit(
        hit_fold(path, content, terms, ls.len() as int).hits,
        i + 1,
    ) by {
        assert(holds_a_term(lowercase(ls[i]), terms));
    }
}

/// Whether one of `terms` occurs in `lower`.
fn any_term_in(lower: &Vec<char>, terms: &Vec<Vec<char>>) -> (r: bool)
    ensures
        r == line_hits(lower@, vecs_view(terms@)),
{
    if terms.len() == 0 {
        return true;
    }
    let ghost tv = vecs_view(terms@);
    let mut k: usize = 0;
    while k < terms.len()
        invariant
            k <= terms@.len(),
            tv == vecs_view(terms@),
            terms@.len() > 0,
            forall|j: int| 0 <= j < k ==> !contains(lower@, #[trigger] tv[j]),
        decreases terms.len() - k,
    {
        assert(tv[k as int] == terms@[k as int]@);
        if contains_chars(lower.as_slice(), terms[k].as_slice()) {
            return true;
        }
        k += 1;
    }
    false
}

/// The lines of a document (in file `file_path`) that hit the query terms, each with its
/// section, and how many lines and words they make.
pub fn collect_file_hits(file_path: &str, content: &str, query_terms: &Vec<String>) -> (r: FileHits)
    ensures
        ({
            let s = hit_fold(
                file_path@,
                content@,
                query_terms@.map_values(|t: String| t@),
                lines(content@).len() as int,
            );
            &&& r.hits@.map_values(|h: RawHit| h@) == s.hits
            &&& r.sections == s.sections
            &&& r.words == s.words
        }),
{
    let ghost tv = query_terms@.map_values(|t: String| t@);
    let mut terms: Vec<Vec<char>> = Vec::new();
    let mut k: usize = 0;
    while k < query_terms.len()
        invariant
            k <= query_terms@.len(),
            tv == query_terms@.map_values(|t: String| t@),
            vecs_view(terms@) == tv.take(k as int),
        decreases query_terms.len() - k,
    {
        let t = chars_of(query_terms[k].as_str());
        let ghost b = terms@;
        terms.push(t);
        k += 1;
        assert(vecs_view(terms@) =~= vecs_view(b).push(t@));
        assert(vecs_view(terms@) =~= tv.take(k as int));
    }
    assert(tv.take(k as int) =~= tv);
    let outline = extract_outline(content);
    let flat = flatten_headings(outline.headings.as_slice());
    let cs = chars_of(content);
    let ls = split_lines(cs.as_slice());
    let ghost lv = lines(content@);
    let ghost hs = preorder(outline_headings(content@));
    let mut hits: Vec<RawHit> = Vec::new();
    let mut sections: usize = 0;
    let mut words: usize = 0;
    let mut i: usize = 0;
    while i < ls.len()
        invariant
            i <= ls@.len(),
            vecs_view(ls@) == lv,
            lv == lines(content@),
            headings_view(flat@) == hs,
            hs == preorder(outline_headings(content@)),
            vecs_view(terms@) == tv,
            sections <= i,
            ({
                let s = hit_fold(file_path@, content@, tv, i as int);
                &&& hits@.map_values(|h: RawHit| h@) == s.hits
                &&& sections == s.sections
                &&& words == s.words
            }),
        decreases ls.len() - i,
    {
        let lower = lower_chars(ls[i].as_slice());
        assert(ls@[i as int]@ == lv[i as int]);
        if any_term_in(&lower, &terms) {
            let line = make_indexed_line(&flat, &ls[i], i + 1);
            let mut path = String::new();
            push_str(&mut path, file_path);
            let lw = line.line_words;
            let hit = RawHit { file_path: path, line, line_lower: string_of(lower.as_slice()) };
            let ghost b = hits@;
            hits.push(hit);
            assert(hits@.map_values(|h: RawHit| h@) =~= b.map_values(|h: RawHit| h@).push(hit@));
            sections = sections + 1;
            words = words.saturating_add(lw);
        }
        i += 1;
    }
    FileHits { hits, sections, words }
}

// ---------------------------------------------------------------------------
// Terms and trigrams
// ---------------------------------------------------------------------------

/// The state of `split_whitespace`: the words so far and the one being read.
pub struct SplitState {
    pub words: Seq<Seq<char>>,
    pub cur: Seq<char>,
}

/// `split_whitespace` over the first `n` characters, the last word still open.
pub open spec fn split_fold(s: Seq<char>, n: int) -> SplitState
    decreases n,
{
    if n <= 0 || n > s.len() {
        SplitState { words: seq![], cur: seq![] }
    } else {
        let p = split_fold(s, n - 1);
        if is_ws(s[n - 1]) {
            if p.cur.len() > 0 {
                SplitState { words: p.words.push(p.cur), cur: seq![] }
            } else {
                p
            }
        } else {
            SplitState { words: p.words, cur: p.cur.push(s[n - 1]) }
        }
    }
}

/// `str::split_whitespace`.
pub open spec fn split_ws(s: Seq<char>) -> Seq<Seq<char>> {
    let p = split_fold(s, s.len() as int);
    if p.cur.len() > 0 {
        p.words.push(p.cur)
    } else {
        p.words
    }
}

/// The index terms of a line: its lowercase words trimmed of non-alphanumerics, the empty
/// ones dropped.
pub open spec fn line_terms_spec(snippet: Seq<char>) -> Seq<Seq<char>> {
    split_ws(lowercase(snippet)).map_values(|w: Seq<char>| trim_non_alnum(w)).filter(
        |t: Seq<char>| t.len() > 0,
    )
}

/// The index terms of a line.
pub fn line_terms(snippet: &str) -> (r: Vec<String>)
    ensures
        r@.map_values(|t: String| t@) == line_terms_spec(snippet@),
{
    let lower = crate::text::to_lower(snippet);
    let cs = chars_of(lower.as_str());
    let mut words: Vec<Vec<char>> = Vec::new();
    let mut cur: Vec<char> = Vec::new();
    let mut i: usize = 0;
    while i < cs.len()
        invariant
            i <= cs@.len(),
            cs@ == lowercase(snippet@),
            split_fold(cs@, i as int).words == vecs_view(words@),
            split_fold(cs@, i as int).cur == cur@,
        decreases cs.len() - i,
    {
        if is_whitespace(cs[i]) {
            if cur.len() > 0 {
                let ghost b = words@;
                let w = cur;
                words.push(w);
                assert(vecs_view(words@) =~= vecs_view(b).push(w@));
                cur = Vec::new();
            }
        } else {
            cur.push(cs[i]);
        }
        i += 1;
    }
    if cur.len() > 0 {
        let ghost b = words@;
        let w = cur;
        words.push(w);
        assert(vecs_view(words@) =~= vecs_view(b).push(w@));
    }
    assert(vecs_view(words@) == split_ws(cs@));
    let ghost ws = vecs_view(words@);
    let ghost f = |w: Seq<char>| trim_non_alnum(w);
    let ghost keep = |t: Seq<char>| t.len() > 0;
    let mut out: Vec<String> = Vec::new();
    let mut k: usize = 0;
    while k < words.len()
        invariant
            k <= words@.len(),
            ws == vecs_view(words@),
            f == (|w: Seq<char>| trim_non_alnum(w)),
            keep == (|t: Seq<char>| t.len() > 0),
            out@.map_values(|t: String| t@) == ws.take(k as int).map_values(f).filter(keep),
        decreases words.len() - k,
    {
        let w = &words[k];
        let (a, b) = trim_non_alnum_range(w.as_slice(), 0, w.len());
        assert(w@.subrange(0, w@.len() as int) =~= w@);
        assert(ws[k as int] == w@);
        let ghost before = ws.take(k as int).map_values(f);
        assert(ws.take(k + 1).map_values(f) =~= before.push(f(ws[k as int])));
        assert(before.push(f(ws[k as int])).filter(keep) == if keep(f(ws[k as int])) {
            before.filter(keep).push(f(ws[k as int]))
        } else {
            before.filter(keep)
        }) by {
            reveal(Seq::filter);
            assert(before.push(f(ws[k as int])).drop_last() =~= before);
        }
        if a < b {
            let t = string_of_range(w.as_slice(), a, b);
            let ghost ob = out@;
            out.push(t);
            assert(out@.map_values(|t: String| t@) =~= ob.map_values(|t: String| t@).push(t@));
        }
        k += 1;
    }
    assert(ws.take(k as int) =~= ws);
    out
}

/// The trigrams of a term: windows of three over its lowercase alphanumeric characters.
pub open spec fn trigrams_spec(text: Seq<char>) -> Seq<Seq<char>> {
    let cs = lowercase(text).filter(|c: char| alphanumeric(c));
    if cs.len() < 3 {
        seq![]
    } else {
        Seq::new((cs.len() - 2) as nat, |i: int| cs.subrange(i, i + 3))
    }
}

/// Extracts character trigrams for fuzzy matching of terms.
pub fn extract_trigrams(text: &str) -> (r: Vec<String>)
    ensures
        r@.map_values(|t: String| t@) == trigrams_spec(text@),
{
    let lower = crate::text::to_lower(text);
    let all = chars_of(lower.as_str());
    let ghost keep = |c: char| alphanumeric(c);
    let mut cs: Vec<char> = Vec::new();
    let mut i: usize = 0;
    while i < all.len()
        invariant
            i <= all@.len(),
            all@ == lowercase(text@),
            keep == (|c: char| alphanumeric(c)),
            cs@ == all@.take(i as int).filter(keep),
        decreases all.len() - i,
    {
        let c = all[i];
        let ghost before = all@.take(i as int);
        assert(all@.take(i + 1) =~= before.push(c));
        assert(before.push(c).filter(keep) == if keep(c) {
            before.filter(keep).push(c)
        } else {
            before.filter(keep)
        }) by {
            reveal(Seq::filter);
            assert(before.push(c).drop_last() =~= before);
        }
        if is_alphanumeric(c) {
            cs.push(c);
        }
        i += 1;
    }
    assert(all@.take(i as int) =~= all@);
    let mut out: Vec<String> = Vec::new();
    if cs.len() < 3 {
        assert(out@.map_values(|t: String| t@) =~= trigrams_spec(text@));
        return out;
    }
    let n = cs.len() - 2;
    let mut k: usize = 0;
    while k < n
        invariant
            k <= n,
            cs@.len() >= 3,
            n == cs@.len() - 2,
            n + 2 == cs.len(),
            cs@ == lowercase(text@).filter(|c: char| alphanumeric(c)),
            out@.map_values(|t: String| t@) == Seq::new(k as nat, |j: int| cs@.subrange(j, j + 3)),
        decreases n - k,
    {
        let t = string_of_range(cs.as_slice(), k, k + 3);
        let ghost ob = out@;
        out.push(t);
        k += 1;
        assert(out@.map_values(|t: String| t@) =~= ob.map_values(|t: String| t@).push(t@));
        assert(out@.map_values(|t: String| t@) =~= Seq::new(k as nat, |j: int| cs@.subrange(j, j + 3)));
    }
    out
}

} // verus!
