//! The search index: every line of every indexed document, the postings of each term,
//! and the trigrams of the indexed terms for fuzzy matching, kept up to date file by file.
//!
//! Each table is a list keyed by a string, in which no key occurs twice.
use crate::search::{
    extract_trigrams, index_lines, index_lines_spec, indexed_view, line_terms, line_terms_spec,
    trigrams_spec, IndexedLine, IndexedLineView,
};
use crate::tui::app::add_capped;
use vstd::prelude::*;

verus! {

/// What the index recorded of a file when it read it.
#[derive(Debug, Clone, PartialEq, Eq)]
pub struct IndexedDocMeta {
    pub path: String,
    pub mtime_secs: u64,
    pub file_size: u64,
}

/// The value of a file's record.
#[verifier::ext_equal]
pub struct MetaView {
    pub path: Seq<char>,
    pub mtime_secs: u64,
    pub file_size: u64,
}

impl View for IndexedDocMeta {
    type V = MetaView;

    open spec fn view(&self) -> MetaView {
        MetaView { path: self.path@, mtime_secs: self.mtime_secs, file_size: self.file_size }
    }
}

/// An indexed document: its key, its record and its lines.
#[derive(Debug, Clone, PartialEq, Eq)]
pub struct IndexedDoc {
    pub key: String,
    pub meta: IndexedDocMeta,
    pub lines: Vec<IndexedLine>,
}

/// The value of an indexed document.
#[verifier::ext_equal]
pub struct DocView {
    pub key: Seq<char>,
    pub meta: MetaView,
    pub lines: Seq<IndexedLineView>,
}

impl View for IndexedDoc {
    type V = DocView;

    open spec fn view(&self) -> DocView {
        DocView { key: self.key@, meta: self.meta@, lines: indexed_view(self.lines@) }
    }
}

/// A term with the places where it occurs: (document key, line position).
#[derive(Debug, Clone, PartialEq, Eq)]
pub struct TermPostings {
    pub term: String,
    pub postings: Vec<(String, usize)>,
}

/// The value of a term's postings.
#[verifier::ext_equal]
pub struct TermView {
    pub term: Seq<char>,
    pub postings: Seq<(Seq<char>, usize)>,
}

/// The values of a list of postings.
pub open spec fn postings_view(ps: Seq<(String, usize)>) -> Seq<(Seq<char>, usize)> {
    ps.map_values(|p: (String, usize)| (p.0@, p.1))
}

impl View for TermPostings {
    type V = TermView;

    open spec fn view(&self) -> TermView {
        TermView { term: self.term@, postings: postings_view(self.postings@) }
    }
}

/// A trigram with the indexed terms that hold it.
#[derive(Debug, Clone, PartialEq, Eq)]
pub struct TrigramPostings {
    pub trigram: String,
    pub terms: Vec<String>,
}

/// The value of a trigram's terms.
#[verifier::ext_equal]
pub struct TrigramView {
    pub trigram: Seq<char>,
    pub terms: Seq<Seq<char>>,
}

/// The values of a list of strings.
pub open spec fn texts(v: Seq<String>) -> Seq<Seq<char>> {
    v.map_values(|s: String| s@)
}

impl View for TrigramPostings {
    type V = TrigramView;

    open spec fn view(&self) -> TrigramView {
        TrigramView { trigram: self.trigram@, terms: texts(self.terms@) }
    }
}

/// The search index over a set of documents.
#[derive(Debug, Clone, PartialEq, Eq)]
pub struct SearchIndex {
    pub version: u32,
    pub docs: Vec<IndexedDoc>,
    pub term_posting: Vec<TermPostings>,
    pub trigram_posting: Vec<TrigramPostings>,
    pub total_sections: usize,
    pub total_words: usize,
}

/// The value of a search index.
#[verifier::ext_equal]
pub struct IndexView {
    pub version: u32,
    pub docs: Seq<DocView>,
    pub terms: Seq<TermView>,
    pub trigrams: Seq<TrigramView>,
    pub total_sections: usize,
    pub total_words: usize,
}

impl View for SearchIndex {
    type V = IndexView;

    open spec fn view(&self) -> IndexView {
        IndexView {
            version: self.version,
            docs: self.docs@.map_values(|d: IndexedDoc| d@),
            terms: self.term_posting@.map_values(|t: TermPostings| t@),
            trigrams: self.trigram_posting@.map_values(|t: TrigramPostings| t@),
            total_sections: self.total_sections,
            total_words: self.total_words,
        }
    }
}

// ---------------------------------------------------------------------------
// Keyed lists
// ---------------------------------------------------------------------------

/// Position of the first `key` among the first `n` keys.
pub open spec fn key_pos_upto(keys: Seq<Seq<char>>, key: Seq<char>, n: int) -> Option<int>
    decreases n,
{
    if n <= 0 {
        None
    } else {
        match key_pos_upto(keys, key, n - 1) {
            Some(i) => Some(i),
            None => if keys[n - 1] == key {
                Some(n - 1)
            } else {
                None
            },
        }
    }
}

/// Position of the first `key` in `keys`.
pub open spec fn key_pos(keys: Seq<Seq<char>>, key: Seq<char>) -> Option<int> {
    key_pos_upto(keys, key, keys.len() as int)
}

/// Whether no key occurs twice.
pub open spec fn distinct_keys(keys: Seq<Seq<char>>) -> bool {
    forall|i: int, j: int| 0 <= i < j < keys.len() ==> keys[i] != keys[j]
}

/// The keys of the documents.
pub open spec fn doc_keys(ds: Seq<DocView>) -> Seq<Seq<char>> {
    ds.map_values(|d: DocView| d.key)
}

/// The terms of the term postings.
pub open spec fn term_keys(ts: Seq<TermView>) -> Seq<Seq<char>> {
    ts.map_values(|t: TermView| t.term)
}

/// The trigrams of the trigram postings.
pub open spec fn trigram_keys(gs: Seq<TrigramView>) -> Seq<Seq<char>> {
    gs.map_values(|g: TrigramView| g.trigram)
}

/// The values of a list of term postings.
pub open spec fn term_views(ts: Seq<TermPostings>) -> Seq<TermView> {
    ts.map_values(|t: TermPostings| t@)
}

/// The values of a list of trigram postings.
pub open spec fn trigram_views(gs: Seq<TrigramPostings>) -> Seq<TrigramView> {
    gs.map_values(|g: TrigramPostings| g@)
}

/// What `key_pos_upto` finds: the first position of `key` below `n`, or none there.
pub proof fn lemma_key_pos_upto(keys: Seq<Seq<char>>, key: Seq<char>, n: int)
    requires
        0 <= n <= keys.len(),
    ensures
        match key_pos_upto(keys, key, n) {
            Some(i) => 0 <= i < n && keys[i] == key && forall|j: int| 0 <= j < i ==> keys[j] != key,
            None => forall|j: int| 0 <= j < n ==> keys[j] != key,
        },
    decreases n,
{
    if n > 0 {
        lemma_key_pos_upto(keys, key, n - 1);
    }
}

/// What `key_pos` finds: the first position of `key`, or none when `keys` lacks it.
pub proof fn lemma_key_pos(keys: Seq<Seq<char>>, key: Seq<char>)
    ensures
        match key_pos(keys, key) {
            Some(i) => 0 <= i < keys.len() && keys[i] == key && keys.contains(key) && forall|j: int|
                0 <= j < i ==> keys[j] != key,
            None => !keys.contains(key) && forall|j: int| 0 <= j < keys.len() ==> keys[j] != key,
        },
{
    lemma_key_pos_upto(keys, key, keys.len() as int);
    if let Some(i) = key_pos(keys, key) {
        assert(keys[i] == key);
    }
}

/// Position of the document with key `key`.
pub fn find_doc(docs: &Vec<IndexedDoc>, key: &String) -> (r: Option<usize>)
    ensures
        match r {
            Some(m) => m < docs@.len() && key_pos(doc_keys(docs@.map_values(|d: IndexedDoc| d@)), key@)
                == Some(m as int),
            None => key_pos(doc_keys(docs@.map_values(|d: IndexedDoc| d@)), key@) is None,
        },
{
    let ghost ks = doc_keys(docs@.map_values(|d: IndexedDoc| d@));
    let mut i: usize = 0;
    while i < docs.len()
        invariant
            i <= docs@.len(),
            ks == doc_keys(docs@.map_values(|d: IndexedDoc| d@)),
            forall|j: int| 0 <= j < i ==> ks[j] != key@,
        decreases docs.len() - i,
    {
        assert(ks[i as int] == docs@[i as int].key@);
        if docs[i].key == *key {
            proof {
                lemma_key_pos(ks, key@);
            }
            return Some(i);
        }
        i += 1;
    }
    proof {
        lemma_key_pos(ks, key@);
    }
    None
}

/// Position of the entry of term `key`.
pub fn find_term(ts: &Vec<TermPostings>, key: &String) -> (r: Option<usize>)
    ensures
        match r {
            Some(j) => j < ts@.len() && key_pos(term_keys(ts@.map_values(|t: TermPostings| t@)), key@)
                == Some(j as int),
            None => key_pos(term_keys(ts@.map_values(|t: TermPostings| t@)), key@) is None,
        },
{
    let ghost ks = term_keys(ts@.map_values(|t: TermPostings| t@));
    let mut i: usize = 0;
    while i < ts.len()
        invariant
            i <= ts@.len(),
            ks == term_keys(ts@.map_values(|t: TermPostings| t@)),
            forall|j: int| 0 <= j < i ==> ks[j] != key@,
        decreases ts.len() - i,
    {
        assert(ks[i as int] == ts@[i as int].term@);
        if ts[i].term == *key {
            proof {
                lemma_key_pos(ks, key@);
            }
            return Some(i);
        }
        i += 1;
    }
    proof {
        lemma_key_pos(ks, key@);
    }
    None
}

/// Position of the entry of trigram `key`.
pub fn find_trigram(gs: &Vec<TrigramPostings>, key: &String) -> (r: Option<usize>)
    ensures
        match r {
            Some(j) => j < gs@.len() && key_pos(
                trigram_keys(gs@.map_values(|g: TrigramPostings| g@)),
                key@,
            ) == Some(j as int),
            None => key_pos(trigram_keys(gs@.map_values(|g: TrigramPostings| g@)), key@) is None,
        },
{
    let ghost ks = trigram_keys(gs@.map_values(|g: TrigramPostings| g@));
    let mut i: usize = 0;
    while i < gs.len()
        invariant
            i <= gs@.len(),
            ks == trigram_keys(gs@.map_values(|g: TrigramPostings| g@)),
            forall|j: int| 0 <= j < i ==> ks[j] != key@,
        decreases gs.len() - i,
    {
        assert(ks[i as int] == gs@[i as int].trigram@);
        if gs[i].trigram == *key {
            proof {
                lemma_key_pos(ks, key@);
            }
            return Some(i);
        }
        i += 1;
    }
    proof {
        lemma_key_pos(ks, key@);
    }
    None
}

/// Whether `v` holds the string `s`.
pub fn holds_text(v: &Vec<String>, s: &String) -> (r: bool)
    ensures
        r == texts(v@).contains(s@),
{
    let ghost tv = texts(v@);
    let mut i: usize = 0;
    while i < v.len()
        invariant
            i <= v@.len(),
            tv == texts(v@),
            forall|j: int| 0 <= j < i ==> tv[j] != s@,
        decreases v.len() - i,
    {
        assert(tv[i as int] == v@[i as int]@);
        if v[i] == *s {
            return true;
        }
        i += 1;
    }
    false
}


// ---------------------------------------------------------------------------
// Consistency
// ---------------------------------------------------------------------------

/// Whether posting `q` of term `w` names a line of an indexed document that holds `w`.
pub open spec fn posting_sound(v: IndexView, w: Seq<char>, q: (Seq<char>, usize)) -> bool {
    exists|m: int|
        0 <= m < v.docs.len() && v.docs[m].key == q.0 && q.1 < v.docs[m].lines.len()
            && #[trigger] line_terms_spec(v.docs[m].lines[q.1 as int].line_snippet).contains(w)
}

/// Whether place `q` is posted under term `w`.
pub open spec fn posted(ts: Seq<TermView>, w: Seq<char>, q: (Seq<char>, usize)) -> bool {
    exists|j: int| 0 <= j < ts.len() && ts[j].term == w && #[trigger] ts[j].postings.contains(q)
}

/// Whether term `x` is listed under trigram `g`.
pub open spec fn listed(gs: Seq<TrigramView>, g: Seq<char>, x: Seq<char>) -> bool {
    exists|j: int| 0 <= j < gs.len() && gs[j].trigram == g && #[trigger] gs[j].terms.contains(x)
}

/// Whether no document, term or trigram occurs twice, and each document's lines can be
/// numbered.
pub open spec fn index_wf(v: IndexView) -> bool {
    &&& distinct_keys(doc_keys(v.docs))
    &&& distinct_keys(term_keys(v.terms))
    &&& distinct_keys(trigram_keys(v.trigrams))
    &&& forall|m: int| 0 <= m < v.docs.len() ==> #[trigger] v.docs[m].lines.len() <= usize::MAX
}

/// Whether the postings are exactly those of the documents' lines: each posting names a
/// line that holds its term, and each term of each line is posted.
pub open spec fn index_faithful(v: IndexView) -> bool {
    &&& forall|j: int, k: int|
        0 <= j < v.terms.len() && 0 <= k < v.terms[j].postings.len() ==> posting_sound(
            v,
            v.terms[j].term,
            #[trigger] v.terms[j].postings[k],
        )
    &&& forall|m: int, i: int, w: Seq<char>|
        0 <= m < v.docs.len() && 0 <= i < v.docs[m].lines.len()
            && #[trigger] line_terms_spec(v.docs[m].lines[i].line_snippet).contains(w) ==> posted(
            v.terms,
            w,
            (v.docs[m].key, i as usize),
        )
}

impl SearchIndex {
    /// Whether the index is consistent.
    pub open spec fn wf(&self) -> bool {
        index_wf(self@) && index_faithful(self@)
    }

    /// An empty index.
    pub fn new() -> (r: Self)
        ensures
            r@ == (IndexView {
                version: 1,
                docs: seq![],
                terms: seq![],
                trigrams: seq![],
                total_sections: 0,
                total_words: 0,
            }),
            r.wf(),
    {
        let r = SearchIndex {
            version: 1,
            docs: Vec::new(),
            term_posting: Vec::new(),
            trigram_posting: Vec::new(),
            total_sections: 0,
            total_words: 0,
        };
        assert(r@.docs =~= seq![]);
        assert(r@.terms =~= seq![]);
        assert(r@.trigrams =~= seq![]);
        r
    }

    /// The lines of the document with key `doc_path`.
    pub fn document_lines(&self, doc_path: &str) -> (r: Option<&Vec<IndexedLine>>)
        ensures
            match key_pos(doc_keys(self@.docs), doc_path@) {
                Some(m) => r is Some && indexed_view(r->0@) == self@.docs[m].lines,
                None => r is None,
            },
    {
        let key = doc_path.to_owned();
        match find_doc(&self.docs, &key) {
            Some(m) => {
                assert(self@.docs[m as int] == self.docs@[m as int]@);
                Some(&self.docs[m].lines)
            },
            None => None,
        }
    }
}

impl Default for SearchIndex {
    fn default() -> (r: Self)
        ensures
            r@ == (IndexView {
                version: 1,
                docs: seq![],
                terms: seq![],
                trigrams: seq![],
                total_sections: 0,
                total_words: 0,
            }),
    {
        SearchIndex::new()
    }
}

// ---------------------------------------------------------------------------
// Trigrams
// ---------------------------------------------------------------------------

/// `gs` with term `t` listed under trigram `g`: appended to its terms unless there, or
/// under a new entry at the end where `g` has none.
pub open spec fn list_under(gs: Seq<TrigramView>, g: Seq<char>, t: Seq<char>) -> Seq<TrigramView> {
    match key_pos(trigram_keys(gs), g) {
        Some(i) => if gs[i].terms.contains(t) {
            gs
        } else {
            gs.update(i, TrigramView { trigram: gs[i].trigram, terms: gs[i].terms.push(t) })
        },
        None => gs.push(TrigramView { trigram: g, terms: seq![t] }),
    }
}

/// `gs` with term `t` listed under each of the trigrams `tris`, in order.
pub open spec fn list_under_all(gs: Seq<TrigramView>, tris: Seq<Seq<char>>, t: Seq<char>) -> Seq<TrigramView>
    decreases tris.len(),
{
    if tris.len() == 0 {
        gs
    } else {
        list_under(list_under_all(gs, tris.drop_last(), t), tris.last(), t)
    }
}

/// The trigram table of a term table: each term, in order, listed under each of its
/// trigrams.
pub open spec fn populate_spec(ts: Seq<TermView>) -> Seq<TrigramView>
    decreases ts.len(),
{
    if ts.len() == 0 {
        seq![]
    } else {
        list_under_all(populate_spec(ts.drop_last()), trigrams_spec(ts.last().term), ts.last().term)
    }
}

/// Whether each term listed under a trigram of `gs` is one of the terms `keys` and has
/// that trigram.
pub open spec fn entries_ok(gs: Seq<TrigramView>, keys: Seq<Seq<char>>) -> bool {
    forall|i: int, k: int|
        0 <= i < gs.len() && 0 <= k < gs[i].terms.len() ==> keys.contains(#[trigger] gs[i].terms[k])
            && trigrams_spec(gs[i].terms[k]).contains(gs[i].trigram)
}

/// What listing a term under a trigram keeps and adds.
proof fn lemma_list_under(gs: Seq<TrigramView>, g: Seq<char>, t: Seq<char>, keys: Seq<Seq<char>>)
    ensures
        distinct_keys(trigram_keys(gs)) ==> distinct_keys(trigram_keys(list_under(gs, g, t))),
        listed(list_under(gs, g, t), g, t),
        forall|h: Seq<char>, x: Seq<char>| listed(gs, h, x) ==> #[trigger] listed(list_under(gs, g, t), h, x),
        entries_ok(gs, keys) && keys.contains(t) && trigrams_spec(t).contains(g) ==> entries_ok(
            list_under(gs, g, t),
            keys,
        ),
{
    let r = list_under(gs, g, t);
    lemma_key_pos(trigram_keys(gs), g);
    match key_pos(trigram_keys(gs), g) {
        Some(i) => {
            assert(trigram_keys(gs)[i] == gs[i].trigram);
            if gs[i].terms.contains(t) {
                assert(listed(r, g, t));
            } else {
                assert(trigram_keys(r) =~= trigram_keys(gs));
                assert(r[i].terms == gs[i].terms.push(t));
                assert(r[i].terms[gs[i].terms.len() as int] == t);
                assert(r[i].terms.contains(t));
                assert(listed(r, g, t));
                assert forall|h: Seq<char>, x: Seq<char>| listed(gs, h, x) implies #[trigger] listed(r, h, x) by {
                    let j = choose|j: int| 0 <= j < gs.len() && gs[j].trigram == h && #[trigger] gs[j].terms.contains(x);
                    let k = choose|k: int| 0 <= k < gs[j].terms.len() && gs[j].terms[k] == x;
                    if j == i {
                        assert(r[j].terms == gs[j].terms.push(t));
                    }
                    assert(r[j].terms[k] == x);
                    assert(r[j].trigram == h);
                    assert(r[j].terms.contains(x));
                }
                if entries_ok(gs, keys) && keys.contains(t) && trigrams_spec(t).contains(g) {
                    assert forall|a: int, k: int| 0 <= a < r.len() && 0 <= k < r[a].terms.len() implies keys.contains(
                        #[trigger] r[a].terms[k],
                    ) && trigrams_spec(r[a].terms[k]).contains(r[a].trigram) by {
                        if a == i && k == gs[i].terms.len() {
                        } else {
                            assert(r[a].terms[k] == gs[a].terms[k]);
                        }
                    }
                }
            }
        },
        None => {
            assert(trigram_keys(r) =~= trigram_keys(gs).push(g));
            assert(r[gs.len() as int].terms[0] == t);
            assert(r[gs.len() as int].terms.contains(t));
            assert(listed(r, g, t));
            assert forall|h: Seq<char>, x: Seq<char>| listed(gs, h, x) implies #[trigger] listed(r, h, x) by {
                let j = choose|j: int| 0 <= j < gs.len() && gs[j].trigram == h && #[trigger] gs[j].terms.contains(x);
                assert(r[j] == gs[j]);
            }
            if entries_ok(gs, keys) && keys.contains(t) && trigrams_spec(t).contains(g) {
                assert forall|a: int, k: int| 0 <= a < r.len() && 0 <= k < r[a].terms.len() implies keys.contains(
                    #[trigger] r[a].terms[k],
                ) && trigrams_spec(r[a].terms[k]).contains(r[a].trigram) by {
                    if a < gs.len() {
                        assert(r[a] == gs[a]);
                    }
                }
            }
        },
    }
}

/// What listing a term under several trigrams keeps and adds.
proof fn lemma_list_under_all(gs: Seq<TrigramView>, tris: Seq<Seq<char>>, t: Seq<char>, keys: Seq<Seq<char>>)
    ensures
        distinct_keys(trigram_keys(gs)) ==> distinct_keys(trigram_keys(list_under_all(gs, tris, t))),
        forall|g: Seq<char>| #[trigger] tris.contains(g) ==> listed(list_under_all(gs, tris, t), g, t),
        forall|h: Seq<char>, x: Seq<char>| listed(gs, h, x) ==> #[trigger] listed(list_under_all(gs, tris, t), h, x),
        entries_ok(gs, keys) && keys.contains(t) && (forall|g: Seq<char>| #[trigger] tris.contains(g) ==> trigrams_spec(t).contains(g))
            ==> entries_ok(list_under_all(gs, tris, t), keys),
    decreases tris.len(),
{
    if tris.len() > 0 {
        let pre = tris.drop_last();
        let a = list_under_all(gs, pre, t);
        lemma_list_under_all(gs, pre, t, keys);
        lemma_list_under(a, tris.last(), t, keys);
        assert(tris[tris.len() - 1] == tris.last());
        assert forall|g: Seq<char>| #[trigger] tris.contains(g) implies listed(list_under_all(gs, tris, t), g, t) by {
            if g != tris.last() {
                let n = choose|n: int| 0 <= n < tris.len() && tris[n] == g;
                assert(pre[n] == g);
                assert(pre.contains(g));
            }
        }
        if entries_ok(gs, keys) && keys.contains(t) && (forall|g: Seq<char>| #[trigger] tris.contains(g) ==> trigrams_spec(t).contains(g)) {
            assert forall|g: Seq<char>| #[trigger] pre.contains(g) implies trigrams_spec(t).contains(g) by {
                let n = choose|n: int| 0 <= n < pre.len() && pre[n] == g;
                assert(tris[n] == g);
                assert(tris.contains(g));
            }
            assert(tris.contains(tris.last()));
        }
    }
}

/// The trigram table of a term table lists each term under each of its trigrams, lists
/// under a trigram only terms of the table that have it, and holds no trigram twice.
pub proof fn law_trigrams_list_indexed_terms(ts: Seq<TermView>)
    ensures
        distinct_keys(trigram_keys(populate_spec(ts))),
        forall|m: int, g: Seq<char>|
            0 <= m < ts.len() && #[trigger] trigrams_spec(ts[m].term).contains(g) ==> listed(
                populate_spec(ts),
                g,
                ts[m].term,
            ),
        forall|i: int, k: int|
            0 <= i < populate_spec(ts).len() && 0 <= k < populate_spec(ts)[i].terms.len() ==> term_keys(
                ts,
            ).contains(#[trigger] populate_spec(ts)[i].terms[k]) && trigrams_spec(populate_spec(ts)[i].terms[k]).contains(
                populate_spec(ts)[i].trigram,
            ),
    decreases ts.len(),
{
    let p = populate_spec(ts);
    if ts.len() == 0 {
        assert(trigram_keys(p) =~= seq![]);
    } else {
        let pre = ts.drop_last();
        let t = ts.last().term;
        let q = populate_spec(pre);
        law_trigrams_list_indexed_terms(pre);
        let keys = term_keys(ts);
        assert(keys[ts.len() - 1] == t);
        assert(keys.contains(t));
        assert(entries_ok(q, keys)) by {
            assert forall|i: int, k: int| 0 <= i < q.len() && 0 <= k < q[i].terms.len() implies keys.contains(
                #[trigger] q[i].terms[k],
            ) && trigrams_spec(q[i].terms[k]).contains(q[i].trigram) by {
                let x = q[i].terms[k];
                assert(term_keys(pre).contains(x));
                let n = choose|n: int| 0 <= n < term_keys(pre).len() && term_keys(pre)[n] == x;
                assert(keys[n] == x);
            }
        }
        lemma_list_under_all(q, trigrams_spec(t), t, keys);
        assert forall|m: int, g: Seq<char>|
            0 <= m < ts.len() && #[trigger] trigrams_spec(ts[m].term).contains(g) implies listed(p, g, ts[m].term) by {
            if m < ts.len() - 1 {
                assert(pre[m] == ts[m]);
                assert(listed(q, g, pre[m].term));
            }
        }
    }
}

/// The trigrams of the terms `ts`, in a table.
fn trigrams_of_terms(ts: &Vec<TermPostings>) -> (r: Vec<TrigramPostings>)
    ensures
        trigram_views(r@) == populate_spec(term_views(ts@)),
{
    let ghost tv = term_views(ts@);
    let mut gs: Vec<TrigramPostings> = Vec::new();
    let mut i: usize = 0;
    while i < ts.len()
        invariant
            i <= ts@.len(),
            tv == term_views(ts@),
            trigram_views(gs@) == populate_spec(tv.take(i as int)),
        decreases ts.len() - i,
    {
        let term = &ts[i].term;
        assert(tv.take(i + 1).drop_last() =~= tv.take(i as int));
        assert(tv.take(i + 1).last().term == term@);
        let tris = extract_trigrams(term.as_str());
        let ghost trv = texts(tris@);
        let ghost base = trigram_views(gs@);
        let mut k: usize = 0;
        while k < tris.len()
            invariant
                k <= tris@.len(),
                trv == texts(tris@),
                trigram_views(gs@) == list_under_all(base, trv.take(k as int), term@),
            decreases tris.len() - k,
        {
            assert(trv.take(k + 1).drop_last() =~= trv.take(k as int));
            assert(trv.take(k + 1).last() == tris@[k as int]@);
            list_term(&mut gs, &tris[k], term);
            k += 1;
        }
        assert(trv.take(k as int) =~= trv);
        i += 1;
    }
    assert(tv.take(i as int) =~= tv);
    gs
}

/// Lists term `t` under trigram `g`.
fn list_term(gs: &mut Vec<TrigramPostings>, g: &String, t: &String)
    ensures
        trigram_views(final(gs)@) == list_under(trigram_views(old(gs)@), g@, t@),
{
    let ghost gv = trigram_views(gs@);
    match find_trigram(gs, g) {
        Some(i) => {
            assert(gv[i as int] == gs@[i as int]@);
            if !holds_text(&gs[i].terms, t) {
                let mut e = gs.remove(i);
                let ghost ev = e@;
                e.terms.push(t.clone());
                assert(e@.terms =~= ev.terms.push(t@));
                gs.insert(i, e);
                assert(trigram_views(gs@) =~= gv.update(
                    i as int,
                    TrigramView { trigram: gv[i as int].trigram, terms: gv[i as int].terms.push(t@) },
                ));
            }
        },
        None => {
            let mut terms: Vec<String> = Vec::new();
            terms.push(t.clone());
            assert(texts(terms@) =~= seq![t@]);
            gs.push(TrigramPostings { trigram: g.clone(), terms });
            assert(trigram_views(gs@) =~= gv.push(TrigramView { trigram: g@, terms: seq![t@] }));
        },
    }
}

/// Rebuilds the trigram table from the indexed terms.
pub fn populate_trigram_index(index: &mut SearchIndex)
    ensures
        final(index)@ == (IndexView { trigrams: populate_spec(old(index)@.terms), ..old(index)@ }),
        old(index).wf() ==> final(index).wf(),
{
    let gs = trigrams_of_terms(&index.term_posting);
    index.trigram_posting = gs;
    proof {
        law_trigrams_list_indexed_terms(old(index)@.terms);
        assert(index@.docs == old(index)@.docs);
        assert(index@.terms == old(index)@.terms);
    }
}

// ---------------------------------------------------------------------------
// Removing and adding a file
// ---------------------------------------------------------------------------

/// `ps` without the postings of document `k`.
pub open spec fn without_doc(ps: Seq<(Seq<char>, usize)>, k: Seq<char>) -> Seq<(Seq<char>, usize)>
    decreases ps.len(),
{
    if ps.len() == 0 {
        seq![]
    } else {
        let a = without_doc(ps.drop_last(), k);
        if ps.last().0 == k {
            a
        } else {
            a.push(ps.last())
        }
    }
}

/// The term table without the postings of document `k`, and without the terms left with
/// no posting.
pub open spec fn strip_doc(ts: Seq<TermView>, k: Seq<char>) -> Seq<TermView>
    decreases ts.len(),
{
    if ts.len() == 0 {
        seq![]
    } else {
        let a = strip_doc(ts.drop_last(), k);
        let ps = without_doc(ts.last().postings, k);
        if ps.len() > 0 {
            a.push(TermView { term: ts.last().term, postings: ps })
        } else {
            a
        }
    }
}

/// The number of words of the lines `ls`.
pub open spec fn lines_words(ls: Seq<IndexedLineView>) -> nat
    decreases ls.len(),
{
    if ls.len() == 0 {
        0
    } else {
        lines_words(ls.drop_last()) + (ls.last().line_words as nat)
    }
}

/// `a - b`, or 0 when `b` is larger.
pub open spec fn sub_capped(a: usize, b: nat) -> usize {
    if a >= b {
        (a - b) as usize
    } else {
        0
    }
}

/// The index without document `k`: its entry, its postings and the terms left with no
/// posting are gone, and the totals are lowered by its lines and words. Without such a
/// document the index is unchanged.
pub open spec fn remove_spec(v: IndexView, k: Seq<char>) -> IndexView {
    match key_pos(doc_keys(v.docs), k) {
        Some(m) => IndexView {
            docs: v.docs.remove(m),
            terms: strip_doc(v.terms, k),
            total_sections: sub_capped(v.total_sections, v.docs[m].lines.len()),
            total_words: sub_capped(v.total_words, lines_words(v.docs[m].lines)),
            ..v
        },
        None => v,
    }
}

/// `ts` with place `p` posted under term `w`: appended to its postings, or under a new
/// entry at the end where `w` has none.
pub open spec fn post(ts: Seq<TermView>, w: Seq<char>, p: (Seq<char>, usize)) -> Seq<TermView> {
    match key_pos(term_keys(ts), w) {
        Some(j) => ts.update(j, TermView { term: ts[j].term, postings: ts[j].postings.push(p) }),
        None => ts.push(TermView { term: w, postings: seq![p] }),
    }
}

/// `ts` with place `p` posted under each of the terms `ws`, in order.
pub open spec fn post_terms(ts: Seq<TermView>, ws: Seq<Seq<char>>, p: (Seq<char>, usize)) -> Seq<TermView>
    decreases ws.len(),
{
    if ws.len() == 0 {
        ts
    } else {
        post(post_terms(ts, ws.drop_last(), p), ws.last(), p)
    }
}

/// `ts` with each term of each of the lines `ls` of document `k` posted, line by line.
pub open spec fn post_lines(ts: Seq<TermView>, k: Seq<char>, ls: Seq<IndexedLineView>) -> Seq<TermView>
    decreases ls.len(),
{
    if ls.len() == 0 {
        ts
    } else {
        post_terms(
            post_lines(ts, k, ls.drop_last()),
            line_terms_spec(ls.last().line_snippet),
            (k, (ls.len() - 1) as usize),
        )
    }
}

/// The index with document `k` added at the end with the lines `ls`: their terms posted,
/// the totals raised (up to `usize::MAX`) and the trigrams rebuilt.
pub open spec fn add_doc_spec(v: IndexView, k: Seq<char>, meta: MetaView, ls: Seq<IndexedLineView>) -> IndexView {
    let terms = post_lines(v.terms, k, ls);
    IndexView {
        version: v.version,
        docs: v.docs.push(DocView { key: k, meta, lines: ls }),
        terms,
        trigrams: populate_spec(terms),
        total_sections: add_capped(v.total_sections, ls.len()),
        total_words: add_capped(v.total_words, lines_words(ls)),
    }
}

/// The index after file `k` is read anew with `content`: its old entry removed, then the
/// lines of `content` indexed under it.
pub open spec fn update_spec(v: IndexView, k: Seq<char>, meta: MetaView, content: Seq<char>) -> IndexView {
    add_doc_spec(remove_spec(v, k), k, meta, index_lines_spec(content))
}

/// `total` lowered by the words of `lines`, down to 0.
fn sub_words(total: usize, lines: &Vec<IndexedLine>) -> (r: usize)
    ensures
        r == sub_capped(total, lines_words(indexed_view(lines@))),
{
    let ghost lv = indexed_view(lines@);
    let mut r = total;
    let mut i: usize = 0;
    while i < lines.len()
        invariant
            i <= lines@.len(),
            lv == indexed_view(lines@),
            r == sub_capped(total, lines_words(lv.take(i as int))),
        decreases lines.len() - i,
    {
        assert(lv.take(i + 1).drop_last() =~= lv.take(i as int));
        assert(lv.take(i + 1).last() == lines@[i as int]@);
        let w = lines[i].line_words;
        r = if r >= w {
            r - w
        } else {
            0
        };
        i += 1;
    }
    assert(lv.take(i as int) =~= lv);
    r
}

/// `total` raised by `n`, up to `usize::MAX`.
fn add_count(total: usize, n: usize) -> (r: usize)
    ensures
        r == add_capped(total, n as nat),
{
    match total.checked_add(n) {
        Some(s) => s,
        None => usize::MAX,
    }
}

/// `total` raised by the words of `lines`, up to `usize::MAX`.
fn add_words(total: usize, lines: &Vec<IndexedLine>) -> (r: usize)
    ensures
        r == add_capped(total, lines_words(indexed_view(lines@))),
{
    let ghost lv = indexed_view(lines@);
    let mut r = total;
    let mut i: usize = 0;
    while i < lines.len()
        invariant
            i <= lines@.len(),
            lv == indexed_view(lines@),
            r == add_capped(total, lines_words(lv.take(i as int))),
        decreases lines.len() - i,
    {
        assert(lv.take(i + 1).drop_last() =~= lv.take(i as int));
        assert(lv.take(i + 1).last() == lines@[i as int]@);
        r = add_count(r, lines[i].line_words);
        i += 1;
    }
    assert(lv.take(i as int) =~= lv);
    r
}

/// `ps` without the postings of document `key`.
fn postings_without(ps: &Vec<(String, usize)>, key: &String) -> (r: Vec<(String, usize)>)
    ensures
        postings_view(r@) == without_doc(postings_view(ps@), key@),
{
    let ghost pv = postings_view(ps@);
    let mut r: Vec<(String, usize)> = Vec::new();
    let mut k: usize = 0;
    while k < ps.len()
        invariant
            k <= ps@.len(),
            pv == postings_view(ps@),
            postings_view(r@) == without_doc(pv.take(k as int), key@),
        decreases ps.len() - k,
    {
        assert(pv.take(k + 1).drop_last() =~= pv.take(k as int));
        assert(pv.take(k + 1).last() == (ps@[k as int].0@, ps@[k as int].1));
        if ps[k].0 == *key {
        } else {
            let ghost b = r@;
            r.push((ps[k].0.clone(), ps[k].1));
            assert(postings_view(r@) =~= postings_view(b).push((ps@[k as int].0@, ps@[k as int].1)));
        }
        k += 1;
    }
    assert(pv.take(k as int) =~= pv);
    r
}

/// The term table without the postings of document `key`, and without the terms left with
/// no posting.
fn strip_doc_postings(ts: &Vec<TermPostings>, key: &String) -> (r: Vec<TermPostings>)
    ensures
        term_views(r@) == strip_doc(term_views(ts@), key@),
{
    let ghost tv = term_views(ts@);
    let mut r: Vec<TermPostings> = Vec::new();
    let mut i: usize = 0;
    while i < ts.len()
        invariant
            i <= ts@.len(),
            tv == term_views(ts@),
            term_views(r@) == strip_doc(tv.take(i as int), key@),
        decreases ts.len() - i,
    {
        assert(tv.take(i + 1).drop_last() =~= tv.take(i as int));
        assert(tv.take(i + 1).last() == ts@[i as int]@);
        let ps = postings_without(&ts[i].postings, key);
        if ps.len() > 0 {
            let ghost b = r@;
            let ghost pv = postings_view(ps@);
            r.push(TermPostings { term: ts[i].term.clone(), postings: ps });
            assert(term_views(r@) =~= term_views(b).push(TermView { term: ts@[i as int].term@, postings: pv }));
        }
        i += 1;
    }
    assert(tv.take(i as int) =~= tv);
    r
}

/// Posts place (`key`, `line`) under term `w`.
fn post_term(ts: &mut Vec<TermPostings>, w: &String, key: &String, line: usize)
    ensures
        term_views(final(ts)@) == post(term_views(old(ts)@), w@, (key@, line)),
{
    let ghost tv = term_views(ts@);
    match find_term(ts, w) {
        Some(j) => {
            assert(tv[j as int] == ts@[j as int]@);
            let mut e = ts.remove(j);
            let ghost ev = e@;
            e.postings.push((key.clone(), line));
            assert(e@.postings =~= ev.postings.push((key@, line)));
            ts.insert(j, e);
            assert(term_views(ts@) =~= tv.update(
                j as int,
                TermView { term: tv[j as int].term, postings: tv[j as int].postings.push((key@, line)) },
            ));
        },
        None => {
            let mut ps: Vec<(String, usize)> = Vec::new();
            ps.push((key.clone(), line));
            assert(postings_view(ps@) =~= seq![(key@, line)]);
            ts.push(TermPostings { term: w.clone(), postings: ps });
            assert(term_views(ts@) =~= tv.push(TermView { term: w@, postings: seq![(key@, line)] }));
        },
    }
}

/// Posts each term of each line of document `key`.
fn post_doc_lines(ts: &mut Vec<TermPostings>, key: &String, lines: &Vec<IndexedLine>)
    ensures
        term_views(final(ts)@) == post_lines(term_views(old(ts)@), key@, indexed_view(lines@)),
{
    let ghost lv = indexed_view(lines@);
    let ghost t0 = term_views(ts@);
    let mut i: usize = 0;
    while i < lines.len()
        invariant
            i <= lines@.len(),
            lv == indexed_view(lines@),
            term_views(ts@) == post_lines(t0, key@, lv.take(i as int)),
        decreases lines.len() - i,
    {
        assert(lv.take(i + 1).drop_last() =~= lv.take(i as int));
        assert(lv.take(i + 1).last() == lines@[i as int]@);
        let words = line_terms(lines[i].line_snippet.as_str());
        let ghost wv = texts(words@);
        let ghost base = term_views(ts@);
        let mut t: usize = 0;
        while t < words.len()
            invariant
                t <= words@.len(),
                wv == texts(words@),
                term_views(ts@) == post_terms(base, wv.take(t as int), (key@, i)),
            decreases words.len() - t,
        {
            assert(wv.take(t + 1).drop_last() =~= wv.take(t as int));
            assert(wv.take(t + 1).last() == words@[t as int]@);
            post_term(ts, &words[t], key, i);
            t += 1;
        }
        assert(wv.take(t as int) =~= wv);
        i += 1;
    }
    assert(lv.take(i as int) =~= lv);
}

/// Removes document `doc_path` from the index: its entry, its postings and the terms left
/// with no posting; the totals are lowered by its lines and words. An index without it is
/// left unchanged. The trigram table is left as it is.
pub fn remove_file_from_index(index: &mut SearchIndex, doc_path: &str)
    ensures
        final(index)@ == remove_spec(old(index)@, doc_path@),
        old(index).wf() ==> final(index).wf(),
{
    proof {
        if old(index).wf() {
            lemma_remove_keeps_consistency(old(index)@, doc_path@);
        }
    }
    let key = doc_path.to_owned();
    let ghost v = index@;
    match find_doc(&index.docs, &key) {
        None => {},
        Some(m) => {
            assert(v.docs[m as int] == index.docs@[m as int]@);
            let doc = index.docs.remove(m);
            let n = doc.lines.len();
            index.total_sections = if index.total_sections >= n {
                index.total_sections - n
            } else {
                0
            };
            index.total_words = sub_words(index.total_words, &doc.lines);
            let ts = strip_doc_postings(&index.term_posting, &key);
            index.term_posting = ts;
            assert(index@.docs =~= v.docs.remove(m as int));
        },
    }
}

/// Indexes file `doc_path` anew with `content`: its old entry is removed, each line of
/// `content` is recorded with its section, each term of each line is posted, the totals
/// are raised (up to `usize::MAX`) and the trigram table is rebuilt.
pub fn update_file_in_index(index: &mut SearchIndex, doc_path: &str, meta: IndexedDocMeta, content: &str)
    ensures
        final(index)@ == update_spec(old(index)@, doc_path@, meta@, content@),
        old(index).wf() ==> final(index).wf(),
{
    remove_file_from_index(index, doc_path);
    let ghost r = index@;
    let key = doc_path.to_owned();
    let lines = index_lines(content);
    index.total_sections = add_count(index.total_sections, lines.len());
    index.total_words = add_words(index.total_words, &lines);
    let mut ts = Vec::new();
    std::mem::swap(&mut ts, &mut index.term_posting);
    post_doc_lines(&mut ts, &key, &lines);
    index.term_posting = ts;
    index.docs.push(IndexedDoc { key, meta, lines });
    populate_trigram_index(index);
    assert(index@.docs =~= r.docs.push(DocView { key: doc_path@, meta: meta@, lines: index_lines_spec(content@) }));
    proof {
        if old(index).wf() {
            assert(index_lines_spec(content@).len() == lines@.len());
            law_update_indexes_new_text(old(index)@, doc_path@, meta@, content@);
        }
    }
}

// ---------------------------------------------------------------------------
// What removal keeps
// ---------------------------------------------------------------------------

/// A place is posted in a table with one more entry exactly when it was posted before or
/// is in that entry under its term.
proof fn lemma_posted_push(ts: Seq<TermView>, e: TermView, w: Seq<char>, q: (Seq<char>, usize))
    ensures
        posted(ts.push(e), w, q) <==> posted(ts, w, q) || (e.term == w && e.postings.contains(q)),
{
    let r = ts.push(e);
    if posted(ts, w, q) {
        let j = choose|j: int| 0 <= j < ts.len() && ts[j].term == w && #[trigger] ts[j].postings.contains(q);
        assert(r[j] == ts[j]);
    }
    if e.term == w && e.postings.contains(q) {
        assert(r[ts.len() as int] == e);
    }
    if posted(r, w, q) {
        let j = choose|j: int| 0 <= j < r.len() && r[j].term == w && #[trigger] r[j].postings.contains(q);
        if j < ts.len() {
            assert(r[j] == ts[j]);
        }
    }
}

/// What `without_doc` keeps: exactly the postings of other documents.
proof fn lemma_without_doc(ps: Seq<(Seq<char>, usize)>, k: Seq<char>)
    ensures
        forall|q: (Seq<char>, usize)| #[trigger] without_doc(ps, k).contains(q) <==> ps.contains(q) && q.0 != k,
    decreases ps.len(),
{
    if ps.len() > 0 {
        let pre = ps.drop_last();
        lemma_without_doc(pre, k);
        let a = without_doc(pre, k);
        let r = without_doc(ps, k);
        assert(ps[ps.len() - 1] == ps.last());
        assert forall|q: (Seq<char>, usize)| #[trigger] r.contains(q) <==> ps.contains(q) && q.0 != k by {
            if ps.contains(q) && q != ps.last() {
                let n = choose|n: int| 0 <= n < ps.len() && ps[n] == q;
                assert(pre[n] == q);
            }
            if pre.contains(q) {
                let n = choose|n: int| 0 <= n < pre.len() && pre[n] == q;
                assert(ps[n] == q);
            }
            if ps.last().0 != k {
                if r.contains(q) {
                    let n = choose|n: int| 0 <= n < r.len() && r[n] == q;
                    if n < a.len() {
                        assert(a[n] == q);
                    }
                }
                if a.contains(q) {
                    let n = choose|n: int| 0 <= n < a.len() && a[n] == q;
                    assert(r[n] == q);
                }
                if q == ps.last() {
                    assert(r[a.len() as int] == q);
                }
            }
        }
    }
}

/// What `strip_doc` keeps: exactly the postings of other documents, under terms of the
/// table, none twice where none was.
proof fn lemma_strip_doc(ts: Seq<TermView>, k: Seq<char>)
    ensures
        forall|w: Seq<char>, q: (Seq<char>, usize)| #[trigger] posted(strip_doc(ts, k), w, q) <==> posted(ts, w, q) && q.0 != k,
        forall|w: Seq<char>| #[trigger] term_keys(strip_doc(ts, k)).contains(w) ==> term_keys(ts).contains(w),
        distinct_keys(term_keys(ts)) ==> distinct_keys(term_keys(strip_doc(ts, k))),
        forall|j: int| 0 <= j < strip_doc(ts, k).len() ==> #[trigger] strip_doc(ts, k)[j].postings.len() > 0,
    decreases ts.len(),
{
    if ts.len() > 0 {
        let pre = ts.drop_last();
        let t = ts.last();
        lemma_strip_doc(pre, k);
        lemma_without_doc(t.postings, k);
        let a = strip_doc(pre, k);
        let r = strip_doc(ts, k);
        let ps = without_doc(t.postings, k);
        let e = TermView { term: t.term, postings: ps };
        assert(ts =~= pre.push(t));
        assert(term_keys(ts) =~= term_keys(pre).push(t.term));
        assert forall|w: Seq<char>, q: (Seq<char>, usize)| #[trigger] posted(r, w, q) <==> posted(ts, w, q) && q.0 != k by {
            lemma_posted_push(pre, t, w, q);
            assert(ps.contains(q) <==> t.postings.contains(q) && q.0 != k);
            if ps.len() > 0 {
                lemma_posted_push(a, e, w, q);
                assert(r == a.push(e));
            } else {
                assert(r == a);
                assert(!ps.contains(q));
            }
        }
        assert forall|w: Seq<char>| #[trigger] term_keys(r).contains(w) implies term_keys(ts).contains(w) by {
            let n = choose|n: int| 0 <= n < term_keys(r).len() && term_keys(r)[n] == w;
            if n < a.len() {
                assert(term_keys(a)[n] == w);
                assert(term_keys(a).contains(w));
                let n2 = choose|n2: int| 0 <= n2 < term_keys(pre).len() && term_keys(pre)[n2] == w;
                assert(term_keys(ts)[n2] == w);
            } else {
                assert(term_keys(ts)[ts.len() - 1] == w);
            }
        }
        if distinct_keys(term_keys(ts)) {
            assert(distinct_keys(term_keys(pre))) by {
                assert forall|i: int, j: int| 0 <= i < j < term_keys(pre).len() implies term_keys(pre)[i] != term_keys(pre)[j] by {
                    assert(term_keys(ts)[i] == term_keys(pre)[i] && term_keys(ts)[j] == term_keys(pre)[j]);
                }
            }
            if ps.len() > 0 {
                assert forall|i: int, j: int| 0 <= i < j < term_keys(r).len() implies term_keys(r)[i] != term_keys(r)[j] by {
                    if j == a.len() {
                        assert(term_keys(a)[i] == term_keys(r)[i]);
                        assert(term_keys(a).contains(term_keys(r)[i]));
                        assert(term_keys(pre).contains(term_keys(r)[i]));
                        let n2 = choose|n2: int| 0 <= n2 < term_keys(pre).len() && term_keys(pre)[n2] == term_keys(r)[i];
                        assert(term_keys(ts)[n2] == term_keys(r)[i]);
                        assert(term_keys(ts)[ts.len() - 1] == t.term);
                    } else {
                        assert(term_keys(a)[i] == term_keys(r)[i] && term_keys(a)[j] == term_keys(r)[j]);
                    }
                }
            }
        }
    }
}

/// Removing a document keeps a consistent index consistent.
pub proof fn lemma_remove_keeps_consistency(v: IndexView, k: Seq<char>)
    requires
        index_wf(v),
        index_faithful(v),
    ensures
        index_wf(remove_spec(v, k)),
        index_faithful(remove_spec(v, k)),
{
    lemma_key_pos(doc_keys(v.docs), k);
    if let Some(mk) = key_pos(doc_keys(v.docs), k) {
        let r = remove_spec(v, k);
        lemma_strip_doc(v.terms, k);
        assert(doc_keys(v.docs)[mk] == v.docs[mk].key);
        assert forall|a: int| 0 <= a < r.docs.len() implies #[trigger] r.docs[a] == v.docs[if a < mk { a } else { a + 1 }] by {}
        assert forall|i: int, j: int| 0 <= i < j < doc_keys(r.docs).len() implies doc_keys(r.docs)[i] != doc_keys(r.docs)[j] by {
            let i0 = if i < mk { i } else { i + 1 };
            let j0 = if j < mk { j } else { j + 1 };
            assert(r.docs[i] == v.docs[i0] && r.docs[j] == v.docs[j0]);
            assert(doc_keys(v.docs)[i0] != doc_keys(v.docs)[j0]);
        }
        assert forall|a: int| 0 <= a < r.docs.len() implies #[trigger] r.docs[a].lines.len() <= usize::MAX by {
            assert(r.docs[a] == v.docs[if a < mk { a } else { a + 1 }]);
        }
        assert forall|j: int, kk: int| 0 <= j < r.terms.len() && 0 <= kk < r.terms[j].postings.len() implies posting_sound(
            r,
            r.terms[j].term,
            #[trigger] r.terms[j].postings[kk],
        ) by {
            let w = r.terms[j].term;
            let q = r.terms[j].postings[kk];
            assert(r.terms[j].postings.contains(q));
            assert(posted(r.terms, w, q));
            assert(posted(v.terms, w, q) && q.0 != k);
            let j0 = choose|j0: int| 0 <= j0 < v.terms.len() && v.terms[j0].term == w && #[trigger] v.terms[j0].postings.contains(q);
            let k0 = choose|k0: int| 0 <= k0 < v.terms[j0].postings.len() && v.terms[j0].postings[k0] == q;
            assert(posting_sound(v, v.terms[j0].term, v.terms[j0].postings[k0]));
            let m = choose|m: int|
                0 <= m < v.docs.len() && v.docs[m].key == q.0 && q.1 < v.docs[m].lines.len()
                    && #[trigger] line_terms_spec(v.docs[m].lines[q.1 as int].line_snippet).contains(w);
            assert(m != mk);
            let m2 = if m < mk { m } else { m - 1 };
            assert(r.docs[m2] == v.docs[m]);
            assert(line_terms_spec(r.docs[m2].lines[q.1 as int].line_snippet).contains(w));
        }
        assert forall|m2: int, i: int, w: Seq<char>|
            0 <= m2 < r.docs.len() && 0 <= i < r.docs[m2].lines.len()
                && #[trigger] line_terms_spec(r.docs[m2].lines[i].line_snippet).contains(w) implies posted(
            r.terms,
            w,
            (r.docs[m2].key, i as usize),
        ) by {
            let m = if m2 < mk { m2 } else { m2 + 1 };
            assert(r.docs[m2] == v.docs[m]);
            assert(doc_keys(v.docs)[m] != doc_keys(v.docs)[mk]);
            assert(line_terms_spec(v.docs[m].lines[i].line_snippet).contains(w));
            assert(posted(v.terms, w, (v.docs[m].key, i as usize)));
        }
    }
}

/// Removing a file forgets it: no document has its key any more, no posting names it
/// where it was indexed, every other document stays, and an index without it is left
/// unchanged.
pub proof fn law_remove_forgets_document(v: IndexView, k: Seq<char>)
    requires
        index_wf(v),
    ensures
        !doc_keys(remove_spec(v, k).docs).contains(k),
        doc_keys(v.docs).contains(k) ==> forall|w: Seq<char>, q: (Seq<char>, usize)|
            #[trigger] posted(remove_spec(v, k).terms, w, q) ==> q.0 != k,
        forall|m: int| 0 <= m < v.docs.len() && v.docs[m].key != k ==> #[trigger] remove_spec(v, k).docs.contains(v.docs[m]),
        !doc_keys(v.docs).contains(k) ==> remove_spec(v, k) == v,
{
    lemma_key_pos(doc_keys(v.docs), k);
    let r = remove_spec(v, k);
    match key_pos(doc_keys(v.docs), k) {
        Some(mk) => {
            lemma_strip_doc(v.terms, k);
            assert(doc_keys(v.docs)[mk] == v.docs[mk].key);
            assert forall|a: int| 0 <= a < r.docs.len() implies #[trigger] r.docs[a] == v.docs[if a < mk { a } else { a + 1 }] by {}
            if doc_keys(r.docs).contains(k) {
                let a = choose|a: int| 0 <= a < doc_keys(r.docs).len() && doc_keys(r.docs)[a] == k;
                let a0 = if a < mk { a } else { a + 1 };
                assert(r.docs[a] == v.docs[a0]);
                assert(doc_keys(v.docs)[a0] == k);
            }
            assert forall|m: int| 0 <= m < v.docs.len() && v.docs[m].key != k implies #[trigger] r.docs.contains(v.docs[m]) by {
                let m2 = if m < mk { m } else { m - 1 };
                assert(r.docs[m2] == v.docs[m]);
            }
        },
        None => {
            assert forall|m: int| 0 <= m < v.docs.len() && v.docs[m].key != k implies #[trigger] r.docs.contains(v.docs[m]) by {
                assert(r.docs[m] == v.docs[m]);
            }
        },
    }
}

// ---------------------------------------------------------------------------
// What adding a file keeps
// ---------------------------------------------------------------------------

/// What posting one place does: exactly that place is added under its term.
proof fn lemma_post(ts: Seq<TermView>, w: Seq<char>, p: (Seq<char>, usize))
    ensures
        forall|w2: Seq<char>, q: (Seq<char>, usize)| #[trigger] posted(post(ts, w, p), w2, q) <==> posted(ts, w2, q) || (w2 == w && q == p),
        distinct_keys(term_keys(ts)) ==> distinct_keys(term_keys(post(ts, w, p))),
{
    let r = post(ts, w, p);
    lemma_key_pos(term_keys(ts), w);
    match key_pos(term_keys(ts), w) {
        Some(j) => {
            assert(term_keys(ts)[j] == ts[j].term);
            assert(term_keys(r) =~= term_keys(ts));
            assert forall|w2: Seq<char>, q: (Seq<char>, usize)| #[trigger] posted(r, w2, q) <==> posted(ts, w2, q) || (w2 == w && q == p) by {
                if posted(r, w2, q) {
                    let j2 = choose|j2: int| 0 <= j2 < r.len() && r[j2].term == w2 && #[trigger] r[j2].postings.contains(q);
                    if j2 == j {
                        if q != p {
                            let n = choose|n: int| 0 <= n < r[j].postings.len() && r[j].postings[n] == q;
                            assert(ts[j].postings[n] == q);
                            assert(ts[j].postings.contains(q));
                        }
                    } else {
                        assert(r[j2] == ts[j2]);
                    }
                }
                if posted(ts, w2, q) {
                    let j2 = choose|j2: int| 0 <= j2 < ts.len() && ts[j2].term == w2 && #[trigger] ts[j2].postings.contains(q);
                    if j2 == j {
                        let n = choose|n: int| 0 <= n < ts[j].postings.len() && ts[j].postings[n] == q;
                        assert(r[j].postings[n] == q);
                        assert(r[j].postings.contains(q));
                    } else {
                        assert(r[j2] == ts[j2]);
                    }
                }
                if w2 == w && q == p {
                    assert(r[j].postings[ts[j].postings.len() as int] == p);
                    assert(r[j].postings.contains(p));
                }
            }
        },
        None => {
            let e = TermView { term: w, postings: seq![p] };
            assert(term_keys(r) =~= term_keys(ts).push(w));
            assert forall|w2: Seq<char>, q: (Seq<char>, usize)| #[trigger] posted(r, w2, q) <==> posted(ts, w2, q) || (w2 == w && q == p) by {
                lemma_posted_push(ts, e, w2, q);
                assert(e.postings[0] == p);
                assert(e.postings.contains(q) <==> q == p);
            }
            if distinct_keys(term_keys(ts)) {
                assert forall|i: int, j: int| 0 <= i < j < term_keys(r).len() implies term_keys(r)[i] != term_keys(r)[j] by {
                    if j == ts.len() {
                        assert(term_keys(ts)[i] == term_keys(r)[i]);
                    } else {
                        assert(term_keys(ts)[i] == term_keys(r)[i] && term_keys(ts)[j] == term_keys(r)[j]);
                    }
                }
            }
        },
    }
}

/// What posting one place under several terms does.
proof fn lemma_post_terms(ts: Seq<TermView>, ws: Seq<Seq<char>>, p: (Seq<char>, usize))
    ensures
        forall|w2: Seq<char>, q: (Seq<char>, usize)| #[trigger] posted(post_terms(ts, ws, p), w2, q) <==> posted(ts, w2, q) || (ws.contains(w2) && q == p),
        distinct_keys(term_keys(ts)) ==> distinct_keys(term_keys(post_terms(ts, ws, p))),
    decreases ws.len(),
{
    if ws.len() > 0 {
        let pre = ws.drop_last();
        let a = post_terms(ts, pre, p);
        lemma_post_terms(ts, pre, p);
        lemma_post(a, ws.last(), p);
        assert(ws[ws.len() - 1] == ws.last());
        assert forall|w2: Seq<char>, q: (Seq<char>, usize)| #[trigger] posted(post_terms(ts, ws, p), w2, q) <==> posted(ts, w2, q) || (ws.contains(w2) && q == p) by {
            if ws.contains(w2) && w2 != ws.last() {
                let n = choose|n: int| 0 <= n < ws.len() && ws[n] == w2;
                assert(pre[n] == w2);
            }
            if pre.contains(w2) {
                let n = choose|n: int| 0 <= n < pre.len() && pre[n] == w2;
                assert(ws[n] == w2);
            }
        }
    }
}

/// What posting the lines of document `k` does: exactly the places of `k` whose line
/// holds the term are added.
proof fn lemma_post_lines(ts: Seq<TermView>, k: Seq<char>, ls: Seq<IndexedLineView>)
    requires
        ls.len() <= usize::MAX,
    ensures
        forall|w: Seq<char>, q: (Seq<char>, usize)| #[trigger] posted(post_lines(ts, k, ls), w, q) <==> posted(ts, w, q) || (q.0 == k
            && q.1 < ls.len() && line_terms_spec(ls[q.1 as int].line_snippet).contains(w)),
        distinct_keys(term_keys(ts)) ==> distinct_keys(term_keys(post_lines(ts, k, ls))),
    decreases ls.len(),
{
    if ls.len() > 0 {
        let pre = ls.drop_last();
        let n = ls.len() - 1;
        lemma_post_lines(ts, k, pre);
        let a = post_lines(ts, k, pre);
        lemma_post_terms(a, line_terms_spec(ls.last().line_snippet), (k, n as usize));
        assert forall|w: Seq<char>, q: (Seq<char>, usize)| #[trigger] posted(post_lines(ts, k, ls), w, q) <==> posted(ts, w, q) || (q.0 == k
            && q.1 < ls.len() && line_terms_spec(ls[q.1 as int].line_snippet).contains(w)) by {
            if q.1 < n {
                assert(pre[q.1 as int] == ls[q.1 as int]);
            }
            assert(ls[n] == ls.last());
        }
    }
}

/// Adding a document that is not indexed yet keeps a consistent index consistent.
pub proof fn lemma_add_doc_keeps_consistency(v: IndexView, k: Seq<char>, meta: MetaView, ls: Seq<IndexedLineView>)
    requires
        index_wf(v),
        index_faithful(v),
        !doc_keys(v.docs).contains(k),
        ls.len() <= usize::MAX,
    ensures
        index_wf(add_doc_spec(v, k, meta, ls)),
        index_faithful(add_doc_spec(v, k, meta, ls)),
{
    let u = add_doc_spec(v, k, meta, ls);
    let n = v.docs.len() as int;
    lemma_post_lines(v.terms, k, ls);
    law_trigrams_list_indexed_terms(u.terms);
    assert(doc_keys(u.docs) =~= doc_keys(v.docs).push(k));
    assert forall|i: int, j: int| 0 <= i < j < doc_keys(u.docs).len() implies doc_keys(u.docs)[i] != doc_keys(u.docs)[j] by {
        if j == n {
            assert(doc_keys(v.docs)[i] == doc_keys(u.docs)[i]);
        } else {
            assert(doc_keys(v.docs)[i] == doc_keys(u.docs)[i] && doc_keys(v.docs)[j] == doc_keys(u.docs)[j]);
        }
    }
    assert forall|m: int| 0 <= m < u.docs.len() implies #[trigger] u.docs[m].lines.len() <= usize::MAX by {
        if m < n {
            assert(u.docs[m] == v.docs[m]);
        }
    }
    assert forall|j: int, kk: int| 0 <= j < u.terms.len() && 0 <= kk < u.terms[j].postings.len() implies posting_sound(
        u,
        u.terms[j].term,
        #[trigger] u.terms[j].postings[kk],
    ) by {
        let w = u.terms[j].term;
        let q = u.terms[j].postings[kk];
        assert(u.terms[j].postings.contains(q));
        assert(posted(u.terms, w, q));
        if posted(v.terms, w, q) {
            let j0 = choose|j0: int| 0 <= j0 < v.terms.len() && v.terms[j0].term == w && #[trigger] v.terms[j0].postings.contains(q);
            let k0 = choose|k0: int| 0 <= k0 < v.terms[j0].postings.len() && v.terms[j0].postings[k0] == q;
            assert(posting_sound(v, v.terms[j0].term, v.terms[j0].postings[k0]));
            let m = choose|m: int|
                0 <= m < v.docs.len() && v.docs[m].key == q.0 && q.1 < v.docs[m].lines.len()
                    && #[trigger] line_terms_spec(v.docs[m].lines[q.1 as int].line_snippet).contains(w);
            assert(u.docs[m] == v.docs[m]);
            assert(line_terms_spec(u.docs[m].lines[q.1 as int].line_snippet).contains(w));
        } else {
            assert(u.docs[n].lines == ls);
            assert(line_terms_spec(u.docs[n].lines[q.1 as int].line_snippet).contains(w));
        }
    }
    assert forall|m: int, i: int, w: Seq<char>|
        0 <= m < u.docs.len() && 0 <= i < u.docs[m].lines.len()
            && #[trigger] line_terms_spec(u.docs[m].lines[i].line_snippet).contains(w) implies posted(
        u.terms,
        w,
        (u.docs[m].key, i as usize),
    ) by {
        if m < n {
            assert(u.docs[m] == v.docs[m]);
            assert(line_terms_spec(v.docs[m].lines[i].line_snippet).contains(w));
            assert(posted(v.terms, w, (v.docs[m].key, i as usize)));
        } else {
            assert(u.docs[m].key == k && u.docs[m].lines == ls);
            assert((i as usize) as int == i);
        }
    }
}

/// Reading a file anew indexes its new text: in a consistent index, the file then has one
/// entry, at the end, with the new lines and record; each term of each new line is posted
/// at that line, each posting of the file names a new line that holds its term, and the
/// index stays consistent.
pub proof fn law_update_indexes_new_text(v: IndexView, k: Seq<char>, meta: MetaView, content: Seq<char>)
    requires
        index_wf(v),
        index_faithful(v),
        index_lines_spec(content).len() <= usize::MAX,
    ensures
        ({
            let u = update_spec(v, k, meta, content);
            let ls = index_lines_spec(content);
            &&& u.docs.len() > 0
            &&& u.docs.last() == (DocView { key: k, meta, lines: ls })
            &&& forall|m: int| 0 <= m < u.docs.len() - 1 ==> #[trigger] u.docs[m].key != k
            &&& forall|i: int, w: Seq<char>|
                0 <= i < ls.len() && #[trigger] line_terms_spec(ls[i].line_snippet).contains(w) ==> posted(
                    u.terms,
                    w,
                    (k, i as usize),
                )
            &&& forall|w: Seq<char>, q: (Seq<char>, usize)|
                #[trigger] posted(u.terms, w, q) && q.0 == k ==> q.1 < ls.len() && line_terms_spec(
                    ls[q.1 as int].line_snippet,
                ).contains(w)
            &&& index_wf(u)
            &&& index_faithful(u)
        }),
{
    let r = remove_spec(v, k);
    let ls = index_lines_spec(content);
    let u = update_spec(v, k, meta, content);
    law_remove_forgets_document(v, k);
    lemma_remove_keeps_consistency(v, k);
    lemma_add_doc_keeps_consistency(r, k, meta, ls);
    lemma_post_lines(r.terms, k, ls);
    assert forall|m: int| 0 <= m < u.docs.len() - 1 implies #[trigger] u.docs[m].key != k by {
        assert(u.docs[m] == r.docs[m]);
        assert(doc_keys(r.docs)[m] == r.docs[m].key);
    }
    assert forall|w: Seq<char>, q: (Seq<char>, usize)| #[trigger] posted(u.terms, w, q) && q.0 == k implies q.1 < ls.len()
        && line_terms_spec(ls[q.1 as int].line_snippet).contains(w) by {
        if posted(r.terms, w, q) {
            let j0 = choose|j0: int| 0 <= j0 < r.terms.len() && r.terms[j0].term == w && #[trigger] r.terms[j0].postings.contains(q);
            let k0 = choose|k0: int| 0 <= k0 < r.terms[j0].postings.len() && r.terms[j0].postings[k0] == q;
            assert(posting_sound(r, r.terms[j0].term, r.terms[j0].postings[k0]));
            let m = choose|m: int|
                0 <= m < r.docs.len() && r.docs[m].key == q.0 && q.1 < r.docs[m].lines.len()
                    && #[trigger] line_terms_spec(r.docs[m].lines[q.1 as int].line_snippet).contains(w);
            assert(doc_keys(r.docs)[m] == k);
        }
    }
    assert forall|i: int, w: Seq<char>| 0 <= i < ls.len() && #[trigger] line_terms_spec(ls[i].line_snippet).contains(w) implies posted(
        u.terms,
        w,
        (k, i as usize),
    ) by {
        assert((i as usize) as int == i);
    }
}

// ---------------------------------------------------------------------------
// Checking an index read back from disk
// ---------------------------------------------------------------------------

/// Whether no string of `v` occurs twice.
fn texts_distinct(v: &Vec<String>) -> (r: bool)
    ensures
        r == distinct_keys(texts(v@)),
{
    let ghost tv = texts(v@);
    let mut j: usize = 0;
    while j < v.len()
        invariant
            j <= v@.len(),
            tv == texts(v@),
            forall|a: int, b: int| 0 <= a < b < j ==> tv[a] != tv[b],
        decreases v.len() - j,
    {
        let mut i: usize = 0;
        while i < j
            invariant
                i <= j < v@.len(),
                tv == texts(v@),
                forall|a: int, b: int| 0 <= a < b < j ==> tv[a] != tv[b],
                forall|a: int| 0 <= a < i ==> tv[a] != tv[j as int],
            decreases j - i,
        {
            assert(tv[i as int] == v@[i as int]@ && tv[j as int] == v@[j as int]@);
            if v[i] == v[j] {
                return false;
            }
            i += 1;
        }
        j += 1;
    }
    true
}

/// The keys of the documents.
fn doc_key_list(ds: &Vec<IndexedDoc>) -> (r: Vec<String>)
    ensures
        texts(r@) == doc_keys(ds@.map_values(|d: IndexedDoc| d@)),
{
    let ghost ks = doc_keys(ds@.map_values(|d: IndexedDoc| d@));
    let mut r: Vec<String> = Vec::new();
    let mut i: usize = 0;
    while i < ds.len()
        invariant
            i <= ds@.len(),
            ks == doc_keys(ds@.map_values(|d: IndexedDoc| d@)),
            texts(r@) == ks.take(i as int),
        decreases ds.len() - i,
    {
        let ghost b = r@;
        r.push(ds[i].key.clone());
        assert(ks[i as int] == ds@[i as int].key@);
        assert(texts(r@) =~= texts(b).push(ds@[i as int].key@));
        assert(ks.take(i + 1) =~= ks.take(i as int).push(ks[i as int]));
        i += 1;
    }
    assert(ks.take(i as int) =~= ks);
    r
}

/// The terms of the term postings.
fn term_key_list(ts: &Vec<TermPostings>) -> (r: Vec<String>)
    ensures
        texts(r@) == term_keys(ts@.map_values(|t: TermPostings| t@)),
{
    let ghost ks = term_keys(ts@.map_values(|t: TermPostings| t@));
    let mut r: Vec<String> = Vec::new();
    let mut i: usize = 0;
    while i < ts.len()
        invariant
            i <= ts@.len(),
            ks == term_keys(ts@.map_values(|t: TermPostings| t@)),
            texts(r@) == ks.take(i as int),
        decreases ts.len() - i,
    {
        let ghost b = r@;
        r.push(ts[i].term.clone());
        assert(ks[i as int] == ts@[i as int].term@);
        assert(texts(r@) =~= texts(b).push(ts@[i as int].term@));
        assert(ks.take(i + 1) =~= ks.take(i as int).push(ks[i as int]));
        i += 1;
    }
    assert(ks.take(i as int) =~= ks);
    r
}

/// The trigrams of the trigram postings.
fn trigram_key_list(gs: &Vec<TrigramPostings>) -> (r: Vec<String>)
    ensures
        texts(r@) == trigram_keys(gs@.map_values(|g: TrigramPostings| g@)),
{
    let ghost ks = trigram_keys(gs@.map_values(|g: TrigramPostings| g@));
    let mut r: Vec<String> = Vec::new();
    let mut i: usize = 0;
    while i < gs.len()
        invariant
            i <= gs@.len(),
            ks == trigram_keys(gs@.map_values(|g: TrigramPostings| g@)),
            texts(r@) == ks.take(i as int),
        decreases gs.len() - i,
    {
        let ghost b = r@;
        r.push(gs[i].trigram.clone());
        assert(ks[i as int] == gs@[i as int].trigram@);
        assert(texts(r@) =~= texts(b).push(gs@[i as int].trigram@));
        assert(ks.take(i + 1) =~= ks.take(i as int).push(ks[i as int]));
        i += 1;
    }
    assert(ks.take(i as int) =~= ks);
    r
}

/// With distinct document keys, a posting is sound exactly when the document it names is
/// found, has the line, and the line holds the term.
proof fn lemma_posting_sound_at(v: IndexView, w: Seq<char>, q: (Seq<char>, usize))
    requires
        distinct_keys(doc_keys(v.docs)),
    ensures
        posting_sound(v, w, q) <==> match key_pos(doc_keys(v.docs), q.0) {
            Some(m) => q.1 < v.docs[m].lines.len() && line_terms_spec(
                v.docs[m].lines[q.1 as int].line_snippet,
            ).contains(w),
            None => false,
        },
{
    lemma_key_pos(doc_keys(v.docs), q.0);
    if posting_sound(v, w, q) {
        let m2 = choose|m2: int|
            0 <= m2 < v.docs.len() && v.docs[m2].key == q.0 && q.1 < v.docs[m2].lines.len()
                && #[trigger] line_terms_spec(v.docs[m2].lines[q.1 as int].line_snippet).contains(w);
        assert(doc_keys(v.docs)[m2] == q.0);
    }
    match key_pos(doc_keys(v.docs), q.0) {
        Some(m) => {
            assert(doc_keys(v.docs)[m] == v.docs[m].key);
        },
        None => {},
    }
}

/// With distinct terms, a posting is posted under `w` exactly when the entry of `w` is
/// found and holds it.
proof fn lemma_posted_at_key(ts: Seq<TermView>, w: Seq<char>, q: (Seq<char>, usize))
    requires
        distinct_keys(term_keys(ts)),
    ensures
        posted(ts, w, q) <==> match key_pos(term_keys(ts), w) {
            Some(j) => ts[j].postings.contains(q),
            None => false,
        },
{
    lemma_key_pos(term_keys(ts), w);
    if posted(ts, w, q) {
        let j2 = choose|j2: int| 0 <= j2 < ts.len() && ts[j2].term == w && #[trigger] ts[j2].postings.contains(q);
        assert(term_keys(ts)[j2] == w);
    }
    match key_pos(term_keys(ts), w) {
        Some(j) => {
            assert(term_keys(ts)[j] == ts[j].term);
        },
        None => {},
    }
}

/// Whether every posting names a line of an indexed document that holds its term.
fn postings_sound(ix: &SearchIndex) -> (r: bool)
    requires
        distinct_keys(doc_keys(ix@.docs)),
    ensures
        r == forall|j: int, k: int|
            0 <= j < ix@.terms.len() && 0 <= k < ix@.terms[j].postings.len() ==> posting_sound(
                ix@,
                ix@.terms[j].term,
                #[trigger] ix@.terms[j].postings[k],
            ),
{
    let ghost v = ix@;
    let mut j: usize = 0;
    while j < ix.term_posting.len()
        invariant
            j <= v.terms.len(),
            v == ix@,
            distinct_keys(doc_keys(v.docs)),
            forall|a: int, k: int|
                0 <= a < j && 0 <= k < v.terms[a].postings.len() ==> posting_sound(
                    v,
                    v.terms[a].term,
                    #[trigger] v.terms[a].postings[k],
                ),
        decreases v.terms.len() - j,
    {
        let t = &ix.term_posting[j];
        assert(v.terms[j as int] == t@);
        let mut k: usize = 0;
        while k < t.postings.len()
            invariant
                j < v.terms.len(),
                k <= t.postings@.len(),
                v == ix@,
                v.terms[j as int] == t@,
                distinct_keys(doc_keys(v.docs)),
                forall|a: int, kk: int|
                    0 <= a < j && 0 <= kk < v.terms[a].postings.len() ==> posting_sound(
                        v,
                        v.terms[a].term,
                        #[trigger] v.terms[a].postings[kk],
                    ),
                forall|kk: int| 0 <= kk < k ==> posting_sound(v, v.terms[j as int].term, #[trigger] v.terms[j as int].postings[kk]),
            decreases t.postings.len() - k,
        {
            let p = &t.postings[k];
            let ghost q = (p.0@, p.1);
            assert(v.terms[j as int].postings[k as int] == q);
            proof {
                lemma_posting_sound_at(v, t.term@, q);
                lemma_key_pos(doc_keys(v.docs), p.0@);
            }
            let ok = match find_doc(&ix.docs, &p.0) {
                Some(m) => {
                    assert(v.docs[m as int] == ix.docs@[m as int]@);
                    let lines = &ix.docs[m].lines;
                    if p.1 < lines.len() {
                        assert(v.docs[m as int].lines[p.1 as int] == lines@[p.1 as int]@);
                        let words = line_terms(lines[p.1].line_snippet.as_str());
                        holds_text(&words, &t.term)
                    } else {
                        false
                    }
                },
                None => false,
            };
            if !ok {
                return false;
            }
            k += 1;
        }
        j += 1;
    }
    true
}

/// Whether `ps` holds posting (`key`, `line`).
fn holds_posting(ps: &Vec<(String, usize)>, key: &String, line: usize) -> (r: bool)
    ensures
        r == postings_view(ps@).contains((key@, line)),
{
    let ghost pv = postings_view(ps@);
    let mut i: usize = 0;
    while i < ps.len()
        invariant
            i <= ps@.len(),
            pv == postings_view(ps@),
            forall|a: int| 0 <= a < i ==> pv[a] != (key@, line),
        decreases ps.len() - i,
    {
        assert(pv[i as int] == (ps@[i as int].0@, ps@[i as int].1));
        if ps[i].1 == line && ps[i].0 == *key {
            return true;
        }
        i += 1;
    }
    false
}

/// Whether every term of every line of every document is posted.
fn postings_complete(ix: &SearchIndex) -> (r: bool)
    requires
        distinct_keys(term_keys(ix@.terms)),
    ensures
        r == forall|m: int, i: int, w: Seq<char>|
            0 <= m < ix@.docs.len() && 0 <= i < ix@.docs[m].lines.len()
                && #[trigger] line_terms_spec(ix@.docs[m].lines[i].line_snippet).contains(w) ==> posted(
                ix@.terms,
                w,
                (ix@.docs[m].key, i as usize),
            ),
{
    let ghost v = ix@;
    let mut m: usize = 0;
    while m < ix.docs.len()
        invariant
            m <= v.docs.len(),
            v == ix@,
            distinct_keys(term_keys(v.terms)),
            forall|a: int, i: int, w: Seq<char>|
                0 <= a < m && 0 <= i < v.docs[a].lines.len()
                    && #[trigger] line_terms_spec(v.docs[a].lines[i].line_snippet).contains(w) ==> posted(
                    v.terms,
                    w,
                    (v.docs[a].key, i as usize),
                ),
        decreases v.docs.len() - m,
    {
        let d = &ix.docs[m];
        assert(v.docs[m as int] == d@);
        let mut i: usize = 0;
        while i < d.lines.len()
            invariant
                m < v.docs.len(),
                i <= d.lines@.len(),
                v == ix@,
                v.docs[m as int] == d@,
                distinct_keys(term_keys(v.terms)),
                forall|a: int, ii: int, w: Seq<char>|
                    0 <= a < m && 0 <= ii < v.docs[a].lines.len()
                        && #[trigger] line_terms_spec(v.docs[a].lines[ii].line_snippet).contains(w) ==> posted(
                        v.terms,
                        w,
                        (v.docs[a].key, ii as usize),
                    ),
                forall|ii: int, w: Seq<char>|
                    0 <= ii < i && #[trigger] line_terms_spec(v.docs[m as int].lines[ii].line_snippet).contains(w)
                        ==> posted(v.terms, w, (v.docs[m as int].key, ii as usize)),
            decreases d.lines.len() - i,
        {
            assert(v.docs[m as int].lines[i as int] == d.lines@[i as int]@);
            let words = line_terms(d.lines[i].line_snippet.as_str());
            let ghost wv = texts(words@);
            let mut t: usize = 0;
            while t < words.len()
                invariant
                    m < v.docs.len(),
                    i < d.lines@.len(),
                    t <= words@.len(),
                    v == ix@,
                    v.docs[m as int] == d@,
                    wv == texts(words@),
                    wv == line_terms_spec(v.docs[m as int].lines[i as int].line_snippet),
                    distinct_keys(term_keys(v.terms)),
                    forall|tt: int| 0 <= tt < t ==> posted(v.terms, #[trigger] wv[tt], (d.key@, i)),
                decreases words.len() - t,
            {
                assert(wv[t as int] == words@[t as int]@);
                proof {
                    lemma_posted_at_key(v.terms, wv[t as int], (d.key@, i));
                    lemma_key_pos(term_keys(v.terms), wv[t as int]);
                }
                let ok = match find_term(&ix.term_posting, &words[t]) {
                    Some(j) => {
                        assert(v.terms[j as int] == ix.term_posting@[j as int]@);
                        holds_posting(&ix.term_posting[j].postings, &d.key, i)
                    },
                    None => false,
                };
                if !ok {
                    assert(line_terms_spec(v.docs[m as int].lines[i as int].line_snippet).contains(wv[t as int]));
                    return false;
                }
                t += 1;
            }
            assert forall|w: Seq<char>|
                #[trigger] line_terms_spec(v.docs[m as int].lines[i as int].line_snippet).contains(w) implies posted(
                v.terms,
                w,
                (v.docs[m as int].key, i as usize),
            ) by {
                let tt = choose|tt: int| 0 <= tt < wv.len() && wv[tt] == w;
                assert(posted(v.terms, wv[tt], (d.key@, i)));
            }
            i += 1;
        }
        m += 1;
    }
    true
}

impl SearchIndex {
    /// Whether the index is consistent: no document, term or trigram occurs twice, and the
    /// postings are those of the documents' lines. An index read back from disk is checked
    /// with this before it is used.
    pub fn is_consistent(&self) -> (r: bool)
        ensures
            r == self.wf(),
    {
        let dk = doc_key_list(&self.docs);
        let tk = term_key_list(&self.term_posting);
        let gk = trigram_key_list(&self.trigram_posting);
        if !texts_distinct(&dk) || !texts_distinct(&tk) || !texts_distinct(&gk) {
            return false;
        }
        let mut m: usize = 0;
        while m < self.docs.len()
            invariant
                m <= self.docs@.len(),
                forall|a: int| 0 <= a < m ==> #[trigger] self@.docs[a].lines.len() <= usize::MAX,
            decreases self.docs.len() - m,
        {
            let n = self.docs[m].lines.len();
            assert(self@.docs[m as int].lines.len() == n);
            m += 1;
        }
        postings_sound(self) && postings_complete(self)
    }
}

} // verus!
