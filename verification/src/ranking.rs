//! What a query hits, in the index or in a set of files, and the counts by which the
//! hits are ranked: the terms looked up (with the fuzzy matches of unknown ones), the
//! lines hit, how many documents hold each term, and how often each term occurs in a line.
use crate::index::{
    distinct_keys, doc_keys, find_doc, find_term, find_trigram, holds_text, index_faithful, index_wf, key_pos,
    law_trigrams_list_indexed_terms, lemma_key_pos, listed, populate_spec, posted, posting_sound,
    term_keys, texts, trigram_keys, DocView, IndexView, SearchIndex,
};
use crate::query::{matches_filters_spec, ParsedQuery, QueryView};
use crate::search::{
    extract_trigrams, line_terms_spec, trigrams_spec, IndexedLine, IndexedLineView, RawHit, RawHitView,
};
use crate::text::{chars_of, contains, contains_chars, join, lower_chars, lowercase, push_char, push_str};
use vstd::prelude::*;

verus! {

// ---------------------------------------------------------------------------
// Query terms
// ---------------------------------------------------------------------------

/// `ts` with each of `xs` appended that it does not hold yet, in order.
pub open spec fn add_unique(ts: Seq<Seq<char>>, xs: Seq<Seq<char>>) -> Seq<Seq<char>>
    decreases xs.len(),
{
    if xs.len() == 0 {
        ts
    } else {
        let a = add_unique(ts, xs.drop_last());
        if a.contains(xs.last()) {
            a
        } else {
            a.push(xs.last())
        }
    }
}

/// Appends to `ts` each of `xs` that it does not hold yet.
fn append_unique(ts: &mut Vec<String>, xs: &Vec<String>)
    ensures
        texts(final(ts)@) == add_unique(texts(old(ts)@), texts(xs@)),
{
    let ghost xv = texts(xs@);
    let mut i: usize = 0;
    while i < xs.len()
        invariant
            i <= xs@.len(),
            xv == texts(xs@),
            texts(ts@) == add_unique(texts(old(ts)@), xv.take(i as int)),
        decreases xs.len() - i,
    {
        assert(xv.take(i + 1).drop_last() =~= xv.take(i as int));
        assert(xv.take(i + 1).last() == xs@[i as int]@);
        if !holds_text(ts, &xs[i]) {
            let ghost b = ts@;
            ts.push(xs[i].clone());
            assert(texts(ts@) =~= texts(b).push(xs@[i as int]@));
        }
        i += 1;
    }
    assert(xv.take(i as int) =~= xv);
}

/// The terms an index query looks up: its positive terms, then each of its phrases that
/// is not among them.
pub open spec fn index_query_terms_spec(q: QueryView) -> Seq<Seq<char>> {
    add_unique(q.positive_terms, q.exact_phrases)
}

/// The terms an index query looks up.
pub fn index_query_terms(parsed: &ParsedQuery) -> (r: Vec<String>)
    ensures
        texts(r@) == index_query_terms_spec(parsed@),
{
    let mut ts: Vec<String> = Vec::new();
    let mut i: usize = 0;
    while i < parsed.positive_terms.len()
        invariant
            i <= parsed.positive_terms@.len(),
            texts(ts@) == texts(parsed.positive_terms@.take(i as int)),
        decreases parsed.positive_terms.len() - i,
    {
        let ghost b = ts@;
        ts.push(parsed.positive_terms[i].clone());
        assert(texts(ts@) =~= texts(b).push(parsed.positive_terms@[i as int]@));
        assert(parsed.positive_terms@.take(i + 1) =~= parsed.positive_terms@.take(i as int).push(
            parsed.positive_terms@[i as int],
        ));
        i += 1;
        assert(texts(ts@) =~= texts(parsed.positive_terms@.take(i as int)));
    }
    assert(parsed.positive_terms@.take(i as int) =~= parsed.positive_terms@);
    append_unique(&mut ts, &parsed.exact_phrases);
    ts
}

/// The terms a scan of files looks for: the positive terms, or the phrases where there
/// are none.
pub open spec fn scan_terms_spec(q: QueryView) -> Seq<Seq<char>> {
    if q.positive_terms.len() > 0 {
        q.positive_terms
    } else {
        q.exact_phrases
    }
}

/// The terms a scan of files looks for.
pub fn scan_terms(parsed: &ParsedQuery) -> (r: Vec<String>)
    ensures
        texts(r@) == scan_terms_spec(parsed@),
{
    let src = if parsed.positive_terms.len() > 0 {
        &parsed.positive_terms
    } else {
        &parsed.exact_phrases
    };
    let mut ts: Vec<String> = Vec::new();
    let mut i: usize = 0;
    while i < src.len()
        invariant
            i <= src@.len(),
            texts(ts@) == texts(src@.take(i as int)),
        decreases src.len() - i,
    {
        let ghost b = ts@;
        ts.push(src[i].clone());
        assert(texts(ts@) =~= texts(b).push(src@[i as int]@));
        assert(src@.take(i + 1) =~= src@.take(i as int).push(src@[i as int]));
        i += 1;
        assert(texts(ts@) =~= texts(src@.take(i as int)));
    }
    assert(src@.take(i as int) =~= src@);
    ts
}


// ---------------------------------------------------------------------------
// Fuzzy matches
// ---------------------------------------------------------------------------

/// `acc` with the terms listed under each of the trigrams `gs` added, once each.
pub open spec fn fuzzy_for_trigrams(v: IndexView, acc: Seq<Seq<char>>, gs: Seq<Seq<char>>) -> Seq<Seq<char>>
    decreases gs.len(),
{
    if gs.len() == 0 {
        acc
    } else {
        let a = fuzzy_for_trigrams(v, acc, gs.drop_last());
        match key_pos(trigram_keys(v.trigrams), gs.last()) {
            Some(i) => add_unique(a, v.trigrams[i].terms),
            None => a,
        }
    }
}

/// The indexed terms that share a trigram with a query term that is not indexed itself,
/// once each, in the order met.
pub open spec fn fuzzy_terms(v: IndexView, qs: Seq<Seq<char>>) -> Seq<Seq<char>>
    decreases qs.len(),
{
    if qs.len() == 0 {
        seq![]
    } else {
        let a = fuzzy_terms(v, qs.drop_last());
        let q = qs.last();
        if term_keys(v.terms).contains(q) {
            a
        } else {
            fuzzy_for_trigrams(v, a, trigrams_spec(q))
        }
    }
}

/// The indexed terms that share a trigram with a query term that is not indexed.
pub fn fuzzy_matches(index: &SearchIndex, query_terms: &Vec<String>) -> (r: Vec<String>)
    ensures
        texts(r@) == fuzzy_terms(index@, texts(query_terms@)),
{
    let ghost v = index@;
    let ghost qv = texts(query_terms@);
    let mut acc: Vec<String> = Vec::new();
    let mut i: usize = 0;
    while i < query_terms.len()
        invariant
            i <= query_terms@.len(),
            v == index@,
            qv == texts(query_terms@),
            texts(acc@) == fuzzy_terms(v, qv.take(i as int)),
        decreases query_terms.len() - i,
    {
        assert(qv.take(i + 1).drop_last() =~= qv.take(i as int));
        assert(qv.take(i + 1).last() == query_terms@[i as int]@);
        let q = &query_terms[i];
        proof {
            lemma_key_pos(term_keys(v.terms), q@);
        }
        match find_term(&index.term_posting, q) {
            Some(_) => {
                assert(term_keys(v.terms).contains(q@));
            },
            None => {
                assert(!term_keys(v.terms).contains(q@));
                let tris = extract_trigrams(q.as_str());
                let ghost tv = texts(tris@);
                let ghost base = texts(acc@);
                let mut k: usize = 0;
                while k < tris.len()
                    invariant
                        k <= tris@.len(),
                        v == index@,
                        tv == texts(tris@),
                        texts(acc@) == fuzzy_for_trigrams(v, base, tv.take(k as int)),
                    decreases tris.len() - k,
                {
                    assert(tv.take(k + 1).drop_last() =~= tv.take(k as int));
                    assert(tv.take(k + 1).last() == tris@[k as int]@);
                    match find_trigram(&index.trigram_posting, &tris[k]) {
                        Some(g) => {
                            proof {
                                lemma_key_pos(trigram_keys(v.trigrams), tris@[k as int]@);
                            }
                            assert(v.trigrams[g as int] == index.trigram_posting@[g as int]@);
                            append_unique(&mut acc, &index.trigram_posting[g].terms);
                        },
                        None => {},
                    }
                    k += 1;
                }
                assert(tv.take(k as int) =~= tv);
            },
        }
        i += 1;
    }
    assert(qv.take(i as int) =~= qv);
    acc
}

// ---------------------------------------------------------------------------
// Lines hit in the index
// ---------------------------------------------------------------------------

/// The text of an indexed document: its line snippets joined with newlines.
pub open spec fn doc_text(d: DocView) -> Seq<char> {
    join(d.lines.map_values(|l: IndexedLineView| l.line_snippet), seq!['\n'])
}

/// The text of an indexed document.
pub fn indexed_text(lines: &Vec<IndexedLine>) -> (r: String)
    ensures
        r@ == join(
            lines@.map_values(|l: IndexedLine| l@).map_values(|l: IndexedLineView| l.line_snippet),
            seq!['\n'],
        ),
{
    let ghost sv = lines@.map_values(|l: IndexedLine| l@).map_values(|l: IndexedLineView| l.line_snippet);
    let mut r = String::new();
    let mut i: usize = 0;
    while i < lines.len()
        invariant
            i <= lines@.len(),
            sv == lines@.map_values(|l: IndexedLine| l@).map_values(|l: IndexedLineView| l.line_snippet),
            r@ == join(sv.take(i as int), seq!['\n']),
        decreases lines.len() - i,
    {
        assert(sv.take(i + 1).drop_last() =~= sv.take(i as int));
        assert(sv[i as int] == lines@[i as int].line_snippet@);
        if i > 0 {
            push_char(&mut r, '\n');
        }
        push_str(&mut r, lines[i].line_snippet.as_str());
        proof {
            if i == 0 {
                assert(r@ =~= sv.take(1)[0]);
            } else {
                assert(r@ =~= join(sv.take(i as int), seq!['\n']) + seq!['\n'] + sv[i as int]);
            }
        }
        i += 1;
    }
    assert(sv.take(i as int) =~= sv);
    r
}

/// `acc` with each posting of `ps` added that names a line of an indexed document whose
/// path and text pass the query's filters, once each.
pub open spec fn hits_of_postings(v: IndexView, q: QueryView, acc: Seq<(Seq<char>, usize)>, ps: Seq<(Seq<char>, usize)>) -> Seq<(Seq<char>, usize)>
    decreases ps.len(),
{
    if ps.len() == 0 {
        acc
    } else {
        let a = hits_of_postings(v, q, acc, ps.drop_last());
        let p = ps.last();
        match key_pos(doc_keys(v.docs), p.0) {
            Some(m) => if p.1 < v.docs[m].lines.len() && matches_filters_spec(q, p.0, doc_text(v.docs[m]))
                && !a.contains(p) {
                a.push(p)
            } else {
                a
            },
            None => a,
        }
    }
}

/// The lines the terms hit: for each term in order, each of its postings that names a
/// line of an indexed document passing the query's filters, once each.
pub open spec fn index_hits_spec(v: IndexView, q: QueryView, ts: Seq<Seq<char>>) -> Seq<(Seq<char>, usize)>
    decreases ts.len(),
{
    if ts.len() == 0 {
        seq![]
    } else {
        let a = index_hits_spec(v, q, ts.drop_last());
        match key_pos(term_keys(v.terms), ts.last()) {
            Some(j) => hits_of_postings(v, q, a, v.terms[j].postings),
            None => a,
        }
    }
}

/// The values of a list of hit places.
pub open spec fn places(v: Seq<(String, usize)>) -> Seq<(Seq<char>, usize)> {
    v.map_values(|p: (String, usize)| (p.0@, p.1))
}

/// Whether `v` holds place `p`.
fn holds_place(v: &Vec<(String, usize)>, p: &(String, usize)) -> (r: bool)
    ensures
        r == places(v@).contains((p.0@, p.1)),
{
    let ghost pv = places(v@);
    let mut i: usize = 0;
    while i < v.len()
        invariant
            i <= v@.len(),
            pv == places(v@),
            forall|j: int| 0 <= j < i ==> pv[j] != (p.0@, p.1),
        decreases v.len() - i,
    {
        assert(pv[i as int] == (v@[i as int].0@, v@[i as int].1));
        if v[i].1 == p.1 && v[i].0 == p.0 {
            return true;
        }
        i += 1;
    }
    false
}

/// The lines of the index that the terms hit, with the query's filters applied to each
/// document's path and text.
pub fn index_hits(index: &SearchIndex, parsed: &ParsedQuery, terms: &Vec<String>) -> (r: Vec<(String, usize)>)
    ensures
        places(r@) == index_hits_spec(index@, parsed@, texts(terms@)),
{
    let ghost v = index@;
    let ghost tv = texts(terms@);
    let mut acc: Vec<(String, usize)> = Vec::new();
    let mut i: usize = 0;
    while i < terms.len()
        invariant
            i <= terms@.len(),
            v == index@,
            tv == texts(terms@),
            places(acc@) == index_hits_spec(v, parsed@, tv.take(i as int)),
        decreases terms.len() - i,
    {
        assert(tv.take(i + 1).drop_last() =~= tv.take(i as int));
        assert(tv.take(i + 1).last() == terms@[i as int]@);
        match find_term(&index.term_posting, &terms[i]) {
            Some(j) => {
                proof {
                    lemma_key_pos(term_keys(v.terms), terms@[i as int]@);
                }
                let ps = &index.term_posting[j].postings;
                let ghost pv = v.terms[j as int].postings;
                assert(pv == crate::index::postings_view(ps@));
                let ghost base = places(acc@);
                let mut k: usize = 0;
                while k < ps.len()
                    invariant
                        k <= ps@.len(),
                        v == index@,
                        pv == crate::index::postings_view(ps@),
                        places(acc@) == hits_of_postings(v, parsed@, base, pv.take(k as int)),
                    decreases ps.len() - k,
                {
                    assert(pv.take(k + 1).drop_last() =~= pv.take(k as int));
                    let p = &ps[k];
                    assert(pv.take(k + 1).last() == (p.0@, p.1));
                    proof {
                        lemma_key_pos(doc_keys(v.docs), p.0@);
                    }
                    match find_doc(&index.docs, &p.0) {
                        Some(m) => {
                            let lines = &index.docs[m].lines;
                            assert(v.docs[m as int] == index.docs@[m as int]@);
                            if p.1 < lines.len() {
                                let text = indexed_text(lines);
                                assert(text@ == doc_text(v.docs[m as int]));
                                if parsed.matches_filters(p.0.as_str(), text.as_str()) && !holds_place(
                                    &acc,
                                    p,
                                ) {
                                    let ghost b = acc@;
                                    acc.push((p.0.clone(), p.1));
                                    assert(places(acc@) =~= places(b).push((p.0@, p.1)));
                                }
                            }
                        },
                        None => {},
                    }
                    k += 1;
                }
                assert(pv.take(k as int) =~= pv);
            },
            None => {},
        }
        i += 1;
    }
    assert(tv.take(i as int) =~= tv);
    acc
}


/// The terms an index search ranks by: the query's terms, then the fuzzy matches of those
/// that are not indexed.
pub open spec fn index_search_terms(v: IndexView, q: QueryView) -> Seq<Seq<char>> {
    index_query_terms_spec(q) + fuzzy_terms(v, index_query_terms_spec(q))
}

/// What an index search looks up before it ranks: the terms it ranks by, the lines they
/// hit (filters applied) and how many documents hold each term.
pub fn plan_index_search(index: &SearchIndex, parsed: &ParsedQuery) -> (r: (Vec<String>, Vec<(String, usize)>, Vec<usize>))
    ensures
        texts(r.0@) == index_search_terms(index@, parsed@),
        places(r.1@) == index_hits_spec(index@, parsed@, index_search_terms(index@, parsed@)),
        r.2@.len() == r.0@.len(),
        forall|i: int| 0 <= i < r.0@.len() ==> r.2@[i] == index_doc_frequency(index@, #[trigger] r.0@[i]@),
{
    let mut terms = index_query_terms(parsed);
    let mut fuzzy = fuzzy_matches(index, &terms);
    let ghost a = terms@;
    let ghost b = fuzzy@;
    terms.append(&mut fuzzy);
    assert(texts(terms@) =~= texts(a) + texts(b));
    let hits = index_hits(index, parsed, &terms);
    let dfs = index_doc_frequencies(index, &terms);
    (terms, hits, dfs)
}

// ---------------------------------------------------------------------------
// Document frequencies
// ---------------------------------------------------------------------------

/// The documents of a list of postings, once each, in the order met.
pub open spec fn posting_docs(ps: Seq<(Seq<char>, usize)>) -> Seq<Seq<char>>
    decreases ps.len(),
{
    if ps.len() == 0 {
        seq![]
    } else {
        let a = posting_docs(ps.drop_last());
        if a.contains(ps.last().0) {
            a
        } else {
            a.push(ps.last().0)
        }
    }
}

/// How many indexed documents hold term `t`, taken as 1 where none does.
pub open spec fn index_doc_frequency(v: IndexView, t: Seq<char>) -> nat {
    match key_pos(term_keys(v.terms), t) {
        Some(j) => if posting_docs(v.terms[j].postings).len() > 0 {
            posting_docs(v.terms[j].postings).len()
        } else {
            1
        },
        None => 1,
    }
}

/// How many indexed documents hold each of the terms, each at least 1.
pub fn index_doc_frequencies(index: &SearchIndex, terms: &Vec<String>) -> (r: Vec<usize>)
    ensures
        r@.len() == terms@.len(),
        forall|i: int| 0 <= i < terms@.len() ==> r@[i] == index_doc_frequency(index@, #[trigger] terms@[i]@),
{
    let ghost v = index@;
    let mut out: Vec<usize> = Vec::new();
    let mut i: usize = 0;
    while i < terms.len()
        invariant
            i <= terms@.len(),
            v == index@,
            out@.len() == i,
            forall|j: int| 0 <= j < i ==> out@[j] == index_doc_frequency(v, #[trigger] terms@[j]@),
        decreases terms.len() - i,
    {
        proof {
            lemma_key_pos(term_keys(v.terms), terms@[i as int]@);
        }
        let df = match find_term(&index.term_posting, &terms[i]) {
            Some(j) => {
                let ps = &index.term_posting[j].postings;
                let ghost pv = v.terms[j as int].postings;
                assert(pv == crate::index::postings_view(ps@));
                let mut docs: Vec<String> = Vec::new();
                let mut k: usize = 0;
                while k < ps.len()
                    invariant
                        k <= ps@.len(),
                        pv == crate::index::postings_view(ps@),
                        texts(docs@) == posting_docs(pv.take(k as int)),
                    decreases ps.len() - k,
                {
                    assert(pv.take(k + 1).drop_last() =~= pv.take(k as int));
                    assert(pv.take(k + 1).last().0 == ps@[k as int].0@);
                    if !holds_text(&docs, &ps[k].0) {
                        let ghost b = docs@;
                        docs.push(ps[k].0.clone());
                        assert(texts(docs@) =~= texts(b).push(ps@[k as int].0@));
                    }
                    k += 1;
                }
                assert(pv.take(k as int) =~= pv);
                if docs.len() > 0 {
                    docs.len()
                } else {
                    1
                }
            },
            None => 1,
        };
        out.push(df);
        i += 1;
    }
    out
}

// ---------------------------------------------------------------------------
// Term frequencies
// ---------------------------------------------------------------------------

/// How many times `n` occurs in `h` from position `i` on, matches taken from the left
/// without overlap (`str::matches`); an empty `n` matches at each character boundary.
pub open spec fn match_count_from(h: Seq<char>, n: Seq<char>, i: int) -> nat
    decreases h.len() + 1 - i,
{
    if i < 0 || i > h.len() {
        0
    } else if i + n.len() <= h.len() && h.subrange(i, i + n.len()) == n {
        1 + match_count_from(h, n, i + if n.len() > 0 {
            n.len() as int
        } else {
            1
        })
    } else {
        match_count_from(h, n, i + 1)
    }
}

/// How many times `n` occurs in `h`, as `h.matches(n).count()` counts.
pub open spec fn match_count(h: Seq<char>, n: Seq<char>) -> nat {
    match_count_from(h, n, 0)
}

/// A count that stops at `usize::MAX`.
pub open spec fn capped(c: nat) -> usize {
    if c > usize::MAX {
        usize::MAX
    } else {
        c as usize
    }
}

/// How many times `n` occurs in `h`, as `h.matches(n).count()` counts (stopping at
/// `usize::MAX`).
pub fn count_matches(h: &[char], n: &[char]) -> (r: usize)
    ensures
        r == capped(match_count(h@, n@)),
{
    let step: usize = if n.len() > 0 {
        n.len()
    } else {
        1
    };
    let ghost mut c: nat = 0;
    let mut count: usize = 0;
    let mut i: usize = 0;
    let mut more = true;
    while more
        invariant
            i <= h.len(),
            step == (if n.len() > 0 {
                n.len()
            } else {
                1
            }),
            count == capped(c),
            more ==> c + match_count_from(h@, n@, i as int) == match_count(h@, n@),
            !more ==> c == match_count(h@, n@),
        decreases (h.len() - i) as int + if more {
            1int
        } else {
            0int
        },
    {
        if crate::text::matches_at(h, n, i) {
            proof {
                c = c + 1;
            }
            count = count.saturating_add(1);
            if step > h.len() - i {
                assert(match_count_from(h@, n@, i + step) == 0);
                more = false;
            } else {
                i = i + step;
            }
        } else if i == h.len() {
            assert(match_count_from(h@, n@, i + 1) == 0);
            more = false;
        } else {
            i = i + 1;
        }
    }
    count
}

/// For each term, how often it occurs in a lowercase line and whether the section's
/// lowercase heading holds it.
pub open spec fn term_stats_spec(lower: Seq<char>, heading: Seq<char>, ts: Seq<Seq<char>>) -> Seq<(usize, bool)> {
    Seq::new(ts.len(), |i: int| (capped(match_count(lower, ts[i])), contains(heading, ts[i])))
}

/// For each term, how often it occurs in `lower` and whether `heading` holds it.
pub fn term_stats(lower: &[char], heading: &str, terms: &Vec<String>) -> (r: Vec<(usize, bool)>)
    ensures
        r@ == term_stats_spec(lower@, heading@, texts(terms@)),
{
    let hc = chars_of(heading);
    let mut out: Vec<(usize, bool)> = Vec::new();
    let mut i: usize = 0;
    while i < terms.len()
        invariant
            i <= terms@.len(),
            hc@ == heading@,
            out@ =~= term_stats_spec(lower@, heading@, texts(terms@)).take(i as int),
        decreases terms.len() - i,
    {
        let tc = chars_of(terms[i].as_str());
        let tf = count_matches(lower, tc.as_slice());
        let inh = contains_chars(hc.as_slice(), tc.as_slice());
        out.push((tf, inh));
        i += 1;
    }
    out
}

/// For each term, how often it occurs in an indexed line (lowercased) and whether the
/// line's section heading holds it.
pub fn indexed_line_stats(line: &IndexedLine, terms: &Vec<String>) -> (r: Vec<(usize, bool)>)
    ensures
        r@ == term_stats_spec(lowercase(line.line_snippet@), line.heading_title@, texts(terms@)),
{
    let lower = lower_chars(chars_of(line.line_snippet.as_str()).as_slice());
    term_stats(lower.as_slice(), line.heading_title.as_str(), terms)
}

/// For each term, how often it occurs in a hit line and whether the line's section
/// heading holds it.
pub fn hit_stats(hit: &RawHit, terms: &Vec<String>) -> (r: Vec<(usize, bool)>)
    ensures
        r@ == term_stats_spec(hit.line_lower@, hit.line.heading_title@, texts(terms@)),
{
    let lower = chars_of(hit.line_lower.as_str());
    term_stats(lower.as_slice(), hit.line.heading_title.as_str(), terms)
}


/// The files among `hits` whose hit line or section heading holds `t`, once each, in the
/// order met.
pub open spec fn hit_files(hits: Seq<RawHitView>, t: Seq<char>) -> Seq<Seq<char>>
    decreases hits.len(),
{
    if hits.len() == 0 {
        seq![]
    } else {
        let a = hit_files(hits.drop_last(), t);
        let h = hits.last();
        if (contains(h.line_lower, t) || contains(h.line.heading_title, t)) && !a.contains(h.file_path) {
            a.push(h.file_path)
        } else {
            a
        }
    }
}

/// How many of the hit files hold term `t` in a hit line or its heading, taken as 1
/// where none does.
pub open spec fn hit_doc_frequency(hits: Seq<RawHitView>, t: Seq<char>) -> nat {
    if hit_files(hits, t).len() > 0 {
        hit_files(hits, t).len()
    } else {
        1
    }
}

/// How many of the hit files hold each term, each at least 1.
pub fn hit_doc_frequencies(hits: &Vec<RawHit>, terms: &Vec<String>) -> (r: Vec<usize>)
    ensures
        r@.len() == terms@.len(),
        forall|i: int|
            0 <= i < terms@.len() ==> r@[i] == hit_doc_frequency(
                hits@.map_values(|h: RawHit| h@),
                #[trigger] terms@[i]@,
            ),
{
    let ghost hv = hits@.map_values(|h: RawHit| h@);
    let mut out: Vec<usize> = Vec::new();
    let mut i: usize = 0;
    while i < terms.len()
        invariant
            i <= terms@.len(),
            hv == hits@.map_values(|h: RawHit| h@),
            out@.len() == i,
            forall|j: int| 0 <= j < i ==> out@[j] == hit_doc_frequency(hv, #[trigger] terms@[j]@),
        decreases terms.len() - i,
    {
        let tc = chars_of(terms[i].as_str());
        let mut files: Vec<String> = Vec::new();
        let mut k: usize = 0;
        while k < hits.len()
            invariant
                k <= hits@.len(),
                hv == hits@.map_values(|h: RawHit| h@),
                tc@ == terms@[i as int]@,
                texts(files@) == hit_files(hv.take(k as int), tc@),
            decreases hits.len() - k,
        {
            assert(hv.take(k + 1).drop_last() =~= hv.take(k as int));
            assert(hv.take(k + 1).last() == hits@[k as int]@);
            let h = &hits[k];
            let lc = chars_of(h.line_lower.as_str());
            let hc = chars_of(h.line.heading_title.as_str());
            if (contains_chars(lc.as_slice(), tc.as_slice()) || contains_chars(hc.as_slice(), tc.as_slice()))
                && !holds_text(&files, &h.file_path) {
                let ghost b = files@;
                files.push(h.file_path.clone());
                assert(texts(files@) =~= texts(b).push(h.file_path@));
            }
            k += 1;
        }
        assert(hv.take(k as int) =~= hv);
        let df = if files.len() > 0 {
            files.len()
        } else {
            1
        };
        out.push(df);
        i += 1;
    }
    out
}

/// `s` with each backslash turned into a slash.
pub open spec fn forward_slashes_spec(s: Seq<char>) -> Seq<char> {
    s.map_values(|c: char| if c == '\\' { '/' } else { c })
}

/// `s.replace('\\', "/")`.
pub fn forward_slashes(s: &str) -> (r: String)
    ensures
        r@ == forward_slashes_spec(s@),
{
    let cs = chars_of(s);
    let mut r = String::new();
    let mut i: usize = 0;
    while i < cs.len()
        invariant
            i <= cs@.len(),
            cs@ == s@,
            r@ == forward_slashes_spec(s@).take(i as int),
        decreases cs.len() - i,
    {
        let c = if cs[i] == '\\' {
            '/'
        } else {
            cs[i]
        };
        push_char(&mut r, c);
        i += 1;
        assert(r@ =~= forward_slashes_spec(s@).take(i as int));
    }
    assert(r@ =~= forward_slashes_spec(s@));
    r
}

// ---------------------------------------------------------------------------
// Keeping the index current
// ---------------------------------------------------------------------------

/// The indexed documents that are not among the current files, in index order.
pub open spec fn stale_spec(docs: Seq<DocView>, current: Seq<Seq<char>>) -> Seq<Seq<char>>
    decreases docs.len(),
{
    if docs.len() == 0 {
        seq![]
    } else {
        let a = stale_spec(docs.drop_last(), current);
        if current.contains(docs.last().key) {
            a
        } else {
            a.push(docs.last().key)
        }
    }
}

/// The indexed documents that are not among the current files.
pub fn stale_documents(index: &SearchIndex, current: &Vec<String>) -> (r: Vec<String>)
    ensures
        texts(r@) == stale_spec(index@.docs, texts(current@)),
{
    let ghost dv = index@.docs;
    let mut out: Vec<String> = Vec::new();
    let mut i: usize = 0;
    while i < index.docs.len()
        invariant
            i <= index.docs@.len(),
            dv == index@.docs,
            texts(out@) == stale_spec(dv.take(i as int), texts(current@)),
        decreases index.docs.len() - i,
    {
        assert(dv.take(i + 1).drop_last() =~= dv.take(i as int));
        assert(dv.take(i + 1).last() == index.docs@[i as int]@);
        if !holds_text(current, &index.docs[i].key) {
            let ghost b = out@;
            out.push(index.docs[i].key.clone());
            assert(texts(out@) =~= texts(b).push(index.docs@[i as int].key@));
        }
        i += 1;
    }
    assert(dv.take(i as int) =~= dv);
    out
}

/// Whether a file must be read anew: it is not indexed, or its modification time or size
/// differs from what the index recorded.
pub open spec fn needs_reindex_spec(v: IndexView, key: Seq<char>, mtime_secs: u64, file_size: u64) -> bool {
    match key_pos(doc_keys(v.docs), key) {
        Some(m) => v.docs[m].meta.mtime_secs != mtime_secs || v.docs[m].meta.file_size != file_size,
        None => true,
    }
}

/// Whether a file must be read anew.
pub fn needs_reindex(index: &SearchIndex, doc_path: &str, mtime_secs: u64, file_size: u64) -> (r: bool)
    ensures
        r == needs_reindex_spec(index@, doc_path@, mtime_secs, file_size),
{
    let key = doc_path.to_owned();
    proof {
        lemma_key_pos(doc_keys(index@.docs), key@);
    }
    match find_doc(&index.docs, &key) {
        Some(m) => {
            assert(index@.docs[m as int] == index.docs@[m as int]@);
            let meta = &index.docs[m].meta;
            meta.mtime_secs != mtime_secs || meta.file_size != file_size
        },
        None => true,
    }
}


// ---------------------------------------------------------------------------
// Laws
// ---------------------------------------------------------------------------

/// Whether place `p` names a line of an indexed document whose path and text pass the
/// query's filters.
pub open spec fn hit_ok(v: IndexView, q: QueryView, p: (Seq<char>, usize)) -> bool {
    match key_pos(doc_keys(v.docs), p.0) {
        Some(m) => p.1 < v.docs[m].lines.len() && matches_filters_spec(q, p.0, doc_text(v.docs[m])),
        None => false,
    }
}

/// Whether no place occurs twice.
pub open spec fn distinct_places(s: Seq<(Seq<char>, usize)>) -> bool {
    forall|i: int, j: int| 0 <= i < j < s.len() ==> s[i] != s[j]
}

/// What adding the hits of a list of postings does: the places so far stay, each new
/// place is one of the postings and passes, each passing posting is there, and no place
/// comes twice where none did.
pub proof fn lemma_hits_of_postings(v: IndexView, q: QueryView, acc: Seq<(Seq<char>, usize)>, ps: Seq<(Seq<char>, usize)>)
    ensures
        hits_of_postings(v, q, acc, ps).len() >= acc.len(),
        forall|k: int| 0 <= k < acc.len() ==> #[trigger] hits_of_postings(v, q, acc, ps)[k] == acc[k],
        forall|k: int|
            acc.len() <= k < hits_of_postings(v, q, acc, ps).len() ==> ps.contains(
                #[trigger] hits_of_postings(v, q, acc, ps)[k],
            ) && hit_ok(v, q, hits_of_postings(v, q, acc, ps)[k]),
        forall|x: (Seq<char>, usize)| ps.contains(x) && #[trigger] hit_ok(v, q, x) ==> hits_of_postings(
            v,
            q,
            acc,
            ps,
        ).contains(x),
        distinct_places(acc) ==> distinct_places(hits_of_postings(v, q, acc, ps)),
    decreases ps.len(),
{
    if ps.len() > 0 {
        let ps0 = ps.drop_last();
        let a = hits_of_postings(v, q, acc, ps0);
        let p = ps.last();
        let r = hits_of_postings(v, q, acc, ps);
        lemma_hits_of_postings(v, q, acc, ps0);
        assert(ps[ps.len() - 1] == p);
        assert forall|k: int| acc.len() <= k < r.len() implies ps.contains(#[trigger] r[k]) && hit_ok(v, q, r[k]) by {
            if k < a.len() {
                assert(r[k] == a[k]);
                let i = choose|i: int| 0 <= i < ps0.len() && ps0[i] == a[k];
                assert(ps[i] == ps0[i]);
            } else {
                assert(r[k] == p);
            }
        }
        assert forall|x: (Seq<char>, usize)| ps.contains(x) && #[trigger] hit_ok(v, q, x) implies r.contains(x) by {
            let i = choose|i: int| 0 <= i < ps.len() && ps[i] == x;
            if i < ps0.len() {
                assert(ps0[i] == x);
                assert(a.contains(x));
                let k = choose|k: int| 0 <= k < a.len() && a[k] == x;
                assert(r[k] == a[k]);
            } else {
                if !a.contains(p) {
                    assert(r[a.len() as int] == p);
                } else {
                    let k = choose|k: int| 0 <= k < a.len() && a[k] == p;
                    assert(r[k] == a[k]);
                }
            }
        }
        if distinct_places(acc) {
            assert forall|i: int, j: int| 0 <= i < j < r.len() implies r[i] != r[j] by {
                if j >= a.len() {
                    assert(r[i] == a[i]);
                    assert(a.contains(a[i]));
                }
            }
        }
    }
}

/// Whether term `t` is indexed with posting `x`.
pub open spec fn term_posts(v: IndexView, t: Seq<char>, x: (Seq<char>, usize)) -> bool {
    match key_pos(term_keys(v.terms), t) {
        Some(j) => v.terms[j].postings.contains(x),
        None => false,
    }
}

/// What the hits of a list of terms are: each passes and is a posting of one of the
/// terms, each passing posting of each term is there, and no place comes twice.
pub proof fn lemma_index_hits(v: IndexView, q: QueryView, ts: Seq<Seq<char>>)
    ensures
        forall|k: int|
            0 <= k < index_hits_spec(v, q, ts).len() ==> #[trigger] hit_ok(v, q, index_hits_spec(v, q, ts)[k])
                && exists|t: int| 0 <= t < ts.len() && #[trigger] term_posts(v, ts[t], index_hits_spec(v, q, ts)[k]),
        forall|t: int, x: (Seq<char>, usize)|
            0 <= t < ts.len() && #[trigger] term_posts(v, ts[t], x) && #[trigger] hit_ok(v, q, x)
                ==> index_hits_spec(v, q, ts).contains(x),
        distinct_places(index_hits_spec(v, q, ts)),
    decreases ts.len(),
{
    if ts.len() > 0 {
        let ts0 = ts.drop_last();
        let a = index_hits_spec(v, q, ts0);
        let r = index_hits_spec(v, q, ts);
        lemma_index_hits(v, q, ts0);
        let tl = ts.last();
        assert(ts[ts.len() - 1] == tl);
        match key_pos(term_keys(v.terms), tl) {
            Some(j0) => {
                lemma_hits_of_postings(v, q, a, v.terms[j0].postings);
                assert forall|k: int| 0 <= k < r.len() implies #[trigger] hit_ok(v, q, r[k]) && exists|t: int|
                    0 <= t < ts.len() && #[trigger] term_posts(v, ts[t], r[k]) by {
                    if k < a.len() {
                        assert(r[k] == a[k]);
                        assert(hit_ok(v, q, a[k]));
                        let t = choose|t: int| 0 <= t < ts0.len() && #[trigger] term_posts(v, ts0[t], a[k]);
                        assert(ts[t] == ts0[t]);
                    } else {
                        assert(term_posts(v, ts[ts.len() - 1], r[k]));
                    }
                }
                assert forall|t: int, x: (Seq<char>, usize)|
                    0 <= t < ts.len() && #[trigger] term_posts(v, ts[t], x) && #[trigger] hit_ok(v, q, x) implies r.contains(x) by {
                    if t < ts0.len() {
                        assert(ts0[t] == ts[t]);
                        assert(a.contains(x));
                        let k = choose|k: int| 0 <= k < a.len() && a[k] == x;
                        assert(r[k] == a[k]);
                    }
                }
            },
            None => {
                assert forall|t: int, x: (Seq<char>, usize)|
                    0 <= t < ts.len() && #[trigger] term_posts(v, ts[t], x) && #[trigger] hit_ok(v, q, x) implies r.contains(x) by {
                    if t < ts0.len() {
                        assert(ts0[t] == ts[t]);
                    }
                }
                assert forall|k: int| 0 <= k < r.len() implies #[trigger] hit_ok(v, q, r[k]) && exists|t: int|
                    0 <= t < ts.len() && #[trigger] term_posts(v, ts[t], r[k]) by {
                    assert(hit_ok(v, q, a[k]));
                    let t = choose|t: int| 0 <= t < ts0.len() && #[trigger] term_posts(v, ts0[t], a[k]);
                    assert(ts[t] == ts0[t]);
                }
            },
        }
    }
}


/// In a consistent index, a key that is present is found where it is.
pub proof fn lemma_key_pos_of_distinct(keys: Seq<Seq<char>>, m: int)
    requires
        distinct_keys(keys),
        0 <= m < keys.len(),
    ensures
        key_pos(keys, keys[m]) == Some(m),
{
    lemma_key_pos(keys, keys[m]);
}

/// A search of a consistent index finds exactly the lines that hold one of the terms, in
/// documents whose path and text pass the query's filters, each line once: every hit is
/// such a line, and every such line is a hit.
pub proof fn law_index_hits_are_lines_with_terms(v: IndexView, q: QueryView, ts: Seq<Seq<char>>)
    requires
        index_wf(v),
        index_faithful(v),
    ensures
        forall|k: int|
            0 <= k < index_hits_spec(v, q, ts).len() ==> exists|m: int|
                0 <= m < v.docs.len() && v.docs[m].key == (#[trigger] index_hits_spec(v, q, ts)[k]).0
                    && index_hits_spec(v, q, ts)[k].1 < v.docs[m].lines.len() && matches_filters_spec(
                    q,
                    v.docs[m].key,
                    doc_text(v.docs[m]),
                ) && exists|t: int|
                    0 <= t < ts.len() && #[trigger] line_terms_spec(
                        v.docs[m].lines[index_hits_spec(v, q, ts)[k].1 as int].line_snippet,
                    ).contains(ts[t]),
        forall|m: int, i: int, t: int|
            0 <= m < v.docs.len() && 0 <= i < v.docs[m].lines.len() && 0 <= t < ts.len()
                && #[trigger] line_terms_spec(v.docs[m].lines[i].line_snippet).contains(ts[t])
                && matches_filters_spec(q, v.docs[m].key, doc_text(v.docs[m])) ==> index_hits_spec(
                v,
                q,
                ts,
            ).contains((v.docs[m].key, i as usize)),
        distinct_places(index_hits_spec(v, q, ts)),
{
    let r = index_hits_spec(v, q, ts);
    lemma_index_hits(v, q, ts);
    assert forall|k: int| 0 <= k < r.len() implies exists|m: int|
        0 <= m < v.docs.len() && v.docs[m].key == (#[trigger] r[k]).0 && r[k].1 < v.docs[m].lines.len()
            && matches_filters_spec(q, v.docs[m].key, doc_text(v.docs[m])) && exists|t: int|
            0 <= t < ts.len() && #[trigger] line_terms_spec(v.docs[m].lines[r[k].1 as int].line_snippet).contains(ts[t]) by {
        let p = r[k];
        assert(hit_ok(v, q, p));
        lemma_key_pos(doc_keys(v.docs), p.0);
        let m = key_pos(doc_keys(v.docs), p.0).unwrap();
        assert(doc_keys(v.docs)[m] == v.docs[m].key);
        let t = choose|t: int| 0 <= t < ts.len() && #[trigger] term_posts(v, ts[t], p);
        lemma_key_pos(term_keys(v.terms), ts[t]);
        let j = key_pos(term_keys(v.terms), ts[t]).unwrap();
        assert(term_keys(v.terms)[j] == v.terms[j].term);
        let k2 = choose|k2: int| 0 <= k2 < v.terms[j].postings.len() && v.terms[j].postings[k2] == p;
        assert(posting_sound(v, v.terms[j].term, v.terms[j].postings[k2]));
        let m2 = choose|m2: int|
            0 <= m2 < v.docs.len() && v.docs[m2].key == p.0 && p.1 < v.docs[m2].lines.len()
                && #[trigger] line_terms_spec(v.docs[m2].lines[p.1 as int].line_snippet).contains(v.terms[j].term);
        assert(doc_keys(v.docs)[m2] == v.docs[m2].key);
        assert(m2 == m);
        assert(line_terms_spec(v.docs[m].lines[p.1 as int].line_snippet).contains(ts[t]));
    }
    assert forall|m: int, i: int, t: int|
        0 <= m < v.docs.len() && 0 <= i < v.docs[m].lines.len() && 0 <= t < ts.len()
            && #[trigger] line_terms_spec(v.docs[m].lines[i].line_snippet).contains(ts[t])
            && matches_filters_spec(q, v.docs[m].key, doc_text(v.docs[m])) implies r.contains(
        (v.docs[m].key, i as usize),
    ) by {
        let x = (v.docs[m].key, i as usize);
        assert(v.docs[m].lines.len() <= usize::MAX);
        assert(posted(v.terms, ts[t], x));
        let j = choose|j: int| 0 <= j < v.terms.len() && v.terms[j].term == ts[t] && #[trigger] v.terms[j].postings.contains(x);
        assert(term_keys(v.terms)[j] == ts[t]);
        lemma_key_pos_of_distinct(term_keys(v.terms), j);
        assert(term_posts(v, ts[t], x));
        assert(doc_keys(v.docs)[m] == v.docs[m].key);
        lemma_key_pos_of_distinct(doc_keys(v.docs), m);
        assert(hit_ok(v, q, x));
    }
}


/// What appending the new ones of `xs` does: the result holds exactly what `ts` or `xs`
/// holds, keeps `ts` as its prefix, and repeats nothing that `ts` did not.
pub proof fn lemma_add_unique(ts: Seq<Seq<char>>, xs: Seq<Seq<char>>)
    ensures
        forall|x: Seq<char>| #[trigger] add_unique(ts, xs).contains(x) <==> ts.contains(x) || xs.contains(x),
        add_unique(ts, xs).len() >= ts.len(),
        forall|k: int| 0 <= k < ts.len() ==> #[trigger] add_unique(ts, xs)[k] == ts[k],
        distinct_keys(ts) ==> distinct_keys(add_unique(ts, xs)),
    decreases xs.len(),
{
    if xs.len() > 0 {
        let xs0 = xs.drop_last();
        let a = add_unique(ts, xs0);
        let r = add_unique(ts, xs);
        lemma_add_unique(ts, xs0);
        assert(xs[xs.len() - 1] == xs.last());
        assert forall|x: Seq<char>| #[trigger] r.contains(x) <==> ts.contains(x) || xs.contains(x) by {
            if xs0.contains(x) {
                let i = choose|i: int| 0 <= i < xs0.len() && xs0[i] == x;
                assert(xs[i] == x);
            }
            if xs.contains(x) && x != xs.last() {
                let i = choose|i: int| 0 <= i < xs.len() && xs[i] == x;
                assert(xs0[i] == x);
            }
            if !a.contains(xs.last()) {
                if r.contains(x) {
                    let k = choose|k: int| 0 <= k < r.len() && r[k] == x;
                    if k < a.len() {
                        assert(a[k] == x);
                    }
                }
                if a.contains(x) {
                    let k = choose|k: int| 0 <= k < a.len() && a[k] == x;
                    assert(r[k] == x);
                }
                if x == xs.last() {
                    assert(r[a.len() as int] == x);
                }
            }
        }
        if distinct_keys(ts) && !a.contains(xs.last()) {
            assert forall|i: int, j: int| 0 <= i < j < r.len() implies r[i] != r[j] by {
                if j == a.len() {
                    assert(r[i] == a[i]);
                }
            }
        }
    }
}

/// Whether terms `q` and `x` share a trigram.
pub open spec fn shares_trigram(q: Seq<char>, x: Seq<char>) -> bool {
    exists|g: Seq<char>| #[trigger] trigrams_spec(q).contains(g) && trigrams_spec(x).contains(g)
}

/// What adding the terms listed under trigrams `gs` does, in an index whose trigrams are
/// those of its terms.
pub proof fn lemma_fuzzy_for_trigrams(v: IndexView, acc: Seq<Seq<char>>, gs: Seq<Seq<char>>)
    requires
        v.trigrams == populate_spec(v.terms),
    ensures
        forall|x: Seq<char>| #[trigger] fuzzy_for_trigrams(v, acc, gs).contains(x) <==> acc.contains(x) || (
        term_keys(v.terms).contains(x) && exists|g: Seq<char>| #[trigger] gs.contains(g) && trigrams_spec(x).contains(g)),
        distinct_keys(acc) ==> distinct_keys(fuzzy_for_trigrams(v, acc, gs)),
    decreases gs.len(),
{
    law_trigrams_list_indexed_terms(v.terms);
    if gs.len() > 0 {
        let gs0 = gs.drop_last();
        let a = fuzzy_for_trigrams(v, acc, gs0);
        let r = fuzzy_for_trigrams(v, acc, gs);
        let gl = gs.last();
        lemma_fuzzy_for_trigrams(v, acc, gs0);
        assert(gs[gs.len() - 1] == gl);
        lemma_key_pos(trigram_keys(v.trigrams), gl);
        match key_pos(trigram_keys(v.trigrams), gl) {
            Some(i) => {
                lemma_add_unique(a, v.trigrams[i].terms);
                assert(trigram_keys(v.trigrams)[i] == v.trigrams[i].trigram);
                assert forall|x: Seq<char>| #[trigger] r.contains(x) <==> acc.contains(x) || (term_keys(v.terms).contains(x)
                    && exists|g: Seq<char>| #[trigger] gs.contains(g) && trigrams_spec(x).contains(g)) by {
                    if v.trigrams[i].terms.contains(x) {
                        let k = choose|k: int| 0 <= k < v.trigrams[i].terms.len() && v.trigrams[i].terms[k] == x;
                        assert(v.trigrams[i].terms[k] == x);
                        assert(gs.contains(gl));
                    }
                    if term_keys(v.terms).contains(x) && exists|g: Seq<char>| #[trigger] gs.contains(g) && trigrams_spec(x).contains(g) {
                        let g = choose|g: Seq<char>| #[trigger] gs.contains(g) && trigrams_spec(x).contains(g);
                        if g == gl {
                            let m = choose|m: int| 0 <= m < term_keys(v.terms).len() && term_keys(v.terms)[m] == x;
                            assert(v.terms[m].term == x);
                            assert(listed(v.trigrams, g, x));
                            let j = choose|j: int| 0 <= j < v.trigrams.len() && v.trigrams[j].trigram == g && #[trigger] v.trigrams[j].terms.contains(x);
                            assert(trigram_keys(v.trigrams)[j] == g);
                            assert(j == i);
                        } else {
                            let n = choose|n: int| 0 <= n < gs.len() && gs[n] == g;
                            assert(gs0[n] == g);
                            assert(gs0.contains(g));
                        }
                    }
                    if a.contains(x) && !acc.contains(x) {
                        let g = choose|g: Seq<char>| #[trigger] gs0.contains(g) && trigrams_spec(x).contains(g);
                        let n = choose|n: int| 0 <= n < gs0.len() && gs0[n] == g;
                        assert(gs[n] == g);
                        assert(gs.contains(g));
                    }
                }
            },
            None => {
                assert forall|x: Seq<char>| #[trigger] r.contains(x) <==> acc.contains(x) || (term_keys(v.terms).contains(x)
                    && exists|g: Seq<char>| #[trigger] gs.contains(g) && trigrams_spec(x).contains(g)) by {
                    if term_keys(v.terms).contains(x) && exists|g: Seq<char>| #[trigger] gs.contains(g) && trigrams_spec(x).contains(g) {
                        let g = choose|g: Seq<char>| #[trigger] gs.contains(g) && trigrams_spec(x).contains(g);
                        if g == gl {
                            let m = choose|m: int| 0 <= m < term_keys(v.terms).len() && term_keys(v.terms)[m] == x;
                            assert(v.terms[m].term == x);
                            assert(listed(v.trigrams, g, x));
                            let j = choose|j: int| 0 <= j < v.trigrams.len() && v.trigrams[j].trigram == g && #[trigger] v.trigrams[j].terms.contains(x);
                            assert(trigram_keys(v.trigrams)[j] == g);
                        } else {
                            let n = choose|n: int| 0 <= n < gs.len() && gs[n] == g;
                            assert(gs0[n] == g);
                            assert(gs0.contains(g));
                        }
                    }
                    if a.contains(x) && !acc.contains(x) {
                        let g = choose|g: Seq<char>| #[trigger] gs0.contains(g) && trigrams_spec(x).contains(g);
                        let n = choose|n: int| 0 <= n < gs0.len() && gs0[n] == g;
                        assert(gs[n] == g);
                        assert(gs.contains(g));
                    }
                }
            },
        }
    }
}

/// In an index whose trigrams are those of its terms, the fuzzy matches of a query are
/// exactly the indexed terms that share a trigram with a query term that is not indexed
/// itself, each once.
pub proof fn law_fuzzy_matches_share_a_trigram(v: IndexView, qs: Seq<Seq<char>>)
    requires
        v.trigrams == populate_spec(v.terms),
    ensures
        forall|x: Seq<char>| #[trigger] fuzzy_terms(v, qs).contains(x) <==> term_keys(v.terms).contains(x) && exists|q: Seq<char>|
            #[trigger] qs.contains(q) && !term_keys(v.terms).contains(q) && shares_trigram(q, x),
        distinct_keys(fuzzy_terms(v, qs)),
    decreases qs.len(),
{
    if qs.len() == 0 {
        assert(distinct_keys(fuzzy_terms(v, qs)));
    } else {
        let qs0 = qs.drop_last();
        let a = fuzzy_terms(v, qs0);
        let r = fuzzy_terms(v, qs);
        let ql = qs.last();
        law_fuzzy_matches_share_a_trigram(v, qs0);
        assert(qs[qs.len() - 1] == ql);
        if term_keys(v.terms).contains(ql) {
            assert forall|x: Seq<char>| #[trigger] r.contains(x) <==> term_keys(v.terms).contains(x) && exists|q: Seq<char>|
                #[trigger] qs.contains(q) && !term_keys(v.terms).contains(q) && shares_trigram(q, x) by {
                if term_keys(v.terms).contains(x) && exists|q: Seq<char>| #[trigger] qs.contains(q) && !term_keys(v.terms).contains(q) && shares_trigram(q, x) {
                    let q = choose|q: Seq<char>| #[trigger] qs.contains(q) && !term_keys(v.terms).contains(q) && shares_trigram(q, x);
                    let n = choose|n: int| 0 <= n < qs.len() && qs[n] == q;
                    assert(q != ql);
                    assert(qs0[n] == q);
                    assert(qs0.contains(q));
                }
                if r.contains(x) {
                    let q = choose|q: Seq<char>| #[trigger] qs0.contains(q) && !term_keys(v.terms).contains(q) && shares_trigram(q, x);
                    let n = choose|n: int| 0 <= n < qs0.len() && qs0[n] == q;
                    assert(qs[n] == q);
                    assert(qs.contains(q));
                }
            }
        } else {
            lemma_fuzzy_for_trigrams(v, a, trigrams_spec(ql));
            assert forall|x: Seq<char>| #[trigger] r.contains(x) <==> term_keys(v.terms).contains(x) && exists|q: Seq<char>|
                #[trigger] qs.contains(q) && !term_keys(v.terms).contains(q) && shares_trigram(q, x) by {
                if term_keys(v.terms).contains(x) && exists|q: Seq<char>| #[trigger] qs.contains(q) && !term_keys(v.terms).contains(q) && shares_trigram(q, x) {
                    let q = choose|q: Seq<char>| #[trigger] qs.contains(q) && !term_keys(v.terms).contains(q) && shares_trigram(q, x);
                    let n = choose|n: int| 0 <= n < qs.len() && qs[n] == q;
                    if q == ql {
                        let g = choose|g: Seq<char>| #[trigger] trigrams_spec(q).contains(g) && trigrams_spec(x).contains(g);
                        assert(trigrams_spec(ql).contains(g));
                    } else {
                        assert(qs0[n] == q);
                        assert(qs0.contains(q));
                    }
                }
                if r.contains(x) {
                    if a.contains(x) {
                        let q = choose|q: Seq<char>| #[trigger] qs0.contains(q) && !term_keys(v.terms).contains(q) && shares_trigram(q, x);
                        let n = choose|n: int| 0 <= n < qs0.len() && qs0[n] == q;
                        assert(qs[n] == q);
                        assert(qs.contains(q));
                    } else {
                        let g = choose|g: Seq<char>| #[trigger] trigrams_spec(ql).contains(g) && trigrams_spec(x).contains(g);
                        assert(shares_trigram(ql, x));
                        assert(qs.contains(ql));
                    }
                }
            }
        }
    }
}

} // verus!
