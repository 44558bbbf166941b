//! Advanced query syntax: positive terms, `"exact phrases"`, `field:value` filters and
//! `-negated` terms and filters.
use crate::agent::slice_range;
use crate::text::{
    alphanumeric, char_from, char_index_from, chars_eq_str, chars_of, contains, contains_chars,
    ends_with, ends_with_chars, is_alphanumeric, is_whitespace, is_ws, lower_chars, lowercase,
    string_of, string_of_range, trim, trim_range,
};
use vstd::prelude::*;

verus! {

/// A query string parsed into its parts.
#[derive(Debug, Clone, PartialEq, Eq, Default)]
pub struct ParsedQuery {
    pub raw_query: String,
    pub positive_terms: Vec<String>,
    pub exact_phrases: Vec<String>,
    pub field_filters: Vec<(String, String)>,
    pub negated_terms: Vec<String>,
    pub negated_filters: Vec<(String, String)>,
}

/// The value of a parsed query.
#[verifier::ext_equal]
pub struct QueryView {
    pub raw_query: Seq<char>,
    pub positive_terms: Seq<Seq<char>>,
    pub exact_phrases: Seq<Seq<char>>,
    pub field_filters: Seq<(Seq<char>, Seq<char>)>,
    pub negated_terms: Seq<Seq<char>>,
    pub negated_filters: Seq<(Seq<char>, Seq<char>)>,
}

/// The values of a list of strings.
pub open spec fn strs(v: Seq<String>) -> Seq<Seq<char>> {
    v.map_values(|s: String| s@)
}

/// The values of a list of string pairs.
pub open spec fn pairs(v: Seq<(String, String)>) -> Seq<(Seq<char>, Seq<char>)> {
    v.map_values(|p: (String, String)| (p.0@, p.1@))
}

impl View for ParsedQuery {
    type V = QueryView;

    open spec fn view(&self) -> QueryView {
        QueryView {
            raw_query: self.raw_query@,
            positive_terms: strs(self.positive_terms@),
            exact_phrases: strs(self.exact_phrases@),
            field_filters: pairs(self.field_filters@),
            negated_terms: strs(self.negated_terms@),
            negated_filters: pairs(self.negated_filters@),
        }
    }
}

/// Index of the first alphanumeric character at or after `i`.
pub open spec fn alnum_start(s: Seq<char>, i: int) -> int
    decreases s.len() - i,
{
    if 0 <= i < s.len() && !alphanumeric(s[i]) {
        alnum_start(s, i + 1)
    } else {
        i
    }
}

/// End of `s[..j]` once trailing non-alphanumeric characters are removed.
pub open spec fn alnum_end(s: Seq<char>, j: int) -> int
    decreases j,
{
    if 0 < j <= s.len() && !alphanumeric(s[j - 1]) {
        alnum_end(s, j - 1)
    } else {
        j
    }
}

/// `s.trim_matches(|c| !c.is_alphanumeric())`.
pub open spec fn trim_non_alnum(s: Seq<char>) -> Seq<char> {
    let a = alnum_start(s, 0);
    let b = alnum_end(s, s.len() as int);
    if a < b {
        s.subrange(a, b)
    } else {
        seq![]
    }
}

/// Files one whitespace-free token into the query.
pub open spec fn process_token_spec(q: QueryView, t: Seq<char>) -> QueryView {
    if t.len() > 0 && t[0] == '-' {
        let rest = t.subrange(1, t.len() as int);
        let p = char_from(rest, ':', 0);
        if p < rest.len() {
            QueryView {
                negated_filters: q.negated_filters.push(
                    (lowercase(rest.subrange(0, p)), rest.subrange(p + 1, rest.len() as int)),
                ),
                ..q
            }
        } else {
            let c = lowercase(trim_non_alnum(rest));
            if c.len() > 0 {
                QueryView { negated_terms: q.negated_terms.push(c), ..q }
            } else {
                q
            }
        }
    } else {
        let p = char_from(t, ':', 0);
        if p < t.len() {
            QueryView {
                field_filters: q.field_filters.push(
                    (lowercase(t.subrange(0, p)), t.subrange(p + 1, t.len() as int)),
                ),
                ..q
            }
        } else {
            let c = lowercase(trim_non_alnum(t));
            if c.len() > 0 {
                QueryView { positive_terms: q.positive_terms.push(c), ..q }
            } else {
                q
            }
        }
    }
}

/// The parser's state: the query so far, the pending token and whether a quote is open.
#[verifier::ext_equal]
pub struct ParseState {
    pub q: QueryView,
    pub cur: Seq<char>,
    pub in_quote: bool,
}

/// The parse of one character.
pub open spec fn parse_step(st: ParseState, ch: char) -> ParseState {
    let t = trim(st.cur);
    if ch == '"' {
        if st.in_quote {
            ParseState {
                q: if t.len() > 0 {
                    QueryView { exact_phrases: st.q.exact_phrases.push(t), ..st.q }
                } else {
                    st.q
                },
                cur: seq![],
                in_quote: false,
            }
        } else if t.len() > 0 {
            ParseState { q: process_token_spec(st.q, t), cur: seq![], in_quote: true }
        } else {
            ParseState { in_quote: true, ..st }
        }
    } else if is_ws(ch) && !st.in_quote {
        if t.len() > 0 {
            ParseState { q: process_token_spec(st.q, t), cur: seq![], in_quote: false }
        } else {
            st
        }
    } else {
        ParseState { cur: st.cur.push(ch), ..st }
    }
}

/// The parser's state after the first `n` characters of `s`.
pub open spec fn parse_state(s: Seq<char>, n: int) -> ParseState
    decreases n,
{
    if n <= 0 || n > s.len() {
        ParseState {
            q: QueryView {
                raw_query: s,
                positive_terms: seq![],
                exact_phrases: seq![],
                field_filters: seq![],
                negated_terms: seq![],
                negated_filters: seq![],
            },
            cur: seq![],
            in_quote: false,
        }
    } else {
        parse_step(parse_state(s, n - 1), s[n - 1])
    }
}

/// The parse of a whole query string.
pub open spec fn parse_query_spec(s: Seq<char>) -> QueryView {
    let st = parse_state(s, s.len() as int);
    let t = trim(st.cur);
    if t.len() > 0 {
        if st.in_quote {
            QueryView { exact_phrases: st.q.exact_phrases.push(t), ..st.q }
        } else {
            process_token_spec(st.q, t)
        }
    } else {
        st.q
    }
}

/// `s.trim_start_matches('.')`.
pub open spec fn skip_dots(s: Seq<char>) -> Seq<char>
    decreases s.len(),
{
    if s.len() > 0 && s[0] == '.' {
        skip_dots(s.subrange(1, s.len() as int))
    } else {
        s
    }
}

/// Whether a `field:value` filter admits a lowercased path and content.
pub open spec fn field_filter_ok(f: Seq<char>, v: Seq<char>, pl: Seq<char>, cl: Seq<char>) -> bool {
    let vl = lowercase(v);
    if f == seq!['p', 'a', 't', 'h'] || f == seq!['d', 'i', 'r'] {
        contains(pl, vl)
    } else if f == seq!['e', 'x', 't'] {
        ends_with(pl, seq!['.'] + skip_dots(vl))
    } else if f == seq!['l', 'a', 'n', 'g'] {
        contains(cl, seq!['`', '`', '`'] + vl)
    } else {
        contains(pl, vl) || contains(cl, vl)
    }
}

/// Whether a `-field:value` filter admits a lowercased path and content.
pub open spec fn negated_filter_ok(f: Seq<char>, v: Seq<char>, pl: Seq<char>, cl: Seq<char>) -> bool {
    let vl = lowercase(v);
    if f == seq!['p', 'a', 't', 'h'] || f == seq!['d', 'i', 'r'] {
        !contains(pl, vl)
    } else {
        !contains(pl, vl) && !contains(cl, vl)
    }
}

/// Whether a file path and its content satisfy the filters, negations and phrases of `q`.
pub open spec fn matches_filters_spec(q: QueryView, path: Seq<char>, content: Seq<char>) -> bool {
    let pl = lowercase(path);
    let cl = lowercase(content);
    &&& forall|i: int|
        0 <= i < q.field_filters.len() ==> field_filter_ok(
            (#[trigger] q.field_filters[i]).0,
            q.field_filters[i].1,
            pl,
            cl,
        )
    &&& forall|i: int|
        0 <= i < q.negated_filters.len() ==> negated_filter_ok(
            (#[trigger] q.negated_filters[i]).0,
            q.negated_filters[i].1,
            pl,
            cl,
        )
    &&& forall|i: int|
        0 <= i < q.negated_terms.len() ==> !contains(cl, lowercase(#[trigger] q.negated_terms[i]))
            && !contains(pl, lowercase(q.negated_terms[i]))
    &&& forall|i: int|
        0 <= i < q.exact_phrases.len() ==> contains(cl, lowercase(#[trigger] q.exact_phrases[i]))
            || contains(pl, lowercase(q.exact_phrases[i]))
}

/// Start and end of `s[lo..hi]` with non-alphanumeric characters trimmed from both ends.
pub fn trim_non_alnum_range(s: &[char], lo: usize, hi: usize) -> (r: (usize, usize))
    requires
        lo <= hi <= s.len(),
    ensures
        lo <= r.0 <= r.1 <= hi,
        s@.subrange(r.0 as int, r.1 as int) == trim_non_alnum(s@.subrange(lo as int, hi as int)),
{
    let ghost t = s@.subrange(lo as int, hi as int);
    let mut a = lo;
    while a < hi && !is_alphanumeric(s[a])
        invariant
            lo <= a <= hi <= s.len(),
            t == s@.subrange(lo as int, hi as int),
            alnum_start(t, 0) == alnum_start(t, a - lo),
        decreases hi - a,
    {
        a += 1;
    }
    let mut b = hi;
    while b > a && !is_alphanumeric(s[b - 1])
        invariant
            lo <= a <= b <= hi <= s.len(),
            t == s@.subrange(lo as int, hi as int),
            alnum_end(t, t.len() as int) == alnum_end(t, b - lo),
        decreases b - a,
    {
        b -= 1;
    }
    proof {
        if b == a {
            // Everything was trimmed: the end scan stops at or before the start scan.
            lemma_alnum_end_le(t, a - lo, b - lo);
        }
    }
    if a < b {
        assert(t.subrange(a - lo, b - lo) =~= s@.subrange(a as int, b as int));
        (a, b)
    } else {
        assert(s@.subrange(a as int, a as int) =~= Seq::<char>::empty());
        (a, a)
    }
}

/// When `t[..j]` has no alphanumeric character after `i`, the end scan from `j` stops at
/// or before `i`, and when `t[i]` is alphanumeric the start scan stops at `i`.
proof fn lemma_alnum_end_le(t: Seq<char>, i: int, j: int)
    requires
        0 <= i <= j <= t.len(),
        i == j,
        alnum_start(t, 0) == alnum_start(t, i),
        i < t.len() ==> alphanumeric(t[i]),
    ensures
        alnum_end(t, j) <= alnum_start(t, 0),
    decreases j,
{
    if 0 < j && !alphanumeric(t[j - 1]) {
        lemma_alnum_end_mono(t, j - 1);
    }
}

/// The end scan never moves forward.
proof fn lemma_alnum_end_mono(t: Seq<char>, j: int)
    requires
        0 <= j <= t.len(),
    ensures
        alnum_end(t, j) <= j,
    decreases j,
{
    if 0 < j && !alphanumeric(t[j - 1]) {
        lemma_alnum_end_mono(t, j - 1);
    }
}

/// Files one whitespace-free token into the query.
fn process_token(token: &[char], parsed: &mut ParsedQuery)
    ensures
        final(parsed)@ == process_token_spec(old(parsed)@, token@),
{
    let ghost t = token@;
    if token.len() > 0 && token[0] == '-' {
        let rest = slice_range(token, 1, token.len());
        let p = char_index_from(rest.as_slice(), ':', 0);
        if p < rest.len() {
            let f = slice_range(rest.as_slice(), 0, p);
            let field = string_of(lower_chars(f.as_slice()).as_slice());
            let value = string_of_range(rest.as_slice(), p + 1, rest.len());
            parsed.negated_filters.push((field, value));
            assert(pairs(parsed.negated_filters@) =~= pairs(old(parsed).negated_filters@).push(
                (field@, value@),
            ));
        } else {
            let (a, b) = trim_non_alnum_range(rest.as_slice(), 0, rest.len());
            assert(rest@.subrange(0, rest@.len() as int) =~= rest@);
            let c = lower_chars(slice_range(rest.as_slice(), a, b).as_slice());
            if c.len() > 0 {
                let cs = string_of(c.as_slice());
                parsed.negated_terms.push(cs);
                assert(strs(parsed.negated_terms@) =~= strs(old(parsed).negated_terms@).push(cs@));
            }
        }
    } else {
        let p = char_index_from(token, ':', 0);
        if p < token.len() {
            let f = slice_range(token, 0, p);
            let field = string_of(lower_chars(f.as_slice()).as_slice());
            let value = string_of_range(token, p + 1, token.len());
            parsed.field_filters.push((field, value));
            assert(pairs(parsed.field_filters@) =~= pairs(old(parsed).field_filters@).push(
                (field@, value@),
            ));
        } else {
            let (a, b) = trim_non_alnum_range(token, 0, token.len());
            assert(token@.subrange(0, token@.len() as int) =~= token@);
            let c = lower_chars(slice_range(token, a, b).as_slice());
            if c.len() > 0 {
                let cs = string_of(c.as_slice());
                parsed.positive_terms.push(cs);
                assert(strs(parsed.positive_terms@) =~= strs(old(parsed).positive_terms@).push(
                    cs@,
                ));
            }
        }
    }
}

/// The trimmed pending token.
fn trimmed(cur: &Vec<char>) -> (r: Vec<char>)
    ensures
        r@ == trim(cur@),
{
    let (a, b) = trim_range(cur.as_slice(), 0, cur.len());
    assert(cur@.subrange(0, cur@.len() as int) =~= cur@);
    slice_range(cur.as_slice(), a, b)
}

/// Parses a query string into a structured query.
pub fn parse_query(raw_query: &str) -> (r: ParsedQuery)
    ensures
        r@ == parse_query_spec(raw_query@),
{
    let s = chars_of(raw_query);
    let mut parsed = ParsedQuery {
        raw_query: string_of(s.as_slice()),
        positive_terms: Vec::new(),
        exact_phrases: Vec::new(),
        field_filters: Vec::new(),
        negated_terms: Vec::new(),
        negated_filters: Vec::new(),
    };
    assert(parsed@ =~= parse_state(s@, 0).q);
    let mut cur: Vec<char> = Vec::new();
    let mut in_quote = false;
    let mut i: usize = 0;
    while i < s.len()
        invariant
            i <= s.len(),
            s@ == raw_query@,
            parsed@ == parse_state(s@, i as int).q,
            cur@ == parse_state(s@, i as int).cur,
            in_quote == parse_state(s@, i as int).in_quote,
        decreases s.len() - i,
    {
        let ch = s[i];
        if ch == '"' {
            let t = trimmed(&cur);
            if in_quote {
                if t.len() > 0 {
                    let ts = string_of(t.as_slice());
                    parsed.exact_phrases.push(ts);
                    assert(strs(parsed.exact_phrases@) =~= parse_state(s@, i as int).q.exact_phrases.push(
                        t@,
                    ));
                }
                cur = Vec::new();
                in_quote = false;
            } else {
                if t.len() > 0 {
                    process_token(t.as_slice(), &mut parsed);
                    cur = Vec::new();
                }
                in_quote = true;
            }
        } else if is_whitespace(ch) && !in_quote {
            let t = trimmed(&cur);
            if t.len() > 0 {
                process_token(t.as_slice(), &mut parsed);
                cur = Vec::new();
            }
        } else {
            cur.push(ch);
        }
        assert(cur@ =~= parse_state(s@, i + 1).cur);
        assert(parsed@ =~= parse_state(s@, i + 1).q);
        i += 1;
    }
    let t = trimmed(&cur);
    if t.len() > 0 {
        if in_quote {
            let ts = string_of(t.as_slice());
            parsed.exact_phrases.push(ts);
            assert(strs(parsed.exact_phrases@) =~= parse_state(s@, s@.len() as int).q.exact_phrases.push(
                t@,
            ));
        } else {
            process_token(t.as_slice(), &mut parsed);
        }
    }
    assert(parsed@ =~= parse_query_spec(raw_query@));
    parsed
}

/// Whether a filter's field is `path` or `dir`.
fn is_path_field(f: &[char]) -> (r: bool)
    ensures
        r == (f@ == seq!['p', 'a', 't', 'h'] || f@ == seq!['d', 'i', 'r']),
{
    proof {
        reveal_strlit("path");
        reveal_strlit("dir");
        assert("path"@ =~= seq!['p', 'a', 't', 'h']);
        assert("dir"@ =~= seq!['d', 'i', 'r']);
    }
    chars_eq_str(f, "path") || chars_eq_str(f, "dir")
}

/// Whether one `field:value` filter admits the lowercased path and content.
fn field_filter_admits(f: &String, v: &String, pl: &[char], cl: &[char]) -> (r: bool)
    ensures
        r == field_filter_ok(f@, v@, pl@, cl@),
{
    let fc = chars_of(f.as_str());
    let vl = lower_chars(chars_of(v.as_str()).as_slice());
    proof {
        reveal_strlit("ext");
        reveal_strlit("lang");
        assert("ext"@ =~= seq!['e', 'x', 't']);
        assert("lang"@ =~= seq!['l', 'a', 'n', 'g']);
    }
    if is_path_field(fc.as_slice()) {
        contains_chars(pl, vl.as_slice())
    } else if chars_eq_str(fc.as_slice(), "ext") {
        let mut k: usize = 0;
        assert(vl@.subrange(0, vl@.len() as int) =~= vl@);
        while k < vl.len() && vl[k] == '.'
            invariant
                k <= vl.len(),
                skip_dots(vl@) == skip_dots(vl@.subrange(k as int, vl@.len() as int)),
            decreases vl.len() - k,
        {
            assert(vl@.subrange(k as int, vl@.len() as int).subrange(1, vl@.len() - k) =~= vl@.subrange(
                k + 1,
                vl@.len() as int,
            ));
            k += 1;
        }
        let mut suffix: Vec<char> = Vec::new();
        suffix.push('.');
        let mut j = k;
        while j < vl.len()
            invariant
                k <= j <= vl.len(),
                suffix@ == seq!['.'] + vl@.subrange(k as int, j as int),
            decreases vl.len() - j,
        {
            suffix.push(vl[j]);
            j += 1;
            assert(suffix@ =~= seq!['.'] + vl@.subrange(k as int, j as int));
        }
        assert(skip_dots(vl@.subrange(k as int, vl@.len() as int)) == vl@.subrange(
            k as int,
            vl@.len() as int,
        ));
        ends_with_chars(pl, suffix.as_slice())
    } else if chars_eq_str(fc.as_slice(), "lang") {
        let mut pat: Vec<char> = Vec::new();
        pat.push('`');
        pat.push('`');
        pat.push('`');
        let mut j: usize = 0;
        while j < vl.len()
            invariant
                j <= vl.len(),
                pat@ == seq!['`', '`', '`'] + vl@.subrange(0, j as int),
            decreases vl.len() - j,
        {
            pat.push(vl[j]);
            j += 1;
            assert(pat@ =~= seq!['`', '`', '`'] + vl@.subrange(0, j as int));
        }
        assert(vl@.subrange(0, vl@.len() as int) =~= vl@);
        contains_chars(cl, pat.as_slice())
    } else {
        contains_chars(pl, vl.as_slice()) || contains_chars(cl, vl.as_slice())
    }
}

/// Whether one `-field:value` filter admits the lowercased path and content.
fn negated_filter_admits(f: &String, v: &String, pl: &[char], cl: &[char]) -> (r: bool)
    ensures
        r == negated_filter_ok(f@, v@, pl@, cl@),
{
    let fc = chars_of(f.as_str());
    let vl = lower_chars(chars_of(v.as_str()).as_slice());
    if is_path_field(fc.as_slice()) {
        !contains_chars(pl, vl.as_slice())
    } else {
        !contains_chars(pl, vl.as_slice()) && !contains_chars(cl, vl.as_slice())
    }
}

impl ParsedQuery {
    /// Whether the query has no terms, phrases or filters.
    pub fn is_empty(&self) -> (r: bool)
        ensures
            r == (self@.positive_terms.len() == 0 && self@.exact_phrases.len() == 0
                && self@.field_filters.len() == 0 && self@.negated_terms.len() == 0
                && self@.negated_filters.len() == 0),
    {
        self.positive_terms.len() == 0 && self.exact_phrases.len() == 0
            && self.field_filters.len() == 0 && self.negated_terms.len() == 0
            && self.negated_filters.len() == 0
    }

    /// Evaluates whether a file path and its text match the field filters, negated
    /// exclusions and exact phrases of the query.
    pub fn matches_filters(&self, file_path_str: &str, content: &str) -> (r: bool)
        ensures
            r == matches_filters_spec(self@, file_path_str@, content@),
    {
        let pl = lower_chars(chars_of(file_path_str).as_slice());
        let cl = lower_chars(chars_of(content).as_slice());
        let ghost q = self@;
        let mut i: usize = 0;
        while i < self.field_filters.len()
            invariant
                i <= self.field_filters.len(),
                q == self@,
                pl@ == lowercase(file_path_str@),
                cl@ == lowercase(content@),
                forall|j: int|
                    0 <= j < i ==> field_filter_ok(
                        (#[trigger] q.field_filters[j]).0,
                        q.field_filters[j].1,
                        pl@,
                        cl@,
                    ),
            decreases self.field_filters.len() - i,
        {
            let (f, v) = &self.field_filters[i];
            if !field_filter_admits(f, v, pl.as_slice(), cl.as_slice()) {
                assert(!field_filter_ok(q.field_filters[i as int].0, q.field_filters[i as int].1, pl@, cl@));
                return false;
            }
            i += 1;
        }
        let mut i: usize = 0;
        while i < self.negated_filters.len()
            invariant
                i <= self.negated_filters.len(),
                q == self@,
                pl@ == lowercase(file_path_str@),
                cl@ == lowercase(content@),
                forall|j: int|
                    0 <= j < i ==> negated_filter_ok(
                        (#[trigger] q.negated_filters[j]).0,
                        q.negated_filters[j].1,
                        pl@,
                        cl@,
                    ),
            decreases self.negated_filters.len() - i,
        {
            let (f, v) = &self.negated_filters[i];
            if !negated_filter_admits(f, v, pl.as_slice(), cl.as_slice()) {
                assert(!negated_filter_ok(q.negated_filters[i as int].0, q.negated_filters[i as int].1, pl@, cl@));
                return false;
            }
            i += 1;
        }
        let mut i: usize = 0;
        while i < self.negated_terms.len()
            invariant
                i <= self.negated_terms.len(),
                q == self@,
                pl@ == lowercase(file_path_str@),
                cl@ == lowercase(content@),
                forall|j: int|
                    0 <= j < i ==> !contains(cl@, lowercase(#[trigger] q.negated_terms[j]))
                        && !contains(pl@, lowercase(q.negated_terms[j])),
            decreases self.negated_terms.len() - i,
        {
            let nl = lower_chars(chars_of(self.negated_terms[i].as_str()).as_slice());
            if contains_chars(cl.as_slice(), nl.as_slice()) || contains_chars(
                pl.as_slice(),
                nl.as_slice(),
            ) {
                assert(q.negated_terms[i as int] == self.negated_terms@[i as int]@);
                return false;
            }
            i += 1;
        }
        let mut i: usize = 0;
        while i < self.exact_phrases.len()
            invariant
                i <= self.exact_phrases.len(),
                q == self@,
                pl@ == lowercase(file_path_str@),
                cl@ == lowercase(content@),
                forall|j: int|
                    0 <= j < i ==> contains(cl@, lowercase(#[trigger] q.exact_phrases[j]))
                        || contains(pl@, lowercase(q.exact_phrases[j])),
            decreases self.exact_phrases.len() - i,
        {
            let xl = lower_chars(chars_of(self.exact_phrases[i].as_str()).as_slice());
            if !contains_chars(cl.as_slice(), xl.as_slice()) && !contains_chars(
                pl.as_slice(),
                xl.as_slice(),
            ) {
                assert(q.exact_phrases[i as int] == self.exact_phrases@[i as int]@);
                return false;
            }
            i += 1;
        }
        true
    }
}

/// The free terms and the raw text of a query never decide whether a file passes its
/// filters: two queries that differ only there filter alike.
pub proof fn law_free_terms_never_exclude(
    q: QueryView,
    raw: Seq<char>,
    terms: Seq<Seq<char>>,
    path: Seq<char>,
    content: Seq<char>,
)
    ensures
        matches_filters_spec(QueryView { raw_query: raw, positive_terms: terms, ..q }, path, content)
            == matches_filters_spec(q, path, content),
{
    let q2 = QueryView { raw_query: raw, positive_terms: terms, ..q };
    lemma_same_filters(q, q2, path, content);
    lemma_same_filters(q2, q, path, content);
}

/// Queries with the same filters, negations and phrases filter alike.
proof fn lemma_same_filters(q1: QueryView, q2: QueryView, path: Seq<char>, content: Seq<char>)
    requires
        q1.field_filters == q2.field_filters,
        q1.negated_filters == q2.negated_filters,
        q1.negated_terms == q2.negated_terms,
        q1.exact_phrases == q2.exact_phrases,
    ensures
        matches_filters_spec(q1, path, content) ==> matches_filters_spec(q2, path, content),
{
    let pl = lowercase(path);
    let cl = lowercase(content);
    if matches_filters_spec(q1, path, content) {
        assert forall|i: int| 0 <= i < q2.field_filters.len() implies field_filter_ok(
            (#[trigger] q2.field_filters[i]).0,
            q2.field_filters[i].1,
            pl,
            cl,
        ) by {
            assert(q1.field_filters[i] == q2.field_filters[i]);
        }
        assert forall|i: int| 0 <= i < q2.negated_filters.len() implies negated_filter_ok(
            (#[trigger] q2.negated_filters[i]).0,
            q2.negated_filters[i].1,
            pl,
            cl,
        ) by {
            assert(q1.negated_filters[i] == q2.negated_filters[i]);
        }
        assert forall|i: int| 0 <= i < q2.negated_terms.len() implies !contains(cl, lowercase(#[trigger] q2.negated_terms[i]))
            && !contains(pl, lowercase(q2.negated_terms[i])) by {
            assert(q1.negated_terms[i] == q2.negated_terms[i]);
        }
        assert forall|i: int| 0 <= i < q2.exact_phrases.len() implies contains(cl, lowercase(#[trigger] q2.exact_phrases[i]))
            || contains(pl, lowercase(q2.exact_phrases[i])) by {
            assert(q1.exact_phrases[i] == q2.exact_phrases[i]);
        }
    }
}

/// A query that holds nothing but the field filter `f:v`.
pub open spec fn only_field_filter(f: Seq<char>, v: Seq<char>) -> QueryView {
    QueryView {
        raw_query: seq![],
        positive_terms: seq![],
        exact_phrases: seq![],
        field_filters: seq![(f, v)],
        negated_terms: seq![],
        negated_filters: seq![],
    }
}

/// What each field filter demands of a file, case-insensitively: `path:v` and `dir:v` that
/// the path holds `v`, `ext:v` that the path ends with `.` and `v` (leading dots of `v`
/// dropped), and `lang:v` that the content holds a code fence "```v". A file passes a
/// query only if it meets each of its field filters, and meets a lone filter exactly when
/// it meets that demand.
pub proof fn law_field_filters_demand_what_they_name(q: QueryView, path: Seq<char>, content: Seq<char>, f: Seq<char>, v: Seq<char>)
    ensures
        ({
            let pl = lowercase(path);
            let cl = lowercase(content);
            let vl = lowercase(v);
            let demand = if f == seq!['p', 'a', 't', 'h'] || f == seq!['d', 'i', 'r'] {
                contains(pl, vl)
            } else if f == seq!['e', 'x', 't'] {
                ends_with(pl, seq!['.'] + skip_dots(vl))
            } else if f == seq!['l', 'a', 'n', 'g'] {
                contains(cl, seq!['`', '`', '`'] + vl)
            } else {
                contains(pl, vl) || contains(cl, vl)
            };
            &&& (q.field_filters.contains((f, v)) && matches_filters_spec(q, path, content)) ==> demand
            &&& matches_filters_spec(only_field_filter(f, v), path, content) == demand
        }),
{
    if q.field_filters.contains((f, v)) && matches_filters_spec(q, path, content) {
        let i = choose|i: int| 0 <= i < q.field_filters.len() && q.field_filters[i] == (f, v);
        assert(field_filter_ok(q.field_filters[i].0, q.field_filters[i].1, lowercase(path), lowercase(content)));
    }
    let q1 = only_field_filter(f, v);
    assert(q1.field_filters[0] == (f, v));
}

/// What negations and phrases demand of a file that passes a query, case-insensitively:
/// a `-path:v` or `-dir:v` filter that the path lacks `v`, any other `-field:v` filter
/// that neither the path nor the content holds `v`, a `-term` that neither holds the term,
/// and a quoted phrase that the content or the path holds it.
pub proof fn law_negations_and_phrases_demand(q: QueryView, path: Seq<char>, content: Seq<char>, f: Seq<char>, v: Seq<char>, t: Seq<char>)
    requires
        matches_filters_spec(q, path, content),
    ensures
        ({
            let pl = lowercase(path);
            let cl = lowercase(content);
            &&& q.negated_filters.contains((f, v)) ==> if f == seq!['p', 'a', 't', 'h'] || f == seq!['d', 'i', 'r'] {
                !contains(pl, lowercase(v))
            } else {
                !contains(pl, lowercase(v)) && !contains(cl, lowercase(v))
            }
            &&& q.negated_terms.contains(t) ==> !contains(cl, lowercase(t)) && !contains(pl, lowercase(t))
            &&& q.exact_phrases.contains(t) ==> contains(cl, lowercase(t)) || contains(pl, lowercase(t))
        }),
{
    if q.negated_filters.contains((f, v)) {
        let i = choose|i: int| 0 <= i < q.negated_filters.len() && q.negated_filters[i] == (f, v);
        assert(negated_filter_ok(q.negated_filters[i].0, q.negated_filters[i].1, lowercase(path), lowercase(content)));
    }
    if q.negated_terms.contains(t) {
        let i = choose|i: int| 0 <= i < q.negated_terms.len() && q.negated_terms[i] == t;
        assert(q.negated_terms[i] == t);
    }
    if q.exact_phrases.contains(t) {
        let i = choose|i: int| 0 <= i < q.exact_phrases.len() && q.exact_phrases[i] == t;
        assert(q.exact_phrases[i] == t);
    }
}

} // verus!
