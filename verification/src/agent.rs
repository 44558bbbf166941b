//! Document statistics, frontmatter handling and token-thrifty cleaning.
use crate::markdown::{markdown_events, parse_markdown, EventKind, MdEvent, MdEventView, TagKind, EXTENDED_OPTIONS};
use crate::text::{
    char_from, char_index_from, chars_eq_str, chars_of, lemma_find_found, lemma_lines_count,
    lemma_newlines_concat, lemma_newlines_none, newlines, strip_cr, contains, contains_str, count_words, find,
    find_chars, is_whitespace, is_ws, join, lemma_char_from_bounds, lemma_find_bound,
    lemma_lines_len_bound, lemma_lines_of_prefix_bound, lemma_skip_ws_bound, line_count,
    line_ranges, lines, lines_from, lower_chars, lowercase, push_chars, skip_ws_from, starts_with,
    starts_with_str, string_of, trim, trim_chars, trim_end, trim_end_from, trim_range, trim_start,
    word_count,
};
use vstd::prelude::*;
use vstd::string::*;

verus! {

/// Line, word and character counts of a document, with a token estimate.
#[derive(Debug, Clone, PartialEq, Eq)]
pub struct DocumentStats {
    pub lines: usize,
    pub words: usize,
    pub characters: usize,
    pub estimated_tokens: usize,
}

/// The token estimate: one token per started group of four characters.
pub open spec fn tokens_for(chars: nat) -> nat {
    if chars % 4 == 0 {
        chars / 4
    } else {
        chars / 4 + 1
    }
}

/// `ceil(n / 4)` without overflow.
pub fn tokens_for_chars(n: usize) -> (r: usize)
    ensures
        r == tokens_for(n as nat),
        r <= n,
{
    n / 4 + if n % 4 != 0 {
        1
    } else {
        0
    }
}

/// Statistics of a character sequence.
pub fn stats_of_chars(cs: &[char]) -> (r: DocumentStats)
    ensures
        r.lines == lines(cs@).len(),
        r.words == word_count(cs@),
        r.characters == cs@.len(),
        r.estimated_tokens == tokens_for(cs@.len()),
{
    let n = cs.len();
    DocumentStats {
        lines: line_count(cs),
        words: count_words(cs),
        characters: n,
        estimated_tokens: tokens_for_chars(n),
    }
}

/// Calculates metadata stats and token estimates for a document.
pub fn calculate_stats(input: &str) -> (r: DocumentStats)
    ensures
        r.lines == lines(input@).len(),
        r.words == word_count(input@),
        r.characters == input@.len(),
        r.estimated_tokens == tokens_for(input@.len()),
{
    let cs = chars_of(input);
    stats_of_chars(cs.as_slice())
}

// ---------------------------------------------------------------------------
// Frontmatter
// ---------------------------------------------------------------------------

/// The opening fence of a frontmatter block made of `c`.
pub open spec fn fence3(c: char) -> Seq<char> {
    seq![c, c, c]
}

/// The closing fence of a frontmatter block made of `c`, with the newline before it.
pub open spec fn close_fence(c: char) -> Seq<char> {
    seq!['\n', c, c, c]
}

/// The fence character that `t` opens with: YAML (`---`) first, then TOML (`+++`).
pub open spec fn fence_char(t: Seq<char>) -> Option<char> {
    if starts_with(t, fence3('-')) {
        Some('-')
    } else if starts_with(t, fence3('+')) {
        Some('+')
    } else {
        None
    }
}

/// Where the closing fence starts in `t[3..]`, if `t` opens a frontmatter block.
pub open spec fn frontmatter_close(t: Seq<char>) -> Option<int> {
    match fence_char(t) {
        Some(c) => find(t.subrange(3, t.len() as int), close_fence(c)),
        None => None,
    }
}

/// Number of lines from index `i` on that are blank once trimmed, until the first non-blank one.
pub open spec fn blank_lines_from(ls: Seq<Seq<char>>, i: int) -> nat
    decreases ls.len() - i,
{
    if 0 <= i < ls.len() && trim(ls[i]).len() == 0 {
        1 + blank_lines_from(ls, i + 1)
    } else {
        0
    }
}

/// Number of lines of `s` that a leading frontmatter block takes, blank lines before it included.
pub open spec fn frontmatter_lines(s: Seq<char>) -> nat {
    let t = trim_start(s);
    match frontmatter_close(t) {
        Some(e) => blank_lines_from(lines(s), 0) + lines(t.subrange(0, 3 + e + 4)).len(),
        None => 0,
    }
}

/// `n`, or `usize::MAX` when `n` does not fit.
pub open spec fn cap_usize(n: nat) -> nat {
    if n > usize::MAX {
        usize::MAX as nat
    } else {
        n
    }
}

/// `b` without one leading line break (`"\r\n"` or `"\n"`).
pub open spec fn drop_line_break(b: Seq<char>) -> Seq<char> {
    if starts_with(b, seq!['\r', '\n']) {
        b.subrange(2, b.len() as int)
    } else if starts_with(b, seq!['\n']) {
        b.subrange(1, b.len() as int)
    } else {
        b
    }
}

/// `s` without its leading frontmatter block; `s` itself when it has none.
pub open spec fn without_frontmatter(s: Seq<char>) -> Seq<char> {
    let t = trim_start(s);
    match frontmatter_close(t) {
        Some(e) => drop_line_break(t.subrange(3 + e + 4, t.len() as int)),
        None => s,
    }
}

/// Stripping frontmatter keeps a suffix of the document: the body is the document's text
/// from some point on.
pub proof fn law_stripped_body_is_suffix(s: Seq<char>)
    ensures
        exists|k: int| 0 <= k <= s.len() && without_frontmatter(s) == s.subrange(k, s.len() as int),
{
    let p = skip_ws_from(s, 0);
    lemma_skip_ws_bound(s, 0);
    let t = trim_start(s);
    match frontmatter_close(t) {
        None => {
            assert(without_frontmatter(s) == s.subrange(0, s.len() as int));
        },
        Some(e) => {
            let c = fence_char(t).unwrap();
            let tail = t.subrange(3, t.len() as int);
            lemma_find_bound(tail, close_fence(c), 0);
            let h = 3 + e + 4;
            let rest = t.subrange(h, t.len() as int);
            let d: int = if starts_with(rest, seq!['\r', '\n']) {
                2
            } else if starts_with(rest, seq!['\n']) {
                1
            } else {
                0
            };
            assert(without_frontmatter(s) =~= s.subrange(p + h + d, s.len() as int));
        },
    }
}

/// The frontmatter count is 0 exactly when stripping the frontmatter leaves the text as
/// it is.
pub proof fn law_frontmatter_count_zero_iff_unchanged(s: Seq<char>)
    ensures
        (frontmatter_lines(s) == 0) <==> (without_frontmatter(s) == s),
{
    law_stripped_body_is_suffix(s);
    lemma_skip_ws_bound(s, 0);
    let t = trim_start(s);
    match frontmatter_close(t) {
        None => {},
        Some(e) => {
            let c = fence_char(t).unwrap();
            let tail = t.subrange(3, t.len() as int);
            lemma_find_bound(tail, close_fence(c), 0);
            let h = 3 + e + 4;
            let header = t.subrange(0, h);
            assert(header.len() > 0);
            assert(lines(header).len() > 0) by {
                lemma_char_from_bounds(header, '\n', 0);
            }
            let rest = t.subrange(h, t.len() as int);
            assert(without_frontmatter(s).len() <= rest.len());
            assert(rest.len() < s.len());
        },
    }
}

/// Whether a frontmatter block, where there is one, ends with its line: its closing fence
/// is followed by a line break or by the end of the text.
pub open spec fn closed_by_line(s: Seq<char>) -> bool {
    let t = trim_start(s);
    match frontmatter_close(t) {
        Some(e) => {
            let rest = t.subrange(3 + e + 4, t.len() as int);
            rest.len() == 0 || starts_with(rest, seq!['\n']) || starts_with(rest, seq!['\r', '\n'])
        },
        None => true,
    }
}

/// Where the last line of `w` starts: just after its last newline, or at 0.
pub open spec fn last_line_start(w: Seq<char>) -> int
    decreases w.len(),
{
    if w.len() == 0 {
        0
    } else if w.last() == '\n' {
        w.len() as int
    } else {
        last_line_start(w.drop_last())
    }
}

proof fn lemma_last_line_start(w: Seq<char>)
    ensures
        0 <= last_line_start(w) <= w.len(),
        last_line_start(w) > 0 ==> w[last_line_start(w) - 1] == '\n',
        forall|j: int| last_line_start(w) <= j < w.len() ==> w[j] != '\n',
    decreases w.len(),
{
    if w.len() > 0 && w.last() != '\n' {
        let v = w.drop_last();
        lemma_last_line_start(v);
        assert forall|j: int| last_line_start(w) <= j < w.len() implies w[j] != '\n' by {
            if j < v.len() {
                assert(v[j] == w[j]);
            }
        }
        if last_line_start(w) > 0 {
            assert(v[last_line_start(w) - 1] == w[last_line_start(w) - 1]);
        }
    }
}

/// Text made of whitespace only trims to nothing.
proof fn lemma_ws_trims_empty(x: Seq<char>)
    requires
        forall|j: int| 0 <= j < x.len() ==> is_ws(#[trigger] x[j]),
    ensures
        trim(x).len() == 0,
{
    lemma_skip_ws_from(x, 0);
    assert(skip_ws_from(x, 0) == x.len());
    let e = x.subrange(x.len() as int, x.len() as int);
    assert(trim_start(x) == e);
    assert(trim_end_from(e, 0) == 0);
}

/// The lines of text made of whitespace only are blank.
proof fn lemma_ws_lines_blank(s: Seq<char>, a: int)
    requires
        0 <= a,
        forall|j: int| 0 <= j < s.len() ==> is_ws(#[trigger] s[j]),
    ensures
        forall|i: int| 0 <= i < lines_from(s, a).len() ==> trim(#[trigger] lines_from(s, a)[i]).len() == 0,
    decreases s.len() - a,
{
    if a < s.len() {
        let k = char_from(s, '\n', a);
        lemma_char_from_bounds(s, '\n', a);
        if k < s.len() {
            let l = strip_cr(s.subrange(a, k));
            assert forall|j: int| 0 <= j < l.len() implies is_ws(#[trigger] l[j]) by {
                assert(l[j] == s[a + j]);
            }
            lemma_ws_trims_empty(l);
            lemma_ws_lines_blank(s, k + 1);
            assert(lines_from(s, a) == seq![l] + lines_from(s, k + 1));
            assert forall|i: int| 0 <= i < lines_from(s, a).len() implies trim(#[trigger] lines_from(s, a)[i]).len()
                == 0 by {
                if i > 0 {
                    assert(lines_from(s, a)[i] == lines_from(s, k + 1)[i - 1]);
                }
            }
        } else {
            let l = s.subrange(a, s.len() as int);
            assert forall|j: int| 0 <= j < l.len() implies is_ws(#[trigger] l[j]) by {
                assert(l[j] == s[a + j]);
            }
            lemma_ws_trims_empty(l);
        }
    }
}

/// Blank lines from `i` up to a non-blank line `k` count `k - i`.
proof fn lemma_blank_run(ls: Seq<Seq<char>>, i: int, k: int)
    requires
        0 <= i <= k < ls.len(),
        forall|j: int| i <= j < k ==> trim(#[trigger] ls[j]).len() == 0,
        trim(ls[k]).len() > 0,
    ensures
        blank_lines_from(ls, i) == k - i,
    decreases k - i,
{
    if i < k {
        lemma_blank_run(ls, i + 1, k);
    }
}

/// A line of text up to a non-whitespace, non-newline character keeps that character: the
/// first line of such a text is not blank.
proof fn lemma_first_line_not_blank(u: Seq<char>, i: int)
    requires
        0 <= i < u.len(),
        forall|j: int| 0 <= j < i ==> u[j] != '\n',
        !is_ws(u[i]),
        u[i] != '\n',
        u[i] != '\r',
    ensures
        lines(u).len() > 0,
        trim(lines(u)[0]).len() > 0,
{
    lemma_char_from_bounds(u, '\n', 0);
    let k0 = char_from(u, '\n', 0);
    assert(k0 > i);
    let l0 = if k0 < u.len() {
        strip_cr(u.subrange(0, k0))
    } else {
        u.subrange(0, u.len() as int)
    };
    assert(lines(u)[0] == l0);
    assert(l0[i] == u[i]);
    crate::text::lemma_trim_keeps(l0, i);
}

/// A frontmatter block (after the spaces that open its line) and its line break span as
/// many lines as the block alone.
proof fn lemma_fence_lines_count(w2: Seq<char>, header: Seq<char>, br: Seq<char>)
    requires
        forall|j: int| 0 <= j < w2.len() ==> w2[j] != '\n',
        header.len() > 0,
        header.last() != '\n',
        br == Seq::<char>::empty() || br == seq!['\n'] || br == seq!['\r', '\n'],
    ensures
        lines(w2 + header + br).len() == lines(header).len(),
{
    let p = w2 + header + br;
    lemma_newlines_none(w2);
    lemma_newlines_concat(w2, header);
    lemma_newlines_concat(w2 + header, br);
    lemma_lines_count(header);
    lemma_lines_count(p);
    assert(newlines(seq!['\n']) == 1) by {
        let one = seq!['\n'];
        assert(one.drop_last() =~= Seq::<char>::empty());
        assert(newlines(one.drop_last()) == 0);
        assert(one.last() == '\n');
    }
    assert(newlines(seq!['\r', '\n']) == 1) by {
        let two = seq!['\r', '\n'];
        let cr = seq!['\r'];
        assert(cr.drop_last() =~= Seq::<char>::empty());
        assert(newlines(cr.drop_last()) == 0);
        assert(cr.last() == '\r');
        assert(newlines(cr) == 0);
        assert(two.drop_last() =~= cr);
        assert(two.last() == '\n');
    }
    assert(newlines(Seq::<char>::empty()) == 0);
    if br.len() > 0 {
        assert(p.last() == '\n');
    } else {
        assert(p =~= w2 + header);
        assert(p.last() == header.last());
    }
}

/// In a document whose frontmatter block, if any, ends with its line, the frontmatter line
/// count is exactly the number of lines stripped: skipping that many lines of the document
/// gives the lines of the stripped text.
#[verifier::spinoff_prover]
#[verifier::rlimit(40)]
pub proof fn law_frontmatter_count_skips_stripped_lines(s: Seq<char>)
    requires
        closed_by_line(s),
    ensures
        lines(s).skip(frontmatter_lines(s) as int) == lines(without_frontmatter(s)),
{
    let a = skip_ws_from(s, 0);
    lemma_skip_ws_from(s, 0);
    let t = trim_start(s);
    match frontmatter_close(t) {
        None => {
            assert(lines(s).skip(0) =~= lines(s));
        },
        Some(e) => {
            let c = fence_char(t).unwrap();
            let tail = t.subrange(3, t.len() as int);
            lemma_find_bound(tail, close_fence(c), 0);
            lemma_find_found(tail, close_fence(c), 0);
            let h = 3 + e + 4;
            let header = t.subrange(0, h);
            let rest = t.subrange(h, t.len() as int);
            let body = without_frontmatter(s);
            assert(tail.subrange(e, e + 4) == close_fence(c));
            assert(header.last() == tail.subrange(e, e + 4)[3]);
            assert(header.last() == c);
            assert(t.subrange(0, 3) == fence3(c));
            assert(header[0] == c);
            assert(c == '-' || c == '+');
            let w = s.subrange(0, a);
            let k = last_line_start(w);
            lemma_last_line_start(w);
            let w1 = w.subrange(0, k);
            let w2 = w.subrange(k, a);
            let u = w2 + t;
            assert(s =~= w1 + u);
            assert(t =~= header + rest);
            // the stripped text follows the frontmatter's last line break
            let br: Seq<char> = if starts_with(rest, seq!['\r', '\n']) {
                seq!['\r', '\n']
            } else if starts_with(rest, seq!['\n']) {
                seq!['\n']
            } else {
                seq![]
            };
            assert(rest =~= br + body);
            let p = w2 + header + br;
            assert(u =~= p + body);
            // the lines of the frontmatter part
            assert forall|j: int| 0 <= j < w2.len() implies w2[j] != '\n' by {
                assert(w2[j] == w[k + j]);
            }
            lemma_fence_lines_count(w2, header, br);
            if br.len() > 0 {
                assert(p.last() == '\n');
                crate::text::lemma_lines_concat(p, body);
            } else {
                assert(body.len() == 0);
                assert(u =~= p);
                assert(lines(body) =~= Seq::<Seq<char>>::empty());
            }
            assert(lines(u) == lines(p) + lines(body));
            // the first line of `u` holds the opening fence
            assert(u[w2.len() as int] == c);
            assert forall|j: int| 0 <= j < w2.len() implies u[j] != '\n' by {
                assert(u[j] == w2[j]);
            }
            lemma_first_line_not_blank(u, w2.len() as int);
            let l0 = lines(u)[0];
            // the blank lines before it
            assert forall|j: int| 0 <= j < w1.len() implies is_ws(#[trigger] w1[j]) by {
                assert(w1[j] == s[j]);
            }
            lemma_ws_lines_blank(w1, 0);
            let ls = lines(s);
            if k > 0 {
                assert(w1.last() == '\n');
                crate::text::lemma_lines_concat(w1, u);
            } else {
                assert(s =~= u);
                assert(lines(w1) =~= Seq::<Seq<char>>::empty());
                assert(ls =~= lines(w1) + lines(u));
            }
            let n1 = lines(w1).len() as int;
            assert forall|j: int| 0 <= j < n1 implies trim(#[trigger] ls[j]).len() == 0 by {
                assert(ls[j] == lines(w1)[j]);
            }
            assert(ls[n1] == l0);
            lemma_blank_run(ls, 0, n1);
            assert(frontmatter_lines(s) == n1 + lines(header).len());
            assert(ls =~= lines(w1) + lines(p) + lines(body));
            assert(ls.skip(frontmatter_lines(s) as int) =~= lines(body));
        },
    }
}

/// Where the frontmatter of `s` lies: the start of the trimmed text and the close index.
fn locate_frontmatter(s: &[char]) -> (r: (usize, Option<usize>))
    ensures
        r.0 == skip_ws_from(s@, 0),
        r.0 <= s.len(),
        r.1 matches Some(e) ==> frontmatter_close(trim_start(s@)) == Some(e as int) && r.0 + 3 + e
            + 4 <= s.len(),
        r.1 is None ==> frontmatter_close(trim_start(s@)) is None,
{
    let (a, _) = trim_range(s, 0, s.len());
    let ghost t = trim_start(s@);
    proof {
        assert(s@.subrange(0, s.len() as int) =~= s@);
        lemma_skip_ws_bound(s@, 0);
    }
    let mut a: usize = 0;
    while a < s.len() && is_whitespace(s[a])
        invariant
            a <= s.len(),
            skip_ws_from(s@, 0) == skip_ws_from(s@, a as int),
        decreases s.len() - a,
    {
        a += 1;
    }
    assert(t =~= s@.subrange(a as int, s.len() as int));
    let mut fc: char = '-';
    let mut found = false;
    if s.len() - a >= 3 && s[a] == '-' && s[a + 1] == '-' && s[a + 2] == '-' {
        found = true;
        assert(t.subrange(0, 3) =~= fence3('-'));
    } else if s.len() - a >= 3 && s[a] == '+' && s[a + 1] == '+' && s[a + 2] == '+' {
        found = true;
        fc = '+';
        assert(t.subrange(0, 3) =~= fence3('+'));
        assert(!starts_with(t, fence3('-'))) by {
            if starts_with(t, fence3('-')) {
                assert(t.subrange(0, 3)[0] == '-');
            }
        }
    } else {
        assert(!starts_with(t, fence3('-'))) by {
            if starts_with(t, fence3('-')) {
                assert(t.subrange(0, 3)[0] == '-');
                assert(t.subrange(0, 3)[1] == '-');
                assert(t.subrange(0, 3)[2] == '-');
            }
        }
        assert(!starts_with(t, fence3('+'))) by {
            if starts_with(t, fence3('+')) {
                assert(t.subrange(0, 3)[0] == '+');
                assert(t.subrange(0, 3)[1] == '+');
                assert(t.subrange(0, 3)[2] == '+');
            }
        }
    }
    if !found {
        return (a, None);
    }
    let rest = slice_from(s, a + 3);
    assert(rest@ =~= t.subrange(3, t.len() as int));
    let marker = vec!['\n', fc, fc, fc];
    assert(marker@ =~= close_fence(fc));
    match find_chars(rest.as_slice(), marker.as_slice()) {
        Some(e) => {
            proof {
                lemma_find_bound(rest@, marker@, 0);
            }
            (a, Some(e))
        },
        None => (a, None),
    }
}



/// A copy of `s[a..]`.
pub fn slice_from(s: &[char], a: usize) -> (r: Vec<char>)
    requires
        a <= s.len(),
    ensures
        r@ == s@.subrange(a as int, s.len() as int),
{
    slice_range(s, a, s.len())
}

/// A copy of `s[a..b]`.
pub fn slice_range(s: &[char], a: usize, b: usize) -> (r: Vec<char>)
    requires
        a <= b <= s.len(),
    ensures
        r@ == s@.subrange(a as int, b as int),
{
    let mut r: Vec<char> = Vec::new();
    let mut i = a;
    while i < b
        invariant
            a <= i <= b <= s.len(),
            r@ == s@.subrange(a as int, i as int),
        decreases b - i,
    {
        r.push(s[i]);
        i += 1;
        assert(r@ =~= s@.subrange(a as int, i as int));
    }
    r
}

/// Number of leading lines of `s` that are blank once trimmed.
fn count_leading_blank_lines(s: &[char]) -> (r: usize)
    ensures
        r == blank_lines_from(lines(s@), 0),
{
    let ranges = line_ranges(s);
    let mut i: usize = 0;
    while i < ranges.len()
        invariant
            i <= ranges.len(),
            ranges@.len() == lines(s@).len(),
            forall|j: int|
                0 <= j < ranges@.len() ==> {
                    &&& (#[trigger] ranges@[j]).0 <= ranges@[j].1 <= s.len()
                    &&& s@.subrange(ranges@[j].0 as int, ranges@[j].1 as int) == lines(s@)[j]
                },
            blank_lines_from(lines(s@), 0) == i + blank_lines_from(lines(s@), i as int),
        decreases ranges.len() - i,
    {
        let (lo, hi) = ranges[i];
        let (ta, tb) = trim_range(s, lo, hi);
        if ta != tb {
            return i;
        }
        i += 1;
    }
    i
}

/// Calculates the number of lines taken by a leading frontmatter block.
pub fn get_frontmatter_line_count(input: &str) -> (r: usize)
    ensures
        r == cap_usize(frontmatter_lines(input@)),
{
    let s = chars_of(input);
    let (a, close) = locate_frontmatter(s.as_slice());
    match close {
        Some(e) => {
            let leading = count_leading_blank_lines(s.as_slice());
            let header = slice_range(s.as_slice(), a, a + 3 + e + 4);
            assert(header@ =~= trim_start(s@).subrange(0, 3 + e + 4));
            let n = line_count(header.as_slice());
            proof {
                lemma_blank_lines_bound(lines(s@), 0);
                lemma_lines_len_bound(s@);
                lemma_lines_len_bound(header@);
                lemma_lines_of_prefix_bound(s@, a as int, a + 3 + e + 4);
            }
            leading.saturating_add(n)
        },
        None => 0,
    }
}

/// Strips a YAML (`---`) or TOML (`+++`) frontmatter header from the input text.
pub fn strip_frontmatter(input: &str) -> (r: &str)
    ensures
        r@ == without_frontmatter(input@),
{
    let s = chars_of(input);
    let (a, close) = locate_frontmatter(s.as_slice());
    match close {
        Some(e) => {
            let mut b = a + 3 + e + 4;
            let ghost body = trim_start(s@).subrange(3 + e + 4, s@.len() - a);
            assert(body =~= s@.subrange(b as int, s.len() as int));
            if s.len() - b >= 2 && s[b] == '\r' && s[b + 1] == '\n' {
                assert(body.subrange(0, 2) =~= seq!['\r', '\n']);
                b = b + 2;
            } else if s.len() - b >= 1 && s[b] == '\n' {
                assert(body.subrange(0, 1) =~= seq!['\n']);
                assert(!starts_with(body, seq!['\r', '\n'])) by {
                    if starts_with(body, seq!['\r', '\n']) {
                        assert(body.subrange(0, 2)[0] == '\r');
                    }
                }
                b = b + 1;
            } else {
                assert(!starts_with(body, seq!['\r', '\n'])) by {
                    if starts_with(body, seq!['\r', '\n']) {
                        assert(body.subrange(0, 2)[0] == '\r');
                        assert(body.subrange(0, 2)[1] == '\n');
                    }
                }
                assert(!starts_with(body, seq!['\n'])) by {
                    if starts_with(body, seq!['\n']) {
                        assert(body.subrange(0, 1)[0] == '\n');
                    }
                }
            }
            assert(drop_line_break(body) =~= s@.subrange(b as int, s.len() as int));
            input.substring_char(b, s.len())
        },
        None => input,
    }
}

/// A run of blank lines is no longer than the list of lines.
pub proof fn lemma_blank_lines_bound(ls: Seq<Seq<char>>, i: int)
    requires
        0 <= i <= ls.len(),
    ensures
        blank_lines_from(ls, i) <= ls.len() - i,
    decreases ls.len() - i,
{
    if i < ls.len() && trim(ls[i]).len() == 0 {
        lemma_blank_lines_bound(ls, i + 1);
    }
}




// ---------------------------------------------------------------------------
// Token-thrifty cleaning
// ---------------------------------------------------------------------------

/// Whether a link, image or text names a known badge domain or pattern.
pub open spec fn is_badge(url: Seq<char>) -> bool {
    let l = lowercase(url);
    ||| contains(l, "shields.io"@)
    ||| contains(l, "badge"@)
    ||| contains(l, "workflows/"@)
    ||| contains(l, "codecov"@)
    ||| contains(l, "circleci"@)
    ||| contains(l, "sonarcloud"@)
    ||| contains(l, "travis-ci"@)
    ||| contains(l, "github.com/actions/workflows"@)
    ||| contains(l, "crates.io/badges"@)
}

/// Checks whether an image or link URL matches known badge domains or patterns.
fn is_badge_url(url: &[char]) -> (r: bool)
    ensures
        r == is_badge(url@),
{
    let l = lower_chars(url);
    let l = l.as_slice();
    contains_str(l, "shields.io") || contains_str(l, "badge") || contains_str(l, "workflows/")
        || contains_str(l, "codecov") || contains_str(l, "circleci") || contains_str(
        l,
        "sonarcloud",
    ) || contains_str(l, "travis-ci") || contains_str(l, "github.com/actions/workflows")
        || contains_str(l, "crates.io/badges")
}

/// The pieces of `s[a..]` between occurrences of `c` (`str::split`).
pub open spec fn split_from(s: Seq<char>, c: char, a: int) -> Seq<Seq<char>>
    decreases s.len() + 1 - a,
{
    if a < 0 || a > s.len() {
        seq![]
    } else {
        let k = char_from(s, c, a);
        if k < s.len() {
            proof {
                lemma_char_from_bounds(s, c, a);
            }
            seq![s.subrange(a, k)] + split_from(s, c, k + 1)
        } else {
            seq![s.subrange(a, s.len() as int)]
        }
    }
}

/// Whether a query parameter is blank or a known tracking parameter.
pub open spec fn is_tracking_param(p: Seq<char>) -> bool {
    let t = trim(p);
    t.len() == 0 || {
        let l = lowercase(t);
        ||| starts_with(l, "utm_"@)
        ||| starts_with(l, "ref="@)
        ||| starts_with(l, "spm="@)
        ||| starts_with(l, "fbclid="@)
        ||| starts_with(l, "gclid="@)
    }
}

/// The parameters among the first `n` of `ps` that are kept.
pub open spec fn kept_params(ps: Seq<Seq<char>>, n: int) -> Seq<Seq<char>>
    decreases n,
{
    if n <= 0 || n > ps.len() {
        seq![]
    } else if is_tracking_param(ps[n - 1]) {
        kept_params(ps, n - 1)
    } else {
        kept_params(ps, n - 1).push(ps[n - 1])
    }
}

/// `url` without tracking query parameters; the anchor (`#section`) is kept.
pub open spec fn strip_tracking(url: Seq<char>) -> Seq<char> {
    let h = char_from(url, '#', 0);
    let u = url.subrange(0, h);
    let anchor = url.subrange(h, url.len() as int);
    let q = char_from(u, '?', 0);
    if q < u.len() {
        let ps = split_from(u.subrange(q + 1, u.len() as int), '&', 0);
        let kept = kept_params(ps, ps.len() as int);
        let base = u.subrange(0, q);
        (if kept.len() == 0 {
            base
        } else {
            base + seq!['?'] + join(kept, seq!['&'])
        }) + anchor
    } else {
        url
    }
}

/// `join` of a list one longer.
pub proof fn lemma_join_push(ls: Seq<Seq<char>>, x: Seq<char>, sep: Seq<char>)
    ensures
        join(ls.push(x), sep) == if ls.len() == 0 {
            x
        } else {
            join(ls, sep) + sep + x
        },
{
    assert(ls.push(x).drop_last() =~= ls);
}

/// Whether a query parameter is a real one: not blank, and its name (trimmed, lowercased)
/// is none of the trackers `utm_*`, `ref`, `spm`, `fbclid`, `gclid`.
pub open spec fn real_param(p: Seq<char>) -> bool {
    let l = lowercase(trim(p));
    &&& trim(p).len() > 0
    &&& !starts_with(l, seq!['u', 't', 'm', '_'])
    &&& !starts_with(l, seq!['r', 'e', 'f', '='])
    &&& !starts_with(l, seq!['s', 'p', 'm', '='])
    &&& !starts_with(l, seq!['f', 'b', 'c', 'l', 'i', 'd', '='])
    &&& !starts_with(l, seq!['g', 'c', 'l', 'i', 'd', '='])
}

/// The parameters kept among the first `n` are the real ones, in order.
proof fn lemma_kept_are_real(ps: Seq<Seq<char>>, n: int)
    requires
        0 <= n <= ps.len(),
    ensures
        kept_params(ps, n) == ps.take(n).filter(|p: Seq<char>| real_param(p)),
    decreases n,
{
    reveal_strlit("utm_");
    reveal_strlit("ref=");
    reveal_strlit("spm=");
    reveal_strlit("fbclid=");
    reveal_strlit("gclid=");
    assert("utm_"@ =~= seq!['u', 't', 'm', '_']);
    assert("ref="@ =~= seq!['r', 'e', 'f', '=']);
    assert("spm="@ =~= seq!['s', 'p', 'm', '=']);
    assert("fbclid="@ =~= seq!['f', 'b', 'c', 'l', 'i', 'd', '=']);
    assert("gclid="@ =~= seq!['g', 'c', 'l', 'i', 'd', '=']);
    if n > 0 {
        lemma_kept_are_real(ps, n - 1);
        let t = ps.take(n);
        assert(t.drop_last() =~= ps.take(n - 1));
        assert(t.last() == ps[n - 1]);
        assert(is_tracking_param(ps[n - 1]) == !real_param(ps[n - 1]));
        reveal(Seq::filter);
    } else {
        assert(ps.take(0) =~= Seq::<Seq<char>>::empty());
        reveal(Seq::filter);
    }
}

/// Stripping tracking parameters keeps exactly the real query parameters of a URL, in
/// order, with its base and its anchor: no parameter named `utm_*`, `ref`, `spm`, `fbclid`
/// or `gclid` (in any case) survives, and a URL without a query is left as it is.
pub proof fn law_tracking_params_are_stripped(url: Seq<char>)
    ensures
        ({
            let h = char_from(url, '#', 0);
            let u = url.subrange(0, h);
            let q = char_from(u, '?', 0);
            let base = u.subrange(0, q);
            let anchor = url.subrange(h, url.len() as int);
            let kept = split_from(u.subrange(q + 1, u.len() as int), '&', 0).filter(|p: Seq<char>| real_param(p));
            &&& q < u.len() ==> strip_tracking(url) == (if kept.len() == 0 {
                base
            } else {
                base + seq!['?'] + join(kept, seq!['&'])
            }) + anchor
            &&& q >= u.len() ==> strip_tracking(url) == url
            &&& forall|k: int| 0 <= k < kept.len() ==> real_param(#[trigger] kept[k])
        }),
{
    let h = char_from(url, '#', 0);
    let u = url.subrange(0, h);
    let q = char_from(u, '?', 0);
    let ps = split_from(u.subrange(q + 1, u.len() as int), '&', 0);
    lemma_kept_are_real(ps, ps.len() as int);
    assert(ps.take(ps.len() as int) =~= ps);
    let kept = ps.filter(|p: Seq<char>| real_param(p));
    assert forall|k: int| 0 <= k < kept.len() implies real_param(#[trigger] kept[k]) by {
        ps.lemma_filter_pred(|p: Seq<char>| real_param(p), k);
    }
}

/// Whether a query parameter is blank or a known tracking parameter.
fn is_tracking(p: &[char]) -> (r: bool)
    ensures
        r == is_tracking_param(p@),
{
    let t = trim_chars(p);
    if t.len() == 0 {
        return true;
    }
    let l = lower_chars(t.as_slice());
    let l = l.as_slice();
    starts_with_str(l, "utm_") || starts_with_str(l, "ref=") || starts_with_str(l, "spm=")
        || starts_with_str(l, "fbclid=") || starts_with_str(l, "gclid=")
}

/// Strips tracking query parameters from a URL, keeping its anchor (`#section`).
fn strip_tracking_params(url: &[char]) -> (r: Vec<char>)
    ensures
        r@ == strip_tracking(url@),
{
    let h = char_index_from(url, '#', 0);
    let q = char_index_from(url, '?', 0);
    let ghost u = url@.subrange(0, h as int);
    proof {
        lemma_char_from_bounds(url@, '#', 0);
        lemma_char_from_bounds(url@, '?', 0);
        lemma_char_from_prefix(url@, '?', h as int);
    }
    if q >= h {
        let mut r: Vec<char> = Vec::new();
        push_range(&mut r, url, 0, url.len());
        assert(url@.subrange(0, url@.len() as int) =~= url@);
        return r;
    }
    // The query string runs from `q + 1` to `h`.
    let ghost query = u.subrange(q + 1, u.len() as int);
    assert(query =~= url@.subrange(q + 1, h as int));
    let mut joined: Vec<char> = Vec::new();
    let mut nkept: usize = 0;
    let ghost mut done: Seq<Seq<char>> = seq![];
    let mut a: usize = q + 1;
    let mut more = true;
    while more
        invariant
            q + 1 <= a <= h + 1,
            q < h,
            h <= url.len(),
            more ==> a <= h,
            query == url@.subrange(q + 1, h as int),
            more ==> split_from(query, '&', 0) == done + split_from(query, '&', a - q - 1),
            !more ==> split_from(query, '&', 0) == done,
            nkept == kept_params(done, done.len() as int).len(),
            nkept <= done.len(),
            more ==> done.len() <= a - q - 1,
            joined@ == join(kept_params(done, done.len() as int), seq!['&']),
        decreases if more { h + 2 - a } else { 0 },
    {
        // Next '&' inside the query string.
        let mut k = a;
        while k < h && url[k] != '&'
            invariant
                a <= k <= h <= url.len(),
                q + 1 <= a,
                q < h,
                query == url@.subrange(q + 1, h as int),
                char_from(query, '&', a - q - 1) == char_from(query, '&', k - q - 1),
            decreases h - k,
        {
            assert(query[k - q - 1] == url@[k as int]);
            k += 1;
        }
        let ghost piece = url@.subrange(a as int, k as int);
        assert(piece =~= query.subrange(a - q - 1, k - q - 1));
        let keep = !is_tracking(slice_range(url, a, k).as_slice());
        let ghost old_done = done;
        proof {
            done = done.push(piece);
            assert(done.drop_last() =~= old_done);
        }
        if keep {
            if nkept > 0 {
                joined.push('&');
            }
            push_range(&mut joined, url, a, k);
            proof {
                lemma_join_push(kept_params(old_done, old_done.len() as int), piece, seq!['&']);
            }
            nkept += 1;
        }
        assert(kept_params(done, done.len() as int) == if keep {
            kept_params(old_done, old_done.len() as int).push(piece)
        } else {
            kept_params(old_done, old_done.len() as int)
        }) by {
            lemma_kept_params_prefix(old_done, piece);
        }
        if k < h {
            a = k + 1;
        } else {
            more = false;
            assert(split_from(query, '&', a - q - 1) == seq![piece]);
            assert(split_from(query, '&', 0) =~= done);
        }
    }
    let mut r: Vec<char> = Vec::new();
    push_range(&mut r, url, 0, q);
    if nkept > 0 {
        r.push('?');
        push_chars_vec(&mut r, joined.as_slice());
    }
    push_range(&mut r, url, h, url.len());
    proof {
        assert(u.subrange(0, q as int) =~= url@.subrange(0, q as int));
        assert(char_from(u, '?', 0) == q);
    }
    assert(r@ =~= strip_tracking(url@));
    r
}

/// Keeping parameters of a list one longer.
proof fn lemma_kept_params_prefix(ps: Seq<Seq<char>>, x: Seq<char>)
    ensures
        kept_params(ps.push(x), ps.len() + 1int) == if is_tracking_param(x) {
            kept_params(ps, ps.len() as int)
        } else {
            kept_params(ps, ps.len() as int).push(x)
        },
{
    lemma_kept_params_ext(ps, ps.push(x), ps.len() as int);
}

/// `kept_params` only looks at the first `n` elements.
proof fn lemma_kept_params_ext(a: Seq<Seq<char>>, b: Seq<Seq<char>>, n: int)
    requires
        0 <= n <= a.len(),
        n <= b.len(),
        forall|i: int| 0 <= i < n ==> a[i] == b[i],
    ensures
        kept_params(a, n) == kept_params(b, n),
    decreases n,
{
    if n > 0 {
        lemma_kept_params_ext(a, b, n - 1);
    }
}

/// Searching a prefix for `c` finds what searching the whole finds, when that lies inside.
proof fn lemma_char_from_prefix(s: Seq<char>, c: char, h: int)
    requires
        0 <= h <= s.len(),
    ensures
        char_from(s, c, 0) < h ==> char_from(s.subrange(0, h), c, 0) == char_from(s, c, 0),
        char_from(s, c, 0) >= h ==> char_from(s.subrange(0, h), c, 0) == h,
{
    lemma_char_from_prefix_at(s, c, h, 0);
}

proof fn lemma_char_from_prefix_at(s: Seq<char>, c: char, h: int, i: int)
    requires
        0 <= i <= h <= s.len(),
    ensures
        char_from(s, c, i) < h ==> char_from(s.subrange(0, h), c, i) == char_from(s, c, i),
        char_from(s, c, i) >= h ==> char_from(s.subrange(0, h), c, i) == h,
    decreases h - i,
{
    lemma_char_from_bounds(s, c, i);
    if i < h && s[i] != c {
        lemma_char_from_prefix_at(s, c, h, i + 1);
    }
}

/// Appends `s[a..b]` to `v`.
fn push_range(v: &mut Vec<char>, s: &[char], a: usize, b: usize)
    requires
        a <= b <= s.len(),
    ensures
        final(v)@ == old(v)@ + s@.subrange(a as int, b as int),
{
    let mut i = a;
    while i < b
        invariant
            a <= i <= b <= s.len(),
            v@ == old(v)@ + s@.subrange(a as int, i as int),
        decreases b - i,
    {
        v.push(s[i]);
        i += 1;
        assert(v@ =~= old(v)@ + s@.subrange(a as int, i as int));
    }
}

/// Appends `s` to `v`.
fn push_chars_vec(v: &mut Vec<char>, s: &[char])
    ensures
        final(v)@ == old(v)@ + s@,
{
    push_range(v, s, 0, s.len());
    assert(s@.subrange(0, s@.len() as int) =~= s@);
}

/// Appends the literal `s` to `v`.
fn push_lit(v: &mut Vec<char>, s: &str)
    ensures
        final(v)@ == old(v)@ + s@,
{
    let cs = chars_of(s);
    push_chars_vec(v, cs.as_slice());
}

/// The state of the cleaning pass: the text so far, the badge suppression depth, whether a
/// "back to top" link is being skipped, the stack of cleaned link destinations, whether a
/// badge suppression is active, and whether an HTML comment is open.
#[verifier::ext_equal]
pub struct CleanState {
    pub out: Seq<char>,
    pub suppress: usize,
    pub nav: bool,
    pub links: Seq<Seq<char>>,
    pub badge: bool,
    pub comment: bool,
}

/// Whether the cleaning pass writes output in state `st`.
pub open spec fn emits(st: CleanState) -> bool {
    st.suppress == 0 && !st.badge
}

/// One more level of suppression.
pub open spec fn deeper(d: usize) -> usize {
    if d < usize::MAX {
        (d + 1) as usize
    } else {
        d
    }
}

/// Leaving one level of suppression.
pub open spec fn leave_suppression(st: CleanState) -> CleanState {
    let d = (st.suppress - 1) as usize;
    CleanState { suppress: d, badge: if d == 0 { false } else { st.badge }, ..st }
}

/// `st` with `s` appended to the output when it emits.
pub open spec fn emit(st: CleanState, s: Seq<char>) -> CleanState {
    if emits(st) {
        CleanState { out: st.out + s, ..st }
    } else {
        st
    }
}

/// Whether a text is a "back to top" navigation label.
pub open spec fn is_nav_label(t: Seq<char>) -> bool {
    let l = lowercase(trim(t));
    l == "back to top"@ || l == "back to top ↑"@ || l == "top"@ || l == "return to top"@
}

/// Whether an HTML fragment is dropped: comments, SVG, pictures, navigation, badge images.
pub open spec fn is_dropped_html(h: Seq<char>) -> bool {
    let t = trim(h);
    starts_with(t, "<!--"@) || starts_with(t, "<svg"@) || starts_with(t, "<picture"@)
        || starts_with(t, "<nav"@) || (starts_with(t, "<img"@) && is_badge(t))
}

/// Whether an HTML fragment opens a comment.
pub open spec fn opens_comment(h: Seq<char>) -> bool {
    starts_with(trim(h), "<!--"@)
}

/// Whether an HTML fragment holds the end of a comment.
pub open spec fn closes_comment(h: Seq<char>) -> bool {
    contains(h, "-->"@)
}

/// The cleaning pass over one event.  An HTML comment is removed whole: the HTML event that
/// opens it, every event after it while it is open, and the HTML event that closes it
/// (pulldown-cmark gives a comment that spans lines one HTML event per line).
pub open spec fn clean_step(st: CleanState, e: MdEventView) -> CleanState {
    if st.comment {
        CleanState { comment: !(e.kind == EventKind::Html && closes_comment(e.text)), ..st }
    } else if e.kind == EventKind::Html && opens_comment(e.text) {
        CleanState { comment: !closes_comment(e.text), ..st }
    } else {
        markup_step(st, e)
    }
}

/// The cleaning pass over one event outside an HTML comment.
pub open spec fn markup_step(st: CleanState, e: MdEventView) -> CleanState {
    match e.kind {
        EventKind::Start => match e.tag {
            TagKind::Link => if is_badge(e.text) {
                CleanState { suppress: deeper(st.suppress), badge: true, ..st }
            } else {
                CleanState {
                    links: st.links.push(strip_tracking(e.text)),
                    out: if st.suppress == 0 {
                        st.out.push('[')
                    } else {
                        st.out
                    },
                    ..st
                }
            },
            TagKind::Image => if is_badge(e.text) || st.suppress > 0 {
                CleanState {
                    suppress: deeper(st.suppress),
                    badge: true,
                    out: if st.out.len() > 0 && st.out.last() == '[' {
                        st.out.drop_last()
                    } else {
                        st.out
                    },
                    links: if st.links.len() > 0 {
                        st.links.drop_last()
                    } else {
                        st.links
                    },
                    ..st
                }
            } else {
                CleanState { out: st.out + "!["@, ..st }
            },
            TagKind::Heading => emit(
                st,
                "\n\n"@ + Seq::new(e.level as nat, |i: int| '#') + " "@,
            ),
            TagKind::Paragraph => emit(st, "\n\n"@),
            TagKind::CodeBlock => emit(st, "\n\n```"@ + e.text + "\n"@),
            TagKind::Item => emit(st, "\n- "@),
            _ => st,
        },
        EventKind::End => match e.tag {
            TagKind::Link => if st.suppress > 0 {
                leave_suppression(st)
            } else if st.nav {
                CleanState { nav: false, ..st }
            } else if st.links.len() > 0 {
                CleanState {
                    out: st.out + "]("@ + st.links.last() + ")"@,
                    links: st.links.drop_last(),
                    ..st
                }
            } else {
                st
            },
            TagKind::Image => if st.suppress > 0 {
                leave_suppression(st)
            } else {
                CleanState { out: st.out + "]"@, ..st }
            },
            TagKind::Heading => emit(st, "\n"@),
            TagKind::Paragraph => emit(st, "\n"@),
            TagKind::CodeBlock => emit(st, "```\n"@),
            _ => st,
        },
        EventKind::Html => if is_dropped_html(e.text) {
            st
        } else {
            emit(st, e.text)
        },
        EventKind::Text => if is_badge(e.text) || !emits(st) {
            st
        } else if is_nav_label(e.text) {
            CleanState { nav: true, ..st }
        } else {
            CleanState { out: st.out + e.text, ..st }
        },
        EventKind::Code => emit(st, "`"@ + e.text + "`"@),
        EventKind::Break => emit(st, "\n"@),
        _ => st,
    }
}

/// The cleaning pass over the first `n` events.
pub open spec fn clean_fold(es: Seq<MdEventView>, n: int) -> CleanState
    decreases n,
{
    if n <= 0 || n > es.len() {
        CleanState { out: seq![], suppress: 0, nav: false, links: seq![], badge: false, comment: false }
    } else {
        clean_step(clean_fold(es, n - 1), es[n - 1])
    }
}

/// `s` with every run of newlines cut to two, and the length of the trailing run (capped at 3).
pub open spec fn collapse_newlines(s: Seq<char>) -> (Seq<char>, nat)
    decreases s.len(),
{
    if s.len() == 0 {
        (seq![], 0)
    } else {
        let (o, c) = collapse_newlines(s.drop_last());
        if s.last() == '\n' {
            let c2: nat = if c >= 3 { 3 } else { c + 1 };
            (if c2 <= 2 { o.push('\n') } else { o }, c2)
        } else {
            (o.push(s.last()), 0)
        }
    }
}

/// The token-thrifty text of a Markdown document.
pub open spec fn clean_markdown_spec(input: Seq<char>) -> Seq<char> {
    if trim(input).len() == 0 {
        seq![]
    } else {
        let es = markdown_events(without_frontmatter(input), EXTENDED_OPTIONS);
        trim(collapse_newlines(clean_fold(es, es.len() as int).out).0)
    }
}

/// Whether `s` holds no three newlines in a row.
pub open spec fn no_blank_run(s: Seq<char>) -> bool {
    forall|i: int| 0 <= i && i + 2 < s.len() ==> !(#[trigger] s[i] == '\n' && s[i + 1] == '\n' && s[i + 2] == '\n')
}

/// Where `skip_ws_from` stops: past whitespace only, at a non-whitespace character or the end.
proof fn lemma_skip_ws_from(s: Seq<char>, i: int)
    requires
        0 <= i <= s.len(),
    ensures
        i <= skip_ws_from(s, i) <= s.len(),
        skip_ws_from(s, i) < s.len() ==> !is_ws(s[skip_ws_from(s, i)]),
        forall|j: int| i <= j < skip_ws_from(s, i) ==> is_ws(#[trigger] s[j]),
    decreases s.len() - i,
{
    if i < s.len() && is_ws(s[i]) {
        lemma_skip_ws_from(s, i + 1);
    }
}

/// Where `trim_end_from` stops: at 0 or after a non-whitespace character.
proof fn lemma_trim_end_from(s: Seq<char>, j: int)
    requires
        0 <= j <= s.len(),
    ensures
        0 <= trim_end_from(s, j) <= j,
        trim_end_from(s, j) > 0 ==> !is_ws(s[trim_end_from(s, j) - 1]),
    decreases j,
{
    if j > 0 && is_ws(s[j - 1]) {
        lemma_trim_end_from(s, j - 1);
    }
}

/// A trimmed text starts and ends with a non-whitespace character, and keeps having no
/// blank run.
proof fn lemma_trim(s: Seq<char>)
    ensures
        trim(s).len() > 0 ==> !is_ws(trim(s)[0]) && !is_ws(trim(s).last()),
        trim(trim(s)) == trim(s),
        no_blank_run(s) ==> no_blank_run(trim(s)),
{
    let a = skip_ws_from(s, 0);
    lemma_skip_ws_from(s, 0);
    let u = s.subrange(a, s.len() as int);
    let e = trim_end_from(u, u.len() as int);
    lemma_trim_end_from(u, u.len() as int);
    let t = trim(s);
    assert(t == u.subrange(0, e));
    if t.len() > 0 {
        assert(t[0] == s[a]);
        assert(t.last() == u[e - 1]);
        assert(skip_ws_from(t, 0) == 0);
        assert(trim_start(t) =~= t);
        assert(trim_end_from(t, t.len() as int) == t.len());
        assert(trim_end(t) =~= t);
    } else {
        assert(trim_start(t) =~= t);
        assert(trim_end(t) =~= t);
    }
    if no_blank_run(s) {
        assert forall|i: int| 0 <= i && i + 2 < t.len() implies !(#[trigger] t[i] == '\n' && t[i + 1] == '\n' && t[i + 2] == '\n') by {
            assert(t[i] == s[a + i] && t[i + 1] == s[a + i + 1] && t[i + 2] == s[a + i + 2]);
        }
    }
}

/// What `collapse_newlines` builds: no blank run, with its trailing newlines matching the
/// count it carries.
proof fn lemma_collapse_newlines(s: Seq<char>)
    ensures
        ({
            let (o, c) = collapse_newlines(s);
            &&& no_blank_run(o)
            &&& c <= 3
            &&& c == 0 ==> o.len() == 0 || o.last() != '\n'
            &&& c == 1 ==> o.len() >= 1 && o.last() == '\n' && (o.len() < 2 || o[o.len() - 2] != '\n')
            &&& c >= 2 ==> o.len() >= 2 && o.last() == '\n' && o[o.len() - 2] == '\n'
        }),
    decreases s.len(),
{
    if s.len() > 0 {
        lemma_collapse_newlines(s.drop_last());
        let (o, c) = collapse_newlines(s.drop_last());
        let (o2, c2) = collapse_newlines(s);
        if o2 != o {
            assert(o2.len() == o.len() + 1);
            assert forall|i: int| 0 <= i && i + 2 < o2.len() implies !(#[trigger] o2[i] == '\n' && o2[i + 1] == '\n' && o2[i + 2] == '\n') by {
                if i + 2 < o.len() {
                    assert(o2[i] == o[i] && o2[i + 1] == o[i + 1] && o2[i + 2] == o[i + 2]);
                } else {
                    assert(o2[i] == o[i] && o2[i + 1] == o[i + 1]);
                }
            }
            if o.len() > 0 {
                assert(o2[o2.len() - 2] == o[o.len() - 1]);
            }
        }
    }
}

/// The cleaned text is trimmed and holds no three newlines in a row; a blank input is
/// cleaned to the empty text.
pub proof fn law_clean_text_is_trimmed(input: Seq<char>)
    ensures
        trim(clean_markdown_spec(input)) == clean_markdown_spec(input),
        no_blank_run(clean_markdown_spec(input)),
        trim(input).len() == 0 ==> clean_markdown_spec(input) == Seq::<char>::empty(),
{
    if trim(input).len() == 0 {
        let e = Seq::<char>::empty();
        assert(no_blank_run(e));
        assert(skip_ws_from(e, 0) == 0);
        assert(trim_start(e) =~= e);
        assert(trim_end(e) =~= e);
    } else {
        let es = markdown_events(without_frontmatter(input), EXTENDED_OPTIONS);
        let s = collapse_newlines(clean_fold(es, es.len() as int).out).0;
        lemma_collapse_newlines(clean_fold(es, es.len() as int).out);
        lemma_trim(s);
    }
}

/// The executable state of the cleaning pass.
struct Cleaner {
    out: Vec<char>,
    suppress: usize,
    nav: bool,
    links: Vec<Vec<char>>,
    badge: bool,
    comment: bool,
}

/// The value of a list of character vectors.
pub open spec fn vecs_view(v: Seq<Vec<char>>) -> Seq<Seq<char>> {
    v.map_values(|x: Vec<char>| x@)
}

spec fn cleaner_view(c: Cleaner) -> CleanState {
    CleanState {
        out: c.out@,
        suppress: c.suppress,
        nav: c.nav,
        links: vecs_view(c.links@),
        badge: c.badge,
        comment: c.comment,
    }
}

/// Appends `s` when the pass emits.
fn emit_lit(c: &mut Cleaner, s: &str)
    ensures
        cleaner_view(*final(c)) == emit(cleaner_view(*old(c)), s@),
{
    if c.suppress == 0 && !c.badge {
        push_lit(&mut c.out, s);
    }
}

/// Runs the cleaning pass over one event.
fn clean_event(c: &mut Cleaner, e: &MdEvent)
    ensures
        cleaner_view(*final(c)) == clean_step(cleaner_view(*old(c)), e@),
{
    let ghost st = cleaner_view(*c);
    let is_html = e.kind == EventKind::Html;
    if c.comment {
        let text = chars_of(e.text.as_str());
        c.comment = !(is_html && contains_str(text.as_slice(), "-->"));
        assert(cleaner_view(*c) =~= clean_step(st, e@));
        return;
    }
    if is_html {
        let text = chars_of(e.text.as_str());
        if starts_with_str(trim_chars(text.as_slice()).as_slice(), "<!--") {
            c.comment = !contains_str(text.as_slice(), "-->");
            assert(cleaner_view(*c) =~= clean_step(st, e@));
            return;
        }
    }
    markup_event(c, e);
}

/// Runs the cleaning pass over one event outside an HTML comment.
fn markup_event(c: &mut Cleaner, e: &MdEvent)
    ensures
        cleaner_view(*final(c)) == markup_step(cleaner_view(*old(c)), e@),
{
    let ghost st = cleaner_view(*c);
    let text = chars_of(e.text.as_str());
    match e.kind {
        EventKind::Start => match e.tag {
            TagKind::Link => {
                if is_badge_url(text.as_slice()) {
                    if c.suppress < usize::MAX {
                        c.suppress = c.suppress + 1;
                    }
                    c.badge = true;
                } else {
                    let clean = strip_tracking_params(text.as_slice());
                    let ghost cv = clean@;
                    c.links.push(clean);
                    assert(vecs_view(c.links@) =~= st.links.push(cv));
                    if c.suppress == 0 {
                        c.out.push('[');
                    }
                }
            },
            TagKind::Image => {
                if is_badge_url(text.as_slice()) || c.suppress > 0 {
                    if c.suppress < usize::MAX {
                        c.suppress = c.suppress + 1;
                    }
                    c.badge = true;
                    let n = c.out.len();
                    if n > 0 && c.out[n - 1] == '[' {
                        c.out.pop();
                    }
                    let m = c.links.len();
                    if m > 0 {
                        c.links.pop();
                        assert(vecs_view(c.links@) =~= st.links.drop_last());
                    }
                } else {
                    push_lit(&mut c.out, "![");
                }
            },
            TagKind::Heading => {
                if c.suppress == 0 && !c.badge {
                    let mut hashes: Vec<char> = Vec::new();
                    let mut k: u32 = 0;
                    while k < e.level
                        invariant
                            k <= e.level,
                            hashes@ == Seq::new(k as nat, |i: int| '#'),
                        decreases e.level - k,
                    {
                        hashes.push('#');
                        k += 1;
                        assert(hashes@ =~= Seq::new(k as nat, |i: int| '#'));
                    }
                    push_lit(&mut c.out, "\n\n");
                    push_chars_vec(&mut c.out, hashes.as_slice());
                    push_lit(&mut c.out, " ");
                }
            },
            TagKind::Paragraph => emit_lit(c, "\n\n"),
            TagKind::CodeBlock => {
                if c.suppress == 0 && !c.badge {
                    push_lit(&mut c.out, "\n\n```");
                    push_chars_vec(&mut c.out, text.as_slice());
                    push_lit(&mut c.out, "\n");
                }
            },
            TagKind::Item => emit_lit(c, "\n- "),
            _ => {},
        },
        EventKind::End => match e.tag {
            TagKind::Link => {
                if c.suppress > 0 {
                    c.suppress = c.suppress - 1;
                    if c.suppress == 0 {
                        c.badge = false;
                    }
                } else if c.nav {
                    c.nav = false;
                } else if c.links.len() > 0 {
                    let url = c.links.pop().unwrap();
                    assert(vecs_view(c.links@) =~= st.links.drop_last());
                    push_lit(&mut c.out, "](");
                    push_chars_vec(&mut c.out, url.as_slice());
                    push_lit(&mut c.out, ")");
                }
            },
            TagKind::Image => {
                if c.suppress > 0 {
                    c.suppress = c.suppress - 1;
                    if c.suppress == 0 {
                        c.badge = false;
                    }
                } else {
                    push_lit(&mut c.out, "]");
                }
            },
            TagKind::Heading => emit_lit(c, "\n"),
            TagKind::Paragraph => emit_lit(c, "\n"),
            TagKind::CodeBlock => emit_lit(c, "```\n"),
            _ => {},
        },
        EventKind::Html => {
            if !dropped_html(text.as_slice()) && c.suppress == 0 && !c.badge {
                push_chars_vec(&mut c.out, text.as_slice());
            }
        },
        EventKind::Text => {
            if !is_badge_url(text.as_slice()) && c.suppress == 0 && !c.badge {
                if nav_label(text.as_slice()) {
                    c.nav = true;
                } else {
                    push_chars_vec(&mut c.out, text.as_slice());
                }
            }
        },
        EventKind::Code => {
            if c.suppress == 0 && !c.badge {
                push_lit(&mut c.out, "`");
                push_chars_vec(&mut c.out, text.as_slice());
                push_lit(&mut c.out, "`");
            }
        },
        EventKind::Break => emit_lit(c, "\n"),
        _ => {},
    }
    assert(cleaner_view(*c) =~= markup_step(st, e@));
}

/// Whether an HTML fragment is dropped.
fn dropped_html(h: &[char]) -> (r: bool)
    ensures
        r == is_dropped_html(h@),
{
    let t = trim_chars(h);
    let t = t.as_slice();
    starts_with_str(t, "<!--") || starts_with_str(t, "<svg") || starts_with_str(t, "<picture")
        || starts_with_str(t, "<nav") || (starts_with_str(t, "<img") && is_badge_url(t))
}

/// Whether a text is a "back to top" navigation label.
fn nav_label(t: &[char]) -> (r: bool)
    ensures
        r == is_nav_label(t@),
{
    let l = lower_chars(trim_chars(t).as_slice());
    let l = l.as_slice();
    chars_eq_str(l, "back to top") || chars_eq_str(l, "back to top ↑") || chars_eq_str(l, "top")
        || chars_eq_str(l, "return to top")
}

/// Cuts every run of newlines to two.
fn collapse_newline_runs(s: &[char]) -> (r: Vec<char>)
    ensures
        r@ == collapse_newlines(s@).0,
{
    let mut out: Vec<char> = Vec::new();
    let mut run: usize = 0;
    let mut i: usize = 0;
    while i < s.len()
        invariant
            i <= s.len(),
            (out@, run as nat) == collapse_newlines(s@.take(i as int)),
        decreases s.len() - i,
    {
        assert(s@.take(i + 1).drop_last() =~= s@.take(i as int));
        let ch = s[i];
        if ch == '\n' {
            run = if run >= 3 {
                3
            } else {
                run + 1
            };
            if run <= 2 {
                out.push(ch);
            }
        } else {
            run = 0;
            out.push(ch);
        }
        i += 1;
    }
    assert(s@.take(s@.len() as int) =~= s@);
    out
}

/// AST event stream transformer that removes badges, HTML comments and SVGs, "back to top"
/// links and URL tracking parameters, and collapses blank lines.
pub fn clean_markdown(input: &str) -> (r: String)
    ensures
        r@ == clean_markdown_spec(input@),
{
    let all = chars_of(input);
    let (ta, tb) = trim_range(all.as_slice(), 0, all.len());
    assert(all@.subrange(0, all@.len() as int) =~= all@);
    if ta == tb {
        return String::new();
    }
    let content = strip_frontmatter(input);
    let events = parse_markdown(content);
    let ghost es = markdown_events(content@, EXTENDED_OPTIONS);
    let mut c = Cleaner {
        out: Vec::new(),
        suppress: 0,
        nav: false,
        links: Vec::new(),
        badge: false,
        comment: false,
    };
    assert(cleaner_view(c) =~= clean_fold(es, 0));
    let mut i: usize = 0;
    while i < events.len()
        invariant
            i <= events.len(),
            events@.len() == es.len(),
            forall|j: int| 0 <= j < events@.len() ==> (#[trigger] events@[j])@ == es[j],
            cleaner_view(c) == clean_fold(es, i as int),
        decreases events.len() - i,
    {
        clean_event(&mut c, &events[i]);
        i += 1;
    }
    let collapsed = collapse_newline_runs(c.out.as_slice());
    let t = trim_chars(collapsed.as_slice());
    string_of(t.as_slice())
}

// ---------------------------------------------------------------------------
// Code blocks
// ---------------------------------------------------------------------------

/// A code block: its language and its code.
#[derive(Debug, Clone, PartialEq, Eq)]
pub struct CodeBlock {
    pub language: String,
    pub code: String,
}

/// The value of a code block.
#[verifier::ext_equal]
pub struct CodeBlockView {
    pub language: Seq<char>,
    pub code: Seq<char>,
}

impl View for CodeBlock {
    type V = CodeBlockView;

    open spec fn view(&self) -> CodeBlockView {
        CodeBlockView { language: self.language@, code: self.code@ }
    }
}

/// The values of a list of code blocks.
pub open spec fn code_blocks_view(v: Seq<CodeBlock>) -> Seq<CodeBlockView> {
    v.map_values(|b: CodeBlock| b@)
}

/// `char::eq_ignore_ascii_case`.
pub open spec fn char_eq_ignore_ascii_case(a: char, b: char) -> bool {
    ||| a == b
    ||| ('A' <= a <= 'Z' && (a as u32) + 32 == b as u32)
    ||| ('A' <= b <= 'Z' && (b as u32) + 32 == a as u32)
}

/// `str::eq_ignore_ascii_case`.
pub open spec fn eq_ignore_ascii_case(a: Seq<char>, b: Seq<char>) -> bool {
    a.len() == b.len() && forall|i: int| 0 <= i < a.len() ==> char_eq_ignore_ascii_case(#[trigger] a[i], b[i])
}

/// The state of the code block scan: the blocks found and the open block.
#[verifier::ext_equal]
pub struct CodeScan {
    pub blocks: Seq<CodeBlockView>,
    pub in_code: bool,
    pub lang: Seq<char>,
    pub code: Seq<char>,
}

/// One event read by the code block scan.
pub open spec fn code_step(st: CodeScan, e: MdEventView, filter: Option<Seq<char>>) -> CodeScan {
    if e.kind == EventKind::Start && e.tag == TagKind::CodeBlock {
        CodeScan {
            in_code: true,
            code: seq![],
            lang: if e.has_text {
                e.text
            } else {
                "text"@
            },
            ..st
        }
    } else if e.kind == EventKind::Text {
        if st.in_code {
            CodeScan { code: st.code + e.text, ..st }
        } else {
            st
        }
    } else if e.kind == EventKind::End && e.tag == TagKind::CodeBlock && st.in_code {
        let keep = match filter {
            Some(f) => eq_ignore_ascii_case(st.lang, f),
            None => true,
        };
        CodeScan {
            blocks: if keep {
                st.blocks.push(
                    CodeBlockView {
                        language: if st.lang.len() == 0 {
                            "text"@
                        } else {
                            st.lang
                        },
                        code: trim_end(st.code),
                    },
                )
            } else {
                st.blocks
            },
            in_code: false,
            ..st
        }
    } else {
        st
    }
}

/// The code block scan after the first `n` events.
pub open spec fn code_fold(es: Seq<MdEventView>, filter: Option<Seq<char>>, n: int) -> CodeScan
    decreases n,
{
    if n <= 0 || n > es.len() {
        CodeScan { blocks: seq![], in_code: false, lang: seq![], code: seq![] }
    } else {
        code_step(code_fold(es, filter, n - 1), es[n - 1], filter)
    }
}

/// The code blocks of a document after its frontmatter, in the languages that match
/// `filter` (ASCII case aside), or all of them.
pub open spec fn code_blocks_spec(input: Seq<char>, filter: Option<Seq<char>>) -> Seq<CodeBlockView> {
    let es = markdown_events(without_frontmatter(input), EXTENDED_OPTIONS);
    code_fold(es, filter, es.len() as int).blocks
}

fn char_eq_ascii_ci(a: char, b: char) -> (r: bool)
    ensures
        r == char_eq_ignore_ascii_case(a, b),
{
    a == b || ('A' <= a && a <= 'Z' && (a as u32) + 32 == b as u32) || ('A' <= b && b <= 'Z'
        && (b as u32) + 32 == a as u32)
}

/// `str::eq_ignore_ascii_case`.
fn chars_eq_ignore_ascii_case(a: &[char], b: &[char]) -> (r: bool)
    ensures
        r == eq_ignore_ascii_case(a@, b@),
{
    if a.len() != b.len() {
        return false;
    }
    let mut i: usize = 0;
    while i < a.len()
        invariant
            i <= a.len(),
            a.len() == b.len(),
            forall|j: int| 0 <= j < i ==> char_eq_ignore_ascii_case(#[trigger] a@[j], b@[j]),
        decreases a.len() - i,
    {
        if !char_eq_ascii_ci(a[i], b[i]) {
            return false;
        }
        i += 1;
    }
    true
}

/// `s` without trailing whitespace.
fn trim_end_chars(s: &[char]) -> (r: Vec<char>)
    ensures
        r@ == trim_end(s@),
{
    let mut e = s.len();
    while e > 0 && is_whitespace(s[e - 1])
        invariant
            e <= s.len(),
            trim_end_from(s@, e as int) == trim_end_from(s@, s.len() as int),
        decreases e,
    {
        e -= 1;
    }
    assert(trim_end_from(s@, e as int) == e);
    slice_range(s, 0, e)
}

/// Extracts the code blocks of a document, optionally only those in language `lang_filter`.
pub fn extract_code_blocks(input: &str, lang_filter: Option<&str>) -> (r: Vec<CodeBlock>)
    ensures
        code_blocks_view(r@) == code_blocks_spec(
            input@,
            match lang_filter {
                Some(f) => Some(f@),
                None => None,
            },
        ),
{
    let ghost filter = match lang_filter {
        Some(f) => Some(f@),
        None => None,
    };
    let content = strip_frontmatter(input);
    let events = parse_markdown(content);
    let ghost es = markdown_events(content@, EXTENDED_OPTIONS);
    let fchars: Option<Vec<char>> = match lang_filter {
        Some(f) => Some(chars_of(f)),
        None => None,
    };
    let mut blocks: Vec<CodeBlock> = Vec::new();
    let mut in_code = false;
    let mut lang: Vec<char> = Vec::new();
    let mut code: Vec<char> = Vec::new();
    let mut i: usize = 0;
    assert(code_fold(es, filter, 0) =~= (CodeScan {
        blocks: code_blocks_view(blocks@),
        in_code,
        lang: lang@,
        code: code@,
    }));
    while i < events.len()
        invariant
            i <= events@.len(),
            events@.len() == es.len(),
            forall|j: int| 0 <= j < events@.len() ==> (#[trigger] events@[j])@ == es[j],
            match fchars {
                Some(f) => filter == Some(f@),
                None => filter is None,
            },
            code_fold(es, filter, i as int) == (CodeScan {
                blocks: code_blocks_view(blocks@),
                in_code,
                lang: lang@,
                code: code@,
            }),
        decreases events.len() - i,
    {
        let e = &events[i];
        assert(e@ == es[i as int]);
        if e.kind == EventKind::Start && e.tag == TagKind::CodeBlock {
            in_code = true;
            code = Vec::new();
            if e.has_text {
                lang = chars_of(e.text.as_str());
            } else {
                lang = chars_of("text");
            }
        } else if e.kind == EventKind::Text {
            if in_code {
                let t = chars_of(e.text.as_str());
                let ghost b = code@;
                let mut k: usize = 0;
                while k < t.len()
                    invariant
                        k <= t@.len(),
                        code@ == b + t@.take(k as int),
                    decreases t.len() - k,
                {
                    code.push(t[k]);
                    k += 1;
                    assert(code@ =~= b + t@.take(k as int));
                }
                assert(t@.take(k as int) =~= t@);
            }
        } else if e.kind == EventKind::End && e.tag == TagKind::CodeBlock && in_code {
            let keep = match &fchars {
                Some(f) => chars_eq_ignore_ascii_case(lang.as_slice(), f.as_slice()),
                None => true,
            };
            if keep {
                let language = if lang.len() == 0 {
                    string_of(chars_of("text").as_slice())
                } else {
                    string_of(lang.as_slice())
                };
                let trimmed = trim_end_chars(code.as_slice());
                let b = CodeBlock { language, code: string_of(trimmed.as_slice()) };
                let ghost before = blocks@;
                blocks.push(b);
                assert(code_blocks_view(blocks@) =~= code_blocks_view(before).push(b@));
            }
            in_code = false;
        }
        i += 1;
        assert(code_fold(es, filter, i as int) =~= (CodeScan {
            blocks: code_blocks_view(blocks@),
            in_code,
            lang: lang@,
            code: code@,
        }));
    }
    blocks
}

// ---------------------------------------------------------------------------
// Token reduction report
// ---------------------------------------------------------------------------

/// What cleaning a document saves: the clean text and the token estimates before and after.
#[derive(Debug, Clone, PartialEq, Eq)]
pub struct CleanerReport {
    pub cleaned_text: String,
    pub raw_tokens: usize,
    pub cleaned_tokens: usize,
    pub tokens_saved: usize,
}

/// Cleans a document and reports the tokens saved.
pub fn clean_markdown_with_report(input: &str) -> (r: CleanerReport)
    ensures
        r.cleaned_text@ == clean_markdown_spec(input@),
        r.raw_tokens == tokens_for(input@.len()),
        r.cleaned_tokens == tokens_for(clean_markdown_spec(input@).len()),
        r.tokens_saved == if r.raw_tokens >= r.cleaned_tokens {
            r.raw_tokens - r.cleaned_tokens
        } else {
            0
        },
{
    let raw_stats = calculate_stats(input);
    let cleaned_text = clean_markdown(input);
    let cleaned_stats = calculate_stats(cleaned_text.as_str());
    let raw_tokens = raw_stats.estimated_tokens;
    let cleaned_tokens = cleaned_stats.estimated_tokens;
    CleanerReport {
        cleaned_text,
        raw_tokens,
        cleaned_tokens,
        tokens_saved: raw_tokens.saturating_sub(cleaned_tokens),
    }
}

/// The savings lines of the report, one per model: its name and the dollars saved.
pub open spec fn savings_lines(savings: Seq<(Seq<char>, Seq<char>)>) -> Seq<char>
    decreases savings.len(),
{
    if savings.len() == 0 {
        seq![]
    } else {
        savings_lines(savings.drop_last()) + "- "@ + savings.last().0 + ": Saved $"@
            + savings.last().1 + "\n"@
    }
}

/// The diff report of a document, with the reduction percentage and the dollars saved per
/// model as the caller formatted them.
pub open spec fn clean_diff_spec(
    input: Seq<char>,
    reduction: Seq<char>,
    savings: Seq<(Seq<char>, Seq<char>)>,
) -> Seq<char> {
    let cleaned = clean_markdown_spec(input);
    let raw_tokens = tokens_for(input.len());
    let cleaned_tokens = tokens_for(cleaned.len());
    let saved: nat = if raw_tokens >= cleaned_tokens {
        (raw_tokens - cleaned_tokens) as nat
    } else {
        0
    };
    "=== PANKH TOKEN OPTIMIZATION DIFF REPORT ===\nRaw Tokens: "@ + crate::text::decimal(raw_tokens)
        + " | Clean Tokens: "@ + crate::text::decimal(cleaned_tokens) + " | Tokens Saved: "@
        + crate::text::decimal(saved) + " ("@ + reduction + "% reduction)\n\n"@
        + "Estimated Dollar Savings (Input Tokens Saved):\n"@ + savings_lines(savings) + "\n"@
        + "--- ORIGINAL RAW TEXT ---\n"@ + trim(input) + "\n\n+++ CLEANED TOKEN-THRIFTY TEXT +++\n"@
        + cleaned + "\n"@
}

/// Generates a diff report comparing a document with its token-thrifty clean text: token
/// counts, the reduction (as formatted by the caller), the dollars saved per model (as
/// formatted by the caller), then both texts.
pub fn generate_clean_diff(input: &str, reduction: &str, savings: &Vec<(String, String)>) -> (r: String)
    ensures
        r@ == clean_diff_spec(
            input@,
            reduction@,
            savings@.map_values(|e: (String, String)| (e.0@, e.1@)),
        ),
{
    let report = clean_markdown_with_report(input);
    let mut diff = String::new();
    crate::text::push_str(&mut diff, "=== PANKH TOKEN OPTIMIZATION DIFF REPORT ===\nRaw Tokens: ");
    crate::text::push_decimal(&mut diff, report.raw_tokens);
    crate::text::push_str(&mut diff, " | Clean Tokens: ");
    crate::text::push_decimal(&mut diff, report.cleaned_tokens);
    crate::text::push_str(&mut diff, " | Tokens Saved: ");
    crate::text::push_decimal(&mut diff, report.tokens_saved);
    crate::text::push_str(&mut diff, " (");
    crate::text::push_str(&mut diff, reduction);
    crate::text::push_str(&mut diff, "% reduction)\n\n");
    crate::text::push_str(&mut diff, "Estimated Dollar Savings (Input Tokens Saved):\n");
    let ghost head = diff@;
    let ghost sv = savings@.map_values(|e: (String, String)| (e.0@, e.1@));
    let mut i: usize = 0;
    while i < savings.len()
        invariant
            i <= savings@.len(),
            sv == savings@.map_values(|e: (String, String)| (e.0@, e.1@)),
            diff@ == head + savings_lines(sv.take(i as int)),
        decreases savings.len() - i,
    {
        crate::text::push_str(&mut diff, "- ");
        crate::text::push_str(&mut diff, savings[i].0.as_str());
        crate::text::push_str(&mut diff, ": Saved $");
        crate::text::push_str(&mut diff, savings[i].1.as_str());
        crate::text::push_str(&mut diff, "\n");
        assert(sv.take(i + 1).drop_last() =~= sv.take(i as int));
        i += 1;
    }
    assert(sv.take(i as int) =~= sv);
    crate::text::push_str(&mut diff, "\n");
    crate::text::push_str(&mut diff, "--- ORIGINAL RAW TEXT ---\n");
    let all = chars_of(input);
    let t = trim_chars(all.as_slice());
    push_chars(&mut diff, t.as_slice());
    crate::text::push_str(&mut diff, "\n\n+++ CLEANED TOKEN-THRIFTY TEXT +++\n");
    crate::text::push_str(&mut diff, report.cleaned_text.as_str());
    crate::text::push_str(&mut diff, "\n");
    diff
}

} // verus!
