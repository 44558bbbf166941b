//! Character-level text model: strings are viewed as `Seq<char>`, and the
//! std string operations the library relies on are specified here.
use vstd::prelude::*;

verus! {

// ---------------------------------------------------------------------------
// Specifications
// ---------------------------------------------------------------------------

/// `char::is_whitespace`: the Unicode `White_Space` property.
pub open spec fn is_ws(c: char) -> bool {
    let u = c as u32;
    ||| (9 <= u && u <= 13)
    ||| u == 32
    ||| u == 0x85
    ||| u == 0xA0
    ||| u == 0x1680
    ||| (0x2000 <= u && u <= 0x200A)
    ||| u == 0x2028
    ||| u == 0x2029
    ||| u == 0x202F
    ||| u == 0x205F
    ||| u == 0x3000
}

/// Index of the first non-whitespace character at or after `i` (or `s.len()`).
pub open spec fn skip_ws_from(s: Seq<char>, i: int) -> int
    decreases s.len() - i,
{
    if i < 0 || i >= s.len() {
        s.len() as int
    } else if is_ws(s[i]) {
        skip_ws_from(s, i + 1)
    } else {
        i
    }
}

/// End of `s[..j]` once trailing whitespace is removed.
pub open spec fn trim_end_from(s: Seq<char>, j: int) -> int
    decreases j,
{
    if j <= 0 || j > s.len() {
        0
    } else if is_ws(s[j - 1]) {
        trim_end_from(s, j - 1)
    } else {
        j
    }
}

/// `str::trim_start`.
pub open spec fn trim_start(s: Seq<char>) -> Seq<char> {
    s.subrange(skip_ws_from(s, 0), s.len() as int)
}

/// `str::trim_end`.
pub open spec fn trim_end(s: Seq<char>) -> Seq<char> {
    s.subrange(0, trim_end_from(s, s.len() as int))
}

/// `str::trim`.
pub open spec fn trim(s: Seq<char>) -> Seq<char> {
    trim_end(trim_start(s))
}

/// First occurrence of `n` in `h` at or after index `i`.
pub open spec fn find_from(h: Seq<char>, n: Seq<char>, i: int) -> Option<int>
    decreases h.len() + 1 - i,
{
    if i < 0 || i + n.len() > h.len() {
        None
    } else if h.subrange(i, i + n.len()) == n {
        Some(i)
    } else {
        find_from(h, n, i + 1)
    }
}

/// `str::find`: the first occurrence of `n` in `h`.
pub open spec fn find(h: Seq<char>, n: Seq<char>) -> Option<int> {
    find_from(h, n, 0)
}

/// `str::contains`.
pub open spec fn contains(h: Seq<char>, n: Seq<char>) -> bool {
    find(h, n) is Some
}

/// `str::starts_with`.
pub open spec fn starts_with(h: Seq<char>, p: Seq<char>) -> bool {
    p.len() <= h.len() && h.subrange(0, p.len() as int) == p
}

/// `str::ends_with`.
pub open spec fn ends_with(h: Seq<char>, p: Seq<char>) -> bool {
    p.len() <= h.len() && h.subrange(h.len() - p.len(), h.len() as int) == p
}

/// Index of the first `c` at or after `i` (or `s.len()`).
pub open spec fn char_from(s: Seq<char>, c: char, i: int) -> int
    decreases s.len() - i,
{
    if i < 0 || i >= s.len() {
        s.len() as int
    } else if s[i] == c {
        i
    } else {
        char_from(s, c, i + 1)
    }
}

/// `char_from` lies between its start and the end, and what it skips is not `c`.
pub proof fn lemma_char_from_bounds(s: Seq<char>, c: char, i: int)
    requires
        0 <= i <= s.len(),
    ensures
        i <= char_from(s, c, i) <= s.len(),
        char_from(s, c, i) < s.len() ==> s[char_from(s, c, i)] == c,
        forall|j: int| i <= j < char_from(s, c, i) ==> s[j] != c,
    decreases s.len() - i,
{
    if i < s.len() && s[i] != c {
        lemma_char_from_bounds(s, c, i + 1);
    }
}

/// A line ending at a `'\n'` loses one trailing `'\r'`.
pub open spec fn strip_cr(l: Seq<char>) -> Seq<char> {
    if l.len() > 0 && l[l.len() - 1] == '\r' {
        l.drop_last()
    } else {
        l
    }
}

/// The lines of `s` from index `a` on, as `str::lines` yields them.
pub open spec fn lines_from(s: Seq<char>, a: int) -> Seq<Seq<char>>
    decreases s.len() - a,
{
    if a < 0 || a >= s.len() {
        seq![]
    } else {
        let k = char_from(s, '\n', a);
        proof {
            lemma_char_from_bounds(s, '\n', a);
        }
        if k < s.len() {
            seq![strip_cr(s.subrange(a, k))] + lines_from(s, k + 1)
        } else {
            seq![s.subrange(a, s.len() as int)]
        }
    }
}

/// `str::lines`.
pub open spec fn lines(s: Seq<char>) -> Seq<Seq<char>> {
    lines_from(s, 0)
}

/// Whether a word of `split_whitespace` starts at `i`.
pub open spec fn word_start(s: Seq<char>, i: int) -> bool {
    !is_ws(s[i]) && (i == 0 || is_ws(s[i - 1]))
}

/// Number of words of `split_whitespace` that start before `n`.
pub open spec fn words_before(s: Seq<char>, n: int) -> nat
    decreases n,
{
    if n <= 0 || n > s.len() {
        0
    } else {
        words_before(s, n - 1) + if word_start(s, n - 1) { 1nat } else { 0nat }
    }
}

/// `str::split_whitespace().count()`.
pub open spec fn word_count(s: Seq<char>) -> nat {
    words_before(s, s.len() as int)
}

/// `lines.join(sep)`.
pub open spec fn join(ls: Seq<Seq<char>>, sep: Seq<char>) -> Seq<char>
    decreases ls.len(),
{
    if ls.len() == 0 {
        seq![]
    } else if ls.len() == 1 {
        ls[0]
    } else {
        join(ls.drop_last(), sep) + sep + ls.last()
    }
}

/// The lowercase mapping of `str::to_lowercase` (Unicode case tables).
pub uninterp spec fn lowercase(s: Seq<char>) -> Seq<char>;

/// The uppercase mapping of `str::to_uppercase` (Unicode case tables).
pub uninterp spec fn uppercase(s: Seq<char>) -> Seq<char>;

/// `char::is_alphanumeric` (Unicode `Alphabetic` or `Numeric`).
pub uninterp spec fn alphanumeric(c: char) -> bool;

/// `find_from` stays inside the haystack.
pub proof fn lemma_find_bound(h: Seq<char>, n: Seq<char>, i: int)
    requires
        0 <= i,
    ensures
        find_from(h, n, i) matches Some(k) ==> i <= k && k + n.len() <= h.len(),
    decreases h.len() + 1 - i,
{
    if i + n.len() <= h.len() && h.subrange(i, i + n.len()) != n {
        lemma_find_bound(h, n, i + 1);
    }
}

/// `skip_ws_from` stays inside the sequence.
pub proof fn lemma_skip_ws_bound(s: Seq<char>, i: int)
    requires
        0 <= i <= s.len(),
    ensures
        i <= skip_ws_from(s, i) <= s.len(),
    decreases s.len() - i,
{
    if i < s.len() && is_ws(s[i]) {
        lemma_skip_ws_bound(s, i + 1);
    }
}

/// A text has no more lines than characters (plus one for the last line).
pub proof fn lemma_lines_from_bound(s: Seq<char>, a: int)
    requires
        0 <= a,
    ensures
        a <= s.len() ==> lines_from(s, a).len() <= s.len() - a,
        a > s.len() ==> lines_from(s, a).len() == 0,
    decreases s.len() - a,
{
    if a < s.len() {
        let k = char_from(s, '\n', a);
        lemma_char_from_bounds(s, '\n', a);
        if k < s.len() {
            lemma_lines_from_bound(s, k + 1);
        }
    }
}

/// Number of `'\n'` in `s`.
pub open spec fn newlines(s: Seq<char>) -> nat
    decreases s.len(),
{
    if s.len() == 0 {
        0
    } else {
        newlines(s.drop_last()) + if s.last() == '\n' {
            1nat
        } else {
            0nat
        }
    }
}

/// 1 when `s` ends in a line without a newline, else 0.
pub open spec fn open_last_line(s: Seq<char>) -> nat {
    if s.len() > 0 && s.last() != '\n' {
        1
    } else {
        0
    }
}

/// Newlines of a concatenation add up.
pub proof fn lemma_newlines_concat(a: Seq<char>, b: Seq<char>)
    ensures
        newlines(a + b) == newlines(a) + newlines(b),
    decreases b.len(),
{
    if b.len() == 0 {
        assert(a + b =~= a);
    } else {
        assert((a + b).drop_last() =~= a + b.drop_last());
        lemma_newlines_concat(a, b.drop_last());
    }
}

/// A text without `'\n'` has no newlines.
pub proof fn lemma_newlines_none(s: Seq<char>)
    requires
        forall|j: int| 0 <= j < s.len() ==> s[j] != '\n',
    ensures
        newlines(s) == 0,
    decreases s.len(),
{
    if s.len() > 0 {
        lemma_newlines_none(s.drop_last());
    }
}

/// The lines from index `a` on: one per newline, and one more for an unterminated last line.
pub proof fn lemma_lines_from_count(s: Seq<char>, a: int)
    requires
        0 <= a <= s.len(),
    ensures
        lines_from(s, a).len() == newlines(s.subrange(a, s.len() as int)) + open_last_line(
            s.subrange(a, s.len() as int),
        ),
    decreases s.len() - a,
{
    let tail = s.subrange(a, s.len() as int);
    if a == s.len() {
        assert(tail =~= Seq::<char>::empty());
    } else {
        let k = char_from(s, '\n', a);
        lemma_char_from_bounds(s, '\n', a);
        lemma_newlines_none(s.subrange(a, k));
        if k < s.len() {
            lemma_lines_from_count(s, k + 1);
            let rest = s.subrange(k + 1, s.len() as int);
            assert(tail =~= s.subrange(a, k) + seq!['\n'] + rest);
            lemma_newlines_concat(s.subrange(a, k) + seq!['\n'], rest);
            lemma_newlines_concat(s.subrange(a, k), seq!['\n']);
            assert(newlines(seq!['\n']) == 1) by {
                let one = seq!['\n'];
                assert(one.drop_last() =~= Seq::<char>::empty());
                assert(newlines(one.drop_last()) == 0);
                assert(one.last() == '\n');
            }
            if k + 1 == s.len() {
                assert(rest =~= Seq::<char>::empty());
            }
        } else {
            assert(tail =~= s.subrange(a, k));
        }
    }
}

/// `lines(s)`: one line per newline, and one more for an unterminated last line.
pub proof fn lemma_lines_count(s: Seq<char>)
    ensures
        lines(s).len() == newlines(s) + open_last_line(s),
{
    lemma_lines_from_count(s, 0);
    assert(s.subrange(0, s.len() as int) =~= s);
}

/// A text with a non-whitespace character does not trim to nothing.
pub proof fn lemma_trim_keeps(x: Seq<char>, j: int)
    requires
        0 <= j < x.len(),
        !is_ws(x[j]),
    ensures
        trim(x).len() > 0,
{
    lemma_skip_ws_upto(x, 0, j);
    let q = skip_ws_from(x, 0);
    let y = x.subrange(q, x.len() as int);
    assert(y[j - q] == x[j]);
    lemma_trim_end_keeps(y, y.len() as int, j - q);
}

/// `skip_ws_from` stops at or before a non-whitespace character.
pub proof fn lemma_skip_ws_upto(x: Seq<char>, i: int, j: int)
    requires
        0 <= i <= j < x.len(),
        !is_ws(x[j]),
    ensures
        i <= skip_ws_from(x, i) <= j,
    decreases j - i,
{
    if is_ws(x[i]) {
        lemma_skip_ws_upto(x, i + 1, j);
    }
}

/// `trim_end_from` keeps a non-whitespace character before its start.
pub proof fn lemma_trim_end_keeps(y: Seq<char>, m: int, j: int)
    requires
        0 <= j < m <= y.len(),
        !is_ws(y[j]),
    ensures
        j < trim_end_from(y, m) <= m,
    decreases m,
{
    if is_ws(y[m - 1]) {
        lemma_trim_end_keeps(y, m - 1, j);
    }
}

/// A found needle sits where `find_from` says.
pub proof fn lemma_find_found(h: Seq<char>, n: Seq<char>, i: int)
    requires
        0 <= i,
    ensures
        find_from(h, n, i) matches Some(k) ==> h.subrange(k, k + n.len()) == n,
    decreases h.len() + 1 - i,
{
    if i + n.len() <= h.len() && h.subrange(i, i + n.len()) != n {
        lemma_find_found(h, n, i + 1);
    }
}

/// `lines(s)` has at most `s.len()` elements.
pub proof fn lemma_lines_len_bound(s: Seq<char>)
    ensures
        lines(s).len() <= s.len(),
{
    lemma_lines_from_bound(s, 0);
}

/// The bound of a prefix's lines in terms of the whole text.
pub proof fn lemma_lines_of_prefix_bound(s: Seq<char>, a: int, b: int)
    requires
        0 <= a <= b <= s.len(),
    ensures
        lines(s.subrange(a, b)).len() <= s.len(),
{
    lemma_lines_len_bound(s.subrange(a, b));
}

/// The decimal digits of `n`, as `format!("{}", n)` writes them.
pub open spec fn decimal(n: nat) -> Seq<char>
    decreases n,
{
    if n < 10 {
        seq![digit_char(n)]
    } else {
        decimal(n / 10).push(digit_char(n % 10))
    }
}

/// The character of a decimal digit.
pub open spec fn digit_char(d: nat) -> char {
    if d == 0 {
        '0'
    } else if d == 1 {
        '1'
    } else if d == 2 {
        '2'
    } else if d == 3 {
        '3'
    } else if d == 4 {
        '4'
    } else if d == 5 {
        '5'
    } else if d == 6 {
        '6'
    } else if d == 7 {
        '7'
    } else if d == 8 {
        '8'
    } else {
        '9'
    }
}

fn digit(d: usize) -> (c: char)
    requires
        d < 10,
    ensures
        c == digit_char(d as nat),
{
    if d == 0 {
        '0'
    } else if d == 1 {
        '1'
    } else if d == 2 {
        '2'
    } else if d == 3 {
        '3'
    } else if d == 4 {
        '4'
    } else if d == 5 {
        '5'
    } else if d == 6 {
        '6'
    } else if d == 7 {
        '7'
    } else if d == 8 {
        '8'
    } else {
        '9'
    }
}

/// Appends the decimal digits of `n` to `s`.
pub fn push_decimal_u64(s: &mut String, n: u64)
    ensures
        final(s)@ == old(s)@ + decimal(n as nat),
    decreases n,
{
    if n >= 10 {
        push_decimal_u64(s, n / 10);
    }
    let d = n % 10;
    push_char(s, digit(d as usize));
    assert(n < 10 ==> n % 10 == n);
}

/// Appends the decimal digits of `n` to `s`.
pub fn push_decimal(s: &mut String, n: usize)
    ensures
        final(s)@ == old(s)@ + decimal(n as nat),
    decreases n,
{
    if n >= 10 {
        push_decimal(s, n / 10);
    }
    push_char(s, digit(n % 10));
    assert(n < 10 ==> n % 10 == n);
}

// ---------------------------------------------------------------------------
// Trusted std calls
// ---------------------------------------------------------------------------

/// Whether every character of `s` is ASCII.
pub open spec fn all_ascii(s: Seq<char>) -> bool {
    forall|i: int| 0 <= i < s.len() ==> (#[trigger] s[i]) as u32 <= 127
}

/// The ASCII lowercase of a character: `A`-`Z` to `a`-`z`, any other unchanged.
pub open spec fn ascii_lower(c: char) -> char {
    if 'A' <= c <= 'Z' {
        ((c as u32) + 32) as char
    } else {
        c
    }
}

/// The ASCII uppercase of a character: `a`-`z` to `A`-`Z`, any other unchanged.
pub open spec fn ascii_upper(c: char) -> char {
    if 'a' <= c <= 'z' {
        ((c as u32) - 32) as char
    } else {
        c
    }
}

/// Calls `str::to_lowercase`; the result is the Unicode lowercase mapping of `s`, named
/// `lowercase`. Each character maps to one or more characters (`char::to_lowercase`), so the
/// result is empty exactly when `s` is; on ASCII text the mapping is `A`-`Z` to `a`-`z`
/// with every other character kept. What non-ASCII characters map to is left to the name.
#[verifier::external_body]
pub(crate) fn to_lower(s: &str) -> (r: String)
    ensures
        r@ == lowercase(s@),
        r@.len() == 0 <==> s@.len() == 0,
        all_ascii(s@) ==> r@ == s@.map_values(|c: char| ascii_lower(c)),
{
    s.to_lowercase()
}

/// Calls `str::to_uppercase`; the result is the Unicode uppercase mapping of `s`, named
/// `uppercase`. Each character maps to one or more characters (`char::to_uppercase`), so the
/// result is empty exactly when `s` is; on ASCII text the mapping is `a`-`z` to `A`-`Z`
/// with every other character kept. What non-ASCII characters map to is left to the name.
#[verifier::external_body]
pub(crate) fn to_upper(s: &str) -> (r: String)
    ensures
        r@ == uppercase(s@),
        r@.len() == 0 <==> s@.len() == 0,
        all_ascii(s@) ==> r@ == s@.map_values(|c: char| ascii_upper(c)),
{
    s.to_uppercase()
}

/// Calls `char::is_alphanumeric`.
#[verifier::external_body]
pub(crate) fn is_alphanumeric(c: char) -> (r: bool)
    ensures
        r == alphanumeric(c),
{
    c.is_alphanumeric()
}

/// Calls `String::push`, which appends one character.
#[verifier::external_body]
pub(crate) fn push_char(s: &mut String, c: char)
    ensures
        final(s)@ == old(s)@.push(c),
{
    s.push(c)
}

// ---------------------------------------------------------------------------
// Verified helpers
// ---------------------------------------------------------------------------

/// The characters of `s`, in order.
pub fn chars_of(s: &str) -> (r: Vec<char>)
    ensures
        r@ == s@,
{
    let mut r: Vec<char> = Vec::new();
    for c in it: s.chars()
        invariant
            r@ == it.seq().take(it.index() as int),
            it.seq() == s@,
    {
        r.push(c);
    }
    r
}

/// A `String` holding `cs`.
pub fn string_of(cs: &[char]) -> (r: String)
    ensures
        r@ == cs@,
{
    let mut r = String::new();
    let mut i: usize = 0;
    while i < cs.len()
        invariant
            i <= cs.len(),
            r@ == cs@.take(i as int),
        decreases cs.len() - i,
    {
        push_char(&mut r, cs[i]);
        i += 1;
        assert(r@ =~= cs@.take(i as int));
    }
    assert(r@ =~= cs@);
    r
}

/// A `String` holding `cs[lo..hi]`.
pub fn string_of_range(cs: &[char], lo: usize, hi: usize) -> (r: String)
    requires
        lo <= hi <= cs.len(),
    ensures
        r@ == cs@.subrange(lo as int, hi as int),
{
    let mut r = String::new();
    let mut i: usize = lo;
    while i < hi
        invariant
            lo <= i <= hi <= cs.len(),
            r@ == cs@.subrange(lo as int, i as int),
        decreases hi - i,
    {
        push_char(&mut r, cs[i]);
        i += 1;
        assert(r@ =~= cs@.subrange(lo as int, i as int));
    }
    r
}

/// Appends `cs` to `s`.
pub fn push_chars(s: &mut String, cs: &[char])
    ensures
        final(s)@ == old(s)@ + cs@,
{
    let mut i: usize = 0;
    while i < cs.len()
        invariant
            i <= cs.len(),
            s@ == old(s)@ + cs@.take(i as int),
        decreases cs.len() - i,
    {
        push_char(s, cs[i]);
        i += 1;
        assert(s@ =~= old(s)@ + cs@.take(i as int));
    }
    assert(cs@.take(cs.len() as int) =~= cs@);
}

/// Appends `t` to `s`.
pub fn push_str(s: &mut String, t: &str)
    ensures
        final(s)@ == old(s)@ + t@,
{
    let cs = chars_of(t);
    push_chars(s, cs.as_slice());
}

/// `char::is_whitespace`.
pub fn is_whitespace(c: char) -> (r: bool)
    ensures
        r == is_ws(c),
{
    let u = c as u32;
    (9 <= u && u <= 13) || u == 32 || u == 0x85 || u == 0xA0 || u == 0x1680 || (0x2000 <= u
        && u <= 0x200A) || u == 0x2028 || u == 0x2029 || u == 0x202F || u == 0x205F || u == 0x3000
}

/// Lowercases `cs`.
pub fn lower_chars(cs: &[char]) -> (r: Vec<char>)
    ensures
        r@ == lowercase(cs@),
{
    let s = string_of(cs);
    let l = to_lower(s.as_str());
    chars_of(l.as_str())
}

/// Start and end of `s[lo..hi]` with surrounding whitespace removed.
pub fn trim_range(s: &[char], lo: usize, hi: usize) -> (r: (usize, usize))
    requires
        lo <= hi <= s.len(),
    ensures
        lo <= r.0 <= r.1 <= hi,
        s@.subrange(r.0 as int, r.1 as int) == trim(s@.subrange(lo as int, hi as int)),
{
    let ghost t = s@.subrange(lo as int, hi as int);
    let mut a = lo;
    while a < hi && is_whitespace(s[a])
        invariant
            lo <= a <= hi <= s.len(),
            t == s@.subrange(lo as int, hi as int),
            skip_ws_from(t, 0) == skip_ws_from(t, a - lo),
        decreases hi - a,
    {
        a += 1;
    }
    let ghost u = t.subrange(a - lo, t.len() as int);
    assert(u =~= s@.subrange(a as int, hi as int));
    let mut b = hi;
    while b > a && is_whitespace(s[b - 1])
        invariant
            lo <= a <= b <= hi <= s.len(),
            u == s@.subrange(a as int, hi as int),
            trim_end_from(u, u.len() as int) == trim_end_from(u, b - a),
        decreases b - a,
    {
        b -= 1;
    }
    assert(trim_start(t) == u);
    assert(trim_end(u) =~= s@.subrange(a as int, b as int));
    (a, b)
}

/// `s.trim()`.
pub fn trim_chars(s: &[char]) -> (r: Vec<char>)
    ensures
        r@ == trim(s@),
{
    let (a, b) = trim_range(s, 0, s.len());
    assert(s@.subrange(0, s.len() as int) =~= s@);
    let mut r: Vec<char> = Vec::new();
    let mut i = a;
    while i < b
        invariant
            a <= i <= b <= s.len(),
            r@ == s@.subrange(a as int, i as int),
        decreases b - i,
    {
        r.push(s[i]);
        i += 1;
        assert(r@ =~= s@.subrange(a as int, i as int));
    }
    r
}

/// Whether `h[i..]` starts with `n`.
pub fn matches_at(h: &[char], n: &[char], i: usize) -> (r: bool)
    requires
        i <= h.len(),
    ensures
        r == (i + n.len() <= h.len() && h@.subrange(i as int, i + n.len()) == n@),
{
    if n.len() > h.len() - i {
        return false;
    }
    let mut j: usize = 0;
    while j < n.len()
        invariant
            i + n.len() <= h.len(),
            j <= n.len(),
            forall|k: int| 0 <= k < j ==> h@[i + k] == n@[k],
        decreases n.len() - j,
    {
        if h[i + j] != n[j] {
            assert(h@.subrange(i as int, i + n.len())[j as int] != n@[j as int]);
            return false;
        }
        j += 1;
    }
    assert(h@.subrange(i as int, i + n.len()) =~= n@);
    true
}

/// First occurrence of `n` in `h` at or after `i`.
pub fn find_chars_from(h: &[char], n: &[char], i: usize) -> (r: Option<usize>)
    requires
        i <= h.len(),
    ensures
        r matches Some(k) ==> find_from(h@, n@, i as int) == Some(k as int),
        r is None ==> find_from(h@, n@, i as int) is None,
{
    let mut k = i;
    while k <= h.len()
        invariant
            i <= k,
            k <= h.len() + 1,
            find_from(h@, n@, i as int) == find_from(h@, n@, k as int),
        decreases h.len() + 1 - k,
    {
        if n.len() > h.len() - k {
            return None;
        }
        if matches_at(h, n, k) {
            return Some(k);
        }
        proof {
            if k == h.len() {
                assert(h@.subrange(k as int, k as int) =~= n@);
            }
        }
        k += 1;
    }
    None
}

/// `h.find(n)`.
pub fn find_chars(h: &[char], n: &[char]) -> (r: Option<usize>)
    ensures
        r matches Some(k) ==> find(h@, n@) == Some(k as int),
        r is None ==> find(h@, n@) is None,
{
    find_chars_from(h, n, 0)
}

/// `h.contains(n)`.
pub fn contains_chars(h: &[char], n: &[char]) -> (r: bool)
    ensures
        r == contains(h@, n@),
{
    find_chars(h, n).is_some()
}

/// `h.contains(n)` for a literal `n`.
pub fn contains_str(h: &[char], n: &str) -> (r: bool)
    ensures
        r == contains(h@, n@),
{
    let nc = chars_of(n);
    contains_chars(h, nc.as_slice())
}

/// `h.starts_with(p)`.
pub fn starts_with_chars(h: &[char], p: &[char]) -> (r: bool)
    ensures
        r == starts_with(h@, p@),
{
    matches_at(h, p, 0)
}

/// `h.starts_with(p)` for a literal `p`.
pub fn starts_with_str(h: &[char], p: &str) -> (r: bool)
    ensures
        r == starts_with(h@, p@),
{
    let pc = chars_of(p);
    starts_with_chars(h, pc.as_slice())
}

/// `h.ends_with(p)`.
pub fn ends_with_chars(h: &[char], p: &[char]) -> (r: bool)
    ensures
        r == ends_with(h@, p@),
{
    if p.len() > h.len() {
        return false;
    }
    matches_at(h, p, h.len() - p.len())
}

/// Whether two character sequences are equal.
pub fn chars_eq(a: &[char], b: &[char]) -> (r: bool)
    ensures
        r == (a@ == b@),
{
    if a.len() != b.len() {
        return false;
    }
    let r = matches_at(a, b, 0);
    assert(r ==> a@.subrange(0, b.len() as int) =~= a@);
    assert(a@ == b@ ==> a@.subrange(0, b.len() as int) =~= b@);
    r
}

/// Whether `a` equals the literal `b`.
pub fn chars_eq_str(a: &[char], b: &str) -> (r: bool)
    ensures
        r == (a@ == b@),
{
    let bc = chars_of(b);
    chars_eq(a, bc.as_slice())
}

/// Index of the first `c` at or after `i`, or `s.len()`.
pub fn char_index_from(s: &[char], c: char, i: usize) -> (r: usize)
    requires
        i <= s.len(),
    ensures
        r == char_from(s@, c, i as int),
        i <= r <= s.len(),
{
    let mut k = i;
    while k < s.len() && s[k] != c
        invariant
            i <= k <= s.len(),
            char_from(s@, c, i as int) == char_from(s@, c, k as int),
        decreases s.len() - k,
    {
        k += 1;
    }
    k
}

/// The line ranges of `s`: `s[r[i].0..r[i].1]` is the `i`-th line of `str::lines`.
pub fn line_ranges(s: &[char]) -> (r: Vec<(usize, usize)>)
    ensures
        r@.len() == lines(s@).len(),
        forall|i: int|
            0 <= i < r@.len() ==> {
                &&& (#[trigger] r@[i]).0 <= r@[i].1 <= s.len()
                &&& s@.subrange(r@[i].0 as int, r@[i].1 as int) == lines(s@)[i]
            },
        forall|i: int| 0 <= i < r@.len() - 1 ==> (#[trigger] r@[i]).1 < r@[i + 1].0,
{
    let mut r: Vec<(usize, usize)> = Vec::new();
    let mut a: usize = 0;
    let ghost mut done: Seq<Seq<char>> = seq![];
    while a < s.len()
        invariant
            a <= s.len(),
            lines(s@) == done + lines_from(s@, a as int),
            r@.len() == done.len(),
            forall|i: int|
                0 <= i < r@.len() ==> {
                    &&& (#[trigger] r@[i]).0 <= r@[i].1 <= s.len()
                    &&& s@.subrange(r@[i].0 as int, r@[i].1 as int) == done[i]
                },
            forall|i: int| 0 <= i < r@.len() - 1 ==> (#[trigger] r@[i]).1 < r@[i + 1].0,
            r@.len() > 0 && a < s.len() ==> r@.last().1 < a,
        decreases s.len() - a,
    {
        let k = char_index_from(s, '\n', a);
        if k < s.len() {
            let mut e = k;
            if e > a && s[e - 1] == '\r' {
                e = e - 1;
            }
            let ghost line = strip_cr(s@.subrange(a as int, k as int));
            assert(s@.subrange(a as int, e as int) =~= line);
            r.push((a, e));
            proof {
                assert(lines_from(s@, a as int) == seq![line] + lines_from(s@, k + 1));
                done = done.push(line);
                assert(lines(s@) =~= done + lines_from(s@, k + 1));
            }
            a = k + 1;
        } else {
            let ghost line = s@.subrange(a as int, s.len() as int);
            r.push((a, s.len()));
            proof {
                assert(lines_from(s@, a as int) == seq![line]);
                done = done.push(line);
                assert(lines_from(s@, s.len() as int) =~= Seq::<Seq<char>>::empty());
                assert(lines(s@) =~= done + lines_from(s@, s.len() as int));
            }
            a = s.len();
        }
    }
    assert(lines_from(s@, a as int) =~= Seq::<Seq<char>>::empty());
    assert(lines(s@) =~= done);
    r
}

/// `s.lines().count()`.
pub fn line_count(s: &[char]) -> (r: usize)
    ensures
        r == lines(s@).len(),
{
    line_ranges(s).len()
}

/// `s.split_whitespace().count()`.
pub fn count_words(s: &[char]) -> (r: usize)
    ensures
        r == word_count(s@),
{
    let mut n: usize = 0;
    let mut i: usize = 0;
    while i < s.len()
        invariant
            i <= s.len(),
            n == words_before(s@, i as int),
            n <= i,
        decreases s.len() - i,
    {
        let start = !is_whitespace(s[i]) && (i == 0 || is_whitespace(s[i - 1]));
        if start {
            n += 1;
        }
        i += 1;
    }
    n
}

// ---------------------------------------------------------------------------
// Lines of a concatenation
// ---------------------------------------------------------------------------

/// Searching a prefix that holds `c` finds the same place with or without what follows.
pub proof fn lemma_char_from_prefix(p: Seq<char>, b: Seq<char>, c: char, a: int, j: int)
    requires
        0 <= a <= j < p.len(),
        p[j] == c,
    ensures
        char_from(p + b, c, a) == char_from(p, c, a),
        char_from(p, c, a) <= j,
    decreases j - a,
{
    assert((p + b)[a] == p[a]);
    if p[a] != c {
        lemma_char_from_prefix(p, b, c, a + 1, j);
    }
}

/// Searching past a prefix is searching what follows it.
pub proof fn lemma_char_from_shift(p: Seq<char>, b: Seq<char>, c: char, i: int)
    requires
        0 <= i <= b.len(),
    ensures
        char_from(p + b, c, p.len() + i) == p.len() + char_from(b, c, i),
    decreases b.len() - i,
{
    if i < b.len() {
        assert((p + b)[p.len() + i] == b[i]);
        if b[i] != c {
            lemma_char_from_shift(p, b, c, i + 1);
        }
    }
}

/// The lines past a prefix are the lines of what follows it.
pub proof fn lemma_lines_from_shift(p: Seq<char>, b: Seq<char>, i: int)
    requires
        0 <= i,
    ensures
        lines_from(p + b, p.len() + i) == lines_from(b, i),
    decreases b.len() - i,
{
    if i < b.len() {
        let k = char_from(b, '\n', i);
        lemma_char_from_bounds(b, '\n', i);
        lemma_char_from_shift(p, b, '\n', i);
        if k < b.len() {
            lemma_lines_from_shift(p, b, k + 1);
            assert((p + b).subrange(p.len() + i, p.len() + k) =~= b.subrange(i, k));
        } else {
            assert((p + b).subrange(p.len() + i, (p + b).len() as int) =~= b.subrange(i, b.len() as int));
        }
    }
}

/// The lines of a text ending in a newline, followed by more text, are its lines then
/// the lines of the rest.
pub proof fn lemma_lines_from_concat(p: Seq<char>, b: Seq<char>, a: int)
    requires
        p.len() > 0,
        p.last() == '\n',
        0 <= a <= p.len(),
    ensures
        lines_from(p + b, a) == lines_from(p, a) + lines(b),
    decreases p.len() - a,
{
    if a == p.len() {
        lemma_lines_from_shift(p, b, 0);
        assert(lines_from(p, a) =~= seq![]);
        assert(lines_from(p, a) + lines(b) =~= lines(b));
    } else {
        let j = p.len() - 1;
        lemma_char_from_prefix(p, b, '\n', a, j);
        lemma_char_from_bounds(p, '\n', a);
        let k = char_from(p, '\n', a);
        lemma_lines_from_concat(p, b, k + 1);
        assert((p + b).subrange(a, k) =~= p.subrange(a, k));
        assert(lines_from(p + b, a) =~= seq![strip_cr(p.subrange(a, k))] + lines_from(p + b, k + 1));
        assert(lines_from(p, a) =~= seq![strip_cr(p.subrange(a, k))] + lines_from(p, k + 1));
        assert(lines_from(p + b, a) =~= lines_from(p, a) + lines(b));
    }
}

/// `lines(p + b)` is `lines(p)` then `lines(b)` when `p` ends in a newline.
pub proof fn lemma_lines_concat(p: Seq<char>, b: Seq<char>)
    requires
        p.len() > 0,
        p.last() == '\n',
    ensures
        lines(p + b) == lines(p) + lines(b),
{
    lemma_lines_from_concat(p, b, 0);
}

/// Whether `n` occurs in `h` at index `j`.
pub open spec fn occurs_at(h: Seq<char>, n: Seq<char>, j: int) -> bool {
    0 <= j && j + n.len() <= h.len() && h.subrange(j, j + n.len()) == n
}

/// Where nothing is found from `i` on, nothing occurs from `i` on.
pub proof fn lemma_find_none(h: Seq<char>, n: Seq<char>, i: int)
    requires
        0 <= i,
        find_from(h, n, i) is None,
    ensures
        forall|j: int| i <= j ==> !#[trigger] occurs_at(h, n, j),
    decreases h.len() + 1 - i,
{
    if i + n.len() <= h.len() {
        lemma_find_none(h, n, i + 1);
    }
}

/// The first occurrence is what `find_from` finds.
pub proof fn lemma_find_first(h: Seq<char>, n: Seq<char>, i: int, m: int)
    requires
        0 <= i <= m,
        occurs_at(h, n, m),
        forall|j: int| i <= j < m ==> !#[trigger] occurs_at(h, n, j),
    ensures
        find_from(h, n, i) == Some(m),
    decreases m - i,
{
    if i < m {
        assert(!occurs_at(h, n, i));
        lemma_find_first(h, n, i + 1, m);
    }
}

} // verus!
