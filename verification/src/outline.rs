//! Structural outline of a Markdown document: a nested tree of headings with
//! line ranges and token metrics.
use crate::agent::{
    blank_lines_from, close_fence, drop_line_break, fence_char, frontmatter_close,
    fence3, frontmatter_lines, cap_usize, get_frontmatter_line_count, strip_frontmatter, tokens_for,
    tokens_for_chars, without_frontmatter,
};
use crate::text::{
    char_from, chars_of, is_ws, join, lemma_char_from_bounds, lemma_find_bound, lemma_find_found,
    lemma_lines_count, lemma_newlines_concat, lemma_newlines_none, lemma_skip_ws_bound,
    lemma_trim_keeps, line_ranges, lines, lines_from, newlines, skip_ws_from, starts_with,
    string_of_range, strip_cr, trim, trim_range, trim_start,
};
use vstd::prelude::*;

verus! {

/// Maximum nesting depth of the heading tree.
pub const MAX_NESTING_DEPTH: usize = 32;

/// A heading with the section it opens and the headings nested under it.
#[derive(Debug, PartialEq, Eq)]
pub struct HeadingNode {
    pub level: u32,
    pub title: String,
    pub start_line: usize,
    pub end_line: usize,
    pub token_count: usize,
    pub character_count: usize,
    pub children: Vec<HeadingNode>,
}

/// The outline of a document.
#[derive(Debug, PartialEq, Eq)]
pub struct OutlineTree {
    pub headings: Vec<HeadingNode>,
    pub total_sections: usize,
    pub max_depth: u32,
}

/// The mathematical value of a heading node.
#[verifier::ext_equal]
pub struct HeadingView {
    pub level: u32,
    pub title: Seq<char>,
    pub start_line: usize,
    pub end_line: usize,
    pub token_count: usize,
    pub character_count: usize,
    pub children: Seq<HeadingView>,
}

/// The value of a heading node.
pub open spec fn heading_view(n: HeadingNode) -> HeadingView
    decreases n,
{
    HeadingView {
        level: n.level,
        title: n.title@,
        start_line: n.start_line,
        end_line: n.end_line,
        token_count: n.token_count,
        character_count: n.character_count,
        children: headings_view(n.children@),
    }
}

/// The values of a list of heading nodes.
pub open spec fn headings_view(s: Seq<HeadingNode>) -> Seq<HeadingView>
    decreases s,
{
    if s.len() == 0 {
        seq![]
    } else {
        headings_view(s.drop_last()).push(heading_view(s.last()))
    }
}

impl View for HeadingNode {
    type V = HeadingView;

    open spec fn view(&self) -> HeadingView {
        heading_view(*self)
    }
}

/// `headings_view` maps element by element.
pub proof fn lemma_headings_view(s: Seq<HeadingNode>)
    ensures
        headings_view(s).len() == s.len(),
        forall|i: int| 0 <= i < s.len() ==> headings_view(s)[i] == heading_view(#[trigger] s[i]),
    decreases s.len(),
{
    if s.len() > 0 {
        lemma_headings_view(s.drop_last());
        assert forall|i: int| 0 <= i < s.len() implies headings_view(s)[i] == heading_view(
            #[trigger] s[i],
        ) by {
            if i < s.len() - 1 {
                assert(s.drop_last()[i] == s[i]);
            }
        }
    }
}

/// The value of a pushed list.
pub proof fn lemma_headings_view_push(s: Seq<HeadingNode>, x: HeadingNode)
    ensures
        headings_view(s.push(x)) == headings_view(s).push(heading_view(x)),
{
    assert(s.push(x).drop_last() =~= s);
}

/// The value of a prefix one longer.
pub proof fn lemma_headings_view_take(s: Seq<HeadingNode>, i: int)
    requires
        0 <= i < s.len(),
    ensures
        headings_view(s.take(i + 1)) == headings_view(s.take(i)).push(heading_view(s[i])),
{
    assert(s.take(i + 1).drop_last() =~= s.take(i));
}

/// Number of headings in a forest, nested ones included.
pub open spec fn count_all(s: Seq<HeadingView>) -> nat
    decreases s,
{
    if s.len() == 0 {
        0
    } else {
        count_all(s.drop_last()) + 1 + count_all(s.last().children)
    }
}

/// The highest heading level in a forest, or 0 when it is empty.
pub open spec fn max_level(s: Seq<HeadingView>) -> u32
    decreases s,
{
    if s.len() == 0 {
        0
    } else {
        let rest = max_level(s.drop_last());
        let here = if s.last().level >= max_level(s.last().children) {
            s.last().level
        } else {
            max_level(s.last().children)
        };
        if rest >= here {
            rest
        } else {
            here
        }
    }
}

/// The headings of a forest in document order (each node followed by its descendants).
pub open spec fn preorder(s: Seq<HeadingView>) -> Seq<HeadingView>
    decreases s,
{
    if s.len() == 0 {
        seq![]
    } else {
        preorder(s.drop_last()) + seq![s.last()] + preorder(s.last().children)
    }
}

/// Inserts `n` under the last sibling while it is deeper, up to the nesting cap.
pub open spec fn nest_into(sibs: Seq<HeadingView>, n: HeadingView, depth: nat) -> Seq<HeadingView>
    decreases 32 - depth,
{
    if depth >= 32 || sibs.len() == 0 || n.level <= sibs.last().level {
        sibs.push(n)
    } else {
        let last = sibs.last();
        sibs.update(
            sibs.len() - 1,
            HeadingView { children: nest_into(last.children, n, depth + 1), ..last },
        )
    }
}

/// Nests a list of headings, in order, into a forest.
pub open spec fn nest_all(nodes: Seq<HeadingView>) -> Seq<HeadingView>
    decreases nodes.len(),
{
    if nodes.len() == 0 {
        seq![]
    } else {
        nest_into(nest_all(nodes.drop_last()), nodes.last(), 0)
    }
}

/// Each node of a forest is counted once, with its descendants.
pub proof fn lemma_count_all_push(s: Seq<HeadingView>, x: HeadingView)
    ensures
        count_all(s.push(x)) == count_all(s) + 1 + count_all(x.children),
{
    assert(s.push(x).drop_last() =~= s);
}

/// A child forest counts fewer nodes than the forest around it.
pub proof fn lemma_count_all_child(s: Seq<HeadingView>, i: int)
    requires
        0 <= i < s.len(),
    ensures
        count_all(s) >= 1 + count_all(s[i].children),
    decreases s.len(),
{
    if i < s.len() - 1 {
        lemma_count_all_child(s.drop_last(), i);
        assert(s.drop_last()[i] == s[i]);
    }
}

/// Nesting one heading adds it, and its children, to the count.
pub proof fn lemma_count_nest_into(s: Seq<HeadingView>, n: HeadingView, depth: nat)
    ensures
        count_all(nest_into(s, n, depth)) == count_all(s) + 1 + count_all(n.children),
    decreases 32 - depth,
{
    if depth >= 32 || s.len() == 0 || n.level <= s.last().level {
        lemma_count_all_push(s, n);
    } else {
        let last = s.last();
        let new_last = HeadingView { children: nest_into(last.children, n, depth + 1), ..last };
        lemma_count_nest_into(last.children, n, depth + 1);
        let r = s.update(s.len() - 1, new_last);
        assert(r.drop_last() =~= s.drop_last());
        assert(r.last() == new_last);
    }
}

/// Headings without children nest into a forest with exactly one node each.
pub proof fn lemma_count_nest_all(nodes: Seq<HeadingView>)
    requires
        forall|i: int| 0 <= i < nodes.len() ==> (#[trigger] nodes[i]).children.len() == 0,
    ensures
        count_all(nest_all(nodes)) == nodes.len(),
    decreases nodes.len(),
{
    if nodes.len() > 0 {
        assert forall|i: int| 0 <= i < nodes.drop_last().len() implies (
        #[trigger] nodes.drop_last()[i]).children.len() == 0 by {
            assert(nodes.drop_last()[i] == nodes[i]);
        }
        lemma_count_nest_all(nodes.drop_last());
        lemma_count_nest_into(nest_all(nodes.drop_last()), nodes.last(), 0);
        assert(nodes.last().children =~= Seq::<HeadingView>::empty());
    }
}

/// A heading without its nested headings.
pub open spec fn leaf(h: HeadingView) -> HeadingView {
    HeadingView { children: seq![], ..h }
}

/// Nesting a childless heading puts it last in document order.
pub proof fn lemma_preorder_nest_into(sibs: Seq<HeadingView>, n: HeadingView, depth: nat)
    requires
        n.children.len() == 0,
    ensures
        preorder(nest_into(sibs, n, depth)).map_values(|h: HeadingView| leaf(h))
            == preorder(sibs).map_values(|h: HeadingView| leaf(h)).push(leaf(n)),
    decreases 32 - depth,
{
    if depth >= 32 || sibs.len() == 0 || n.level <= sibs.last().level {
        assert(sibs.push(n).drop_last() =~= sibs);
        assert(n.children =~= Seq::<HeadingView>::empty());
        assert(preorder(n.children) =~= Seq::<HeadingView>::empty());
        assert(preorder(sibs.push(n)) =~= preorder(sibs) + seq![n]);
        assert(preorder(sibs.push(n)).map_values(|h: HeadingView| leaf(h))
            =~= preorder(sibs).map_values(|h: HeadingView| leaf(h)).push(leaf(n)));
    } else {
        let last = sibs.last();
        let kids = nest_into(last.children, n, depth + 1);
        let new_last = HeadingView { children: kids, ..last };
        lemma_preorder_nest_into(last.children, n, depth + 1);
        let r = sibs.update(sibs.len() - 1, new_last);
        assert(r.drop_last() =~= sibs.drop_last());
        assert(r.last() == new_last);
        let f = |h: HeadingView| leaf(h);
        let a = preorder(sibs.drop_last());
        assert(preorder(r) == a + seq![new_last] + preorder(kids));
        assert(preorder(sibs) == a + seq![last] + preorder(last.children));
        assert(leaf(new_last) == leaf(last));
        assert((a + seq![new_last] + preorder(kids)).map_values(f) =~= a.map_values(f) + seq![
            leaf(new_last),
        ] + preorder(kids).map_values(f));
        assert((a + seq![last] + preorder(last.children)).map_values(f) =~= a.map_values(f)
            + seq![leaf(last)] + preorder(last.children).map_values(f));
        assert(preorder(r).map_values(f) =~= preorder(sibs).map_values(f).push(leaf(n)));
    }
}

/// Childless headings nested into a forest come back, in order, from its preorder.
pub proof fn lemma_preorder_nest_all(nodes: Seq<HeadingView>)
    requires
        forall|i: int| 0 <= i < nodes.len() ==> (#[trigger] nodes[i]).children.len() == 0,
    ensures
        preorder(nest_all(nodes)).map_values(|h: HeadingView| leaf(h)) == nodes.map_values(
            |h: HeadingView| leaf(h),
        ),
    decreases nodes.len(),
{
    if nodes.len() == 0 {
        assert(preorder(nest_all(nodes)).map_values(|h: HeadingView| leaf(h)) =~= nodes.map_values(
            |h: HeadingView| leaf(h),
        ));
    } else {
        let d = nodes.drop_last();
        assert forall|i: int| 0 <= i < d.len() implies (#[trigger] d[i]).children.len() == 0 by {
            assert(d[i] == nodes[i]);
        }
        lemma_preorder_nest_all(d);
        lemma_preorder_nest_into(nest_all(d), nodes.last(), 0);
        assert(nodes.map_values(|h: HeadingView| leaf(h)) =~= d.map_values(|h: HeadingView| leaf(h)).push(
            leaf(nodes.last()),
        ));
    }
}

/// Every scanned heading lies on a line at most `sat_add(n, offset)`, and the line numbers
/// never decrease.
pub proof fn lemma_flat_headings_order(ls: Seq<Seq<char>>, n: int, offset: int)
    requires
        offset >= 0,
    ensures
        forall|i: int|
            0 <= i < flat_headings(ls, n, offset).len() ==> 1 <= #[trigger] flat_headings(
                ls,
                n,
                offset,
            )[i].start_line <= sat_add(n, offset),
        forall|i: int, j: int|
            0 <= i < j < flat_headings(ls, n, offset).len() ==> #[trigger] flat_headings(
                ls,
                n,
                offset,
            )[i].start_line <= #[trigger] flat_headings(ls, n, offset)[j].start_line,
    decreases n,
{
    if n <= 0 || n > ls.len() {
    } else {
        lemma_flat_headings_order(ls, n - 1, offset);
        let prev = flat_headings(ls, n - 1, offset);
        let cur = flat_headings(ls, n, offset);
        assert(sat_add(n - 1, offset) <= sat_add(n, offset));
        assert forall|i: int| 0 <= i < cur.len() implies 1 <= #[trigger] cur[i].start_line
            <= sat_add(n, offset) by {
            if i < prev.len() {
                assert(cur[i] == prev[i]);
            }
        }
        assert forall|i: int, j: int| 0 <= i < j < cur.len() implies #[trigger] cur[i].start_line
            <= #[trigger] cur[j].start_line by {
            assert(cur[i] == prev[i]);
            if j < prev.len() {
                assert(cur[j] == prev[j]);
            } else {
                assert(prev[i].start_line <= sat_add(n - 1, offset));
            }
        }
    }
}

/// Flattening the outline of a document lists its headings in document order: the `i`-th
/// heading of the flattened outline has the level, title and start line of the `i`-th
/// heading line of the document.
pub proof fn law_outline_lists_headings_in_order(s: Seq<char>)
    ensures
        preorder(outline_headings(s)).len() == document_headings(s).len(),
        forall|i: int|
            0 <= i < document_headings(s).len() ==> {
                &&& (#[trigger] preorder(outline_headings(s))[i]).level == document_headings(s)[i].level
                &&& preorder(outline_headings(s))[i].title == document_headings(s)[i].title
                &&& preorder(outline_headings(s))[i].start_line == document_headings(s)[i].start_line
            },
{
    let nodes = section_nodes(document_headings(s), lines(s));
    assert forall|i: int| 0 <= i < nodes.len() implies (#[trigger] nodes[i]).children.len() == 0 by {
        assert(nodes[i] == section_node(document_headings(s), i, lines(s)));
    }
    lemma_preorder_nest_all(nodes);
    let p = preorder(outline_headings(s));
    assert(p.map_values(|h: HeadingView| leaf(h)).len() == nodes.len());
    assert forall|i: int| 0 <= i < document_headings(s).len() implies {
        &&& (#[trigger] preorder(outline_headings(s))[i]).level == document_headings(s)[i].level
        &&& preorder(outline_headings(s))[i].title == document_headings(s)[i].title
        &&& preorder(outline_headings(s))[i].start_line == document_headings(s)[i].start_line
    } by {
        assert(p.map_values(|h: HeadingView| leaf(h))[i] == nodes.map_values(|h: HeadingView| leaf(h))[i]);
        assert(nodes[i] == section_node(document_headings(s), i, lines(s)));
    }
}

/// Blank lines before `s[p]` (not whitespace), counted from the line at `a`, are at most
/// the newlines in between.
pub proof fn lemma_blank_lines_before(s: Seq<char>, a: int, p: int)
    requires
        0 <= a <= p < s.len(),
        !is_ws(s[p]),
    ensures
        blank_lines_from(lines_from(s, a), 0) <= newlines(s.subrange(a, p)),
    decreases p - a,
{
    let k = char_from(s, '\n', a);
    lemma_char_from_bounds(s, '\n', a);
    let ls = lines_from(s, a);
    if k < s.len() {
        let x = strip_cr(s.subrange(a, k));
        let rest = lines_from(s, k + 1);
        assert(ls == seq![x] + rest);
        if p < k {
            assert(x[p - a] == s[p]);
            lemma_trim_keeps(x, p - a);
        } else {
            assert(p != k);
            lemma_blank_lines_shift(seq![x], rest, 0);
            lemma_blank_lines_before(s, k + 1, p);
            lemma_newlines_none(s.subrange(a, k));
            assert(s.subrange(a, p) =~= s.subrange(a, k) + seq!['\n'] + s.subrange(k + 1, p));
            lemma_newlines_concat(s.subrange(a, k) + seq!['\n'], s.subrange(k + 1, p));
            lemma_newlines_concat(s.subrange(a, k), seq!['\n']);
            let one = seq!['\n'];
            assert(one.drop_last() =~= Seq::<char>::empty());
            assert(newlines(one.drop_last()) == 0);
        }
    } else {
        let x = s.subrange(a, s.len() as int);
        assert(ls == seq![x]);
        assert(x[p - a] == s[p]);
        lemma_trim_keeps(x, p - a);
    }
}

/// Counting blank lines past a prefix of lines.
pub proof fn lemma_blank_lines_shift(pre: Seq<Seq<char>>, ls: Seq<Seq<char>>, i: int)
    requires
        0 <= i,
    ensures
        blank_lines_from(pre + ls, i + pre.len()) == blank_lines_from(ls, i),
    decreases ls.len() - i,
{
    if i < ls.len() {
        assert((pre + ls)[i + pre.len()] == ls[i]);
        lemma_blank_lines_shift(pre, ls, i + 1);
    }
}

/// A frontmatter block and the body after it take at most one line more than the document:
/// only the rest of the closing fence's line can become a line of its own.
#[verifier::spinoff_prover]
pub proof fn lemma_frontmatter_line_bound(s: Seq<char>)
    ensures
        frontmatter_lines(s) + lines(without_frontmatter(s)).len() <= lines(s).len() + 1,
{
    let p = skip_ws_from(s, 0);
    lemma_skip_ws_bound(s, 0);
    let t = trim_start(s);
    match frontmatter_close(t) {
        None => {},
        Some(e) => {
            let c = fence_char(t).unwrap();
            let tail = t.subrange(3, t.len() as int);
            lemma_find_bound(tail, close_fence(c), 0);
            lemma_find_found(tail, close_fence(c), 0);
            assert(tail.subrange(e, e + 4) == close_fence(c));
            let h = 3 + e + 4;
            let header = t.subrange(0, h);
            let rest = t.subrange(h, t.len() as int);
            let body = drop_line_break(rest);
            assert(t[0] == c);
            assert(s[p] == t[0]);
            assert(header.last() == tail[e + 3]);
            lemma_blank_lines_before(s, 0, p);
            lemma_lines_count(header);
            lemma_lines_count(body);
            lemma_lines_count(s);
            let w = s.subrange(0, p);
            assert(s =~= w + header + rest);
            lemma_newlines_concat(w + header, rest);
            lemma_newlines_concat(w, header);
            let d: int = if starts_with(rest, seq!['\r', '\n']) {
                2
            } else if starts_with(rest, seq!['\n']) {
                1
            } else {
                0
            };
            assert(body =~= rest.subrange(d, rest.len() as int));
            assert(rest =~= rest.subrange(0, d) + body);
            lemma_newlines_concat(rest.subrange(0, d), body);
            if body.len() > 0 {
                assert(body.last() == s.last());
            }
        },
    }
}

/// Every heading of a document starts at most one line past its last line.
pub proof fn lemma_heading_start_bound(s: Seq<char>)
    ensures
        forall|i: int|
            0 <= i < document_headings(s).len() ==> (#[trigger] document_headings(s)[i]).start_line
                <= lines(s).len() + 1,
{
    let body = lines(without_frontmatter(s));
    let off = cap_usize(frontmatter_lines(s)) as int;
    lemma_flat_headings_order(body, body.len() as int, off);
    lemma_frontmatter_line_bound(s);
}

/// Whether heading `h` stands on line `h.start_line` of `ls`, counted from 1.
pub open spec fn heading_on_line(ls: Seq<Seq<char>>, h: FlatView) -> bool {
    1 <= h.start_line <= ls.len() && parse_heading(ls[h.start_line - 1]) == Some((h.level, h.title))
}

/// Whether heading `h` was read from line `m` of `ls` and numbered `m + offset`.
pub open spec fn read_from(ls: Seq<Seq<char>>, h: FlatView, offset: int, m: int) -> bool {
    1 <= m <= ls.len() && h.start_line == sat_add(m, offset) && parse_heading(ls[m - 1]) == Some(
        (h.level, h.title),
    )
}

/// The line that heading `i` of the line scan was read from.
proof fn lemma_flat_heading_read(ls: Seq<Seq<char>>, n: int, offset: int, i: int) -> (m: int)
    requires
        0 <= n <= ls.len(),
        0 <= i < flat_headings(ls, n, offset).len(),
    ensures
        1 <= m <= n,
        read_from(ls, flat_headings(ls, n, offset)[i], offset, m),
    decreases n,
{
    let prev = flat_headings(ls, n - 1, offset);
    if i < prev.len() {
        let m = lemma_flat_heading_read(ls, n - 1, offset, i);
        assert(flat_headings(ls, n, offset)[i] == prev[i]);
        m
    } else {
        n
    }
}

/// Headings read from the lines of a text that follows `f` lines stand on their lines of
/// the whole text.
proof fn lemma_headings_on_lines(all: Seq<Seq<char>>, body: Seq<Seq<char>>, f: int)
    requires
        0 <= f,
        f <= all.len(),
        all.subrange(f, all.len() as int) == body,
        all.len() <= usize::MAX,
    ensures
        forall|i: int|
            0 <= i < flat_headings(body, body.len() as int, f).len() ==> heading_on_line(
                all,
                #[trigger] flat_headings(body, body.len() as int, f)[i],
            ),
{
    let hs = flat_headings(body, body.len() as int, f);
    assert forall|i: int| 0 <= i < hs.len() implies heading_on_line(all, #[trigger] hs[i]) by {
        let m = lemma_flat_heading_read(body, body.len() as int, f, i);
        assert(m + f <= all.len());
        assert(hs[i].start_line == m + f);
        assert(all[f + m - 1] == body[m - 1]);
    }
}

/// In a document that opens with no front matter, every heading of the outline stands on
/// the line it is reported at.
pub proof fn law_headings_stand_on_their_lines(s: Seq<char>)
    requires
        s.len() <= usize::MAX,
        frontmatter_close(trim_start(s)) is None,
    ensures
        forall|i: int|
            0 <= i < document_headings(s).len() ==> heading_on_line(lines(s), #[trigger] document_headings(s)[i]),
{
    crate::text::lemma_lines_len_bound(s);
    assert(lines(s).subrange(0, lines(s).len() as int) =~= lines(s));
    lemma_headings_on_lines(lines(s), lines(s), 0);
}

/// A document made of a front matter block fenced by `ccc` lines (`---` for YAML, `+++`
/// for TOML) with inner text `y`, then `body`.
pub open spec fn with_front_matter(c: char, y: Seq<char>, body: Seq<char>) -> Seq<char> {
    seq![c, c, c, '\n'] + y + seq!['\n', c, c, c, '\n'] + body
}

/// In a document that opens with a front matter block `---` ... `---` or `+++` ... `+++`
/// (whose inner text `y` holds no line starting with the fence), every heading of the
/// outline stands on the line of the whole file it is reported at: the front matter's
/// lines are counted in.
pub proof fn law_front_matter_keeps_heading_lines(c: char, y: Seq<char>, body: Seq<char>)
    requires
        c == '-' || c == '+',
        !crate::text::contains(seq!['\n'] + y, close_fence(c)),
        with_front_matter(c, y, body).len() <= usize::MAX,
    ensures
        forall|i: int|
            0 <= i < document_headings(with_front_matter(c, y, body)).len() ==> heading_on_line(
                lines(with_front_matter(c, y, body)),
                #[trigger] document_headings(with_front_matter(c, y, body))[i],
            ),
{
    let s = with_front_matter(c, y, body);
    let x = seq![c, c, c, '\n'] + y + seq!['\n', c, c, c];
    let p = x + seq!['\n'];
    assert(s =~= p + body);
    // the text opens with its fence, not with whitespace
    assert(s[0] == c);
    assert(skip_ws_from(s, 0) == 0);
    assert(trim_start(s) =~= s);
    assert(s.subrange(0, 3) =~= fence3(c));
    if c == '+' {
        assert(!starts_with(s, fence3('-'))) by {
            assert(s.subrange(0, 3)[0] == c);
        }
    }
    assert(fence_char(s) == Some(c));
    // the closing fence is the first fence line after the opening one
    let h = s.subrange(3, s.len() as int);
    let m: int = 1 + y.len() as int;
    let n = close_fence(c);
    assert(h =~= seq!['\n'] + y + seq!['\n', c, c, c, '\n'] + body);
    assert(h.subrange(m, m + 4) =~= n);
    let hy = seq!['\n'] + y;
    crate::text::lemma_find_none(hy, n, 0);
    assert forall|j: int| 0 <= j < m implies !#[trigger] crate::text::occurs_at(h, n, j) by {
        if j + 4 <= m {
            assert(h.subrange(j, j + 4) =~= hy.subrange(j, j + 4));
            assert(!crate::text::occurs_at(hy, n, j));
        } else {
            assert(h[m] == '\n');
            assert(h.subrange(j, j + 4)[m - j] == h[m]);
            assert(n[m - j] == c);
        }
    }
    crate::text::lemma_find_first(h, n, 0, m);
    assert(frontmatter_close(s) == Some(m));
    // the body follows the closing fence's line break
    assert(s.subrange(3 + m + 4, s.len() as int) =~= seq!['\n'] + body);
    assert((seq!['\n'] + body).subrange(0, 1) =~= seq!['\n']);
    assert(starts_with(seq!['\n'] + body, seq!['\n']));
    assert(!starts_with(seq!['\n'] + body, seq!['\r', '\n']));
    assert(without_frontmatter(s) =~= body);
    // the front matter's lines
    assert(s.subrange(0, 3 + m + 4) =~= x);
    crate::text::lemma_lines_concat(p, body);
    let tail = y + seq!['\n', c, c, c, '\n'] + body;
    crate::text::lemma_lines_concat(seq![c, c, c, '\n'], tail);
    assert(s =~= seq![c, c, c, '\n'] + tail);
    assert(lines(seq![c, c, c, '\n']) =~= seq![seq![c, c, c]]) by {
        let q = seq![c, c, c, '\n'];
        assert(char_from(q, '\n', 3) == 3);
        assert(char_from(q, '\n', 2) == 3);
        assert(char_from(q, '\n', 1) == 3);
        assert(char_from(q, '\n', 0) == 3);
        assert(q.subrange(0, 3) =~= seq![c, c, c]);
        assert(lines_from(q, 4) =~= seq![]);
    }
    assert(lines(s)[0] == seq![c, c, c]);
    assert(trim(seq![c, c, c]).len() > 0) by {
        let d = seq![c, c, c];
        assert(skip_ws_from(d, 0) == 0);
        lemma_trim_keeps(d, 0);
    }
    assert(blank_lines_from(lines(s), 0) == 0);
    lemma_lines_count(x);
    lemma_lines_count(p);
    lemma_newlines_concat(x, seq!['\n']);
    assert(newlines(seq!['\n']) == 1) by {
        let one = seq!['\n'];
        assert(one.drop_last() =~= Seq::<char>::empty());
        assert(newlines(one.drop_last()) == 0);
        assert(one.last() == '\n');
    }
    assert(x.last() == c);
    let f = lines(x).len() as int;
    assert(lines(p).len() == f);
    assert(frontmatter_lines(s) == f);
    crate::text::lemma_lines_len_bound(s);
    assert(cap_usize(frontmatter_lines(s)) == f);
    assert(lines(s).subrange(f, lines(s).len() as int) =~= lines(body));
    lemma_headings_on_lines(lines(s), lines(body), f);
}

/// Whether each node of a forest has children deeper than itself, all the way down.
pub open spec fn nested_deeper(s: Seq<HeadingView>) -> bool
    decreases s,
{
    if s.len() == 0 {
        true
    } else {
        &&& nested_deeper(s.drop_last())
        &&& forall|i: int| 0 <= i < s.last().children.len() ==> (#[trigger] s.last().children[i]).level > s.last().level
        &&& nested_deeper(s.last().children)
    }
}

/// Nesting a childless heading keeps children deeper than their parents, and keeps the
/// levels of the top-level nodes (the new one, where it lands on top, having its own).
proof fn lemma_nest_into_deeper(sibs: Seq<HeadingView>, n: HeadingView, depth: nat)
    requires
        nested_deeper(sibs),
        n.children.len() == 0,
    ensures
        nested_deeper(nest_into(sibs, n, depth)),
        forall|i: int|
            0 <= i < nest_into(sibs, n, depth).len() ==> (#[trigger] nest_into(sibs, n, depth)[i]).level == if i
                < sibs.len() {
                sibs[i].level
            } else {
                n.level
            },
    decreases 32 - depth,
{
    let r = nest_into(sibs, n, depth);
    if depth >= 32 || sibs.len() == 0 || n.level <= sibs.last().level {
        assert(r.drop_last() =~= sibs);
        assert(r.last() == n);
        assert(n.children =~= Seq::<HeadingView>::empty());
        assert(nested_deeper(n.children));
        assert(r.len() > 0);
        assert(nested_deeper(r));
    } else {
        let last = sibs.last();
        let cs = nest_into(last.children, n, depth + 1);
        lemma_nest_into_deeper(last.children, n, depth + 1);
        assert(r.drop_last() =~= sibs.drop_last());
        assert(nested_deeper(sibs.drop_last()));
        assert(r.last().children == cs);
        assert(r.last().level == last.level);
        assert forall|i: int| 0 <= i < cs.len() implies (#[trigger] cs[i]).level > last.level by {
            if i < last.children.len() {
                assert(cs[i].level == last.children[i].level);
            }
        }
        assert forall|i: int| 0 <= i < r.len() implies (#[trigger] r[i]).level == if i < sibs.len() {
            sibs[i].level
        } else {
            n.level
        } by {
            if i < sibs.len() - 1 {
                assert(r[i] == sibs[i]);
            }
        }
        assert(nested_deeper(r));
    }
}

/// Nesting childless headings gives a forest whose children are deeper than their parents.
proof fn lemma_nest_all_deeper(nodes: Seq<HeadingView>)
    requires
        forall|i: int| 0 <= i < nodes.len() ==> (#[trigger] nodes[i]).children.len() == 0,
    ensures
        nested_deeper(nest_all(nodes)),
    decreases nodes.len(),
{
    if nodes.len() > 0 {
        assert forall|i: int| 0 <= i < nodes.drop_last().len() implies (#[trigger] nodes.drop_last()[i]).children.len()
            == 0 by {
            assert(nodes.drop_last()[i] == nodes[i]);
        }
        lemma_nest_all_deeper(nodes.drop_last());
        lemma_nest_into_deeper(nest_all(nodes.drop_last()), nodes.last(), 0);
    }
}

/// In the outline, every heading's children have a deeper level than it has.
pub proof fn law_outline_children_are_deeper(s: Seq<char>)
    ensures
        nested_deeper(outline_headings(s)),
{
    let nodes = section_nodes(document_headings(s), lines(s));
    assert forall|i: int| 0 <= i < nodes.len() implies (#[trigger] nodes[i]).children.len() == 0 by {}
    lemma_nest_all_deeper(nodes);
}

/// Nesting keeps the top-level levels within the bounds of the nodes nested.
pub proof fn lemma_nest_into_levels(sibs: Seq<HeadingView>, n: HeadingView, depth: nat, lo: u32, hi: u32)
    requires
        lo <= n.level <= hi,
        forall|i: int| 0 <= i < sibs.len() ==> lo <= (#[trigger] sibs[i]).level <= hi,
    ensures
        forall|i: int|
            0 <= i < nest_into(sibs, n, depth).len() ==> lo <= (#[trigger] nest_into(sibs, n, depth)[i]).level
                <= hi,
{
    let r = nest_into(sibs, n, depth);
    assert forall|i: int| 0 <= i < r.len() implies lo <= (#[trigger] r[i]).level <= hi by {
        if depth >= 32 || sibs.len() == 0 || n.level <= sibs.last().level {
            if i < sibs.len() {
                assert(r[i] == sibs[i]);
            }
        } else {
            if i < sibs.len() - 1 {
                assert(r[i] == sibs[i]);
            } else {
                assert(r[i].level == sibs.last().level);
            }
        }
    }
}

/// Nesting a list of headings keeps the top-level levels within their bounds.
pub proof fn lemma_nest_all_levels(nodes: Seq<HeadingView>, lo: u32, hi: u32)
    requires
        forall|i: int| 0 <= i < nodes.len() ==> lo <= (#[trigger] nodes[i]).level <= hi,
    ensures
        forall|i: int| 0 <= i < nest_all(nodes).len() ==> lo <= (#[trigger] nest_all(nodes)[i]).level <= hi,
    decreases nodes.len(),
{
    if nodes.len() > 0 {
        let d = nodes.drop_last();
        assert forall|i: int| 0 <= i < d.len() implies lo <= (#[trigger] d[i]).level <= hi by {
            assert(d[i] == nodes[i]);
        }
        lemma_nest_all_levels(d, lo, hi);
        lemma_nest_into_levels(nest_all(d), nodes.last(), 0, lo, hi);
    }
}

/// Scanned headings have levels 1 to 6.
pub proof fn lemma_flat_headings_levels(ls: Seq<Seq<char>>, n: int, offset: int)
    ensures
        forall|i: int|
            0 <= i < flat_headings(ls, n, offset).len() ==> 1 <= (#[trigger] flat_headings(ls, n, offset)[i]).level
                <= 6,
    decreases n,
{
    if n > 0 && n <= ls.len() {
        lemma_flat_headings_levels(ls, n - 1, offset);
        let prev = flat_headings(ls, n - 1, offset);
        let cur = flat_headings(ls, n, offset);
        assert forall|i: int| 0 <= i < cur.len() implies 1 <= (#[trigger] cur[i]).level <= 6 by {
            if i < prev.len() {
                assert(cur[i] == prev[i]);
            }
        }
    }
}

/// The top-level headings of an outline have levels 1 to 6.
pub proof fn lemma_outline_levels(s: Seq<char>)
    ensures
        forall|i: int|
            0 <= i < outline_headings(s).len() ==> 1 <= (#[trigger] outline_headings(s)[i]).level <= 6,
{
    let body = lines(without_frontmatter(s));
    let fh = document_headings(s);
    lemma_flat_headings_levels(body, body.len() as int, cap_usize(frontmatter_lines(s)) as int);
    let nodes = section_nodes(fh, lines(s));
    assert forall|i: int| 0 <= i < nodes.len() implies 1 <= (#[trigger] nodes[i]).level <= 6 by {
        assert(nodes[i] == section_node(fh, i, lines(s)));
    }
    lemma_nest_all_levels(nodes, 1, 6);
}

/// The outline counts every heading of the document once: its number of sections, nested
/// ones included, is the number of heading lines.
pub proof fn law_total_sections_counts_headings(s: Seq<char>)
    ensures
        count_all(outline_headings(s)) == document_headings(s).len(),
{
    let nodes = section_nodes(document_headings(s), lines(s));
    assert forall|i: int| 0 <= i < nodes.len() implies (#[trigger] nodes[i]).children.len() == 0 by {
        assert(nodes[i] == section_node(document_headings(s), i, lines(s)));
    }
    lemma_count_nest_all(nodes);
}

/// The headings of a document come in nondecreasing line order, each on a line at least 1.
pub proof fn lemma_document_headings_order(s: Seq<char>)
    ensures
        forall|i: int|
            0 <= i < document_headings(s).len() ==> 1 <= (#[trigger] document_headings(s)[i]).start_line,
        forall|i: int, j: int|
            0 <= i < j < document_headings(s).len() ==> (#[trigger] document_headings(s)[i]).start_line
                <= (#[trigger] document_headings(s)[j]).start_line,
{
    let body = lines(without_frontmatter(s));
    lemma_flat_headings_order(body, body.len() as int, cap_usize(frontmatter_lines(s)) as int);
}

/// Appends `new_node` to the forest, nested under the last sibling while it is deeper.
fn nest_node(siblings: &mut Vec<HeadingNode>, new_node: HeadingNode, depth: usize)
    requires
        depth <= MAX_NESTING_DEPTH,
    ensures
        headings_view(final(siblings)@) == nest_into(
            headings_view(old(siblings)@),
            heading_view(new_node),
            depth as nat,
        ),
    decreases MAX_NESTING_DEPTH - depth,
{
    proof {
        lemma_headings_view(old(siblings)@);
        lemma_headings_view_push(old(siblings)@, new_node);
    }
    if depth >= MAX_NESTING_DEPTH {
        siblings.push(new_node);
        return;
    }
    let len = siblings.len();
    if len > 0 && new_node.level > siblings[len - 1].level {
        let ghost old_sibs = siblings@;
        let mut last = siblings.pop().unwrap();
        assert(siblings@ =~= old_sibs.drop_last());
        let ghost old_last = last;
        nest_node(&mut last.children, new_node, depth + 1);
        siblings.push(last);
        proof {
            let v = headings_view(old_sibs);
            assert(v.last() == heading_view(old_last));
            lemma_headings_view_push(old_sibs.drop_last(), last);
            assert(old_sibs.drop_last().push(old_last) =~= old_sibs);
            lemma_headings_view_push(old_sibs.drop_last(), old_last);
            assert(headings_view(siblings@) =~= v.update(
                v.len() - 1,
                HeadingView {
                    children: nest_into(v.last().children, heading_view(new_node), depth as nat + 1),
                    ..v.last()
                },
            ));
        }
        return;
    }
    siblings.push(new_node);
}

/// Number of headings in a forest, nested ones included.
fn count_sections(nodes: &[HeadingNode]) -> (r: usize)
    requires
        count_all(headings_view(nodes@)) <= usize::MAX,
    ensures
        r == count_all(headings_view(nodes@)),
    decreases count_all(headings_view(nodes@)),
{
    let mut acc: usize = 0;
    let mut i: usize = 0;
    proof {
        lemma_headings_view(nodes@);
        lemma_count_prefix_bound(headings_view(nodes@), 0);
        assert(nodes@.take(0) =~= Seq::<HeadingNode>::empty());
    }
    while i < nodes.len()
        invariant
            i <= nodes.len(),
            count_all(headings_view(nodes@)) <= usize::MAX,
            headings_view(nodes@).len() == nodes@.len(),
            forall|j: int|
                0 <= j < nodes@.len() ==> headings_view(nodes@)[j] == heading_view(
                    #[trigger] nodes@[j],
                ),
            acc == count_all(headings_view(nodes@.take(i as int))),
        decreases nodes.len() - i,
    {
        proof {
            lemma_headings_view_take(nodes@, i as int);
            lemma_count_all_push(headings_view(nodes@.take(i as int)), heading_view(nodes@[i as int]));
            lemma_count_prefix_bound(headings_view(nodes@), i as int + 1);
            assert(headings_view(nodes@.take(i as int + 1)) =~= headings_view(nodes@).take(
                i as int + 1,
            )) by {
                lemma_headings_view(nodes@.take(i as int + 1));
                lemma_headings_view(nodes@);
                assert forall|j: int| 0 <= j < i + 1 implies #[trigger] headings_view(nodes@.take(i as int + 1))[j]
                    == headings_view(nodes@).take(i as int + 1)[j] by {
                    assert(nodes@.take(i as int + 1)[j] == nodes@[j]);
                }
            }
            lemma_count_all_child(headings_view(nodes@), i as int);
        }
        let sub = count_sections(nodes[i].children.as_slice());
        acc = acc + 1 + sub;
        i += 1;
    }
    assert(nodes@.take(nodes@.len() as int) =~= nodes@);
    acc
}

/// The count of a prefix of a forest is at most the count of the forest.
pub proof fn lemma_count_prefix_bound(s: Seq<HeadingView>, i: int)
    requires
        0 <= i <= s.len(),
    ensures
        count_all(s.take(i)) <= count_all(s),
    decreases s.len() - i,
{
    if i < s.len() {
        lemma_count_prefix_bound(s, i + 1);
        assert(s.take(i + 1).drop_last() =~= s.take(i));
    } else {
        assert(s.take(i) =~= s);
    }
}

/// The highest heading level in a forest.
fn get_max_depth(nodes: &[HeadingNode]) -> (r: u32)
    ensures
        r == max_level(headings_view(nodes@)),
    decreases count_all(headings_view(nodes@)),
{
    let mut acc: u32 = 0;
    let mut i: usize = 0;
    proof {
        lemma_headings_view(nodes@);
        assert(nodes@.take(0) =~= Seq::<HeadingNode>::empty());
    }
    while i < nodes.len()
        invariant
            i <= nodes.len(),
            headings_view(nodes@).len() == nodes@.len(),
            forall|j: int|
                0 <= j < nodes@.len() ==> headings_view(nodes@)[j] == heading_view(
                    #[trigger] nodes@[j],
                ),
            acc == max_level(headings_view(nodes@.take(i as int))),
        decreases nodes.len() - i,
    {
        proof {
            lemma_headings_view_take(nodes@, i as int);
            lemma_count_all_child(headings_view(nodes@), i as int);
            let p = headings_view(nodes@.take(i as int)).push(heading_view(nodes@[i as int]));
            assert(p.drop_last() =~= headings_view(nodes@.take(i as int)));
        }
        let sub = get_max_depth(nodes[i].children.as_slice());
        let lvl = nodes[i].level;
        let here = if lvl >= sub {
            lvl
        } else {
            sub
        };
        if here > acc {
            acc = here;
        }
        i += 1;
    }
    assert(nodes@.take(nodes@.len() as int) =~= nodes@);
    acc
}

/// A heading found by the line scan, before nesting.
pub struct FlatView {
    pub level: u32,
    pub title: Seq<char>,
    pub start_line: usize,
}

/// A heading found by the line scan, before nesting.
struct FlatHeading {
    level: u32,
    title: String,
    start_line: usize,
}

/// The value of a scanned heading.
spec fn flat_view(h: FlatHeading) -> FlatView {
    FlatView { level: h.level, title: h.title@, start_line: h.start_line }
}

/// A line that opens or closes a fenced code block.
pub open spec fn is_fence_line(l: Seq<char>) -> bool {
    starts_with(trim(l), fence3('`')) || starts_with(trim(l), fence3('~'))
}

/// End of the run of `'#'` in `t` that starts at `i`.
pub open spec fn hashes_end(t: Seq<char>, i: int) -> int
    decreases t.len() - i,
{
    if 0 <= i < t.len() && t[i] == '#' {
        hashes_end(t, i + 1)
    } else {
        i
    }
}

/// The level and title of an ATX heading line (`# Title` to `###### Title`).
pub open spec fn parse_heading(l: Seq<char>) -> Option<(u32, Seq<char>)> {
    let t = trim(l);
    let level = hashes_end(t, 0) as u32;
    if t.len() > 0 && t[0] == '#' && 1 <= level <= 6 && trim(
        t.subrange(level as int, t.len() as int),
    ).len() > 0 {
        Some((level, trim(t.subrange(level as int, t.len() as int))))
    } else {
        None
    }
}

/// `k` copies of `#`.
pub open spec fn hashes(k: nat) -> Seq<char> {
    Seq::new(k, |i: int| '#')
}

/// The run of `#` that opens `hashes(k) + rest` ends after the `k` of them.
proof fn lemma_hashes_end(k: nat, rest: Seq<char>, i: int)
    requires
        0 <= i <= k,
        rest.len() == 0 || rest[0] != '#',
    ensures
        hashes_end(hashes(k) + rest, i) == k,
    decreases k - i,
{
    let t = hashes(k) + rest;
    if i < k {
        assert(t[i] == '#');
        lemma_hashes_end(k, rest, i + 1);
    } else {
        if rest.len() > 0 {
            assert(t[i] == rest[0]);
        }
    }
}

/// A line that is (once trimmed) one to six `#` and then a title that is not blank is a
/// heading of that level with that title; seven `#` or more (as many as a `u32` counts)
/// make no heading.
pub proof fn law_hash_lines_are_headings(l: Seq<char>, k: nat, rest: Seq<char>)
    requires
        trim(l) == hashes(k) + rest,
        k >= 1,
        rest.len() == 0 || rest[0] != '#',
    ensures
        k <= 6 && trim(rest).len() > 0 ==> parse_heading(l) == Some((k as u32, trim(rest))),
        k <= u32::MAX && (k > 6 || trim(rest).len() == 0) ==> parse_heading(l) is None,
{
    let t = trim(l);
    lemma_hashes_end(k, rest, 0);
    assert(t[0] == '#');
    if k <= u32::MAX {
        assert((k as u32) as int == k);
        assert(t.subrange(k as int, t.len() as int) =~= rest);
    }
}

/// The outline holds every heading line of the document, whatever its level from one to
/// six: a line outside frontmatter and fenced code that is `k` times `#` (1 <= k <= 6)
/// and then a title that is not blank is listed with level `k`, that title, and its line.
pub proof fn law_outline_keeps_every_level(s: Seq<char>, l: int, k: nat, rest: Seq<char>)
    requires
        0 <= l < lines(without_frontmatter(s)).len(),
        !is_fence_line(lines(without_frontmatter(s))[l]),
        !in_fence_after(lines(without_frontmatter(s)), l),
        trim(lines(without_frontmatter(s))[l]) == hashes(k) + rest,
        1 <= k <= 6,
        rest.len() == 0 || rest[0] != '#',
        trim(rest).len() > 0,
    ensures
        exists|i: int|
            0 <= i < preorder(outline_headings(s)).len() && (#[trigger] preorder(outline_headings(s))[i]).level
                == k && preorder(outline_headings(s))[i].title == trim(rest)
                && preorder(outline_headings(s))[i].start_line == sat_add(
                l + 1,
                cap_usize(frontmatter_lines(s)) as int,
            ),
{
    let body = lines(without_frontmatter(s));
    law_hash_lines_are_headings(body[l], k, rest);
    law_outline_lists_every_heading_line(s);
    assert(parse_heading(body[l]) is Some);
}

/// Whether the first `n` lines leave the scan inside a fenced code block.
pub open spec fn in_fence_after(ls: Seq<Seq<char>>, n: int) -> bool
    decreases n,
{
    if n <= 0 || n > ls.len() {
        false
    } else if is_fence_line(ls[n - 1]) {
        !in_fence_after(ls, n - 1)
    } else {
        in_fence_after(ls, n - 1)
    }
}

/// `a + b`, or `usize::MAX` when it does not fit.
pub open spec fn sat_add(a: int, b: int) -> usize {
    if a + b > usize::MAX {
        usize::MAX
    } else {
        (a + b) as usize
    }
}

/// The headings among the first `n` lines, outside fenced code, numbered from `offset + 1`.
pub open spec fn flat_headings(ls: Seq<Seq<char>>, n: int, offset: int) -> Seq<FlatView>
    decreases n,
{
    if n <= 0 || n > ls.len() {
        seq![]
    } else {
        let prev = flat_headings(ls, n - 1, offset);
        if !is_fence_line(ls[n - 1]) && !in_fence_after(ls, n - 1) && parse_heading(
            ls[n - 1],
        ) is Some {
            let h = parse_heading(ls[n - 1]).unwrap();
            prev.push(FlatView { level: h.0, title: h.1, start_line: sat_add(n, offset) })
        } else {
            prev
        }
    }
}

/// `a - 1`, or 0.
pub open spec fn dec(a: int) -> int {
    if a >= 1 {
        a - 1
    } else {
        0
    }
}

/// The last line of heading `i`'s section: the line before the next heading of the same or
/// a higher level (searched from `j`), or the last line of the document.
pub open spec fn section_end(flat: Seq<FlatView>, i: int, j: int, total: int) -> int
    decreases flat.len() - j,
{
    if j < 0 || j >= flat.len() {
        total
    } else if flat[j].level <= flat[i].level {
        dec(flat[j].start_line as int)
    } else {
        section_end(flat, i, j + 1, total)
    }
}

/// Where the section of heading `i` of `flat` ends, searching from `k`: at the line before
/// the first heading from `k` on of the same or a higher level, after only deeper ones, or
/// at `total` when every heading from `k` on is deeper.
pub proof fn lemma_section_end_at_peer(flat: Seq<FlatView>, i: int, k: int, total: int)
    requires
        0 <= i < flat.len(),
        0 <= k <= flat.len(),
    ensures
        (forall|m: int| k <= m < flat.len() ==> #[trigger] flat[m].level > flat[i].level) ==> section_end(flat, i, k, total)
            == total,
        forall|j: int|
            k <= j < flat.len() && (#[trigger] flat[j]).level <= flat[i].level && (forall|m: int| k <= m < j ==> #[trigger] flat[m].level
                > flat[i].level) ==> section_end(flat, i, k, total) == dec(flat[j].start_line as int),
    decreases flat.len() - k,
{
    if k < flat.len() {
        lemma_section_end_at_peer(flat, i, k + 1, total);
        if flat[k].level > flat[i].level {
            assert forall|j: int|
                k <= j < flat.len() && (#[trigger] flat[j]).level <= flat[i].level && (forall|m: int| k <= m < j ==> #[trigger] flat[m].level
                    > flat[i].level) implies section_end(flat, i, k, total) == dec(flat[j].start_line as int) by {
                assert(j != k);
            }
        } else {
            assert forall|j: int|
                k <= j < flat.len() && (#[trigger] flat[j]).level <= flat[i].level && (forall|m: int| k <= m < j ==> #[trigger] flat[m].level
                    > flat[i].level) implies section_end(flat, i, k, total) == dec(flat[j].start_line as int) by {
                if j > k {
                    assert(flat[k].level > flat[i].level);
                }
            }
        }
    }
}


/// Number of characters of lines `start..=end` (1-based) joined with newlines.
pub open spec fn section_chars(ls: Seq<Seq<char>>, start: int, end: int) -> nat {
    if start <= end && start <= ls.len() {
        join(
            ls.subrange(dec(start), if end <= ls.len() {
                end
            } else {
                ls.len() as int
            }),
            seq!['\n'],
        ).len()
    } else {
        0
    }
}

/// The node of scanned heading `i`, with the metrics of its section of `ls`.
pub open spec fn section_node(flat: Seq<FlatView>, i: int, ls: Seq<Seq<char>>) -> HeadingView {
    let end = section_end(flat, i, i + 1, ls.len() as int);
    let chars = section_chars(ls, flat[i].start_line as int, end);
    HeadingView {
        level: flat[i].level,
        title: flat[i].title,
        start_line: flat[i].start_line,
        end_line: end as usize,
        token_count: tokens_for(chars) as usize,
        character_count: chars as usize,
        children: seq![],
    }
}

/// The nodes of all scanned headings.
pub open spec fn section_nodes(flat: Seq<FlatView>, ls: Seq<Seq<char>>) -> Seq<HeadingView> {
    Seq::new(flat.len(), |i: int| section_node(flat, i, ls))
}

/// The headings of a document (outside frontmatter and fenced code), numbered by raw line.
pub open spec fn document_headings(s: Seq<char>) -> Seq<FlatView> {
    let body = lines(without_frontmatter(s));
    flat_headings(body, body.len() as int, cap_usize(frontmatter_lines(s)) as int)
}

/// The nested heading forest of a document.
pub open spec fn outline_headings(s: Seq<char>) -> Seq<HeadingView> {
    nest_all(section_nodes(document_headings(s), lines(s)))
}

/// The scan of the first `n` lines lists each heading line among them that stands outside
/// fenced code.
proof fn lemma_flat_headings_list_lines(ls: Seq<Seq<char>>, n: int, offset: int)
    requires
        0 <= n <= ls.len(),
    ensures
        forall|l: int|
            0 <= l < n && !is_fence_line(ls[l]) && !in_fence_after(ls, l) && #[trigger] parse_heading(ls[l]) is Some
                ==> flat_headings(ls, n, offset).contains(
                FlatView {
                    level: parse_heading(ls[l]).unwrap().0,
                    title: parse_heading(ls[l]).unwrap().1,
                    start_line: sat_add(l + 1, offset),
                },
            ),
    decreases n,
{
    if n > 0 {
        lemma_flat_headings_list_lines(ls, n - 1, offset);
        let prev = flat_headings(ls, n - 1, offset);
        let r = flat_headings(ls, n, offset);
        assert forall|l: int|
            0 <= l < n && !is_fence_line(ls[l]) && !in_fence_after(ls, l) && #[trigger] parse_heading(ls[l]) is Some
                implies r.contains(
            FlatView {
                level: parse_heading(ls[l]).unwrap().0,
                title: parse_heading(ls[l]).unwrap().1,
                start_line: sat_add(l + 1, offset),
            },
        ) by {
            let x = FlatView {
                level: parse_heading(ls[l]).unwrap().0,
                title: parse_heading(ls[l]).unwrap().1,
                start_line: sat_add(l + 1, offset),
            };
            if l < n - 1 {
                assert(prev.contains(x));
                let i = choose|i: int| 0 <= i < prev.len() && prev[i] == x;
                assert(r[i] == prev[i]);
            } else {
                assert(r[prev.len() as int] == x);
            }
        }
    }
}

/// The outline lists every heading line of the document that stands outside frontmatter
/// and fenced code: its level, title and line number (counted in the whole document).
pub proof fn law_outline_lists_every_heading_line(s: Seq<char>)
    ensures
        ({
            let body = lines(without_frontmatter(s));
            let offset = cap_usize(frontmatter_lines(s)) as int;
            forall|l: int|
                0 <= l < body.len() && !is_fence_line(body[l]) && !in_fence_after(body, l)
                    && #[trigger] parse_heading(body[l]) is Some ==> exists|i: int|
                    0 <= i < preorder(outline_headings(s)).len() && (#[trigger] preorder(outline_headings(s))[i]).level
                        == parse_heading(body[l]).unwrap().0 && preorder(outline_headings(s))[i].title == parse_heading(
                        body[l],
                    ).unwrap().1 && preorder(outline_headings(s))[i].start_line == sat_add(l + 1, offset)
        }),
{
    let body = lines(without_frontmatter(s));
    let offset = cap_usize(frontmatter_lines(s)) as int;
    let d = document_headings(s);
    let p = preorder(outline_headings(s));
    lemma_flat_headings_list_lines(body, body.len() as int, offset);
    law_outline_lists_headings_in_order(s);
    assert forall|l: int|
        0 <= l < body.len() && !is_fence_line(body[l]) && !in_fence_after(body, l) && #[trigger] parse_heading(body[l]) is Some
            implies exists|i: int|
        0 <= i < p.len() && (#[trigger] p[i]).level == parse_heading(body[l]).unwrap().0 && p[i].title == parse_heading(
            body[l],
        ).unwrap().1 && p[i].start_line == sat_add(l + 1, offset) by {
        let x = FlatView {
            level: parse_heading(body[l]).unwrap().0,
            title: parse_heading(body[l]).unwrap().1,
            start_line: sat_add(l + 1, offset),
        };
        assert(d.contains(x));
        let i = choose|i: int| 0 <= i < d.len() && d[i] == x;
        assert(p[i].level == d[i].level);
    }
}

/// Scans the lines of `cs` for headings outside fenced code blocks.
fn scan_headings(cs: &[char], offset: usize) -> (r: Vec<FlatHeading>)
    ensures
        r@.len() == flat_headings(lines(cs@), lines(cs@).len() as int, offset as int).len(),
        forall|i: int|
            0 <= i < r@.len() ==> flat_view(#[trigger] r@[i]) == flat_headings(
                lines(cs@),
                lines(cs@).len() as int,
                offset as int,
            )[i],
{
    let ranges = line_ranges(cs);
    let ghost ls = lines(cs@);
    let mut flat: Vec<FlatHeading> = Vec::new();
    let mut in_fenced = false;
    let mut i: usize = 0;
    while i < ranges.len()
        invariant
            i <= ranges.len(),
            ls == lines(cs@),
            ranges@.len() == ls.len(),
            forall|j: int|
                0 <= j < ranges@.len() ==> {
                    &&& (#[trigger] ranges@[j]).0 <= ranges@[j].1 <= cs.len()
                    &&& cs@.subrange(ranges@[j].0 as int, ranges@[j].1 as int) == ls[j]
                },
            in_fenced == in_fence_after(ls, i as int),
            flat@.len() == flat_headings(ls, i as int, offset as int).len(),
            forall|j: int|
                0 <= j < flat@.len() ==> flat_view(#[trigger] flat@[j]) == flat_headings(
                    ls,
                    i as int,
                    offset as int,
                )[j],
        decreases ranges.len() - i,
    {
        let (lo, hi) = ranges[i];
        let (ta, tb) = trim_range(cs, lo, hi);
        let ghost t = trim(ls[i as int]);
        assert(t =~= cs@.subrange(ta as int, tb as int));
        let fence = tb - ta >= 3 && ((cs[ta] == '`' && cs[ta + 1] == '`' && cs[ta + 2] == '`') || (
        cs[ta] == '~' && cs[ta + 1] == '~' && cs[ta + 2] == '~'));
        proof {
            if fence {
                if cs[ta as int] == '`' {
                    assert(t.subrange(0, 3) =~= fence3('`'));
                } else {
                    assert(t.subrange(0, 3) =~= fence3('~'));
                }
            } else {
                if starts_with(t, fence3('`')) {
                    assert(t.subrange(0, 3)[0] == '`' && t.subrange(0, 3)[1] == '`' && t.subrange(
                        0,
                        3,
                    )[2] == '`');
                }
                if starts_with(t, fence3('~')) {
                    assert(t.subrange(0, 3)[0] == '~' && t.subrange(0, 3)[1] == '~' && t.subrange(
                        0,
                        3,
                    )[2] == '~');
                }
            }
            assert(fence == is_fence_line(ls[i as int]));
        }
        let ghost prev_flat = flat@;
        if fence {
            in_fenced = !in_fenced;
        } else if !in_fenced && tb > ta && cs[ta] == '#' {
            let mut k = ta;
            while k < tb && cs[k] == '#'
                invariant
                    ta <= k <= tb <= cs.len(),
                    t =~= cs@.subrange(ta as int, tb as int),
                    hashes_end(t, 0) == hashes_end(t, k - ta),
                decreases tb - k,
            {
                k += 1;
            }
            let count = k - ta;
            #[verifier::truncate]
            let level = count as u32;
            if 1 <= level && level <= 6 {
                let (ha, hb) = trim_range(cs, ta + level as usize, tb);
                assert(t.subrange(level as int, t.len() as int) =~= cs@.subrange(
                    ta + level as int,
                    tb as int,
                ));
                if hb > ha {
                    let title = string_of_range(cs, ha, hb);
                    flat.push(
                        FlatHeading { level, title, start_line: (i + 1).saturating_add(offset) },
                    );
                }
            }
        }
        proof {
            let p = flat_headings(ls, i as int, offset as int);
            assert forall|j: int| 0 <= j < flat@.len() implies flat_view(#[trigger] flat@[j])
                == flat_headings(ls, i + 1, offset as int)[j] by {
                if j < prev_flat.len() {
                    assert(flat@[j] == prev_flat[j]);
                }
            }
        }
        i += 1;
    }
    flat
}

/// A forest node without children.
fn leaf_node(
    level: u32,
    title: String,
    start_line: usize,
    end_line: usize,
    token_count: usize,
    character_count: usize,
) -> (r: HeadingNode)
    ensures
        heading_view(r) == (HeadingView {
            level,
            title: title@,
            start_line,
            end_line,
            token_count,
            character_count,
            children: seq![],
        }),
{
    let r = HeadingNode {
        level,
        title,
        start_line,
        end_line,
        token_count,
        character_count,
        children: Vec::new(),
    };
    assert(headings_view(r.children@) =~= Seq::<HeadingView>::empty());
    r
}

/// Number of characters of `lines[lo..hi]` joined with newlines, where
/// `raw[ranges[j].0..ranges[j].1]` is line `j`.
fn joined_len(raw: &[char], ranges: &Vec<(usize, usize)>, lo: usize, hi: usize) -> (r: usize)
    requires
        lo <= hi <= ranges@.len(),
        ranges@.len() == lines(raw@).len(),
        forall|j: int|
            0 <= j < ranges@.len() ==> {
                &&& (#[trigger] ranges@[j]).0 <= ranges@[j].1 <= raw.len()
                &&& raw@.subrange(ranges@[j].0 as int, ranges@[j].1 as int) == lines(raw@)[j]
            },
        forall|j: int| 0 <= j < ranges@.len() - 1 ==> (#[trigger] ranges@[j]).1 < ranges@[j + 1].0,
    ensures
        r == join(lines(raw@).subrange(lo as int, hi as int), seq!['\n']).len(),
{
    let ghost ls = lines(raw@);
    if lo == hi {
        assert(ls.subrange(lo as int, hi as int) =~= Seq::<Seq<char>>::empty());
        return 0;
    }
    let mut acc: usize = ranges[lo].1 - ranges[lo].0;
    assert(ls.subrange(lo as int, lo + 1) =~= seq![ls[lo as int]]);
    let mut j = lo + 1;
    while j < hi
        invariant
            lo < j <= hi <= ranges@.len(),
            ls == lines(raw@),
            ranges@.len() == ls.len(),
            forall|k: int|
                0 <= k < ranges@.len() ==> {
                    &&& (#[trigger] ranges@[k]).0 <= ranges@[k].1 <= raw.len()
                    &&& raw@.subrange(ranges@[k].0 as int, ranges@[k].1 as int) == ls[k]
                },
            forall|k: int|
                0 <= k < ranges@.len() - 1 ==> (#[trigger] ranges@[k]).1 < ranges@[k + 1].0,
            acc == join(ls.subrange(lo as int, j as int), seq!['\n']).len(),
            acc <= ranges@[j - 1].1 - ranges@[lo as int].0,
        decreases hi - j,
    {
        let ghost prev = ls.subrange(lo as int, j as int);
        assert(ls.subrange(lo as int, j + 1).drop_last() =~= prev);
        assert(ranges@[j - 1].1 < ranges@[j as int].0);
        acc = acc + 1 + (ranges[j].1 - ranges[j].0);
        j += 1;
    }
    acc
}

/// Builds the nested heading tree of scanned headings, with section metrics from the raw lines.
fn build_nested_heading_tree(
    flat: &Vec<FlatHeading>,
    raw: &[char],
    ranges: &Vec<(usize, usize)>,
) -> (r: Vec<HeadingNode>)
    requires
        ranges@.len() == lines(raw@).len(),
        forall|j: int|
            0 <= j < ranges@.len() ==> {
                &&& (#[trigger] ranges@[j]).0 <= ranges@[j].1 <= raw.len()
                &&& raw@.subrange(ranges@[j].0 as int, ranges@[j].1 as int) == lines(raw@)[j]
            },
        forall|j: int| 0 <= j < ranges@.len() - 1 ==> (#[trigger] ranges@[j]).1 < ranges@[j + 1].0,
    ensures
        headings_view(r@) == nest_all(section_nodes(flat@.map_values(|h: FlatHeading| flat_view(h)), lines(raw@))),
{
    let ghost fv = flat@.map_values(|h: FlatHeading| flat_view(h));
    let ghost ls = lines(raw@);
    let total = ranges.len();
    let mut roots: Vec<HeadingNode> = Vec::new();
    let mut i: usize = 0;
    assert(section_nodes(fv, ls).take(0) =~= Seq::<HeadingView>::empty());
    while i < flat.len()
        invariant
            i <= flat@.len(),
            fv == flat@.map_values(|h: FlatHeading| flat_view(h)),
            ls == lines(raw@),
            total == ranges@.len(),
            ranges@.len() == ls.len(),
            forall|j: int|
                0 <= j < ranges@.len() ==> {
                    &&& (#[trigger] ranges@[j]).0 <= ranges@[j].1 <= raw.len()
                    &&& raw@.subrange(ranges@[j].0 as int, ranges@[j].1 as int) == ls[j]
                },
            forall|j: int|
                0 <= j < ranges@.len() - 1 ==> (#[trigger] ranges@[j]).1 < ranges@[j + 1].0,
            headings_view(roots@) == nest_all(section_nodes(fv, ls).take(i as int)),
        decreases flat.len() - i,
    {
        let h = &flat[i];
        let start_line = h.start_line;
        let mut end_line = total;
        let mut j = i + 1;
        while j < flat.len()
            invariant_except_break
                end_line == total,
            invariant
                i < j <= flat@.len(),
                fv == flat@.map_values(|h: FlatHeading| flat_view(h)),
                total == ls.len(),
                section_end(fv, i as int, i + 1, total as int) == section_end(fv, i as int, j as int, total as int),
            ensures
                section_end(fv, i as int, i + 1, total as int) == end_line,
            decreases flat.len() - j,
        {
            if flat[j].level <= flat[i].level {
                end_line = flat[j].start_line.saturating_sub(1);
                assert(section_end(fv, i as int, j as int, total as int) == end_line);
                break;
            }
            j += 1;
        }
        assert(section_end(fv, i as int, i + 1, total as int) == end_line);
        let chars = if start_line <= end_line && start_line <= total {
            let a = start_line.saturating_sub(1);
            let b = if end_line <= total {
                end_line
            } else {
                total
            };
            joined_len(raw, ranges, a, b)
        } else {
            0
        };
        assert(chars == section_chars(ls, fv[i as int].start_line as int, end_line as int));
        let node = leaf_node(
            h.level,
            h.title.clone(),
            start_line,
            end_line,
            tokens_for_chars(chars),
            chars,
        );
        proof {
            assert(heading_view(node) == section_node(fv, i as int, ls));
            let sn = section_nodes(fv, ls);
            assert(sn.take(i + 1).drop_last() =~= sn.take(i as int));
        }
        nest_node(&mut roots, node, 0);
        i += 1;
    }
    assert(section_nodes(fv, ls).take(flat@.len() as int) =~= section_nodes(fv, ls));
    roots
}

/// Extracts the structural outline of headings from Markdown text as a nested tree with
/// line and token metrics.
pub fn extract_outline(input: &str) -> (r: OutlineTree)
    ensures
        headings_view(r.headings@) == outline_headings(input@),
        r.total_sections == count_all(outline_headings(input@)),
        r.max_depth == max_level(outline_headings(input@)),
{
    let offset = get_frontmatter_line_count(input);
    let content = strip_frontmatter(input);
    let cs = chars_of(content);
    let flat = scan_headings(cs.as_slice(), offset);
    let raw = chars_of(input);
    let ranges = line_ranges(raw.as_slice());
    assert(flat@.map_values(|h: FlatHeading| flat_view(h)) =~= document_headings(input@));
    let headings = build_nested_heading_tree(&flat, raw.as_slice(), &ranges);
    proof {
        let nodes = section_nodes(document_headings(input@), lines(input@));
        assert forall|i: int| 0 <= i < nodes.len() implies (#[trigger] nodes[i]).children.len() == 0 by {
            assert(nodes[i] == section_node(document_headings(input@), i, lines(input@)));
        }
        lemma_count_nest_all(nodes);
        assert(nodes.len() == flat@.len());
        assert(headings_view(headings@) == nest_all(nodes));
        assert(count_all(headings_view(headings@)) == flat@.len());
    }
    let nflat = flat.len();
    let hs = headings.as_slice();
    assert(count_all(headings_view(hs@)) == nflat);
    let total_sections = count_sections(hs);
    let max_depth = get_max_depth(headings.as_slice());
    OutlineTree { headings, total_sections, max_depth }
}

} // verus!
