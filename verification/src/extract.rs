//! Extraction of fenced diagram blocks from a Markdown document.
//!
//! A block opens with three backticks and the tag `mermaid` — each of its
//! letters accepted in either case — optionally followed by spaces or tabs,
//! then a newline (bare or carriage-return terminated); its body runs until
//! the first closing fence, a newline followed by three backticks. Matching
//! is purely textual: the scanner walks
//! the document once, takes the leftmost match first, and resumes after each
//! closing fence, so fenced regions never overlap.

use vstd::prelude::*;
use vstd::string::*;

verus! {

/// One fenced diagram block: `index` is its 1-based position in document
/// order, `code` the fence body without the fence lines themselves.
#[derive(Debug, Clone)]
pub struct MermaidBlock {
    pub index: usize,
    pub code: String,
}

/// The opening tag beginning at `j`: three backticks and the
/// diagram-language marker `mermaid`, its letters in either case.
pub open spec fn open_tag_at(s: Seq<char>, j: int) -> bool
    recommends
        0 <= j && j + 10 <= s.len(),
{
    &&& s[j] == '`'
    &&& s[j + 1] == '`'
    &&& s[j + 2] == '`'
    &&& (s[j + 3] == 'm' || s[j + 3] == 'M')
    &&& (s[j + 4] == 'e' || s[j + 4] == 'E')
    &&& (s[j + 5] == 'r' || s[j + 5] == 'R')
    &&& (s[j + 6] == 'm' || s[j + 6] == 'M')
    &&& (s[j + 7] == 'a' || s[j + 7] == 'A')
    &&& (s[j + 8] == 'i' || s[j + 8] == 'I')
    &&& (s[j + 9] == 'd' || s[j + 9] == 'D')
}

/// Horizontal whitespace allowed between the opening tag and its newline.
pub open spec fn is_fence_ws(c: char) -> bool {
    c == ' ' || c == '\t'
}

/// First index at or after `i` holding no space or tab (the length of the
/// document if none does).
pub open spec fn ws_end(s: Seq<char>, i: int) -> int
    recommends
        0 <= i <= s.len(),
    decreases s.len() - i,
{
    if i < s.len() && is_fence_ws(s[i]) {
        ws_end(s, i + 1)
    } else {
        i
    }
}

pub proof fn lemma_ws_end_ge(s: Seq<char>, i: int)
    ensures
        ws_end(s, i) >= i,
    decreases s.len() - i,
{
    if i < s.len() && is_fence_ws(s[i]) {
        lemma_ws_end_ge(s, i + 1);
    }
}

/// Where an opening fence, optional spaces or tabs, and a newline begin
/// exactly at `j`: the index just after that newline, the body start.
pub open spec fn open_at(s: Seq<char>, j: int) -> Option<int>
    recommends
        0 <= j,
{
    if j + 10 <= s.len() && open_tag_at(s, j) {
        let w = ws_end(s, j + 10);
        if w < s.len() && s[w] == '\n' {
            Some(w + 1)
        } else if w + 1 < s.len() && s[w] == '\r' && s[w + 1] == '\n' {
            Some(w + 2)
        } else {
            None
        }
    } else {
        None
    }
}

/// A closing fence: a newline at `p` followed by three backticks.
pub open spec fn close_at(s: Seq<char>, p: int) -> bool {
    p + 4 <= s.len() && s[p] == '\n' && s[p + 1] == '`' && s[p + 2] == '`' && s[p + 3] == '`'
}

/// First closing fence at or after `p`, if any.
pub open spec fn find_close(s: Seq<char>, p: int) -> Option<int>
    recommends
        0 <= p,
    decreases s.len() - p,
{
    if p + 4 > s.len() {
        None
    } else if close_at(s, p) {
        Some(p)
    } else {
        find_close(s, p + 1)
    }
}

pub proof fn lemma_find_close_ge(s: Seq<char>, p: int)
    ensures
        find_close(s, p) matches Some(q) ==> p <= q && close_at(s, q),
    decreases s.len() - p,
{
    if p + 4 > s.len() {
    } else if close_at(s, p) {
    } else {
        lemma_find_close_ge(s, p + 1);
    }
}

/// End of the body whose closing-fence newline sits at `p`: a carriage return
/// just before that newline belongs to the fence, not to the body.
pub open spec fn body_end(s: Seq<char>, b: int, p: int) -> int {
    if b <= p - 1 && s[p - 1] == '\r' {
        p - 1
    } else {
        p
    }
}

/// A whole fenced-block match starting exactly at `j`: body start, body end,
/// and the index just after the closing fence where scanning resumes.
pub open spec fn match_at(s: Seq<char>, j: int) -> Option<(int, int, int)> {
    match open_at(s, j) {
        Some(b) => match find_close(s, b) {
            Some(p) => Some((b, body_end(s, b, p), p + 4)),
            None => None,
        },
        None => None,
    }
}

/// Bodies of all diagram blocks at or after `i`, leftmost match first.
pub open spec fn scan_from(s: Seq<char>, i: int) -> Seq<Seq<char>>
    decreases s.len() - i when 0 <= i via scan_from_decreases
{
    if i >= s.len() {
        Seq::empty()
    } else {
        match match_at(s, i) {
            Some(m) => seq![s.subrange(m.0, m.1)] + scan_from(s, m.2),
            None => scan_from(s, i + 1),
        }
    }
}

#[via_fn]
proof fn scan_from_decreases(s: Seq<char>, i: int) {
    if i < s.len() {
        match match_at(s, i) {
            Some(m) => {
                match open_at(s, i) {
                    Some(b) => {
                        lemma_ws_end_ge(s, i + 10);
                        lemma_find_close_ge(s, b);
                    },
                    None => {},
                }
            },
            None => {},
        }
    }
}

/// The bodies of the document's diagram blocks, in document order.
pub open spec fn mermaid_bodies(s: Seq<char>) -> Seq<Seq<char>> {
    scan_from(s, 0)
}

/// The body texts of a run of extracted blocks.
pub open spec fn codes_of(blocks: Seq<MermaidBlock>) -> Seq<Seq<char>> {
    blocks.map_values(|b: MermaidBlock| b.code@)
}

fn tag_at(s: &str, j: usize) -> (r: bool)
    requires
        j + 10 <= s@.len(),
        s@.len() <= usize::MAX,
    ensures
        r == open_tag_at(s@, j as int),
{
    let c3 = s.get_char(j + 3);
    let c4 = s.get_char(j + 4);
    let c5 = s.get_char(j + 5);
    let c6 = s.get_char(j + 6);
    let c7 = s.get_char(j + 7);
    let c8 = s.get_char(j + 8);
    let c9 = s.get_char(j + 9);
    s.get_char(j) == '`' && s.get_char(j + 1) == '`' && s.get_char(j + 2) == '`' && (c3 == 'm' || c3
        == 'M') && (c4 == 'e' || c4 == 'E') && (c5 == 'r' || c5 == 'R') && (c6 == 'm' || c6 == 'M')
        && (c7 == 'a' || c7 == 'A') && (c8 == 'i' || c8 == 'I') && (c9 == 'd' || c9 == 'D')
}

fn skip_ws(s: &str, start: usize) -> (w: usize)
    requires
        start <= s@.len(),
    ensures
        w as int == ws_end(s@, start as int),
        start <= w <= s@.len(),
{
    let n = s.unicode_len();
    let mut w = start;
    while w < n
        invariant
            n == s@.len(),
            start <= w <= n,
            ws_end(s@, start as int) == ws_end(s@, w as int),
        decreases n - w,
    {
        let c = s.get_char(w);
        if c != ' ' && c != '\t' {
            proof {
                assert(!is_fence_ws(s@[w as int]));
                assert(ws_end(s@, w as int) == w as int);
            }
            return w;
        }
        proof {
            assert(ws_end(s@, w as int) == ws_end(s@, w + 1));
        }
        w = w + 1;
    }
    proof {
        assert(ws_end(s@, w as int) == w as int);
    }
    w
}

fn close_test(s: &str, p: usize) -> (r: bool)
    requires
        p + 4 <= s@.len(),
        s@.len() <= usize::MAX,
    ensures
        r == close_at(s@, p as int),
{
    s.get_char(p) == '\n' && s.get_char(p + 1) == '`' && s.get_char(p + 2) == '`' && s.get_char(
        p + 3,
    ) == '`'
}

fn find_close_from(s: &str, b: usize) -> (r: Option<usize>)
    requires
        b <= s@.len(),
    ensures
        r matches Some(p) ==> find_close(s@, b as int) == Some(p as int) && b <= p && p + 4
            <= s@.len(),
        r is None ==> find_close(s@, b as int) is None,
{
    let n = s.unicode_len();
    let mut p = b;
    while n - p >= 4
        invariant
            n == s@.len(),
            b <= p <= n,
            find_close(s@, b as int) == find_close(s@, p as int),
        decreases n - p,
    {
        if close_test(s, p) {
            return Some(p);
        }
        proof {
            assert(find_close(s@, p as int) == find_close(s@, p + 1));
        }
        p = p + 1;
    }
    proof {
        assert(find_close(s@, p as int) is None);
    }
    None
}

/// Scan a Markdown document and return its diagram blocks: one per correctly
/// fenced diagram region, in document order, carrying 1-based indices and the
/// fence body without the fence lines. A document with no such block yields
/// an empty vector; extraction itself cannot fail.
pub fn extract_mermaid_blocks(markdown: &str) -> (blocks: Vec<MermaidBlock>)
    ensures
        codes_of(blocks@) == mermaid_bodies(markdown@),
        blocks@.len() == mermaid_bodies(markdown@).len(),
        forall|k: int| 0 <= k < blocks@.len() ==> (#[trigger] blocks@[k]).index == k + 1,
{
    let ghost s = markdown@;
    let n = markdown.unicode_len();
    let mut blocks: Vec<MermaidBlock> = Vec::new();
    let mut i: usize = 0;
    while i < n
        invariant
            n == s.len(),
            s == markdown@,
            i <= n,
            15 * blocks@.len() <= i,
            scan_from(s, 0) == codes_of(blocks@) + scan_from(s, i as int),
            forall|k: int| 0 <= k < blocks@.len() ==> (#[trigger] blocks@[k]).index == k + 1,
        decreases n - i,
    {
        let ghost prev = blocks@;
        let mut step_one = true;
        if n - i >= 10 {
            if tag_at(markdown, i) {
                let w = skip_ws(markdown, i + 10);
                let mut body_start: usize = 0;
                let mut have_open = false;
                if w < n && markdown.get_char(w) == '\n' {
                    body_start = w + 1;
                    have_open = true;
                } else if n - w >= 2 && markdown.get_char(w) == '\r' && markdown.get_char(w + 1)
                    == '\n' {
                    body_start = w + 2;
                    have_open = true;
                }
                proof {
                    if have_open {
                        assert(open_at(s, i as int) == Some(body_start as int));
                    } else {
                        assert(open_at(s, i as int) is None);
                    }
                }
                if have_open {
                    match find_close_from(markdown, body_start) {
                        Some(p) => {
                            let e = if p > body_start && markdown.get_char(p - 1) == '\r' {
                                p - 1
                            } else {
                                p
                            };
                            proof {
                                lemma_find_close_ge(s, body_start as int);
                                assert(e as int == body_end(s, body_start as int, p as int));
                                assert(match_at(s, i as int) == Some(
                                    (body_start as int, e as int, p + 4),
                                ));
                            }
                            let code_slice = markdown.substring_char(body_start, e);
                            let code = code_slice.to_owned();
                            let idx = blocks.len() + 1;
                            blocks.push(MermaidBlock { index: idx, code });
                            proof {
                                assert(codes_of(blocks@) =~= codes_of(prev) + seq![s.subrange(
                                    body_start as int,
                                    e as int,
                                )]);
                                assert(scan_from(s, i as int) == seq![s.subrange(
                                    body_start as int,
                                    e as int,
                                )] + scan_from(s, p + 4));
                                assert(codes_of(prev) + scan_from(s, i as int) =~= codes_of(
                                    blocks@,
                                ) + scan_from(s, p + 4));
                            }
                            i = p + 4;
                            step_one = false;
                        },
                        None => {
                            proof {
                                assert(match_at(s, i as int) is None);
                            }
                        },
                    }
                }
            }
        }
        if step_one {
            proof {
                assert(match_at(s, i as int) is None);
                assert(scan_from(s, i as int) == scan_from(s, i + 1));
            }
            i = i + 1;
        }
    }
    proof {
        assert(scan_from(s, i as int) =~= Seq::<Seq<char>>::empty());
        assert(codes_of(blocks@) + scan_from(s, i as int) =~= codes_of(blocks@));
    }
    blocks
}

/// Keep only the blocks carrying the requested 1-based index, in order.
pub fn filter_by_index(blocks: Vec<MermaidBlock>, index: usize) -> (r: Vec<MermaidBlock>)
    ensures
        r@ == blocks@.filter(|b: MermaidBlock| b.index == index),
{
    proof {
        reveal(Seq::filter);
    }
    let ghost all = blocks@;
    let mut rest = blocks;
    let mut r: Vec<MermaidBlock> = Vec::new();
    let mut i: usize = 0;
    let n = rest.len();
    while i < n
        invariant
            n == all.len(),
            i <= n,
            rest@ == all.skip(i as int),
            r@ == all.take(i as int).filter(|b: MermaidBlock| b.index == index),
        decreases n - i,
    {
        let ghost pred = |b: MermaidBlock| b.index == index;
        let b = rest.remove(0);
        proof {
            reveal(Seq::filter);
            assert(b == all[i as int]);
            assert(rest@ =~= all.skip(i + 1));
            let taken = all.take(i + 1);
            assert(taken.drop_last() =~= all.take(i as int));
            assert(taken.last() == all[i as int]);
        }
        if b.index == index {
            r.push(b);
            proof {
                assert(r@ =~= all.take(i as int).filter(pred).push(all[i as int]));
            }
        }
        i = i + 1;
    }
    proof {
        assert(all.take(n as int) =~= all);
    }
    r
}

/// Index-filtering law: on a run whose indices count 1..N in order,
/// requesting an in-range index keeps exactly the one block carrying it,
/// with its index, and so its document position, untouched.
pub proof fn lemma_filter_in_range(blocks: Seq<MermaidBlock>, index: usize)
    requires
        forall|k: int| 0 <= k < blocks.len() ==> (#[trigger] blocks[k]).index == k + 1,
        1 <= index <= blocks.len(),
    ensures
        blocks.filter(|b: MermaidBlock| b.index == index) == seq![blocks[index - 1]],
    decreases blocks.len(),
{
    reveal(Seq::filter);
    let prefix = blocks.drop_last();
    assert(forall|k: int| 0 <= k < prefix.len() ==> (#[trigger] prefix[k]).index == k + 1);
    assert(blocks.last().index == blocks.len());
    if index == blocks.len() {
        lemma_filter_out_of_range(prefix, index);
        assert(Seq::<MermaidBlock>::empty().push(blocks.last()) =~= seq![blocks[index - 1]]);
    } else {
        lemma_filter_in_range(prefix, index);
        assert(prefix[index - 1] == blocks[index - 1]);
    }
}

/// Index-filtering law: requesting an index that no block carries, zero or
/// past the last block of a run whose indices count 1..N in order, leaves
/// nothing to render; the caller treats that as the no-diagrams outcome, not
/// as a failure.
pub proof fn lemma_filter_out_of_range(blocks: Seq<MermaidBlock>, index: usize)
    requires
        forall|k: int| 0 <= k < blocks.len() ==> (#[trigger] blocks[k]).index == k + 1,
        index == 0 || index > blocks.len(),
    ensures
        blocks.filter(|b: MermaidBlock| b.index == index) == Seq::<MermaidBlock>::empty(),
    decreases blocks.len(),
{
    reveal(Seq::filter);
    if blocks.len() > 0 {
        let prefix = blocks.drop_last();
        assert(forall|k: int| 0 <= k < prefix.len() ==> (#[trigger] prefix[k]).index == k + 1);
        lemma_filter_out_of_range(prefix, index);
        assert(blocks.last().index == blocks.len());
    }
}

} // verus!
