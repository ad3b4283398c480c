//! The physical line around a byte span of a source buffer.
use vstd::prelude::*;
use vstd::slice::{slice_subrange, slice_to_vec};

verus! {

/// A line ends at a line feed or a carriage return.
pub open spec fn is_break(b: u8) -> bool {
    b == 10u8 || b == 13u8
}

/// The offset at which the line holding offset `pos` begins: one past the
/// nearest break before `pos`, or 0.
pub open spec fn line_start(buf: Seq<u8>, pos: int) -> int
    decreases pos,
{
    if pos <= 0 {
        0
    } else if is_break(buf[pos - 1]) {
        pos
    } else {
        line_start(buf, pos - 1)
    }
}

/// The offset at which the line holding offset `pos` ends: the nearest break
/// at or after `pos`, or the buffer's length.
pub open spec fn line_end(buf: Seq<u8>, pos: int) -> int
    decreases buf.len() - pos,
{
    if pos >= buf.len() {
        buf.len() as int
    } else if is_break(buf[pos]) {
        pos
    } else {
        line_end(buf, pos + 1)
    }
}

/// What stands before the span on its line, the span, and what follows it.
pub open spec fn excerpt_of(buf: Seq<u8>, start: int, end: int) -> (Seq<u8>, Seq<u8>, Seq<u8>) {
    (
        buf.subrange(line_start(buf, start), start),
        buf.subrange(start, end),
        buf.subrange(end, line_end(buf, end)),
    )
}

/// The line around a span, cut at the span.
pub struct LineExcerpt {
    pub prefix: Vec<u8>,
    pub matched: Vec<u8>,
    pub suffix: Vec<u8>,
}

impl View for LineExcerpt {
    type V = (Seq<u8>, Seq<u8>, Seq<u8>);

    open spec fn view(&self) -> (Seq<u8>, Seq<u8>, Seq<u8>) {
        (self.prefix@, self.matched@, self.suffix@)
    }
}

pub fn is_line_break(b: u8) -> (r: bool)
    ensures
        r == is_break(b),
{
    b == 10u8 || b == 13u8
}

/// Scans back from `pos` for the start of its line.
pub fn find_line_start(buf: &[u8], pos: usize) -> (r: usize)
    requires
        pos <= buf@.len(),
    ensures
        r == line_start(buf@, pos as int),
{
    let mut i: usize = pos;
    while i > 0
        invariant
            i <= pos <= buf@.len(),
            line_start(buf@, i as int) == line_start(buf@, pos as int),
        decreases i,
    {
        if is_line_break(buf[i - 1]) {
            return i;
        }
        i = i - 1;
    }
    0
}

/// Scans forward from `pos` for the end of its line.
pub fn find_line_end(buf: &[u8], pos: usize) -> (r: usize)
    requires
        pos <= buf@.len(),
    ensures
        r == line_end(buf@, pos as int),
{
    let mut i: usize = pos;
    while i < buf.len()
        invariant
            pos <= i <= buf@.len(),
            line_end(buf@, i as int) == line_end(buf@, pos as int),
        decreases buf@.len() - i,
    {
        if is_line_break(buf[i]) {
            return i;
        }
        i = i + 1;
    }
    buf.len()
}

pub proof fn lemma_line_start_bounds(buf: Seq<u8>, pos: int)
    requires
        0 <= pos <= buf.len(),
    ensures
        0 <= line_start(buf, pos) <= pos,
        line_start(buf, pos) == 0 || is_break(buf[line_start(buf, pos) - 1]),
        forall|k: int| line_start(buf, pos) <= k < pos ==> !is_break(#[trigger] buf[k]),
    decreases pos,
{
    if pos > 0 && !is_break(buf[pos - 1]) {
        lemma_line_start_bounds(buf, pos - 1);
    }
}

pub proof fn lemma_line_end_bounds(buf: Seq<u8>, pos: int)
    requires
        0 <= pos <= buf.len(),
    ensures
        pos <= line_end(buf, pos) <= buf.len(),
        line_end(buf, pos) == buf.len() || is_break(buf[line_end(buf, pos)]),
        forall|k: int| pos <= k < line_end(buf, pos) ==> !is_break(#[trigger] buf[k]),
    decreases buf.len() - pos,
{
    if pos < buf.len() && !is_break(buf[pos]) {
        lemma_line_end_bounds(buf, pos + 1);
    }
}

/// Cuts the line around `[start, end)` into what precedes the span, the
/// span, and what follows it up to the line's end.
pub fn extract_line(buf: &[u8], start: usize, end: usize) -> (r: LineExcerpt)
    requires
        start <= end <= buf@.len(),
    ensures
        r@ == excerpt_of(buf@, start as int, end as int),
{
    let first = find_line_start(buf, start);
    let last = find_line_end(buf, end);
    proof {
        lemma_line_start_bounds(buf@, start as int);
        lemma_line_end_bounds(buf@, end as int);
    }
    let prefix = slice_to_vec(slice_subrange(buf, first, start));
    let matched = slice_to_vec(slice_subrange(buf, start, end));
    let suffix = slice_to_vec(slice_subrange(buf, end, last));
    LineExcerpt { prefix, matched, suffix }
}

/// Cutting a span out of its line loses nothing: prefix, span and suffix
/// joined give back exactly the physical line, which starts at the buffer's
/// start or just after a break and ends at the buffer's end or at a break,
/// with no break inside it before or after the span. Cutting again at the
/// line's own bounds finds the same line.
pub proof fn excerpt_rebuilds_line(buf: Seq<u8>, start: int, end: int)
    requires
        0 <= start <= end <= buf.len(),
    ensures
        ({
            let (p, m, s) = excerpt_of(buf, start, end);
            let first = line_start(buf, start);
            let last = line_end(buf, end);
            &&& 0 <= first <= start && end <= last <= buf.len()
            &&& p + m + s == buf.subrange(first, last)
            &&& first == 0 || is_break(buf[first - 1])
            &&& last == buf.len() || is_break(buf[last])
            &&& forall|k: int| first <= k < start ==> !is_break(#[trigger] buf[k])
            &&& forall|k: int| end <= k < last ==> !is_break(#[trigger] buf[k])
            &&& line_start(buf, first) == first
            &&& line_end(buf, last) == last
        }),
{
    lemma_line_start_bounds(buf, start);
    lemma_line_end_bounds(buf, end);
    let first = line_start(buf, start);
    let last = line_end(buf, end);
    assert(buf.subrange(first, start) + buf.subrange(start, end) + buf.subrange(end, last)
        =~= buf.subrange(first, last));
    if first > 0 {
        assert(line_start(buf, first) == first);
    }
    if last < buf.len() {
        assert(line_end(buf, last) == last);
    }
}

/// Where the span holds no break, as an identifier does, its whole line
/// holds none, and cutting the same span out of that line alone, taken as
/// a buffer of its own, gives the same excerpt.
pub proof fn excerpt_within_line_is_same(buf: Seq<u8>, start: int, end: int)
    requires
        0 <= start <= end <= buf.len(),
        forall|k: int| start <= k < end ==> !is_break(#[trigger] buf[k]),
    ensures
        ({
            let first = line_start(buf, start);
            let last = line_end(buf, end);
            let line = buf.subrange(first, last);
            &&& forall|k: int| first <= k < last ==> !is_break(#[trigger] buf[k])
            &&& excerpt_of(line, start - first, end - first) == excerpt_of(buf, start, end)
        }),
{
    excerpt_rebuilds_line(buf, start, end);
    let first = line_start(buf, start);
    let last = line_end(buf, end);
    let line = buf.subrange(first, last);
    assert forall|k: int| first <= k < last implies !is_break(#[trigger] buf[k]) by {}
    assert forall|k: int| 0 <= k < line.len() implies !is_break(#[trigger] line[k]) by {
        assert(line[k] == buf[first + k]);
    }
    lemma_line_start_same(line, 0, start - first);
    lemma_line_end_same(line, end - first, line.len() as int);
    assert(line.subrange(0, start - first) =~= buf.subrange(first, start));
    assert(line.subrange(start - first, end - first) =~= buf.subrange(start, end));
    assert(line.subrange(end - first, line.len() as int) =~= buf.subrange(end, last));
}

/// A span at the very start of the buffer has nothing before it, and one
/// that reaches the buffer's end has nothing after it.
pub proof fn excerpt_at_buffer_edges(buf: Seq<u8>, start: int, end: int)
    requires
        0 <= start <= end <= buf.len(),
    ensures
        start == 0 ==> excerpt_of(buf, start, end).0.len() == 0,
        end == buf.len() ==> excerpt_of(buf, start, end).2.len() == 0,
{
}

/// Two spans on one physical line, the first ending before the second
/// begins, each get the whole line: neither excerpt stops at the other span.
pub proof fn same_line_excerpts_are_whole(buf: Seq<u8>, s1: int, e1: int, s2: int, e2: int)
    requires
        0 <= s1 <= e1 <= s2 <= e2 <= buf.len(),
        forall|k: int| s1 <= k < e2 ==> !is_break(#[trigger] buf[k]),
    ensures
        line_start(buf, s1) == line_start(buf, s2),
        line_end(buf, e1) == line_end(buf, e2),
        ({
            let (p1, m1, x1) = excerpt_of(buf, s1, e1);
            let (p2, m2, x2) = excerpt_of(buf, s2, e2);
            let line = buf.subrange(line_start(buf, s1), line_end(buf, e2));
            p1 + m1 + x1 == line && p2 + m2 + x2 == line
        }),
{
    lemma_line_start_same(buf, s1, s2);
    lemma_line_end_same(buf, e1, e2);
    excerpt_rebuilds_line(buf, s1, e1);
    excerpt_rebuilds_line(buf, s2, e2);
}

proof fn lemma_line_start_same(buf: Seq<u8>, a: int, b: int)
    requires
        0 <= a <= b <= buf.len(),
        forall|k: int| a <= k < b ==> !is_break(#[trigger] buf[k]),
    ensures
        line_start(buf, a) == line_start(buf, b),
    decreases b - a,
{
    if a < b {
        assert(!is_break(buf[b - 1]));
        lemma_line_start_same(buf, a, b - 1);
    }
}

proof fn lemma_line_end_same(buf: Seq<u8>, a: int, b: int)
    requires
        0 <= a <= b <= buf.len(),
        forall|k: int| a <= k < b ==> !is_break(#[trigger] buf[k]),
    ensures
        line_end(buf, a) == line_end(buf, b),
    decreases b - a,
{
    if a < b {
        assert(!is_break(buf[a]));
        lemma_line_end_same(buf, a + 1, b);
    }
}

} // verus!
