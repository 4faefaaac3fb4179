//! Soft-wrapped layout: every logical line cut into visual lines of at most
//! `w` characters, and the mapping between positions and (column, row).
use vstd::prelude::*;
use ropey::Rope;
use crate::text::{
    line_index, line_lens, line_start, total, lemma_line_lens, lemma_line_of_position,
    lemma_total_step,
};
use crate::rope::{rope_text, len_lines, line_to_char, char_to_line};

verus! {

/// One soft-wrapped segment of a logical line.
#[derive(Clone, Copy, Debug, PartialEq, Eq, Structural)]
pub struct VisualLine {
    /// Where the segment starts within its logical line.
    pub offset: usize,
    /// Number of characters in the segment.
    pub len: usize,
    /// Index of the logical line that the segment belongs to.
    pub logical_line: usize,
}

/// A visual line as a mathematical value.
pub ghost struct Seg {
    pub offset: nat,
    pub len: nat,
    pub line: nat,
}

impl View for VisualLine {
    type V = Seg;

    open spec fn view(&self) -> Seg {
        Seg { offset: self.offset as nat, len: self.len as nat, line: self.logical_line as nat }
    }
}

pub open spec fn segs_of(v: Seq<VisualLine>) -> Seq<Seg> {
    v.map_values(|x: VisualLine| x@)
}

/// Segments of line `line` covering `rest` characters from `offset` on, `w` at a time.
pub open spec fn chunks(line: nat, offset: nat, rest: nat, w: nat) -> Seq<Seg>
    decreases rest,
{
    if rest == 0 || w == 0 {
        Seq::empty()
    } else if rest <= w {
        seq![Seg { offset, len: rest, line }]
    } else {
        seq![Seg { offset, len: w, line }] + chunks(line, offset + w, (rest - w) as nat, w)
    }
}

/// The visual lines of one logical line of length `len`: a single empty
/// placeholder when the line is empty.
pub open spec fn line_segs(line: nat, len: nat, w: nat) -> Seq<Seg> {
    if len == 0 {
        seq![Seg { offset: 0, len: 0, line }]
    } else {
        chunks(line, 0, len, w)
    }
}

/// The visual lines of a document whose logical lines have lengths `lens`.
pub open spec fn layout(lens: Seq<nat>, w: nat) -> Seq<Seg>
    decreases lens.len(),
{
    if lens.len() == 0 {
        Seq::empty()
    } else {
        layout(lens.drop_last(), w) + line_segs((lens.len() - 1) as nat, lens.last(), w)
    }
}

/// Row of the first visual line of logical line `l`.
pub open spec fn first_row(lens: Seq<nat>, w: nat, l: int) -> nat {
    layout(lens.take(l), w).len()
}

/// Position in the document where a segment starts.
pub open spec fn seg_start(lens: Seq<nat>, s: Seg) -> nat {
    line_start(lens, s.line as int) + s.offset
}

/// Total length of a run of segments.
pub open spec fn seg_total(v: Seq<Seg>) -> nat
    decreases v.len(),
{
    if v.len() == 0 {
        0
    } else {
        seg_total(v.drop_last()) + v.last().len
    }
}

/// The segments cover the document from its start to its end, each starting
/// where the one before ends.
pub open spec fn tiles(lens: Seq<nat>, vis: Seq<Seg>) -> bool {
    &&& vis.len() > 0
    &&& seg_start(lens, vis[0]) == 0
    &&& forall|r: int|
        0 <= r < vis.len() - 1 ==> #[trigger] seg_start(lens, vis[r + 1]) == seg_start(lens, vis[r])
            + vis[r].len
    &&& seg_start(lens, vis.last()) + vis.last().len == total(lens)
}

/// From row `row` and column `col`, step to later rows while the column lies
/// past the row's end; the last row of all keeps a column equal to its length.
pub open spec fn walk(vis: Seq<Seg>, row: int, col: int) -> (int, int)
    decreases vis.len() - row,
{
    if 0 <= row && row + 1 < vis.len() && vis[row].len <= col {
        walk(vis, row + 1, col - vis[row].len)
    } else {
        (col, row)
    }
}

/// (column, absolute row) of position `ci` of text `t` wrapped at width `w`.
pub open spec fn visual_pos(t: Seq<char>, w: nat, ci: int) -> (int, int) {
    let lens = line_lens(t);
    let l = line_index(t, ci) as int;
    walk(layout(lens, w), first_row(lens, w, l) as int, ci - line_start(lens, l))
}

/// Position of column `col` of absolute row `row`.
pub open spec fn char_pos(t: Seq<char>, w: nat, col: int, row: int) -> int {
    seg_start(line_lens(t), layout(line_lens(t), w)[row]) + col
}

proof fn lemma_chunks(line: nat, off: nat, rest: nat, w: nat)
    requires
        w > 0,
        rest > 0,
    ensures
        ({
            let c = chunks(line, off, rest, w);
            &&& c.len() > 0
            &&& c[0].offset == off
            &&& forall|j: int|
                0 <= j < c.len() ==> (#[trigger] c[j]).line == line && 1 <= c[j].len <= w
            &&& forall|j: int|
                0 <= j < c.len() - 1 ==> (#[trigger] c[j + 1]).offset == c[j].offset + c[j].len
            &&& c.last().offset + c.last().len == off + rest
            &&& seg_total(c) == rest
        }),
    decreases rest,
{
    let c = chunks(line, off, rest, w);
    let s = Seg { offset: off, len: rest, line };
    if rest <= w {
        assert(c == seq![s]);
        assert(c.drop_last() =~= Seq::<Seg>::empty());
        assert(seg_total(c) == seg_total(c.drop_last()) + c.last().len);
    } else {
        let h = Seg { offset: off, len: w, line };
        let tl = chunks(line, off + w, (rest - w) as nat, w);
        lemma_chunks(line, off + w, (rest - w) as nat, w);
        assert(c == seq![h] + tl);
        assert forall|j: int| 0 <= j < c.len() - 1 implies (#[trigger] c[j + 1]).offset
            == c[j].offset + c[j].len by {
            if j > 0 {
                assert(c[j] == tl[j - 1]);
                assert(c[j + 1] == tl[(j - 1) + 1]);
            } else {
                assert(c[1] == tl[0]);
            }
        }
        assert(c.last() == tl.last());
        lemma_seg_total_prepend(h, tl);
    }
}

proof fn lemma_seg_total_prepend(h: Seg, tl: Seq<Seg>)
    ensures
        seg_total(seq![h] + tl) == h.len + seg_total(tl),
    decreases tl.len(),
{
    if tl.len() == 0 {
        assert(seq![h] + tl =~= seq![h]);
        assert(seq![h].drop_last() =~= Seq::<Seg>::empty());
        assert(seg_total(seq![h]) == seg_total(seq![h].drop_last()) + h.len);
    } else {
        lemma_seg_total_prepend(h, tl.drop_last());
        assert((seq![h] + tl).drop_last() =~= seq![h] + tl.drop_last());
    }
}

proof fn lemma_line_segs(line: nat, len: nat, w: nat)
    requires
        w > 0,
    ensures
        ({
            let c = line_segs(line, len, w);
            &&& c.len() > 0
            &&& c[0].offset == 0
            &&& forall|j: int| 0 <= j < c.len() ==> (#[trigger] c[j]).line == line && c[j].len <= w
            &&& forall|j: int|
                0 <= j < c.len() - 1 ==> (#[trigger] c[j + 1]).offset == c[j].offset + c[j].len
            &&& c.last().offset + c.last().len == len
            &&& seg_total(c) == len
            &&& (len > 0 ==> forall|j: int| 0 <= j < c.len() ==> (#[trigger] c[j]).len >= 1)
            &&& (len == 0 ==> c == seq![Seg { offset: 0, len: 0, line }])
        }),
{
    let c = line_segs(line, len, w);
    if len > 0 {
        lemma_chunks(line, 0, len, w);
    } else {
        assert(c.drop_last() =~= Seq::<Seg>::empty());
        assert(seg_total(c) == seg_total(c.drop_last()) + c.last().len);
    }
}

proof fn lemma_line_start_drop_last(lens: Seq<nat>, l: int)
    requires
        lens.len() > 0,
        0 <= l <= lens.len() - 1,
    ensures
        line_start(lens, l) == line_start(lens.drop_last(), l),
{
    assert(lens.take(l) =~= lens.drop_last().take(l));
}

/// Shape of the layout: rows ordered by logical line, widths bounded, and the
/// rows tile the document.
pub proof fn lemma_layout(lens: Seq<nat>, w: nat)
    requires
        w > 0,
    ensures
        ({
            let vis = layout(lens, w);
            &&& vis.len() >= lens.len()
            &&& lens.len() > 0 ==> tiles(lens, vis)
            &&& forall|r: int|
                0 <= r < vis.len() ==> (#[trigger] vis[r]).line < lens.len() && vis[r].len <= w
            &&& forall|r1: int, r2: int|
                0 <= r1 <= r2 < vis.len() ==> (#[trigger] vis[r1]).line <= (#[trigger] vis[r2]).line
        }),
    decreases lens.len(),
{
    if lens.len() > 0 {
        let p = lens.drop_last();
        let k = p.len();
        let vp = layout(p, w);
        let c = line_segs(k, lens.last(), w);
        let vis = layout(lens, w);
        lemma_layout(p, w);
        lemma_line_segs(k, lens.last(), w);
        assert(vis == vp + c);
        assert forall|r: int| 0 <= r < vis.len() implies (#[trigger] vis[r]).line < lens.len()
            && vis[r].len <= w by {
            if r < vp.len() {
                assert(vis[r] == vp[r]);
            } else {
                assert(vis[r] == c[r - vp.len()]);
            }
        }
        assert forall|r1: int, r2: int| 0 <= r1 <= r2 < vis.len() implies (#[trigger] vis[r1]).line
            <= (#[trigger] vis[r2]).line by {
            if r2 < vp.len() {
                assert(vis[r1] == vp[r1]);
                assert(vis[r2] == vp[r2]);
            } else if r1 < vp.len() {
                assert(vis[r1] == vp[r1]);
                assert(vis[r2] == c[r2 - vp.len()]);
            } else {
                assert(vis[r1] == c[r1 - vp.len()]);
                assert(vis[r2] == c[r2 - vp.len()]);
            }
        }
        // the rows tile the document
        lemma_line_start_drop_last(lens, k as int);
        assert(lens.take(k as int) =~= p);
        assert(line_start(lens, k as int) == total(p));
        assert forall|r: int| 0 <= r < vp.len() implies seg_start(lens, #[trigger] vis[r])
            == seg_start(p, vp[r]) by {
            assert(vis[r] == vp[r]);
            lemma_line_start_drop_last(lens, vp[r].line as int);
        }
        assert forall|r: int| 0 <= r < vis.len() - 1 implies #[trigger] seg_start(lens, vis[r + 1])
            == seg_start(lens, vis[r]) + vis[r].len by {
            if r + 1 < vp.len() {
                assert(seg_start(lens, vis[r + 1]) == seg_start(p, vp[r + 1]));
                assert(seg_start(lens, vis[r]) == seg_start(p, vp[r]));
            } else if r + 1 == vp.len() {
                assert(vis[r + 1] == c[0]);
                assert(seg_start(lens, vis[r]) == seg_start(p, vp[r]));
                assert(vp[r] == vp.last());
            } else {
                let j = r - vp.len();
                assert(vis[r + 1] == c[j + 1]);
                assert(vis[r] == c[j]);
            }
        }
        if vp.len() > 0 {
            assert(seg_start(lens, vis[0]) == seg_start(p, vp[0]));
        } else {
            assert(p.take(0) =~= Seq::<nat>::empty());
            assert(vis[0] == c[0]);
            assert(lens.take(0) =~= Seq::<nat>::empty());
        }
        assert(vis.last() == c.last());
        assert(total(lens) == total(p) + lens.last());
    }
}

/// The rows of the first `l` logical lines come first in the layout.
pub proof fn lemma_layout_prefix(lens: Seq<nat>, w: nat, l: int)
    requires
        0 <= l <= lens.len(),
    ensures
        first_row(lens, w, l) <= layout(lens, w).len(),
        layout(lens, w).take(first_row(lens, w, l) as int) == layout(lens.take(l), w),
    decreases lens.len(),
{
    if l == lens.len() {
        assert(lens.take(l) =~= lens);
        assert(layout(lens, w).take(layout(lens, w).len() as int) =~= layout(lens, w));
    } else {
        let p = lens.drop_last();
        assert(p.take(l) =~= lens.take(l));
        lemma_layout_prefix(p, w, l);
        assert(layout(lens, w).take(first_row(lens, w, l) as int) =~= layout(p, w).take(
            first_row(p, w, l) as int,
        ));
    }
}

/// The rows of logical line `l` are those from its first row up to the first
/// row of the next line, and they are exactly its segments.
pub proof fn lemma_rows_of_line(lens: Seq<nat>, w: nat, l: int)
    requires
        w > 0,
        0 <= l < lens.len(),
    ensures
        ({
            let vis = layout(lens, w);
            let a = first_row(lens, w, l) as int;
            let b = first_row(lens, w, l + 1) as int;
            &&& l <= a < b <= vis.len()
            &&& vis.subrange(a, b) == line_segs(l as nat, lens[l], w)
            &&& forall|r: int| 0 <= r < a ==> (#[trigger] vis[r]).line < l
            &&& forall|r: int| b <= r < vis.len() ==> (#[trigger] vis[r]).line > l
        }),
{
    let vis = layout(lens, w);
    let a = first_row(lens, w, l) as int;
    let b = first_row(lens, w, l + 1) as int;
    lemma_layout_prefix(lens, w, l);
    lemma_layout_prefix(lens, w, l + 1);
    lemma_layout(lens.take(l), w);
    lemma_layout(lens, w);
    lemma_line_segs(l as nat, lens[l], w);
    assert(lens.take(l + 1).drop_last() =~= lens.take(l));
    let c = line_segs(l as nat, lens[l], w);
    assert(layout(lens.take(l + 1), w) == layout(lens.take(l), w) + c);
    assert(vis.subrange(a, b) =~= c) by {
        assert forall|j: int| 0 <= j < c.len() implies vis.subrange(a, b)[j] == c[j] by {
            assert(vis[a + j] == vis.take(b)[a + j]);
        }
    }
    assert forall|r: int| 0 <= r < a implies (#[trigger] vis[r]).line < l by {
        assert(vis[r] == vis.take(a)[r]);
    }
    assert forall|r: int| b <= r < vis.len() implies (#[trigger] vis[r]).line > l by {
        if l + 1 < lens.len() {
            lemma_rows_start(lens, w, l + 1);
            assert(vis[b].line <= vis[r].line);
        }
        else {
            assert(lens.take(l + 1) =~= lens);
        }
    }
}

/// The first row of a logical line belongs to it and starts it.
pub proof fn lemma_rows_start(lens: Seq<nat>, w: nat, l: int)
    requires
        w > 0,
        0 <= l < lens.len(),
    ensures
        ({
            let vis = layout(lens, w);
            let a = first_row(lens, w, l) as int;
            &&& l <= a < vis.len()
            &&& vis[a].line == l
            &&& vis[a].offset == 0
        }),
{
    let vis = layout(lens, w);
    let a = first_row(lens, w, l) as int;
    let b = first_row(lens, w, l + 1) as int;
    lemma_layout_prefix(lens, w, l);
    lemma_layout_prefix(lens, w, l + 1);
    lemma_layout(lens.take(l), w);
    lemma_line_segs(l as nat, lens[l], w);
    assert(lens.take(l + 1).drop_last() =~= lens.take(l));
    let c = line_segs(l as nat, lens[l], w);
    assert(layout(lens.take(l + 1), w) == layout(lens.take(l), w) + c);
    assert(vis[a] == vis.take(b)[a]);
}

proof fn lemma_walk(lens: Seq<nat>, vis: Seq<Seg>, row: int, col: int, ci: int)
    requires
        tiles(lens, vis),
        0 <= row < vis.len(),
        col >= 0,
        seg_start(lens, vis[row]) + col == ci,
    ensures
        ({
            let (c, r) = walk(vis, row, col);
            &&& row <= r < vis.len()
            &&& c >= 0
            &&& seg_start(lens, vis[r]) + c == ci
            &&& (r + 1 < vis.len() ==> c < vis[r].len)
        }),
    decreases vis.len() - row,
{
    if row + 1 < vis.len() && vis[row].len <= col {
        assert(seg_start(lens, vis[row + 1]) == seg_start(lens, vis[row]) + vis[row].len);
        lemma_walk(lens, vis, row + 1, col - vis[row].len, ci);
    }
}

/// Rows further down start further on.
proof fn lemma_starts_mono(lens: Seq<nat>, vis: Seq<Seg>, a: int, b: int)
    requires
        tiles(lens, vis),
        0 <= a < b < vis.len(),
    ensures
        seg_start(lens, vis[a]) + vis[a].len <= seg_start(lens, vis[b]),
    decreases b - a,
{
    assert(seg_start(lens, vis[(b - 1) + 1]) == seg_start(lens, vis[b - 1]) + vis[b - 1].len);
    if b > a + 1 {
        lemma_starts_mono(lens, vis, a, b - 1);
    }
}

/// Every row ends within the document.
pub proof fn lemma_row_end(lens: Seq<nat>, vis: Seq<Seg>, r: int)
    requires
        tiles(lens, vis),
        0 <= r < vis.len(),
    ensures
        seg_start(lens, vis[r]) + vis[r].len <= total(lens),
{
    if r < vis.len() - 1 {
        lemma_starts_mono(lens, vis, r, vis.len() - 1);
    }
}

/// Of a text's layout, every row but the last holds at least one character.
pub proof fn lemma_rows_nonempty(t: Seq<char>, w: nat)
    requires
        w > 0,
    ensures
        forall|r: int|
            0 <= r < layout(line_lens(t), w).len() - 1 ==> (#[trigger] layout(line_lens(t), w)[r]).len
                >= 1,
{
    let lens = line_lens(t);
    let vis = layout(lens, w);
    lemma_line_lens(t);
    lemma_layout(lens, w);
    assert forall|r: int| 0 <= r < vis.len() - 1 implies (#[trigger] vis[r]).len >= 1 by {
        let l = vis[r].line as int;
        lemma_rows_of_line(lens, w, l);
        lemma_line_segs(l as nat, lens[l], w);
        let a = first_row(lens, w, l) as int;
        let b = first_row(lens, w, l + 1) as int;
        assert(a <= r < b);
        assert(vis[r] == vis.subrange(a, b)[r - a]);
        if lens[l] == 0 {
            assert(l == lens.len() - 1);
            assert(lens.take(l + 1) =~= lens);
        }
    }
}

/// Where `visual_pos` places a position: the row holds it, and the column
/// lies before the row's end, except on the last row of all.
pub proof fn lemma_visual_pos(t: Seq<char>, w: nat, ci: int)
    requires
        w > 0,
        0 <= ci <= t.len(),
    ensures
        ({
            let vis = layout(line_lens(t), w);
            let (c, r) = visual_pos(t, w, ci);
            &&& 0 <= r < vis.len()
            &&& 0 <= c <= vis[r].len
            &&& r + 1 < vis.len() ==> c < vis[r].len
            &&& seg_start(line_lens(t), vis[r]) + c == ci
        }),
{
    let lens = line_lens(t);
    let vis = layout(lens, w);
    let l = line_index(t, ci) as int;
    lemma_line_lens(t);
    lemma_line_of_position(t, ci);
    lemma_rows_start(lens, w, l);
    lemma_layout(lens, w);
    let a = first_row(lens, w, l) as int;
    lemma_walk(lens, vis, a, ci - line_start(lens, l), ci);
    let (c, r) = visual_pos(t, w, ci);
    lemma_row_end(lens, vis, r);
}

/// A row and column that hold a position are the ones that `visual_pos` gives.
pub proof fn lemma_visual_pos_unique(t: Seq<char>, w: nat, ci: int, c: int, r: int)
    requires
        w > 0,
        0 <= ci <= t.len(),
        0 <= r < layout(line_lens(t), w).len(),
        0 <= c,
        seg_start(line_lens(t), layout(line_lens(t), w)[r]) + c == ci,
        c < layout(line_lens(t), w)[r].len || r == layout(line_lens(t), w).len() - 1,
    ensures
        visual_pos(t, w, ci) == (c, r),
{
    let lens = line_lens(t);
    let vis = layout(lens, w);
    lemma_visual_pos(t, w, ci);
    lemma_line_lens(t);
    lemma_layout(lens, w);
    let (c2, r2) = visual_pos(t, w, ci);
    if r2 < r {
        lemma_starts_mono(lens, vis, r2, r);
    } else if r2 > r {
        lemma_starts_mono(lens, vis, r, r2);
    }
}

/// Rebuilds the layout of a document from scratch.
pub(crate) fn build_layout(doc: &Rope, w: usize) -> (v: Vec<VisualLine>)
    requires
        w > 0,
    ensures
        segs_of(v@) == layout(line_lens(rope_text(*doc)), w as nat),
{
    let ghost t = rope_text(*doc);
    let ghost lens = line_lens(t);
    let n = len_lines(doc);
    let mut v: Vec<VisualLine> = Vec::new();
    let mut start = line_to_char(doc, 0);
    let mut i: usize = 0;
    assert(lens.take(0) =~= Seq::<nat>::empty());
    assert(segs_of(v@) =~= Seq::<Seg>::empty());
    while i < n
        invariant
            w > 0,
            n == lens.len(),
            lens == line_lens(rope_text(*doc)),
            i <= n,
            start == line_start(lens, i as int),
            segs_of(v@) == layout(lens.take(i as int), w as nat),
        decreases n - i,
    {
        let next = line_to_char(doc, i + 1);
        proof {
            lemma_total_step(lens, i as int);
        }
        let len = next - start;
        let ghost base = segs_of(v@);
        if len == 0 {
            v.push(VisualLine { offset: 0, len: 0, logical_line: i });
            assert(segs_of(v@) =~= base + line_segs(i as nat, 0, w as nat));
        } else {
            let mut rest = len;
            let mut off: usize = 0;
            assert(segs_of(v@) + chunks(i as nat, 0, len as nat, w as nat) =~= base + chunks(
                i as nat,
                0,
                len as nat,
                w as nat,
            ));
            while rest > 0
                invariant
                    w > 0,
                    off + rest == len,
                    segs_of(v@) + chunks(i as nat, off as nat, rest as nat, w as nat) == base
                        + chunks(i as nat, 0, len as nat, w as nat),
                decreases rest,
            {
                let ghost before = segs_of(v@);
                if rest > w {
                    v.push(VisualLine { offset: off, len: w, logical_line: i });
                    assert(segs_of(v@) =~= before.push(
                        Seg { offset: off as nat, len: w as nat, line: i as nat },
                    ));
                    assert(segs_of(v@) + chunks(
                        i as nat,
                        (off + w) as nat,
                        (rest - w) as nat,
                        w as nat,
                    ) =~= before + chunks(i as nat, off as nat, rest as nat, w as nat));
                    rest = rest - w;
                    off = off + w;
                } else {
                    v.push(VisualLine { offset: off, len: rest, logical_line: i });
                    assert(segs_of(v@) =~= before + chunks(
                        i as nat,
                        off as nat,
                        rest as nat,
                        w as nat,
                    ));
                    assert(chunks(i as nat, 0, 0, w as nat) =~= Seq::<Seg>::empty());
                    assert(segs_of(v@) + chunks(i as nat, (off + rest) as nat, 0, w as nat)
                        =~= segs_of(v@));
                    off = off + rest;
                    rest = 0;
                }
            }
            assert(chunks(i as nat, off as nat, 0, w as nat) =~= Seq::<Seg>::empty());
            assert(segs_of(v@) =~= base + line_segs(i as nat, len as nat, w as nat));
        }
        assert(lens.take(i + 1).drop_last() =~= lens.take(i as int));
        start = next;
        i = i + 1;
    }
    assert(lens.take(n as int) =~= lens);
    v
}

/// (column, absolute row) of position `ci`.
pub(crate) fn to_visual(doc: &Rope, vis: &Vec<VisualLine>, w: usize, ci: usize) -> (p: (
    usize,
    usize,
))
    requires
        w > 0,
        ci <= rope_text(*doc).len(),
        segs_of(vis@) == layout(line_lens(rope_text(*doc)), w as nat),
    ensures
        p.0 == visual_pos(rope_text(*doc), w as nat, ci as int).0,
        p.1 == visual_pos(rope_text(*doc), w as nat, ci as int).1,
{
    let ghost t = rope_text(*doc);
    let ghost lens = line_lens(t);
    let ghost segs = segs_of(vis@);
    let l = char_to_line(doc, ci);
    let ghost a = first_row(lens, w as nat, l as int) as int;
    proof {
        lemma_line_lens(t);
        lemma_line_of_position(t, ci as int);
        lemma_rows_start(lens, w as nat, l as int);
        lemma_rows_of_line(lens, w as nat, l as int);
        lemma_layout(lens, w as nat);
    }
    let mut cy = l;
    while vis[cy].logical_line != l
        invariant
            segs == segs_of(vis@),
            l <= cy <= a,
            a < vis.len(),
            segs[a].line == l,
            forall|r: int| 0 <= r < a ==> (#[trigger] segs[r]).line < l,
        decreases a - cy,
    {
        assert(segs[cy as int] == vis@[cy as int]@);
        cy = cy + 1;
    }
    assert(segs[cy as int] == vis@[cy as int]@);
    let start = line_to_char(doc, l);
    let mut cx = ci - start;
    while cy + 1 < vis.len() && vis[cy].len <= cx
        invariant
            segs == segs_of(vis@),
            cy < vis.len(),
            walk(segs, cy as int, cx as int) == walk(segs, a, ci - line_start(lens, l as int)),
        decreases vis.len() - cy,
    {
        cx = cx - vis[cy].len;
        cy = cy + 1;
    }
    (cx, cy)
}

/// Position of column `col` of absolute row `row`.
pub(crate) fn to_char(doc: &Rope, vis: &Vec<VisualLine>, w: usize, col: usize, row: usize) -> (ci:
    usize)
    requires
        w > 0,
        rope_text(*doc).len() <= usize::MAX,
        segs_of(vis@) == layout(line_lens(rope_text(*doc)), w as nat),
        row < vis.len(),
        col <= vis@[row as int].len,
    ensures
        ci == char_pos(rope_text(*doc), w as nat, col as int, row as int),
{
    let ghost t = rope_text(*doc);
    let ghost lens = line_lens(t);
    proof {
        lemma_line_lens(t);
        lemma_layout(lens, w as nat);
        lemma_row_end(lens, segs_of(vis@), row as int);
    }
    let vl = vis[row];
    let s = line_to_char(doc, vl.logical_line);
    s + vl.offset + col
}

/// Mapping a position to (column, row) and back gives the position again.
pub proof fn lemma_round_trip(t: Seq<char>, w: nat, ci: int)
    requires
        w > 0,
        0 <= ci <= t.len(),
    ensures
        char_pos(t, w, visual_pos(t, w, ci).0, visual_pos(t, w, ci).1) == ci,
{
    lemma_visual_pos(t, w, ci);
}

/// Each logical line owns a run of consecutive rows and no others. The run
/// starts at offset 0, each row starts where the previous one ends, no row is
/// wider than `w`, and the lengths add up to the line's length. An empty line
/// has exactly one row, of length 0.
pub proof fn lemma_partition(t: Seq<char>, w: nat, l: int)
    requires
        w > 0,
        0 <= l < line_lens(t).len(),
    ensures
        ({
            let lens = line_lens(t);
            let vis = layout(lens, w);
            let a = first_row(lens, w, l) as int;
            let b = first_row(lens, w, l + 1) as int;
            &&& a < b <= vis.len()
            &&& forall|r: int| 0 <= r < vis.len() ==> ((#[trigger] vis[r]).line == l <==> a <= r < b)
            &&& vis[a].offset == 0
            &&& forall|r: int|
                a <= r < b - 1 ==> (#[trigger] vis[r + 1]).offset == vis[r].offset + vis[r].len
            &&& forall|r: int| a <= r < b ==> (#[trigger] vis[r]).len <= w
            &&& seg_total(vis.subrange(a, b)) == lens[l]
            &&& (lens[l] == 0 ==> b == a + 1 && vis[a].len == 0)
        }),
{
    let lens = line_lens(t);
    let vis = layout(lens, w);
    let a = first_row(lens, w, l) as int;
    let b = first_row(lens, w, l + 1) as int;
    lemma_rows_of_line(lens, w, l);
    lemma_line_segs(l as nat, lens[l], w);
    let c = line_segs(l as nat, lens[l], w);
    assert forall|r: int| 0 <= r < vis.len() implies ((#[trigger] vis[r]).line == l <==> a <= r
        < b) by {
        if a <= r < b {
            assert(vis[r] == c[r - a]);
        }
    }
    assert(vis[a] == c[0]);
    assert forall|r: int| a <= r < b - 1 implies (#[trigger] vis[r + 1]).offset == vis[r].offset
        + vis[r].len by {
        let j = r - a;
        assert(vis[r] == c[j]);
        assert(vis[r + 1] == c[j + 1]);
    }
    assert forall|r: int| a <= r < b implies (#[trigger] vis[r]).len <= w by {
        assert(vis[r] == c[r - a]);
    }
}

} // verus!
