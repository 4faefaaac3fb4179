//! The buffer: a document with its layout, cursor, viewport and history.
use vstd::prelude::*;
use ropey::Rope;
use crate::text::{line_lens, lemma_line_lens, total};
use crate::rope::{rope_text, len_chars, insert_char, remove_range, copy_rope, slice_string};
use crate::layout::{
    VisualLine, Seg, segs_of, layout, seg_start, visual_pos, char_pos, tiles, build_layout,
    to_visual, to_char, lemma_layout, lemma_rows_nonempty, lemma_row_end, lemma_visual_pos,
    lemma_visual_pos_unique,
};
use crate::history::{History, HistoryView, EditAction, lemma_history_wf};

verus! {

pub enum Direction {
    Vert,
    Horiz,
}

/// The window of visual rows on screen: `offset` is the first row shown,
/// `width` the wrap width and `height` the number of rows shown.
#[derive(Clone, Copy, Debug, PartialEq, Eq, Structural)]
pub struct ViewPort {
    pub offset: usize,
    pub width: usize,
    pub height: usize,
}

impl Default for ViewPort {
    fn default() -> (v: Self)
        ensures
            v.offset == 0,
            v.width == 20,
            v.height == 5,
    {
        ViewPort { offset: 0, width: 20, height: 5 }
    }
}

/// The scroll offset that shows `row`, moved from `scroll` as little as
/// possible: `row` becomes the first or the last row shown.
pub open spec fn scroll_to(scroll: nat, height: nat, row: nat) -> nat {
    if row < scroll {
        row
    } else if row >= scroll + height {
        (row + 1 - height) as nat
    } else {
        scroll
    }
}

/// A buffer as a mathematical value.
pub ghost struct BufferView {
    pub text: Seq<char>,
    pub cursor: nat,
    pub sticky: nat,
    pub scroll: nat,
    pub width: nat,
    pub height: nat,
    pub history: HistoryView,
    pub last_delete: bool,
}

impl BufferView {
    /// The visual lines of the document.
    pub open spec fn rows(self) -> Seq<Seg> {
        layout(line_lens(self.text), self.width)
    }

    /// (column, absolute row) of the cursor.
    pub open spec fn pos(self) -> (int, int) {
        visual_pos(self.text, self.width, self.cursor as int)
    }

    pub open spec fn col(self) -> nat {
        self.pos().0 as nat
    }

    pub open spec fn row(self) -> nat {
        self.pos().1 as nat
    }

    /// Everything but the viewport is consistent.
    pub open spec fn sane(self) -> bool {
        &&& self.width > 0
        &&& self.height > 0
        &&& self.cursor <= self.text.len() <= usize::MAX
        &&& self.history.wf()
    }

    /// Consistent, and the cursor's row is on screen.
    pub open spec fn wf(self) -> bool {
        &&& self.sane()
        &&& self.scroll <= self.row() < self.scroll + self.height
    }

    /// The viewport moved to show the cursor after the layout changed shape.
    pub open spec fn shown(self) -> BufferView {
        BufferView { scroll: scroll_to(self.scroll, self.height, self.row()), ..self }
    }

    /// The cursor moved by `amt` characters, when that stays in the document;
    /// the sticky column becomes the new column.
    pub open spec fn move_horizontal(self, amt: int) -> BufferView {
        if 0 <= self.cursor + amt <= self.text.len() {
            let m = BufferView { cursor: (self.cursor + amt) as nat, ..self }.shown();
            BufferView { sticky: m.col(), ..m }
        } else {
            self
        }
    }

    /// Column taken on row `t` by a vertical move: the sticky column where the
    /// row is long enough, else the row's end (past the last character on the
    /// last row of all, before the line break elsewhere).
    pub open spec fn target_col(self, t: int) -> nat {
        let len = self.rows()[t].len;
        if self.sticky < len {
            self.sticky
        } else if t == self.rows().len() - 1 {
            len
        } else if len >= 1 {
            (len - 1) as nat
        } else {
            0
        }
    }

    /// The cursor moved by `amt` rows, when that stays in the document; the
    /// sticky column is kept.
    pub open spec fn move_vertical(self, amt: int) -> BufferView {
        let t = self.row() + amt;
        if 0 <= t < self.rows().len() {
            BufferView {
                cursor: char_pos(self.text, self.width, self.target_col(t) as int, t) as nat,
                scroll: scroll_to(self.scroll, self.height, t as nat),
                ..self
            }
        } else {
            self
        }
    }

    /// A cursor move: the live edit is closed, then the cursor moves.
    pub open spec fn cursor_mv(self, dir: Direction, amt: int) -> BufferView {
        let s = BufferView { history: self.history.stash(self.text, self.cursor), ..self };
        match dir {
            Direction::Vert => s.move_vertical(amt),
            Direction::Horiz => s.move_horizontal(amt),
        }
    }

    /// `c` typed at the cursor. The edit is recorded first; a space, a newline,
    /// or typing after deleting closes the live edit.
    pub open spec fn insert(self, c: char) -> BufferView {
        let h = self.history.record(c == ' ' || c == '\n' || self.last_delete, self.text, self.cursor);
        BufferView {
            text: self.text.insert(self.cursor as int, c),
            history: h,
            last_delete: false,
            ..self
        }.move_horizontal(1)
    }

    /// The `amt` characters before the cursor removed; nothing happens when
    /// there are fewer. Deleting after anything but deleting closes the live edit.
    pub open spec fn delete(self, amt: nat) -> BufferView {
        if self.cursor < amt {
            self
        } else {
            let h = self.history.record(!self.last_delete, self.text, self.cursor);
            let m = BufferView { history: h, last_delete: true, ..self }.move_horizontal(-amt);
            BufferView {
                text: self.text.subrange(0, m.cursor as int) + self.text.subrange(
                    self.cursor as int,
                    self.text.len() as int,
                ),
                ..m
            }.shown()
        }
    }

    /// The current snapshot of `h` installed as document and cursor.
    pub open spec fn install(self, h: HistoryView) -> BufferView {
        BufferView { text: h.current().0, cursor: h.current().1, history: h, ..self }.shown()
    }

    pub open spec fn undo(self) -> BufferView {
        self.install(self.history.stash(self.text, self.cursor).undo())
    }

    pub open spec fn redo(self) -> BufferView {
        if self.history.can_redo() {
            self.install(self.history.redo())
        } else {
            self
        }
    }

    pub open spec fn resize(self, w: nat, h: nat) -> BufferView {
        BufferView { width: w, height: h, ..self }.shown()
    }

    pub open spec fn save(self) -> BufferView {
        BufferView { history: self.history.save(), ..self }
    }
}

/// A vertical move within the document lands on the target row, at the
/// target column.
pub proof fn lemma_move_vertical(v: BufferView, amt: int)
    requires
        v.wf(),
        0 <= v.row() + amt < v.rows().len(),
    ensures
        v.move_vertical(amt).wf(),
        v.move_vertical(amt).row() == v.row() + amt,
        v.move_vertical(amt).col() == v.target_col(v.row() + amt),
{
    let t = v.row() + amt;
    let lens = line_lens(v.text);
    let rows = v.rows();
    let c = v.target_col(t);
    lemma_line_lens(v.text);
    lemma_layout(lens, v.width);
    lemma_rows_nonempty(v.text, v.width);
    lemma_row_end(lens, rows, t);
    let ci = char_pos(v.text, v.width, c as int, t);
    lemma_visual_pos_unique(v.text, v.width, ci, c as int, t);
}

pub struct Buffer {
    lines: Rope,
    pub filename: String,
    /// Width of the line-number gutter.
    pub offset: u16,
    cs: usize,
    cached_cx: usize,
    history: History,
    last_delete: bool,
    visual: Vec<VisualLine>,
    viewport: ViewPort,
}

impl View for Buffer {
    type V = BufferView;

    closed spec fn view(&self) -> BufferView {
        BufferView {
            text: rope_text(self.lines),
            cursor: self.cs as nat,
            sticky: self.cached_cx as nat,
            scroll: self.viewport.offset as nat,
            width: self.viewport.width as nat,
            height: self.viewport.height as nat,
            history: self.history@,
            last_delete: self.last_delete,
        }
    }
}

impl Buffer {
    /// The view is consistent and the visual lines are the document's layout.
    pub closed spec fn wf(&self) -> bool {
        self@.wf() && self.laid_out()
    }

    closed spec fn laid_out(&self) -> bool {
        segs_of(self.visual@) == self@.rows()
    }

    /// An empty buffer.
    pub fn new() -> (b: Buffer)
        ensures
            b.wf(),
            b@.text == Seq::<char>::empty(),
            b@.cursor == 0,
            b@.sticky == 0,
            b@.scroll == 0,
            b@.width == 20,
            b@.height == 5,
            b@.history == HistoryView::initial(),
            !b@.last_delete,
    {
        Buffer::open("new-file.md".to_owned(), crate::rope::empty_rope())
    }

    /// A buffer on document `ctx`, cursor at its start.
    pub fn open(filename: String, ctx: Rope) -> (b: Buffer)
        ensures
            b.wf(),
            b@.text == rope_text(ctx),
            b@.cursor == 0,
            b@.sticky == 0,
            b@.scroll == 0,
            b@.width == 20,
            b@.height == 5,
            b@.history == HistoryView::initial(),
            !b@.last_delete,
    {
        // the document's length fits in a usize
        let _n = len_chars(&ctx);
        let viewport = ViewPort::default();
        let visual = build_layout(&ctx, viewport.width);
        let b = Buffer {
            lines: ctx,
            filename,
            offset: 5,
            cs: 0,
            cached_cx: 0,
            history: History::default(),
            last_delete: false,
            visual,
            viewport,
        };
        proof {
            let v = b@;
            lemma_line_lens(v.text);
            lemma_layout(line_lens(v.text), v.width);
            lemma_rows_nonempty(v.text, v.width);
            lemma_visual_pos_unique(v.text, v.width, 0, 0, 0);
        }
        b
    }

    fn rebuild(&mut self)
        requires
            old(self)@.width > 0,
        ensures
            final(self)@ == old(self)@,
            final(self).laid_out(),
    {
        self.visual = build_layout(&self.lines, self.viewport.width);
    }

    /// Moves the viewport to show the cursor.
    fn show_cursor(&mut self)
        requires
            old(self)@.sane(),
            old(self).laid_out(),
        ensures
            final(self)@ == old(self)@.shown(),
            final(self).wf(),
    {
        let (_, row) = to_visual(&self.lines, &self.visual, self.viewport.width, self.cs);
        proof {
            lemma_visual_pos(self@.text, self@.width, self.cs as int);
        }
        if row < self.viewport.offset {
            self.viewport.offset = row;
        } else if row - self.viewport.offset >= self.viewport.height {
            self.viewport.offset = row - (self.viewport.height - 1);
        }
    }

    fn move_horizontal(&mut self, back: bool, dist: usize)
        requires
            old(self)@.sane(),
            old(self).laid_out(),
        ensures
            final(self)@ == old(self)@.move_horizontal(if back { -dist } else { dist as int }),
            final(self).laid_out(),
            final(self)@.sane(),
            old(self)@.wf() ==> final(self)@.wf(),
    {
        let len = len_chars(&self.lines);
        if back {
            if dist > self.cs {
                return;
            }
            self.cs = self.cs - dist;
        } else {
            if dist > len - self.cs {
                return;
            }
            self.cs = self.cs + dist;
        }
        self.show_cursor();
        let (col, _) = to_visual(&self.lines, &self.visual, self.viewport.width, self.cs);
        proof {
            lemma_visual_pos(self@.text, self@.width, self.cs as int);
            lemma_line_lens(self@.text);
            lemma_layout(line_lens(self@.text), self@.width);
            lemma_row_end(line_lens(self@.text), self@.rows(), self@.row() as int);
        }
        self.cached_cx = col;
    }

    fn move_vertical(&mut self, up: bool, dist: usize)
        requires
            old(self).wf(),
        ensures
            final(self)@ == old(self)@.move_vertical(if up { -dist } else { dist as int }),
            final(self).wf(),
    {
        let (_, row) = to_visual(&self.lines, &self.visual, self.viewport.width, self.cs);
        let n = self.visual.len();
        proof {
            lemma_visual_pos(self@.text, self@.width, self.cs as int);
        }
        let t = if up {
            if dist > row {
                return;
            }
            row - dist
        } else {
            if dist >= n - row {
                return;
            }
            row + dist
        };
        let len = self.visual[t].len;
        assert(len == self@.rows()[t as int].len);
        let col = if self.cached_cx < len {
            self.cached_cx
        } else if t == n - 1 {
            len
        } else if len >= 1 {
            len - 1
        } else {
            0
        };
        proof {
            lemma_move_vertical(self@, if up { -dist } else { dist as int });
        }
        self.cs = to_char(&self.lines, &self.visual, self.viewport.width, col, t);
        if t < self.viewport.offset {
            self.viewport.offset = t;
        } else if t - self.viewport.offset >= self.viewport.height {
            self.viewport.offset = t - (self.viewport.height - 1);
        }
    }

    /// Types `c` at the cursor and moves past it.
    pub fn insert(&mut self, c: char)
        requires
            old(self).wf(),
            old(self)@.text.len() < usize::MAX,
        ensures
            final(self).wf(),
            final(self)@ == old(self)@.insert(c),
    {
        let boundary: bool = c.should_stash() || self.last_delete;
        self.history.update(&boundary, &self.lines, self.cs);
        insert_char(&mut self.lines, self.cs, c);
        self.last_delete = false;
        self.rebuild();
        self.move_horizontal(false, 1);
    }

    /// Deletes the `amt` characters before the cursor; does nothing when the
    /// cursor is closer than that to the start.
    pub fn delete(&mut self, amt: usize)
        requires
            old(self).wf(),
        ensures
            final(self).wf(),
            final(self)@ == old(self)@.delete(amt as nat),
            old(self)@.cursor < amt ==> final(self)@ == old(self)@,
    {
        if self.cs < amt {
            return;
        }
        let boundary: bool = !self.last_delete;
        self.history.update(&boundary, &self.lines, self.cs);
        self.last_delete = true;
        let end = self.cs;
        self.move_horizontal(true, amt);
        remove_range(&mut self.lines, self.cs, end);
        self.rebuild();
        self.show_cursor();
    }

    /// Moves the cursor by `amt` characters or rows; a move that would leave
    /// the document does nothing but close the live edit.
    pub fn cursor_mv(&mut self, dir: Direction, amt: i32)
        requires
            old(self).wf(),
        ensures
            final(self).wf(),
            final(self)@ == old(self)@.cursor_mv(dir, amt as int),
    {
        self.history.stash(&self.lines, self.cs);
        let back = amt < 0;
        let dist: usize = if back {
            (-(amt as i64)) as usize
        } else {
            amt as usize
        };
        match dir {
            Direction::Vert => self.move_vertical(back, dist),
            Direction::Horiz => self.move_horizontal(back, dist),
        }
    }

    /// The cursor's column and its row on screen.
    pub fn get_cursor_pos(&self) -> (p: (usize, usize))
        requires
            self.wf(),
        ensures
            p.0 == self@.col(),
            p.1 == self@.row() - self@.scroll,
    {
        let (col, row) = to_visual(&self.lines, &self.visual, self.viewport.width, self.cs);
        (col, row - self.viewport.offset)
    }

    /// Installs the snapshot that `history` now points at.
    fn install(&mut self, text: Rope, cs: usize)
        requires
            old(self)@.width > 0,
            old(self)@.height > 0,
            old(self)@.history.wf(),
            cs <= rope_text(text).len() <= usize::MAX,
        ensures
            final(self)@ == (BufferView { text: rope_text(text), cursor: cs as nat, ..old(self)@ }).shown(),
            final(self).wf(),
    {
        self.lines = text;
        self.cs = cs;
        self.rebuild();
        self.show_cursor();
    }

    /// Closes the live edit and steps back to the previous snapshot.
    pub fn undo(&mut self)
        requires
            old(self).wf(),
        ensures
            final(self).wf(),
            final(self)@ == old(self)@.undo(),
    {
        self.history.stash(&self.lines, self.cs);
        let e = self.history.undo();
        let text = copy_rope(&e.text);
        let cs = e.cs;
        proof {
            let h = self.history@;
            assert(h.timeline[h.curr as int].1 <= h.timeline[h.curr as int].0.len() <= usize::MAX);
        }
        self.install(text, cs);
    }

    /// Steps forward to the next snapshot; does nothing when an edit was made
    /// since the last undo or there is nothing ahead.
    pub fn redo(&mut self)
        requires
            old(self).wf(),
        ensures
            final(self).wf(),
            final(self)@ == old(self)@.redo(),
    {
        match self.history.redo() {
            Some(e) => {
                let text = copy_rope(&e.text);
                let cs = e.cs;
                proof {
                    let h = self.history@;
                    assert(h.timeline[h.curr as int].1 <= h.timeline[h.curr as int].0.len()
                        <= usize::MAX);
                }
                self.install(text, cs);
            },
            None => {},
        }
    }

    /// Sets the wrap width and the number of rows shown.
    pub fn resize(&mut self, width: usize, height: usize)
        requires
            old(self).wf(),
            width > 0,
            height > 0,
        ensures
            final(self).wf(),
            final(self)@ == old(self)@.resize(width as nat, height as nat),
    {
        self.viewport.width = width;
        self.viewport.height = height;
        self.rebuild();
        self.show_cursor();
    }

    /// Marks the current state as saved.
    pub fn save(&mut self)
        requires
            old(self).wf(),
        ensures
            final(self).wf(),
            final(self)@ == old(self)@.save(),
    {
        self.history.save();
    }

    /// Whether the document changed since it was last saved.
    pub fn is_modified(&self) -> (r: bool)
        ensures
            r == self@.history.modified(),
    {
        self.history.is_modified()
    }

    /// Position of column `cx` of the row `cy` rows below the top of the screen.
    pub fn visual_to_rope(&self, cx: usize, cy: usize) -> (ci: usize)
        requires
            self.wf(),
            self@.scroll + cy < self@.rows().len(),
            cx <= self@.rows()[self@.scroll + cy].len,
        ensures
            ci == char_pos(self@.text, self@.width, cx as int, self@.scroll + cy),
    {
        // the row index fits in a usize
        let _n = self.visual.len();
        to_char(&self.lines, &self.visual, self.viewport.width, cx, self.viewport.offset + cy)
    }

    /// The rows on screen, top first: each with its logical line and its text.
    pub fn visible_rows(&self) -> (r: Vec<(usize, String)>)
        requires
            self.wf(),
        ensures
            r@.len() == vstd::math::min(
                (self@.scroll + self@.height) as int,
                self@.rows().len() as int,
            ) - self@.scroll,
            forall|i: int|
                #![trigger r@[i]]
                0 <= i < r@.len() ==> {
                    let s = self@.rows()[self@.scroll + i];
                    let start = seg_start(line_lens(self@.text), s);
                    &&& r@[i].0 == s.line
                    &&& r@[i].1@ == self@.text.subrange(start as int, (start + s.len) as int)
                },
    {
        let n = self.visual.len();
        let first = self.viewport.offset;
        proof {
            lemma_visual_pos(self@.text, self@.width, self@.cursor as int);
        }
        let end = if n - first < self.viewport.height {
            n
        } else {
            first + self.viewport.height
        };
        let ghost v = self@;
        proof {
            lemma_line_lens(v.text);
            lemma_layout(line_lens(v.text), v.width);
        }
        let mut r: Vec<(usize, String)> = Vec::new();
        let mut i = first;
        while i < end
            invariant
                self.wf(),
                v == self@,
                n == v.rows().len(),
                tiles(line_lens(v.text), v.rows()),
                total(line_lens(v.text)) == v.text.len(),
                first == v.scroll,
                first <= i <= end <= n,
                end == vstd::math::min((v.scroll + v.height) as int, n as int),
                r@.len() == i - first,
                forall|k: int|
                    #![trigger r@[k]]
                    0 <= k < r@.len() ==> {
                        let s = v.rows()[v.scroll + k];
                        let start = seg_start(line_lens(v.text), s);
                        &&& r@[k].0 == s.line
                        &&& r@[k].1@ == v.text.subrange(start as int, (start + s.len) as int)
                    },
            decreases end - i,
        {
            let vl = self.visual[i];
            assert(vl@ == v.rows()[i as int]);
            let start = to_char(&self.lines, &self.visual, self.viewport.width, 0, i);
            proof {
                lemma_row_end(line_lens(v.text), v.rows(), i as int);
            }
            let text = slice_string(&self.lines, start, start + vl.len);
            r.push((vl.logical_line, text));
            i = i + 1;
        }
        r
    }

    /// The visual lines of the document.
    pub fn visual(&self) -> (r: &Vec<VisualLine>)
        requires
            self.wf(),
        ensures
            segs_of(r@) == self@.rows(),
    {
        &self.visual
    }

    pub fn viewport(&self) -> (r: ViewPort)
        ensures
            r.offset == self@.scroll,
            r.width == self@.width,
            r.height == self@.height,
    {
        self.viewport
    }

    /// The document.
    pub fn lines(&self) -> (r: &Rope)
        ensures
            rope_text(*r) == self@.text,
    {
        &self.lines
    }

    /// Number of characters in the document.
    pub fn len_chars(&self) -> (n: usize)
        ensures
            n == self@.text.len(),
    {
        len_chars(&self.lines)
    }

    /// The cursor's position in the document.
    pub fn cursor(&self) -> (r: usize)
        ensures
            r == self@.cursor,
    {
        self.cs
    }

    pub fn history(&self) -> (r: &History)
        ensures
            r@ == self@.history,
    {
        &self.history
    }
}

/// Sticky column: from a cursor whose column is its sticky column, moving
/// down `d` rows and back up `d` rows returns it to where it was; on the way
/// down it keeps its column wherever the row reached is longer than that.
pub proof fn lemma_sticky_column(v: BufferView, d: int)
    requires
        v.wf(),
        v.sticky == v.col(),
        d > 0,
        v.row() + d < v.rows().len(),
    ensures
        v.cursor_mv(Direction::Vert, d).cursor_mv(Direction::Vert, -d).cursor == v.cursor,
        v.rows()[v.row() + d].len > v.sticky ==> v.cursor_mv(Direction::Vert, d).col() == v.sticky,
{
    lemma_history_wf(v.history, true, v.text, v.cursor);
    let s = BufferView { history: v.history.stash(v.text, v.cursor), ..v };
    lemma_move_vertical(s, d);
    let m = s.move_vertical(d);
    lemma_history_wf(m.history, true, m.text, m.cursor);
    let s2 = BufferView { history: m.history.stash(m.text, m.cursor), ..m };
    lemma_move_vertical(s2, -d);
    lemma_visual_pos(v.text, v.width, v.cursor as int);
}

/// Undo then redo gives back the document and the cursor, when the undo
/// closes the live state into a snapshot of its own: the document differs
/// from the current snapshot, or it is that snapshot and one lies before it.
pub proof fn lemma_undo_redo(v: BufferView)
    requires
        v.wf(),
        v.text != v.history.current().0 || (v.history.curr > 0 && v.history.current() == (
            v.text,
            v.cursor,
        )),
    ensures
        v.undo().redo().text == v.text,
        v.undo().redo().cursor == v.cursor,
{
    lemma_history_wf(v.history, true, v.text, v.cursor);
    let h1 = v.history.stash(v.text, v.cursor);
    lemma_history_wf(h1, true, v.text, v.cursor);
    let u = v.undo();
    assert(u.history == h1.undo());
    assert(u.history.can_redo());
    assert(u.history.redo().curr == h1.curr);
}

/// An edit made after an undo leaves nothing to redo.
pub proof fn lemma_edit_after_undo(v: BufferView, c: char, amt: nat)
    requires
        v.wf(),
    ensures
        v.undo().insert(c).redo() == v.undo().insert(c),
        v.undo().cursor >= amt ==> v.undo().delete(amt).redo() == v.undo().delete(amt),
{
    lemma_history_wf(v.history, true, v.text, v.cursor);
    let h1 = v.history.stash(v.text, v.cursor);
    lemma_history_wf(h1, true, v.text, v.cursor);
    let u = v.undo();
    let k = u.history.timeline.take(u.history.curr + 1int);
    assert(k[u.history.curr as int] == u.history.timeline[u.history.curr as int]);
}

/// Resizing twice to the same size gives what resizing once gives: the same
/// layout and the same viewport.
pub proof fn lemma_resize_idempotent(v: BufferView, w: nat, h: nat)
    requires
        v.wf(),
        w > 0,
        h > 0,
    ensures
        v.resize(w, h).resize(w, h) == v.resize(w, h),
        v.resize(w, h).resize(w, h).rows() == v.resize(w, h).rows(),
{
}

} // verus!
