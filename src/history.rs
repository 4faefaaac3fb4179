//! Undo/redo timeline of document snapshots.
//!
//! The timeline is linear: recording an edit discards the snapshots ahead of
//! the current one. The live document may run ahead of the current snapshot;
//! `dirty` says so, and while it holds there is nothing to redo.
use vstd::prelude::*;
use ropey::Rope;
use crate::rope::{rope_text, copy_rope, same_text, empty_rope, len_chars};

verus! {

/// Whether an action closes the live edit, so that a new snapshot is taken.
pub trait EditAction {
    spec fn forces_boundary(&self) -> bool;

    fn should_stash(&self) -> (r: bool)
        ensures
            r == self.forces_boundary(),
    ;
}

/// A typed character closes the live edit when it is a space or a newline.
impl EditAction for char {
    open spec fn forces_boundary(&self) -> bool {
        *self == ' ' || *self == '\n'
    }

    fn should_stash(&self) -> (r: bool) {
        *self == ' ' || *self == '\n'
    }
}

/// An explicit request: `true` asks for a boundary.
impl EditAction for bool {
    open spec fn forces_boundary(&self) -> bool {
        *self
    }

    fn should_stash(&self) -> (r: bool) {
        *self
    }
}

/// A snapshot: a copy of the document and the cursor position.
pub struct Edit {
    pub text: Rope,
    pub cs: usize,
}

impl View for Edit {
    type V = (Seq<char>, nat);

    open spec fn view(&self) -> (Seq<char>, nat) {
        (rope_text(self.text), self.cs as nat)
    }
}

impl Edit {
    fn from(text: Rope, cs: usize) -> (e: Edit)
        ensures
            e.text == text,
            e.cs == cs,
    {
        Edit { text, cs }
    }
}

/// The timeline as a mathematical value.
pub ghost struct HistoryView {
    pub timeline: Seq<(Seq<char>, nat)>,
    pub curr: nat,
    pub saved: nat,
    pub dirty: bool,
}

impl HistoryView {
    /// The timeline is not empty, `curr` indexes it, and every snapshot's
    /// cursor lies within its document.
    pub open spec fn wf(self) -> bool {
        &&& 0 < self.timeline.len()
        &&& self.curr < self.timeline.len()
        &&& forall|i: int|
            0 <= i < self.timeline.len() ==> #[trigger] self.timeline[i].1 <= self.timeline[i].0.len()
                <= usize::MAX
    }

    /// A timeline that holds only the empty document.
    pub open spec fn initial() -> HistoryView {
        HistoryView {
            timeline: seq![(Seq::<char>::empty(), 0nat)],
            curr: 0,
            saved: 0,
            dirty: false,
        }
    }

    pub open spec fn current(self) -> (Seq<char>, nat) {
        self.timeline[self.curr as int]
    }

    /// Closes the live edit: when the document differs from the current
    /// snapshot, the snapshots ahead are dropped and the document is appended.
    pub open spec fn stash(self, doc: Seq<char>, cs: nat) -> HistoryView {
        if doc != self.current().0 {
            HistoryView {
                timeline: self.timeline.take(self.curr + 1int).push((doc, cs)),
                curr: self.curr + 1,
                dirty: false,
                ..self
            }
        } else {
            self
        }
    }

    /// Records an edit about to be made on `doc`, closing the live edit first
    /// when `boundary` holds.
    pub open spec fn record(self, boundary: bool, doc: Seq<char>, cs: nat) -> HistoryView {
        let h = HistoryView { timeline: self.timeline.take(self.curr + 1int), dirty: true, ..self };
        if boundary {
            h.stash(doc, cs)
        } else {
            h
        }
    }

    pub open spec fn undo(self) -> HistoryView {
        HistoryView {
            curr: if self.curr > 0 {
                (self.curr - 1) as nat
            } else {
                0
            },
            dirty: false,
            ..self
        }
    }

    pub open spec fn can_redo(self) -> bool {
        !self.dirty && self.curr + 1 < self.timeline.len()
    }

    pub open spec fn redo(self) -> HistoryView {
        if self.can_redo() {
            HistoryView { curr: self.curr + 1, ..self }
        } else {
            self
        }
    }

    pub open spec fn save(self) -> HistoryView {
        HistoryView { saved: self.curr, ..self }
    }

    pub open spec fn modified(self) -> bool {
        self.curr != self.saved || self.dirty
    }
}

pub struct History {
    timeline: Vec<Edit>,
    curr: usize,
    saved: usize,
    dirty: bool,
}

impl View for History {
    type V = HistoryView;

    closed spec fn view(&self) -> HistoryView {
        HistoryView {
            timeline: self.timeline@.map_values(|e: Edit| e@),
            curr: self.curr as nat,
            saved: self.saved as nat,
            dirty: self.dirty,
        }
    }
}

impl Default for History {
    fn default() -> (h: Self)
        ensures
            h@ == HistoryView::initial(),
    {
        let h = History { timeline: vec![Edit::from(empty_rope(), 0)], curr: 0, saved: 0, dirty: false };
        assert(h@.timeline =~= HistoryView::initial().timeline);
        h
    }
}

impl History {
    /// Records an edit about to be made on `ctx` with the cursor at `cs`.
    pub fn update<E: EditAction>(&mut self, ea: &E, ctx: &Rope, cs: usize)
        requires
            old(self)@.wf(),
            cs <= rope_text(*ctx).len(),
        ensures
            final(self)@ == old(self)@.record(ea.forces_boundary(), rope_text(*ctx), cs as nat),
            final(self)@.wf(),
    {
        // the index after the current one fits in a usize
        let _n = self.timeline.len();
        self.dirty = true;
        self.timeline.truncate(self.curr + 1);
        assert(self@.timeline =~= old(self)@.timeline.take(old(self)@.curr + 1int));
        assert forall|i: int| 0 <= i < self@.timeline.len() implies #[trigger] self@.timeline[i].1
            <= self@.timeline[i].0.len() <= usize::MAX by {
            assert(self@.timeline[i] == old(self)@.timeline[i]);
            assert(old(self)@.timeline[i].1 <= old(self)@.timeline[i].0.len() <= usize::MAX);
        }
        assert(self@.wf());
        if ea.should_stash() {
            self.stash(ctx, cs);
        }
    }

    /// Closes the live edit, appending `ctx` when it differs from the current
    /// snapshot.
    pub fn stash(&mut self, ctx: &Rope, cs: usize)
        requires
            old(self)@.wf(),
            cs <= rope_text(*ctx).len(),
        ensures
            final(self)@ == old(self)@.stash(rope_text(*ctx), cs as nat),
            final(self)@.wf(),
    {
        let _n = self.timeline.len();
        // the document's length fits in a usize
        let _len = len_chars(ctx);
        if !same_text(ctx, &self.timeline[self.curr].text) {
            self.timeline.truncate(self.curr + 1);
            self.timeline.push(Edit::from(copy_rope(ctx), cs));
            self.curr = self.curr + 1;
            self.dirty = false;
            assert(self@.timeline =~= old(self)@.timeline.take(old(self)@.curr + 1int).push(
                (rope_text(*ctx), cs as nat),
            ));
        }
    }

    /// Steps back one snapshot (staying on the first one) and returns the
    /// snapshot to install.
    pub fn undo(&mut self) -> (e: &Edit)
        requires
            old(self)@.wf(),
        ensures
            final(self)@ == old(self)@.undo(),
            final(self)@.wf(),
            e@ == final(self)@.current(),
    {
        if self.curr > 0 {
            self.curr = self.curr - 1;
        }
        self.dirty = false;
        &self.timeline[self.curr]
    }

    /// Steps forward one snapshot and returns it; nothing when the live edit
    /// is dirty or the current snapshot is the last one.
    pub fn redo(&mut self) -> (e: Option<&Edit>)
        requires
            old(self)@.wf(),
        ensures
            final(self)@ == old(self)@.redo(),
            final(self)@.wf(),
            e is Some <==> old(self)@.can_redo(),
            e is Some ==> e->0@ == final(self)@.current(),
    {
        if self.dirty || self.curr >= self.timeline.len() - 1 {
            return None;
        }
        self.curr = self.curr + 1;
        Some(&self.timeline[self.curr])
    }

    /// Marks the current snapshot as saved.
    pub fn save(&mut self)
        ensures
            final(self)@ == old(self)@.save(),
    {
        self.saved = self.curr;
    }

    /// Whether the document differs from what was last saved.
    pub fn is_modified(&self) -> (r: bool)
        ensures
            r == self@.modified(),
    {
        self.curr != self.saved || self.dirty
    }

    /// The snapshots, oldest first.
    pub fn timeline(&self) -> (r: &Vec<Edit>)
        ensures
            r@.map_values(|e: Edit| e@) == self@.timeline,
    {
        &self.timeline
    }
}

/// Every timeline operation keeps the timeline well formed and keeps its
/// first snapshot, the baseline that undo falls back to.
pub proof fn lemma_history_wf(h: HistoryView, boundary: bool, doc: Seq<char>, cs: nat)
    requires
        h.wf(),
        cs <= doc.len() <= usize::MAX,
    ensures
        h.stash(doc, cs).wf(),
        h.record(boundary, doc, cs).wf(),
        h.undo().wf(),
        h.redo().wf(),
        h.save().wf(),
        h.stash(doc, cs).timeline[0] == h.timeline[0],
        h.record(boundary, doc, cs).timeline[0] == h.timeline[0],
        h.undo().timeline[0] == h.timeline[0],
        h.redo().timeline[0] == h.timeline[0],
{
    let k = h.timeline.take(h.curr + 1int);
    assert forall|i: int| 0 <= i < k.len() implies #[trigger] k[i].1 <= k[i].0.len() <= usize::MAX by {
        assert(k[i] == h.timeline[i]);
        assert(h.timeline[i].1 <= h.timeline[i].0.len() <= usize::MAX);
    }
    let p = k.push((doc, cs));
    assert forall|i: int| 0 <= i < p.len() implies #[trigger] p[i].1 <= p[i].0.len() <= usize::MAX by {
        if i < k.len() {
            assert(p[i] == k[i]);
        }
    }
    let hk = HistoryView { timeline: k, dirty: true, ..h };
    assert(hk.wf());
    if doc != h.current().0 {
        let st = HistoryView { timeline: p, curr: h.curr + 1, dirty: false, ..h };
        assert(p.len() == h.curr + 2);
        assert(0 < st.timeline.len());
        assert(st.curr < st.timeline.len());
        assert(forall|i: int| 0 <= i < st.timeline.len() ==> #[trigger] st.timeline[i].1 <= st.timeline[i].0.len() <= usize::MAX);
        assert(st.wf());
        assert(h.stash(doc, cs) == st);
    }
}

} // verus!
