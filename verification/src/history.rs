//! The history manager: append-only past/future stacks of applied
//! edits around a single present entry. An entry records the state
//! version, a description template with named placeholders, the
//! metadata snapshot the placeholders are filled from at read time, the
//! timestamp, and a structurally shared snapshot of the document after
//! the edit. Undo moves the present onto the future and pops the past;
//! redo is the mirror image; a fresh edit clears the future.

use vstd::prelude::*;
use crate::model::{Attr, AttrView, attrs_view, clone_attrs};
use crate::tree::{DocView, TreeStore, doc_wf};

verus! {

/// One recorded edit, with the metadata needed to render its
/// description later and the snapshot needed to revert to it.
pub struct HistoryEntryWithMeta {
    /// Monotonic state version counter.
    pub state_version: u64,
    /// Description template with `{{name}}` placeholders.
    pub description: String,
    /// Metadata snapshot used to fill the placeholders at read time.
    pub meta: Vec<Attr>,
    /// Seconds since the Unix epoch at which the edit was recorded.
    pub timestamp_secs: u64,
    /// The document after this edit.
    pub snapshot: TreeStore,
}

/// The view of a recorded entry.
pub ghost struct EntryView {
    pub version: u64,
    pub template: Seq<char>,
    pub meta: Seq<AttrView>,
    pub timestamp: u64,
    pub doc: DocView,
}

impl View for HistoryEntryWithMeta {
    type V = EntryView;

    open spec fn view(&self) -> EntryView {
        EntryView {
            version: self.state_version,
            template: self.description@,
            meta: attrs_view(self.meta@),
            timestamp: self.timestamp_secs,
            doc: self.snapshot.doc_view(),
        }
    }
}

/// The views of a list of entries.
pub open spec fn entries_view(s: Seq<HistoryEntryWithMeta>) -> Seq<EntryView> {
    s.map_values(|e: HistoryEntryWithMeta| e@)
}

/// Clone an entry, keeping its view.
pub fn clone_entry(e: &HistoryEntryWithMeta) -> (r: HistoryEntryWithMeta)
    ensures
        r@ == e@,
{
    HistoryEntryWithMeta {
        state_version: e.state_version,
        description: e.description.clone(),
        meta: clone_attrs(&e.meta),
        timestamp_secs: e.timestamp_secs,
        snapshot: e.snapshot.snapshot(),
    }
}

/// The view of the whole timeline.
pub ghost struct HistView {
    pub past: Seq<EntryView>,
    pub present: EntryView,
    pub future: Seq<EntryView>,
    pub limit: int,
}

/// The history timeline: past (oldest first), exactly one present, and
/// future (most recently undone first), with a bound on the past.
pub struct HistoryManager {
    pub past: Vec<HistoryEntryWithMeta>,
    pub present: HistoryEntryWithMeta,
    pub future: Vec<HistoryEntryWithMeta>,
    pub limit: usize,
}

impl View for HistoryManager {
    type V = HistView;

    open spec fn view(&self) -> HistView {
        HistView {
            past: entries_view(self.past@),
            present: self.present@,
            future: entries_view(self.future@),
            limit: self.limit as int,
        }
    }
}

/// Every snapshot in the timeline is a well-formed document.
pub open spec fn hist_wf(h: HistView) -> bool {
    &&& doc_wf(h.present.doc)
    &&& forall|i: int| 0 <= i < h.past.len() ==> doc_wf(#[trigger] h.past[i].doc)
    &&& forall|i: int| 0 <= i < h.future.len() ==> doc_wf(#[trigger] h.future[i].doc)
}

/// The timeline after recording a fresh edit: the present joins the
/// past (dropping the oldest entry past the bound), the new entry
/// becomes the present, and the future is cleared.
pub open spec fn record_t(h: HistView, e: EntryView) -> HistView {
    let grown = h.past.push(h.present);
    HistView {
        past: if grown.len() > h.limit {
            grown.drop_first()
        } else {
            grown
        },
        present: e,
        future: Seq::empty(),
        limit: h.limit,
    }
}

/// The timeline after one undo: the present moves to the head of the
/// future and the most recent past entry becomes the present. Without
/// a past, nothing moves.
pub open spec fn undo_t(h: HistView) -> HistView {
    if h.past.len() == 0 {
        h
    } else {
        HistView {
            past: h.past.drop_last(),
            present: h.past.last(),
            future: seq![h.present] + h.future,
            limit: h.limit,
        }
    }
}

/// The timeline after one redo: the mirror image of undo.
pub open spec fn redo_t(h: HistView) -> HistView {
    if h.future.len() == 0 {
        h
    } else {
        HistView {
            past: h.past.push(h.present),
            present: h.future.first(),
            future: h.future.drop_first(),
            limit: h.limit,
        }
    }
}

impl HistoryManager {
    /// A fresh timeline holding only the initial state.
    pub fn new(initial: HistoryEntryWithMeta, limit: usize) -> (r: HistoryManager)
        requires
            initial.snapshot.wf(),
        ensures
            r@.past.len() == 0,
            r@.future.len() == 0,
            r@.present == initial@,
            r@.limit == limit as int,
            hist_wf(r@),
    {
        let r = HistoryManager { past: Vec::new(), present: initial, future: Vec::new(), limit };
        proof {
            assert(entries_view(r.past@) =~= Seq::<EntryView>::empty());
            assert(entries_view(r.future@) =~= Seq::<EntryView>::empty());
        }
        r
    }

    /// Record a freshly committed edit.
    pub fn record(&mut self, e: HistoryEntryWithMeta)
        requires
            hist_wf(old(self)@),
            e.snapshot.wf(),
        ensures
            final(self)@ == record_t(old(self)@, e@),
            hist_wf(final(self)@),
    {
        let ghost h0 = self@;
        let ghost ev = e@;
        let prev = clone_entry(&self.present);
        self.past.push(prev);
        proof {
            assert(entries_view(self.past@) =~= h0.past.push(h0.present));
        }
        if self.past.len() > self.limit {
            let ghost grown = entries_view(self.past@);
            let _ = self.past.remove(0);
            proof {
                assert(entries_view(self.past@) =~= grown.drop_first());
            }
        }
        self.present = e;
        self.future = Vec::new();
        proof {
            assert(entries_view(self.future@) =~= Seq::<EntryView>::empty());
            assert(self@ == record_t(h0, ev));
            assert(hist_wf(self@)) by {
                let h1 = record_t(h0, ev);
                assert forall|i: int| 0 <= i < h1.past.len() implies doc_wf(
                    #[trigger] h1.past[i].doc,
                ) by {
                    let grown = h0.past.push(h0.present);
                    if grown.len() > h0.limit {
                        assert(h1.past[i] == grown[i + 1]);
                    } else {
                        assert(h1.past[i] == grown[i]);
                    }
                    assert(forall|q: int|
                        0 <= q < grown.len() ==> doc_wf(#[trigger] grown[q].doc));
                }
            }
        }
    }

    /// Undo one step. Returns whether anything moved.
    pub fn undo(&mut self) -> (did: bool)
        requires
            hist_wf(old(self)@),
        ensures
            final(self)@ == undo_t(old(self)@),
            did == (old(self)@.past.len() > 0),
            hist_wf(final(self)@),
    {
        let ghost h0 = self@;
        if self.past.len() == 0 {
            return false;
        }
        let cur = clone_entry(&self.present);
        self.future.insert(0, cur);
        let last = self.past.pop().unwrap();
        self.present = last;
        proof {
            assert(entries_view(self.future@) =~= seq![h0.present] + h0.future);
            assert(entries_view(self.past@) =~= h0.past.drop_last());
            assert(self.present@ == h0.past.last());
            assert(self@ == undo_t(h0));
            assert(hist_wf(self@)) by {
                let h1 = undo_t(h0);
                assert forall|i: int| 0 <= i < h1.future.len() implies doc_wf(
                    #[trigger] h1.future[i].doc,
                ) by {
                    if i > 0 {
                        assert(h1.future[i] == h0.future[i - 1]);
                    }
                }
                assert forall|i: int| 0 <= i < h1.past.len() implies doc_wf(
                    #[trigger] h1.past[i].doc,
                ) by {
                    assert(h1.past[i] == h0.past[i]);
                }
            }
        }
        true
    }

    /// Redo one step. Returns whether anything moved.
    pub fn redo(&mut self) -> (did: bool)
        requires
            hist_wf(old(self)@),
        ensures
            final(self)@ == redo_t(old(self)@),
            did == (old(self)@.future.len() > 0),
            hist_wf(final(self)@),
    {
        let ghost h0 = self@;
        if self.future.len() == 0 {
            return false;
        }
        let cur = clone_entry(&self.present);
        self.past.push(cur);
        let head = self.future.remove(0);
        self.present = head;
        proof {
            assert(entries_view(self.past@) =~= h0.past.push(h0.present));
            assert(entries_view(self.future@) =~= h0.future.drop_first());
            assert(self.present@ == h0.future.first());
            assert(self@ == redo_t(h0));
            assert(hist_wf(self@)) by {
                let h1 = redo_t(h0);
                assert forall|i: int| 0 <= i < h1.past.len() implies doc_wf(
                    #[trigger] h1.past[i].doc,
                ) by {
                    if i < h0.past.len() {
                        assert(h1.past[i] == h0.past[i]);
                    }
                }
                assert forall|i: int| 0 <= i < h1.future.len() implies doc_wf(
                    #[trigger] h1.future[i].doc,
                ) by {
                    assert(h1.future[i] == h0.future[i + 1]);
                }
            }
        }
        true
    }
}

} // verus!
