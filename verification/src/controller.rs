//! Read-side controller logic: turning the recorded history into
//! displayable entries. Each description is rendered at query time
//! from its template and the metadata snapshot captured when the entry
//! was recorded; each timestamp is formatted in the machine's local
//! time zone.

use vstd::prelude::*;
use crate::editor::{DemoEditor, entry_bounded};
use crate::history::{EntryView, HistoryEntryWithMeta};
use crate::render::{render, render_spec};
use crate::timefmt::{format_timestamp, local_offset_seconds, local_secs, timestamp_text};

verus! {

/// The request payload naming the session whose history is asked for.
pub struct GetHistoryVersionCammand {
    pub editor_name: String,
}

/// One displayable history entry: the state version, the rendered
/// description, the formatted timestamp, and whether it is the present
/// entry.
pub struct HistoryEntry {
    pub state_version: u64,
    pub description: String,
    pub timestamp: String,
    pub current: bool,
}

/// What a rendered entry holds of a recorded one: the same version,
/// the description rendered from template and metadata, and the
/// timestamp formatted under some local offset of less than a day.
pub open spec fn renders(e: EntryView, x: HistoryEntry) -> bool {
    &&& x.state_version == e.version
    &&& x.description@ == render_spec(e.template, e.meta)
    &&& !x.current
    &&& exists|off: int|
        -86400 < off < 86400 && x.timestamp@ == timestamp_text(
            #[trigger] local_secs(e.timestamp, off),
        )
}

/// Render one recorded entry for display.
pub fn render_history_entry(item: &HistoryEntryWithMeta) -> (r: HistoryEntry)
    requires
        entry_bounded(item@),
    ensures
        renders(item@, r),
{
    let off = local_offset_seconds(item.timestamp_secs);
    let description = render(&item.description, &item.meta);
    let timestamp = format_timestamp(item.timestamp_secs, off);
    let r = HistoryEntry {
        state_version: item.state_version,
        description,
        timestamp,
        current: false,
    };
    proof {
        let o = off as int;
        assert(-86400 < o < 86400 && r.timestamp@ == timestamp_text(
            local_secs(item@.timestamp, o),
        ));
    }
    r
}

/// The rendered history of a session: the past entries oldest first,
/// then the present, then the redo-available future entries.
pub fn get_history(editor: &DemoEditor) -> (r: Vec<HistoryEntry>)
    requires
        editor.wf(),
    ensures
        r@.len() == editor.history@.past.len() + 1 + editor.history@.future.len(),
        forall|i: int|
            0 <= i < editor.history@.past.len() ==> renders(
                editor.history@.past[i],
                #[trigger] r@[i],
            ),
        renders(editor.history@.present, r@[editor.history@.past.len() as int]),
        forall|i: int|
            0 <= i < editor.history@.future.len() ==> renders(
                editor.history@.future[i],
                #[trigger] r@[editor.history@.past.len() + 1 + i],
            ),
{
    let ghost h = editor.history@;
    let mut out: Vec<HistoryEntry> = Vec::new();
    let np = editor.history.past.len();
    for i in 0..np
        invariant
            h == editor.history@,
            editor.wf(),
            np == h.past.len(),
            out@.len() == i,
            forall|k: int| 0 <= k < i ==> renders(h.past[k], #[trigger] out@[k]),
    {
        proof {
            assert(h.past.len() == editor.history.past@.len());
            assert(editor.history.past@[i as int]@ == h.past[i as int]);
        }
        out.push(render_history_entry(&editor.history.past[i]));
    }
    out.push(render_history_entry(&editor.history.present));
    let nf = editor.history.future.len();
    for i in 0..nf
        invariant
            h == editor.history@,
            editor.wf(),
            np == h.past.len(),
            nf == h.future.len(),
            out@.len() == np + 1 + i,
            forall|k: int| 0 <= k < np ==> renders(h.past[k], #[trigger] out@[k]),
            renders(h.present, out@[np as int]),
            forall|k: int| 0 <= k < i ==> renders(h.future[k], #[trigger] out@[np + 1 + k]),
    {
        proof {
            assert(h.future.len() == editor.history.future@.len());
            assert(editor.history.future@[i as int]@ == h.future[i as int]);
        }
        out.push(render_history_entry(&editor.history.future[i]));
    }
    out
}

} // verus!
