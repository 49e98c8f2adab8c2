//! The editor session core: a schema, a tree store, and the history
//! timeline, driven by commands through transactions. A command either
//! commits as a whole — advancing the version, recording a history
//! entry and clearing the redo branch — or leaves every part of the
//! session untouched.

use vstd::prelude::*;
use crate::commands::{EditCommand, footnote_meta, footnote_name, inserted_doc};
use crate::errors::{EditError, failed_with};
use crate::history::{EntryView, HistView, HistoryEntryWithMeta, HistoryManager, hist_wf,
    record_t, redo_t, undo_t};
use crate::model::{Attr, AttrView, NodeView, attrs_view, strs_view};
use crate::schema::{Schema, construct_node, filled_attrs, find_desc, lemma_find_desc_found,
    mark_types_view, node_types_view};
use crate::subtree::subtree_ids;
use crate::transaction::Transaction;
use crate::tree::{TreeStore, with_mark};
use crate::treeview::{GcxmTreeItem, edges_match, from_nodes, ids_distinct, item_view};

verus! {

/// The request payload a project is created from: its display name and
/// its id.
pub struct GcxmPost {
    pub name: String,
    pub id: Option<String>,
}

/// The attributes a project is created with: its name.
pub open spec fn gcxm_post_attrs(p: &GcxmPost) -> Seq<AttrView> {
    seq![(AttrView { key: "name"@, value: p.name@ })]
}

impl GcxmPost {
    /// The creation attributes as an attribute list.
    pub fn to_attr_map(&self) -> (r: Vec<Attr>)
        ensures
            attrs_view(r@) == gcxm_post_attrs(self),
    {
        let mut attr: Vec<Attr> = Vec::new();
        attr.push(Attr { key: String::from_str("name"), value: self.name.clone() });
        proof {
            assert(attrs_view(attr@) =~= gcxm_post_attrs(self));
        }
        attr
    }
}

/// A recorded entry's timestamp leaves room for a day's offset.
pub open spec fn entry_bounded(e: EntryView) -> bool {
    e.timestamp < u64::MAX - 86400
}

/// All timestamps in the timeline leave room for a day's offset.
pub open spec fn entries_bounded(h: HistView) -> bool {
    &&& entry_bounded(h.present)
    &&& forall|i: int| 0 <= i < h.past.len() ==> entry_bounded(#[trigger] h.past[i])
    &&& forall|i: int| 0 <= i < h.future.len() ==> entry_bounded(#[trigger] h.future[i])
}

/// What a session is created from: the schema and the history bound.
pub struct DemoEditorOptions {
    pub schema: Schema,
    pub history_limit: usize,
}

/// An editor session: the single owner of its tree store.
pub struct DemoEditor {
    pub schema: Schema,
    pub store: TreeStore,
    pub history: HistoryManager,
    pub version: u64,
}

impl DemoEditor {
    /// The session invariant: schema and store well formed, every
    /// snapshot in the timeline well formed and bounded, and the
    /// present entry's snapshot is the live store.
    pub open spec fn wf(&self) -> bool {
        &&& self.schema.wf()
        &&& self.store.wf()
        &&& hist_wf(self.history@)
        &&& entries_bounded(self.history@)
        &&& self.history@.present.doc == self.store.doc_view()
    }

    /// Create a session seeded with a root node of the schema's top
    /// type, built from the creation payload.
    pub fn create(options: DemoEditorOptions, post: &GcxmPost, now_secs: u64) -> (r: DemoEditor)
        requires
            options.schema.wf(),
            post.id is Some,
            now_secs < u64::MAX - 86400,
        ensures
            r.wf(),
            r.schema == options.schema,
            r.version == 1,
            r.store.root() == (post.id->0)@,
            r.store.pm() =~= (Map::<Seq<char>, Seq<char>>::empty()),
            r.store.ids() =~= seq![(post.id->0)@],
            r.store.nodes_model() =~= Map::empty().insert(
                (post.id->0)@,
                (NodeView {
                    id: (post.id->0)@,
                    node_type: find_desc(
                        node_types_view(&options.schema),
                        options.schema.top_type@,
                    )->0.name,
                    attrs: filled_attrs(
                        find_desc(
                            node_types_view(&options.schema),
                            options.schema.top_type@,
                        )->0.attrs,
                        gcxm_post_attrs(post),
                    ),
                    marks: Seq::empty(),
                }),
            ),
            r.history@.past.len() == 0,
            r.history@.future.len() == 0,
            r.history@.limit == options.history_limit as int,
    {
        let id = match &post.id {
            Some(s) => s.clone(),
            None => String::new(),
        };
        let attrs = post.to_attr_map();
        let top = options.schema.top_type.clone();
        let desc = options.schema.resolve_type(&top).unwrap();
        proof {
            lemma_find_desc_found(node_types_view(&options.schema), options.schema.top_type@);
            let dv = find_desc(node_types_view(&options.schema), options.schema.top_type@)->0;
            let i = choose|i: int|
                0 <= i < node_types_view(&options.schema).len() && node_types_view(
                    &options.schema,
                )[i] == dv;
            assert(crate::schema::desc_wf(dv));
        }
        let root = construct_node(desc, id, &attrs);
        proof {
            assert(root@.marks =~= Seq::<crate::model::MarkView>::empty());
        }
        let store = TreeStore::new(root);
        let snapshot = store.snapshot();
        let entry = HistoryEntryWithMeta {
            state_version: 1,
            description: String::new(),
            meta: Vec::new(),
            timestamp_secs: now_secs,
            snapshot,
        };
        let history = HistoryManager::new(entry, options.history_limit);
        DemoEditor { schema: options.schema, store, history, version: 1 }
    }

    /// The document.
    pub fn doc(&self) -> (r: &TreeStore)
        ensures
            r == &self.store,
    {
        &self.store
    }

    /// The history manager.
    pub fn get_history_manager(&self) -> (r: &HistoryManager)
        ensures
            r == &self.history,
    {
        &self.history
    }

    /// Dispatch one command through the session's transaction pipeline.
    /// On success the whole mutation commits, the version advances and
    /// a history entry is recorded (clearing any redo branch); on
    /// failure the store, the history and the version are untouched.
    pub fn command_with_meta(
        &mut self,
        cmd: &EditCommand,
        description: String,
        meta: Vec<Attr>,
        now_secs: u64,
    ) -> (r: Result<(), EditError>)
        requires
            old(self).wf(),
            old(self).version < u64::MAX,
            now_secs < u64::MAX - 86400,
        ensures
            final(self).wf(),
            final(self).schema == old(self).schema,
            r is Err ==> {
                &&& TreeStore::same_doc(final(self).store, old(self).store)
                &&& final(self).history@ == old(self).history@
                &&& final(self).version == old(self).version
            },
            r is Ok ==> {
                &&& final(self).version == old(self).version + 1
                &&& final(self).history@ == record_t(
                    old(self).history@,
                    (EntryView {
                        version: (old(self).version + 1) as u64,
                        template: description@,
                        meta: attrs_view(meta@),
                        timestamp: now_secs,
                        doc: final(self).store.doc_view(),
                    }),
                )
                &&& final(self).history@.future.len() == 0
            },
            match cmd {
                EditCommand::Insert(c) => {
                    &&& (failed_with(r, EditError::TargetNotFound) <==> !old(
                        self,
                    ).store.nodes_model().dom().contains(c.parent_id@))
                    &&& (failed_with(r, EditError::UnknownType) <==> (old(
                        self,
                    ).store.nodes_model().dom().contains(c.parent_id@) && find_desc(
                        node_types_view(&old(self).schema),
                        c.node_type@,
                    ) is None))
                    &&& (c.id matches Some(s) ==> (r is Ok <==> (old(
                        self,
                    ).store.nodes_model().dom().contains(c.parent_id@) && find_desc(
                        node_types_view(&old(self).schema),
                        c.node_type@,
                    ) is Some && !old(self).store.nodes_model().dom().contains(s@))))
                    &&& ((c.id is None && old(self).store.nodes_model().dom().contains(
                        c.parent_id@,
                    ) && find_desc(node_types_view(&old(self).schema), c.node_type@) is Some
                        && old(self).store.next_id + old(
                        self,
                    ).store.nodes_model().dom().len() < u64::MAX) ==> r is Ok)
                    &&& (r is Ok ==> exists|nid: Seq<char>|
                        {
                            &&& (c.id is Some ==> nid == (c.id->0)@)
                            &&& #[trigger] inserted_doc(
                                old(self).store,
                                final(self).store,
                                find_desc(node_types_view(&old(self).schema), c.node_type@)->0,
                                attrs_view(c.other@),
                                c.parent_id@,
                                nid,
                            )
                        })
                },
                EditCommand::Delete(c) => {
                    &&& (failed_with(r, EditError::TargetNotFound) <==> !old(
                        self,
                    ).store.nodes_model().dom().contains(c.id@))
                    &&& (failed_with(r, EditError::CannotDeleteRoot) <==> (old(
                        self,
                    ).store.nodes_model().dom().contains(c.id@) && c.id@ == old(
                        self,
                    ).store.root()))
                    &&& (r is Ok <==> (old(self).store.nodes_model().dom().contains(c.id@)
                        && c.id@ != old(self).store.root()))
                    &&& (r is Ok ==> {
                        &&& final(self).store.nodes_model() == old(
                            self,
                        ).store.nodes_model().remove_keys(subtree_ids(old(self).store, c.id@))
                        &&& final(self).store.pm() == old(self).store.pm().remove_keys(
                            subtree_ids(old(self).store, c.id@),
                        )
                        &&& final(self).store.ids().to_set() == old(
                            self,
                        ).store.ids().to_set().difference(subtree_ids(old(self).store, c.id@))
                        &&& final(self).store.root() == old(self).store.root()
                        &&& subtree_ids(old(self).store, c.id@).contains(c.id@)
                        &&& subtree_ids(old(self).store, c.id@).subset_of(
                            old(self).store.nodes_model().dom(),
                        )
                    })
                },
                EditCommand::Footnote(c) => {
                    &&& (failed_with(r, EditError::UnknownMark) <==> find_desc(
                        mark_types_view(&old(self).schema),
                        footnote_name(),
                    ) is None)
                    &&& (failed_with(r, EditError::TargetNotFound) <==> (find_desc(
                        mark_types_view(&old(self).schema),
                        footnote_name(),
                    ) is Some && !old(self).store.nodes_model().dom().contains(c.id@)))
                    &&& (r is Ok <==> (find_desc(
                        mark_types_view(&old(self).schema),
                        footnote_name(),
                    ) is Some && old(self).store.nodes_model().dom().contains(c.id@)))
                    &&& (r is Ok ==> {
                        &&& final(self).store.nodes_model() == old(
                            self,
                        ).store.nodes_model().insert(
                            c.id@,
                            with_mark(
                                old(self).store.nodes_model()[c.id@],
                                (crate::model::MarkView {
                                    name: footnote_name(),
                                    attrs: filled_attrs(
                                        (find_desc(
                                            mark_types_view(&old(self).schema),
                                            footnote_name(),
                                        )->0).attrs,
                                        footnote_meta(c.footnote@),
                                    ),
                                }),
                            ),
                        )
                        &&& final(self).store.pm() == old(self).store.pm()
                        &&& final(self).store.ids() == old(self).store.ids()
                        &&& final(self).store.root() == old(self).store.root()
                    })
                },
            },
    {
        let mut tr = Transaction { schema: &self.schema, store: self.store.snapshot() };
        let ghost trs0 = tr.store;
        let r = match cmd {
            EditCommand::Insert(c) => c.execute(&mut tr),
            EditCommand::Delete(c) => c.execute(&mut tr),
            EditCommand::Footnote(c) => c.execute(&mut tr),
        };
        let ghost trs1 = tr.store;
        match r {
            Ok(()) => {
                proof {
                    if let EditCommand::Insert(c) = cmd {
                        let dv = find_desc(node_types_view(&old(self).schema), c.node_type@)->0;
                        let nid = choose|nid: Seq<char>|
                            {
                                &&& (c.id is Some ==> nid == (c.id->0)@)
                                &&& #[trigger] inserted_doc(
                                    trs0,
                                    trs1,
                                    dv,
                                    attrs_view(c.other@),
                                    c.parent_id@,
                                    nid,
                                )
                            };
                        assert(inserted_doc(
                            old(self).store,
                            trs1,
                            dv,
                            attrs_view(c.other@),
                            c.parent_id@,
                            nid,
                        ));
                    }
                }
                self.store = tr.store;
                self.version = self.version + 1;
                let snapshot = self.store.snapshot();
                let entry = HistoryEntryWithMeta {
                    state_version: self.version,
                    description,
                    meta,
                    timestamp_secs: now_secs,
                    snapshot,
                };
                self.history.record(entry);
                Ok(())
            },
            Err(e) => Err(e),
        }
    }

    /// Undo one step: the present moves to the head of the future, the
    /// most recent past entry becomes the present, and the store is
    /// reverted to that entry's snapshot. Without a past, nothing
    /// moves.
    pub fn undo(&mut self) -> (did: bool)
        requires
            old(self).wf(),
        ensures
            final(self).wf(),
            final(self).schema == old(self).schema,
            final(self).version == old(self).version,
            final(self).history@ == undo_t(old(self).history@),
            did == (old(self).history@.past.len() > 0),
            did ==> final(self).store.doc_view() == old(self).history@.past.last().doc,
            !did ==> TreeStore::same_doc(final(self).store, old(self).store),
    {
        let ghost h0 = self.history@;
        let did = self.history.undo();
        if did {
            let snap = self.history.present.snapshot.snapshot();
            self.store = snap;
            proof {
                assert(self.store.doc_view() == h0.past.last().doc);
                assert(entries_bounded(self.history@)) by {
                    let h1 = undo_t(h0);
                    assert forall|i: int| 0 <= i < h1.future.len() implies entry_bounded(
                        #[trigger] h1.future[i],
                    ) by {
                        if i > 0 {
                            assert(h1.future[i] == h0.future[i - 1]);
                        }
                    }
                    assert forall|i: int| 0 <= i < h1.past.len() implies entry_bounded(
                        #[trigger] h1.past[i],
                    ) by {
                        assert(h1.past[i] == h0.past[i]);
                    }
                }
            }
        }
        did
    }

    /// Redo one step: the mirror image of undo.
    pub fn redo(&mut self) -> (did: bool)
        requires
            old(self).wf(),
        ensures
            final(self).wf(),
            final(self).schema == old(self).schema,
            final(self).version == old(self).version,
            final(self).history@ == redo_t(old(self).history@),
            did == (old(self).history@.future.len() > 0),
            did ==> final(self).store.doc_view() == old(self).history@.future.first().doc,
            !did ==> TreeStore::same_doc(final(self).store, old(self).store),
    {
        let ghost h0 = self.history@;
        let did = self.history.redo();
        if did {
            let snap = self.history.present.snapshot.snapshot();
            self.store = snap;
            proof {
                assert(self.store.doc_view() == h0.future.first().doc);
                assert(entries_bounded(self.history@)) by {
                    let h1 = redo_t(h0);
                    assert forall|i: int| 0 <= i < h1.past.len() implies entry_bounded(
                        #[trigger] h1.past[i],
                    ) by {
                        if i < h0.past.len() {
                            assert(h1.past[i] == h0.past[i]);
                        }
                    }
                    assert forall|i: int| 0 <= i < h1.future.len() implies entry_bounded(
                        #[trigger] h1.future[i],
                    ) by {
                        assert(h1.future[i] == h0.future[i + 1]);
                    }
                }
            }
        }
        did
    }
}

/// The nodes a query hands out are exactly the store's nodes of the
/// filtered types, with distinct ids.
pub proof fn lemma_query_props(
    ids: Seq<Seq<char>>,
    m: Map<Seq<char>, NodeView>,
    filt: Set<Seq<char>>,
)
    requires
        ids.no_duplicates(),
        forall|j: int| 0 <= j < ids.len() ==> m.dom().contains(#[trigger] ids[j]),
        forall|k: Seq<char>| #[trigger] m.dom().contains(k) ==> m[k].id == k,
    ensures
        forall|a: int|
            0 <= a < crate::tree::query_spec(ids, m, filt).len() ==> {
                &&& m.dom().contains((#[trigger] crate::tree::query_spec(ids, m, filt)[a]).id)
                &&& crate::tree::query_spec(ids, m, filt)[a] == m[crate::tree::query_spec(
                    ids,
                    m,
                    filt,
                )[a].id]
                &&& ids.contains(crate::tree::query_spec(ids, m, filt)[a].id)
            },
        ids_distinct(crate::tree::query_spec(ids, m, filt)),
    decreases ids.len(),
{
    let q = crate::tree::query_spec(ids, m, filt);
    if ids.len() > 0 {
        let dl = ids.drop_last();
        assert(dl.no_duplicates());
        lemma_query_props(dl, m, filt);
        let qp = crate::tree::query_spec(dl, m, filt);
        let last = ids.last();
        assert(m.dom().contains(last)) by {
            assert(ids[ids.len() - 1] == last);
        }
        assert forall|a: int|
            0 <= a < q.len() implies {
            &&& m.dom().contains((#[trigger] q[a]).id)
            &&& q[a] == m[q[a].id]
            &&& ids.contains(q[a].id)
        } by {
            if a < qp.len() {
                assert(q[a] == qp[a]);
                let i = choose|i: int| 0 <= i < dl.len() && dl[i] == qp[a].id;
                assert(ids[i] == qp[a].id);
            } else {
                assert(q[a] == m[last]);
                assert(ids[ids.len() - 1] == last);
            }
        }
        assert forall|a: int, b: int| 0 <= a < b < q.len() implies q[a].id != q[b].id by {
            if b >= qp.len() {
                assert(q[b] == m[last]);
                assert(q[a] == qp[a]);
                assert(dl.contains(qp[a].id));
                if qp[a].id == last {
                    let i = choose|i: int| 0 <= i < dl.len() && dl[i] == last;
                    assert(ids[i] == ids[ids.len() - 1]);
                }
            } else {
                assert(q[a] == qp[a] && q[b] == qp[b]);
            }
        }
    }
}

impl DemoEditor {
    /// The reconstructed display tree of the nodes whose type is one of
    /// the given names, rooted at the session's document root.
    pub fn get_gcxm_tree(&self, filter: &Vec<String>) -> (r: Option<GcxmTreeItem>)
        requires
            self.wf(),
        ensures
            r is Some <==> exists|i: int|
                0 <= i < crate::tree::query_spec(
                    self.store.ids(),
                    self.store.nodes_model(),
                    strs_view(filter@).to_set(),
                ).len() && (#[trigger] crate::tree::query_spec(
                    self.store.ids(),
                    self.store.nodes_model(),
                    strs_view(filter@).to_set(),
                )[i]).id == self.store.root(),
            match r {
                Some(t) => {
                    &&& item_view(t).id == self.store.root()
                    &&& edges_match(item_view(t), self.store.pm())
                    &&& crate::treeview::payloads_match(
                        item_view(t),
                        crate::treeview::cands_map(
                            crate::tree::query_spec(
                                self.store.ids(),
                                self.store.nodes_model(),
                                strs_view(filter@).to_set(),
                            ),
                        ),
                    )
                    &&& crate::treeview::item_count(item_view(t)) <= crate::tree::query_spec(
                        self.store.ids(),
                        self.store.nodes_model(),
                        strs_view(filter@).to_set(),
                    ).len()
                    &&& crate::treeview::rooted(
                        crate::tree::query_spec(
                            self.store.ids(),
                            self.store.nodes_model(),
                            strs_view(filter@).to_set(),
                        ),
                        self.store.pm(),
                        self.store.root(),
                    ) ==> crate::treeview::item_count(item_view(t)) == crate::tree::query_spec(
                        self.store.ids(),
                        self.store.nodes_model(),
                        strs_view(filter@).to_set(),
                    ).len()
                },
                None => true,
            },
    {
        let nodes = self.store.query_nodes(filter);
        proof {
            assert forall|j: int|
                0 <= j < self.store.ids().len() implies self.store.nodes_model().dom().contains(
                #[trigger] self.store.ids()[j],
            ) by {
                assert(self.store.ids().contains(self.store.ids()[j]));
                assert(self.store.ids().to_set().contains(self.store.ids()[j]));
            }
            lemma_query_props(
                self.store.ids(),
                self.store.nodes_model(),
                strs_view(filter@).to_set(),
            );
        }
        from_nodes(self.store.root_id.clone(), nodes, &self.store.parent_map)
    }
}

} // verus!
