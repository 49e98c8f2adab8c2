//! The edit commands: typed, serializable edit intents. Each validates
//! its preconditions against the tree store and the schema registry and
//! applies itself to a transaction; a failed command leaves the
//! transaction's document untouched.

use vstd::prelude::*;
use crate::errors::{EditError, failed_with};
use crate::model::{Attr, AttrView, NodeView, attrs_view};
use crate::schema::{DescView, filled_attrs, find_desc, lemma_find_desc_found, mark_types_view,
    node_types_view, construct_node, create_mark, desc_wf};
use crate::subtree::subtree_ids;
use crate::transaction::Transaction;
use crate::tree::{TreeStore, with_mark};

verus! {

/// The shared payload of an insert: where, optionally which id, what
/// type, and which attributes.
pub struct ShareCommandData<'a> {
    pub editor_name: &'a str,
    pub parent_id: &'a str,
    pub id: &'a Option<String>,
    pub node_type: &'a str,
    pub attrs: &'a Vec<Attr>,
}

/// The shared payload of a delete: which node.
pub struct DeleteNodeCammand<'a> {
    pub editor_name: &'a str,
    pub id: &'a String,
}

/// The document after inserting a freshly constructed node of
/// descriptor `d` with id `nid` under `parent`.
pub open spec fn inserted_doc(
    s0: TreeStore,
    s1: TreeStore,
    d: DescView,
    provided: Seq<AttrView>,
    parent: Seq<char>,
    nid: Seq<char>,
) -> bool {
    &&& !s0.nodes_model().dom().contains(nid)
    &&& s1.nodes_model() == s0.nodes_model().insert(
        nid,
        NodeView {
            id: nid,
            node_type: d.name,
            attrs: filled_attrs(d.attrs, provided),
            marks: Seq::empty(),
        },
    )
    &&& s1.pm() == s0.pm().insert(nid, parent)
    &&& s1.ids() == s0.ids().push(nid)
    &&& s1.root() == s0.root()
}

/// Validate and perform an insert against the transaction: the parent
/// must resolve in the store and the type in the schema; the node is
/// constructed schema-validated (its id generated if absent) and
/// appended as the last child of the parent.
pub fn share_add_node(tr: &mut Transaction, data: &ShareCommandData) -> (r: Result<
    (),
    EditError,
>)
    requires
        old(tr).store.wf(),
        old(tr).schema.wf(),
    ensures
        final(tr).schema == old(tr).schema,
        final(tr).store.wf(),
        r is Err ==> TreeStore::same_doc(final(tr).store, old(tr).store),
        failed_with(r, EditError::TargetNotFound) <==> !old(
            tr,
        ).store.nodes_model().dom().contains(data.parent_id@),
        failed_with(r, EditError::UnknownType) <==> (old(tr).store.nodes_model().dom().contains(
            data.parent_id@,
        ) && find_desc(node_types_view(old(tr).schema), data.node_type@) is None),
        failed_with(r, EditError::SchemaValidationFailed) ==> (old(
            tr,
        ).store.nodes_model().dom().contains(data.parent_id@) && find_desc(
            node_types_view(old(tr).schema),
            data.node_type@,
        ) is Some),
        r is Ok ==> {
            &&& old(tr).store.nodes_model().dom().contains(data.parent_id@)
            &&& find_desc(node_types_view(old(tr).schema), data.node_type@) is Some
            &&& exists|nid: Seq<char>|
                {
                    &&& (data.id is Some ==> nid == (data.id->0)@)
                    &&& #[trigger] inserted_doc(
                        old(tr).store,
                        final(tr).store,
                        find_desc(node_types_view(old(tr).schema), data.node_type@)->0,
                        attrs_view(data.attrs@),
                        data.parent_id@,
                        nid,
                    )
                }
        },
        data.id matches Some(s) ==> (r is Ok <==> (old(tr).store.nodes_model().dom().contains(
            data.parent_id@,
        ) && find_desc(node_types_view(old(tr).schema), data.node_type@) is Some && !old(
            tr,
        ).store.nodes_model().dom().contains(s@))),
        (data.id is None && old(tr).store.nodes_model().dom().contains(data.parent_id@)
            && find_desc(node_types_view(old(tr).schema), data.node_type@) is Some && old(
            tr,
        ).store.next_id + old(tr).store.nodes_model().dom().len() < u64::MAX) ==> r is Ok,
{
    let parent_id = String::from_str(data.parent_id);
    if tr.doc().get_node(&parent_id).is_none() {
        return Err(EditError::TargetNotFound);
    }
    let tname = String::from_str(data.node_type);
    let desc = match tr.schema.resolve_type(&tname) {
        None => {
            return Err(EditError::UnknownType);
        },
        Some(d) => d,
    };
    let ghost dv = desc@;
    proof {
        lemma_find_desc_found(node_types_view(tr.schema), data.node_type@);
    }
    let id = match data.id {
        Some(s) => s.clone(),
        None => {
            match tr.store.generate_id() {
                Ok(id) => id,
                Err(e) => {
                    return Err(e);
                },
            }
        },
    };
    if tr.doc().get_node(&id).is_some() {
        return Err(EditError::SchemaValidationFailed);
    }
    let node = construct_node(desc, id, data.attrs);
    let ghost nv = node@;
    proof {
        let i = choose|i: int|
            0 <= i < node_types_view(tr.schema).len() && node_types_view(tr.schema)[i] == dv;
        assert(desc_wf(dv));
        assert(crate::model::node_wf(nv));
        assert(nv == (NodeView {
            id: nv.id,
            node_type: dv.name,
            attrs: filled_attrs(dv.attrs, attrs_view(data.attrs@)),
            marks: Seq::empty(),
        })) by {
            assert(nv.marks =~= Seq::<crate::model::MarkView>::empty());
        }
    }
    let r = tr.add_node(&parent_id, node);
    proof {
        if r is Ok {
            assert(inserted_doc(
                old(tr).store,
                tr.store,
                dv,
                attrs_view(data.attrs@),
                data.parent_id@,
                nv.id,
            ));
        }
    }
    r
}

/// The mark name used for footnotes.
pub open spec fn footnote_name() -> Seq<char> {
    "footnote"@
}

/// The metadata a footnote mark is created from: one `value` attribute.
pub open spec fn footnote_meta(v: Seq<char>) -> Seq<AttrView> {
    seq![(AttrView { key: "value"@, value: v })]
}

/// Validate and perform a cascading delete against the transaction:
/// the node must resolve and must not be the document root.
pub fn share_delete_node(tr: &mut Transaction, data: &DeleteNodeCammand) -> (r: Result<
    (),
    EditError,
>)
    requires
        old(tr).store.wf(),
    ensures
        final(tr).schema == old(tr).schema,
        final(tr).store.wf(),
        r is Err ==> TreeStore::same_doc(final(tr).store, old(tr).store),
        failed_with(r, EditError::TargetNotFound) <==> !old(
            tr,
        ).store.nodes_model().dom().contains(data.id@),
        failed_with(r, EditError::CannotDeleteRoot) <==> (old(
            tr,
        ).store.nodes_model().dom().contains(data.id@) && data.id@ == old(tr).store.root()),
        r is Ok <==> (old(tr).store.nodes_model().dom().contains(data.id@) && data.id@ != old(
            tr,
        ).store.root()),
        r is Ok ==> {
            &&& final(tr).store.nodes_model() == old(tr).store.nodes_model().remove_keys(
                subtree_ids(old(tr).store, data.id@),
            )
            &&& final(tr).store.pm() == old(tr).store.pm().remove_keys(
                subtree_ids(old(tr).store, data.id@),
            )
            &&& final(tr).store.ids().to_set() == old(tr).store.ids().to_set().difference(
                subtree_ids(old(tr).store, data.id@),
            )
            &&& final(tr).store.root() == old(tr).store.root()
            &&& subtree_ids(old(tr).store, data.id@).contains(data.id@)
            &&& subtree_ids(old(tr).store, data.id@).subset_of(
                old(tr).store.nodes_model().dom(),
            )
        },
{
    if tr.doc().get_node(data.id).is_none() {
        return Err(EditError::TargetNotFound);
    }
    let parent = match tr.doc().get_parent(data.id) {
        None => {
            proof {
                assert(tr.store.pm().dom() == tr.store.nodes_model().dom().remove(
                    tr.store.root(),
                ));
                assert(data.id@ == tr.store.root());
            }
            return Err(EditError::CannotDeleteRoot);
        },
        Some(p) => p,
    };
    proof {
        assert(data.id@ != tr.store.root()) by {
            assert(tr.store.pm().dom().contains(data.id@));
        }
    }
    tr.remove_node(&parent, data.id)
}

/// The insert command: append a schema-validated child node under an
/// existing parent.
pub struct InsertChildCammand {
    pub editor_name: String,
    pub parent_id: String,
    pub id: Option<String>,
    pub node_type: String,
    pub other: Vec<Attr>,
}

impl InsertChildCammand {
    /// The stable command identifier.
    pub fn name(&self) -> (r: String)
        ensures
            r@ == "insert_gcxm_child"@,
    {
        String::from_str("insert_gcxm_child")
    }

    /// Validate and apply this insert to the transaction.
    pub fn execute(&self, tr: &mut Transaction) -> (r: Result<(), EditError>)
        requires
            old(tr).store.wf(),
            old(tr).schema.wf(),
        ensures
            final(tr).schema == old(tr).schema,
            final(tr).store.wf(),
            r is Err ==> TreeStore::same_doc(final(tr).store, old(tr).store),
            failed_with(r, EditError::TargetNotFound) <==> !old(
                tr,
            ).store.nodes_model().dom().contains(self.parent_id@),
            failed_with(r, EditError::UnknownType) <==> (old(
                tr,
            ).store.nodes_model().dom().contains(self.parent_id@) && find_desc(
                node_types_view(old(tr).schema),
                self.node_type@,
            ) is None),
            r is Ok ==> exists|nid: Seq<char>|
                {
                    &&& (self.id is Some ==> nid == (self.id->0)@)
                    &&& #[trigger] inserted_doc(
                        old(tr).store,
                        final(tr).store,
                        find_desc(node_types_view(old(tr).schema), self.node_type@)->0,
                        attrs_view(self.other@),
                        self.parent_id@,
                        nid,
                    )
                },
            self.id matches Some(s) ==> (r is Ok <==> (old(tr).store.nodes_model().dom().contains(
                self.parent_id@,
            ) && find_desc(node_types_view(old(tr).schema), self.node_type@) is Some && !old(
                tr,
            ).store.nodes_model().dom().contains(s@))),
            (self.id is None && old(tr).store.nodes_model().dom().contains(self.parent_id@)
                && find_desc(node_types_view(old(tr).schema), self.node_type@) is Some && old(
                tr,
            ).store.next_id + old(tr).store.nodes_model().dom().len() < u64::MAX) ==> r is Ok,
    {
        share_add_node(
            tr,
            &(ShareCommandData {
                editor_name: self.editor_name.as_str(),
                parent_id: self.parent_id.as_str(),
                id: &self.id,
                node_type: self.node_type.as_str(),
                attrs: &self.other,
            }),
        )
    }
}

/// The delete command: remove a non-root node and all its descendants.
pub struct DeleteGcxmCammand {
    pub editor_name: String,
    pub id: String,
}

impl DeleteGcxmCammand {
    /// The stable command identifier.
    pub fn name(&self) -> (r: String)
        ensures
            r@ == "delete_gcxm"@,
    {
        String::from_str("delete_gcxm")
    }

    /// Validate and apply this delete to the transaction.
    pub fn execute(&self, tr: &mut Transaction) -> (r: Result<(), EditError>)
        requires
            old(tr).store.wf(),
        ensures
            final(tr).schema == old(tr).schema,
            final(tr).store.wf(),
            r is Err ==> TreeStore::same_doc(final(tr).store, old(tr).store),
            failed_with(r, EditError::TargetNotFound) <==> !old(
                tr,
            ).store.nodes_model().dom().contains(self.id@),
            failed_with(r, EditError::CannotDeleteRoot) <==> (old(
                tr,
            ).store.nodes_model().dom().contains(self.id@) && self.id@ == old(tr).store.root()),
            r is Ok <==> (old(tr).store.nodes_model().dom().contains(self.id@) && self.id@ != old(
                tr,
            ).store.root()),
            r is Ok ==> {
                &&& final(tr).store.nodes_model() == old(tr).store.nodes_model().remove_keys(
                    subtree_ids(old(tr).store, self.id@),
                )
                &&& final(tr).store.pm() == old(tr).store.pm().remove_keys(
                    subtree_ids(old(tr).store, self.id@),
                )
                &&& final(tr).store.ids().to_set() == old(tr).store.ids().to_set().difference(
                    subtree_ids(old(tr).store, self.id@),
                )
                &&& final(tr).store.root() == old(tr).store.root()
                &&& subtree_ids(old(tr).store, self.id@).contains(self.id@)
                &&& subtree_ids(old(tr).store, self.id@).subset_of(
                    old(tr).store.nodes_model().dom(),
                )
            },
    {
        share_delete_node(
            tr,
            &(DeleteNodeCammand { editor_name: self.editor_name.as_str(), id: &self.id }),
        )
    }
}

/// The mark command: attach a footnote mark to a node, replacing any
/// existing footnote on it.
pub struct AddFootNoteCammand {
    pub editor_name: String,
    pub id: String,
    pub footnote: String,
}

impl AddFootNoteCammand {
    /// The stable command identifier.
    pub fn name(&self) -> (r: String)
        ensures
            r@ == "add_gcxm_footnote"@,
    {
        String::from_str("add_gcxm_footnote")
    }

    /// Validate and apply this mark attachment to the transaction.
    pub fn execute(&self, tr: &mut Transaction) -> (r: Result<(), EditError>)
        requires
            old(tr).store.wf(),
            old(tr).schema.wf(),
        ensures
            final(tr).schema == old(tr).schema,
            final(tr).store.wf(),
            r is Err ==> TreeStore::same_doc(final(tr).store, old(tr).store),
            failed_with(r, EditError::UnknownMark) <==> find_desc(
                mark_types_view(old(tr).schema),
                footnote_name(),
            ) is None,
            failed_with(r, EditError::TargetNotFound) <==> (find_desc(
                mark_types_view(old(tr).schema),
                footnote_name(),
            ) is Some && !old(tr).store.nodes_model().dom().contains(self.id@)),
            r is Ok <==> (find_desc(mark_types_view(old(tr).schema), footnote_name()) is Some
                && old(tr).store.nodes_model().dom().contains(self.id@)),
            r is Ok ==> {
                &&& final(tr).store.nodes_model() == old(tr).store.nodes_model().insert(
                    self.id@,
                    with_mark(
                        old(tr).store.nodes_model()[self.id@],
                        (crate::model::MarkView {
                            name: footnote_name(),
                            attrs: filled_attrs(
                                (find_desc(mark_types_view(old(tr).schema), footnote_name())->0).attrs,
                                footnote_meta(self.footnote@),
                            ),
                        }),
                    ),
                )
                &&& final(tr).store.pm() == old(tr).store.pm()
                &&& final(tr).store.ids() == old(tr).store.ids()
                &&& final(tr).store.root() == old(tr).store.root()
            },
    {
        proof {
            reveal_strlit("footnote");
        }
        let mname = String::from_str("footnote");
        let desc = match tr.schema.resolve_mark(&mname) {
            None => {
                return Err(EditError::UnknownMark);
            },
            Some(d) => d,
        };
        let ghost dv = desc@;
        proof {
            lemma_find_desc_found(mark_types_view(tr.schema), footnote_name());
        }
        if tr.doc().get_node(&self.id).is_none() {
            return Err(EditError::TargetNotFound);
        }
        let mut provided: Vec<Attr> = Vec::new();
        provided.push(
            Attr { key: String::from_str("value"), value: self.footnote.clone() },
        );
        proof {
            assert(attrs_view(provided@) =~= footnote_meta(self.footnote@));
        }
        let mark = create_mark(desc, &provided);
        let ghost mv = mark@;
        proof {
            let i = choose|i: int|
                0 <= i < mark_types_view(tr.schema).len() && mark_types_view(tr.schema)[i] == dv;
            assert(desc_wf(dv));
            assert(crate::model::attr_keys_unique(mv.attrs)) by {
                assert forall|a: int, b: int|
                    0 <= a < b < mv.attrs.len() implies mv.attrs[a].key != mv.attrs[b].key by {
                    assert(mv.attrs[a].key == dv.attrs[a].key);
                    assert(mv.attrs[b].key == dv.attrs[b].key);
                }
            }
        }
        let marks = vec![mark];
        proof {
            assert(crate::model::marks_view(marks@) =~= seq![mv]);
            assert forall|i: int|
                0 <= i < marks@.len() implies crate::model::attr_keys_unique(
                #[trigger] crate::model::marks_view(marks@)[i].attrs,
            ) by {
                assert(crate::model::marks_view(marks@)[i] == mv);
            }
        }
        let r = tr.add_mark(&self.id, marks);
        proof {
            if r is Ok {
                let n0 = old(tr).store.nodes_model()[self.id@];
                assert(crate::transaction::with_marks(n0, seq![mv]) == with_mark(n0, mv)) by {
                    assert(crate::transaction::with_marks(
                        n0,
                        Seq::<crate::model::MarkView>::empty(),
                    ) == n0);
                    assert(seq![mv].drop_last() =~= Seq::<crate::model::MarkView>::empty());
                    assert(seq![mv].last() == mv);
                }
                assert(crate::transaction::with_marks(n0, crate::model::marks_view(marks@))
                    == with_mark(n0, mv));
            }
        }
        r
    }
}

/// An edit intent: a tagged variant over insert, delete-subtree and
/// attach-mark, carrying the minimal addressing needed to apply the
/// edit.
pub enum EditCommand {
    Insert(InsertChildCammand),
    Delete(DeleteGcxmCammand),
    Footnote(AddFootNoteCammand),
}

impl EditCommand {
    /// The stable command identifier of the wrapped command.
    pub fn name(&self) -> (r: String)
        ensures
            match self {
                EditCommand::Insert(_) => r@ == "insert_gcxm_child"@,
                EditCommand::Delete(_) => r@ == "delete_gcxm"@,
                EditCommand::Footnote(_) => r@ == "add_gcxm_footnote"@,
            },
    {
        match self {
            EditCommand::Insert(c) => c.name(),
            EditCommand::Delete(c) => c.name(),
            EditCommand::Footnote(c) => c.name(),
        }
    }
}

} // verus!
