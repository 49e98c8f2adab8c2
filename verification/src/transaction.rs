//! The transaction: a working copy of the tree store plus the schema.
//! Commands mutate the working copy; the editor commits it as a whole on
//! success and discards it on failure, so a failed command can never
//! leave a partial structural edit observable.

use vstd::prelude::*;
use crate::errors::EditError;
use crate::model::{Mark, MarkView, Node, attr_keys_unique, marks_view};
use crate::schema::Schema;
use crate::subtree::subtree_ids;
use crate::tree::{TreeStore, with_mark};

verus! {

/// A pending, atomic batch of tree mutations.
pub struct Transaction<'a> {
    /// The schema registry the commands validate against.
    pub schema: &'a Schema,
    /// The working copy of the store.
    pub store: TreeStore,
}

/// The view of a node after attaching each of the given marks in turn.
pub open spec fn with_marks(n: crate::model::NodeView, ms: Seq<MarkView>) -> crate::model::NodeView
    decreases ms.len(),
{
    if ms.len() == 0 {
        n
    } else {
        with_mark(with_marks(n, ms.drop_last()), ms.last())
    }
}

impl<'a> Transaction<'a> {
    /// The document under edit.
    pub fn doc(&self) -> (r: &TreeStore)
        ensures
            r == &self.store,
    {
        &self.store
    }

    /// Append `node` as the last child of `parent_id`. Fails with
    /// `TargetNotFound` if the parent does not resolve and with
    /// `SchemaValidationFailed` if the node's id is already taken.
    pub fn add_node(&mut self, parent_id: &String, node: Node) -> (r: Result<(), EditError>)
        requires
            old(self).store.wf(),
            crate::model::node_wf(node@),
        ensures
            final(self).schema == old(self).schema,
            final(self).store.wf(),
            match r {
                Ok(()) => {
                    &&& old(self).store.nodes_model().dom().contains(parent_id@)
                    &&& !old(self).store.nodes_model().dom().contains(node@.id)
                    &&& final(self).store.nodes_model() == old(self).store.nodes_model().insert(
                        node@.id,
                        node@,
                    )
                    &&& final(self).store.pm() == old(self).store.pm().insert(node@.id, parent_id@)
                    &&& final(self).store.ids() == old(self).store.ids().push(node@.id)
                    &&& final(self).store.root() == old(self).store.root()
                    &&& final(self).store.next_id == old(self).store.next_id
                },
                Err(e) => {
                    &&& TreeStore::same_doc(final(self).store, old(self).store)
                    &&& final(self).store.next_id == old(self).store.next_id
                    &&& (e == EditError::TargetNotFound <==> !old(
                        self,
                    ).store.nodes_model().dom().contains(parent_id@))
                    &&& (e == EditError::SchemaValidationFailed <==> (old(
                        self,
                    ).store.nodes_model().dom().contains(parent_id@) && old(
                        self,
                    ).store.nodes_model().dom().contains(node@.id)))
                },
            },
            r is Ok <==> (old(self).store.nodes_model().dom().contains(parent_id@) && !old(
                self,
            ).store.nodes_model().dom().contains(node@.id)),
    {
        if self.store.get_node(parent_id).is_none() {
            return Err(EditError::TargetNotFound);
        }
        if self.store.get_node(&node.id).is_some() {
            return Err(EditError::SchemaValidationFailed);
        }
        self.store.add_node(parent_id, node);
        Ok(())
    }

    /// Remove the node `id` (a child of `parent_id`) and all its
    /// descendants. Fails with `TargetNotFound` if the node does not
    /// resolve or is not a child of `parent_id`, and with
    /// `CannotDeleteRoot` if it is the document root.
    pub fn remove_node(&mut self, parent_id: &String, id: &String) -> (r: Result<(), EditError>)
        requires
            old(self).store.wf(),
        ensures
            final(self).schema == old(self).schema,
            final(self).store.wf(),
            match r {
                Ok(()) => {
                    &&& old(self).store.nodes_model().dom().contains(id@)
                    &&& id@ != old(self).store.root()
                    &&& old(self).store.pm()[id@] == parent_id@
                    &&& final(self).store.nodes_model() == old(self).store.nodes_model().remove_keys(
                        subtree_ids(old(self).store, id@),
                    )
                    &&& final(self).store.pm() == old(self).store.pm().remove_keys(
                        subtree_ids(old(self).store, id@),
                    )
                    &&& final(self).store.ids().to_set() == old(self).store.ids().to_set().difference(
                        subtree_ids(old(self).store, id@),
                    )
                    &&& final(self).store.root() == old(self).store.root()
                    &&& final(self).store.next_id == old(self).store.next_id
                },
                Err(e) => {
                    &&& TreeStore::same_doc(final(self).store, old(self).store)
                    &&& final(self).store.next_id == old(self).store.next_id
                    &&& (e == EditError::TargetNotFound <==> (!old(
                        self,
                    ).store.nodes_model().dom().contains(id@) || (id@ != old(self).store.root()
                        && old(self).store.pm()[id@] != parent_id@)))
                    &&& (e == EditError::CannotDeleteRoot <==> (old(
                        self,
                    ).store.nodes_model().dom().contains(id@) && id@ == old(self).store.root()))
                },
            },
            r is Ok <==> (old(self).store.nodes_model().dom().contains(id@) && id@ != old(
                self,
            ).store.root() && old(self).store.pm()[id@] == parent_id@),
    {
        if self.store.get_node(id).is_none() {
            return Err(EditError::TargetNotFound);
        }
        match self.store.get_parent(id) {
            None => {
                proof {
                    assert(self.store.pm().dom() == self.store.nodes_model().dom().remove(
                        self.store.root(),
                    ));
                    assert(id@ == self.store.root());
                }
                return Err(EditError::CannotDeleteRoot);
            },
            Some(p) => {
                if !(p == *parent_id) {
                    return Err(EditError::TargetNotFound);
                }
                proof {
                    assert(id@ != self.store.root()) by {
                        assert(self.store.pm().dom().contains(id@));
                    }
                }
                self.store.remove_subtree(id);
                Ok(())
            },
        }
    }

    /// Attach each given mark to the node `id`, replacing any mark of
    /// the same name. Fails with `TargetNotFound` if the node does not
    /// resolve.
    pub fn add_mark(&mut self, id: &String, marks: Vec<Mark>) -> (r: Result<(), EditError>)
        requires
            old(self).store.wf(),
            forall|i: int|
                0 <= i < marks@.len() ==> attr_keys_unique(
                    #[trigger] marks_view(marks@)[i].attrs,
                ),
        ensures
            final(self).schema == old(self).schema,
            final(self).store.wf(),
            match r {
                Ok(()) => {
                    &&& old(self).store.nodes_model().dom().contains(id@)
                    &&& final(self).store.nodes_model() == old(self).store.nodes_model().insert(
                        id@,
                        with_marks(old(self).store.nodes_model()[id@], marks_view(marks@)),
                    )
                    &&& final(self).store.pm() == old(self).store.pm()
                    &&& final(self).store.ids() == old(self).store.ids()
                    &&& final(self).store.root() == old(self).store.root()
                    &&& final(self).store.next_id == old(self).store.next_id
                },
                Err(e) => {
                    &&& TreeStore::same_doc(final(self).store, old(self).store)
                    &&& final(self).store.next_id == old(self).store.next_id
                    &&& e == EditError::TargetNotFound
                },
            },
            r is Ok <==> old(self).store.nodes_model().dom().contains(id@),
    {
        if self.store.get_node(id).is_none() {
            return Err(EditError::TargetNotFound);
        }
        let ghost o = self.store;
        let ghost ms = marks_view(marks@);
        let n = marks.len();
        let mut i: usize = 0;
        proof {
            assert(with_marks(o.nodes_model()[id@], ms.take(0)) == o.nodes_model()[id@]);
            assert(o.nodes_model().insert(id@, o.nodes_model()[id@]) =~= o.nodes_model());
        }
        while i < n
            invariant
                o.wf(),
                n == marks@.len(),
                ms == marks_view(marks@),
                0 <= i <= n,
                forall|q: int| 0 <= q < ms.len() ==> attr_keys_unique(#[trigger] ms[q].attrs),
                o.nodes_model().dom().contains(id@),
                self.store.wf(),
                self.schema == old(self).schema,
                self.store.nodes_model() == o.nodes_model().insert(
                    id@,
                    with_marks(o.nodes_model()[id@], ms.take(i as int)),
                ),
                self.store.pm() == o.pm(),
                self.store.ids() == o.ids(),
                self.store.root() == o.root(),
                self.store.next_id == o.next_id,
            decreases n - i,
        {
            let mark = crate::model::Mark {
                name: marks[i].name.clone(),
                attrs: crate::model::clone_attrs(&marks[i].attrs),
            };
            proof {
                assert(mark@ == ms[i as int]) by {
                    assert(ms[i as int] == marks@[i as int]@);
                }
                assert(self.store.nodes_model().dom().contains(id@)) by {
                    assert(self.store.nodes_model().dom() =~= o.nodes_model().dom().insert(id@));
                }
            }
            self.store.attach_mark(id, mark);
            proof {
                let prev = with_marks(o.nodes_model()[id@], ms.take(i as int));
                assert(ms.take(i + 1).drop_last() =~= ms.take(i as int));
                assert(ms.take(i + 1).last() == ms[i as int]);
                assert(with_marks(o.nodes_model()[id@], ms.take(i + 1)) == with_mark(
                    prev,
                    ms[i as int],
                ));
                assert(self.store.nodes_model() =~= o.nodes_model().insert(
                    id@,
                    with_marks(o.nodes_model()[id@], ms.take(i + 1)),
                ));
            }
            i = i + 1;
        }
        proof {
            assert(ms.take(n as int) =~= ms);
        }
        Ok(())
    }
}

} // verus!
