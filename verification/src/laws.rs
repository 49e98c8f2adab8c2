//! The library's laws: proved statements relating the edit operations.
//! Atomicity of a failed command is an `ensures` of
//! `DemoEditor::command_with_meta`; reconstruction totality is an
//! `ensures` of `treeview::from_nodes`. The laws that relate several
//! operations stand here.

use vstd::prelude::*;
use crate::history::{HistView, redo_t, undo_t};
use crate::subtree::{lemma_push_to_set, lemma_reaches_mono, lemma_root_outside_subtree, reaches,
    subtree_ids};
use crate::tree::{TreeStore, query_spec};
use crate::treeview::rooted;

verus! {

/// No node of the prior store reaches a freshly inserted id: the
/// fresh node's subtree is only itself.
proof fn lemma_no_reach_fresh(
    pm0: Map<Seq<char>, Seq<char>>,
    dom0: Set<Seq<char>>,
    pm1: Map<Seq<char>, Seq<char>>,
    k: Seq<char>,
    nid: Seq<char>,
    parent: Seq<char>,
    f: nat,
)
    requires
        dom0.contains(k),
        !dom0.contains(nid),
        pm1 == pm0.insert(nid, parent),
        forall|x: Seq<char>| #[trigger] pm0.dom().contains(x) ==> dom0.contains(pm0[x]),
        pm0.dom().subset_of(dom0),
    ensures
        !reaches(pm1, k, nid, f),
    decreases f,
{
    assert(k != nid);
    if f > 0 && pm1.dom().contains(k) {
        assert(pm0.dom().contains(k));
        assert(pm1[k] == pm0[k]);
        assert(dom0.contains(pm0[k]));
        lemma_no_reach_fresh(pm0, dom0, pm1, pm0[k], nid, parent, (f - 1) as nat);
    }
}

/// Law (insert/delete inverse): inserting a node and then deleting it
/// by its id restores the store: the same node set, the same parent
/// map, the same id set. The two hypotheses are exactly what
/// `TreeStore::add_node` and `TreeStore::remove_subtree` ensure.
pub proof fn lemma_insert_delete_inverse(
    s0: TreeStore,
    s1: TreeStore,
    s2: TreeStore,
    nid: Seq<char>,
    parent: Seq<char>,
    nv: crate::model::NodeView,
)
    requires
        s0.wf(),
        s1.wf(),
        !s0.nodes_model().dom().contains(nid),
        s0.nodes_model().dom().contains(parent),
        s1.nodes_model() == s0.nodes_model().insert(nid, nv),
        s1.pm() == s0.pm().insert(nid, parent),
        s1.ids() == s0.ids().push(nid),
        s1.root() == s0.root(),
        s2.nodes_model() == s1.nodes_model().remove_keys(subtree_ids(s1, nid)),
        s2.pm() == s1.pm().remove_keys(subtree_ids(s1, nid)),
        s2.ids().to_set() == s1.ids().to_set().difference(subtree_ids(s1, nid)),
    ensures
        s2.nodes_model() == s0.nodes_model(),
        s2.pm() == s0.pm(),
        s2.ids().to_set() == s0.ids().to_set(),
{
    let sub = subtree_ids(s1, nid);
    let fuel = s1.ids().len() as nat;
    assert(sub =~= set![nid]) by {
        assert forall|k: Seq<char>| sub.contains(k) == set![nid].contains(k) by {
            if k == nid {
                assert(reaches(s1.pm(), nid, nid, fuel));
                assert(s1.nodes_model().dom().contains(nid));
            } else {
                if s1.nodes_model().dom().contains(k) {
                    assert(s0.nodes_model().dom().contains(k));
                    lemma_no_reach_fresh(
                        s0.pm(),
                        s0.nodes_model().dom(),
                        s1.pm(),
                        k,
                        nid,
                        parent,
                        fuel,
                    );
                }
            }
        }
    }
    assert(s2.nodes_model() =~= s0.nodes_model());
    assert(s2.pm() =~= s0.pm()) by {
        assert(!s0.pm().dom().contains(nid));
    }
    lemma_push_to_set(s0.ids(), nid);
    assert(s2.ids().to_set() =~= s0.ids().to_set()) by {
        assert(!s0.ids().to_set().contains(nid)) by {
            if s0.ids().to_set().contains(nid) {
                assert(s0.nodes_model().dom().contains(nid));
            }
        }
    }
}

/// Law (cascading delete): deleting a node with N descendants removes
/// exactly N+1 nodes and N+1 parent-map entries, and at least the node
/// itself. No dangling entry can remain: the resulting parent map's
/// well-formedness is part of `remove_subtree`'s own contract.
pub proof fn lemma_cascading_delete_counts(s0: TreeStore, s1: TreeStore, t: Seq<char>)
    requires
        s0.wf(),
        s0.nodes_model().dom().contains(t),
        t != s0.root(),
        s1.nodes_model() == s0.nodes_model().remove_keys(subtree_ids(s0, t)),
        s1.pm() == s0.pm().remove_keys(subtree_ids(s0, t)),
    ensures
        subtree_ids(s0, t).len() >= 1,
        s1.nodes_model().dom().len() == s0.nodes_model().dom().len() - subtree_ids(s0, t).len(),
        s1.pm().dom().len() == s0.pm().dom().len() - subtree_ids(s0, t).len(),
{
    let sub = subtree_ids(s0, t);
    let fuel = s0.ids().len() as nat;
    assert(reaches(s0.pm(), t, t, fuel));
    assert(sub.contains(t));
    assert(sub.finite()) by {
        vstd::set::axiom_set_intersect_finite(
            s0.nodes_model().dom(),
            Set::new(|k: Seq<char>| reaches(s0.pm(), k, t, fuel)),
        );
        assert(sub =~= s0.nodes_model().dom().intersect(
            Set::new(|k: Seq<char>| reaches(s0.pm(), k, t, fuel)),
        ));
    }
    assert(sub.len() >= 1) by {
        vstd::set_lib::lemma_len_subset(set![t], sub);
        assert((set![t]).subset_of(sub));
        assert((set![t]).len() == 1);
    }
    assert forall|k: Seq<char>| #[trigger] sub.contains(k) implies s0.nodes_model().contains_key(
        k,
    ) by {}
    s0.nodes_model().lemma_remove_keys_len(sub);
    lemma_root_outside_subtree(s0, t);
    assert forall|k: Seq<char>| #[trigger] sub.contains(k) implies s0.pm().contains_key(k) by {
        assert(s0.nodes_model().dom().contains(k));
        assert(k != s0.root());
        assert(s0.pm().dom() == s0.nodes_model().dom().remove(s0.root()));
    }
    s0.pm().lemma_remove_keys_len(sub);
    assert(s0.pm().dom().finite()) by {
        assert(s0.pm().dom() == s0.nodes_model().dom().remove(s0.root()));
    }
}

/// The timeline after `k` undos.
pub open spec fn undo_n(h: HistView, k: nat) -> HistView
    decreases k,
{
    if k == 0 {
        h
    } else {
        undo_t(undo_n(h, (k - 1) as nat))
    }
}

/// The timeline after `k` redos.
pub open spec fn redo_n(h: HistView, k: nat) -> HistView
    decreases k,
{
    if k == 0 {
        h
    } else {
        redo_n(redo_t(h), (k - 1) as nat)
    }
}

/// One undo followed by one redo is the identity, whenever there is a
/// past to undo into.
pub proof fn lemma_undo_then_redo(h: HistView)
    requires
        h.past.len() > 0,
    ensures
        redo_t(undo_t(h)) == h,
{
    let u = undo_t(h);
    assert(u.future.len() > 0);
    assert(redo_t(u).past =~= h.past);
    assert(redo_t(u).present == h.present) by {
        assert((seq![h.present] + h.future)[0] == h.present);
    }
    assert(redo_t(u).future =~= h.future);
}

/// Law (history round trip): starting from a timeline with no pending
/// redos, `k` consecutive undos followed by `k` redos reproduce the
/// timeline exactly; after the undos the future holds exactly the `k`
/// undone entries.
pub proof fn lemma_history_round_trip(h: HistView, k: nat)
    requires
        h.future.len() == 0,
        k <= h.past.len(),
    ensures
        redo_n(undo_n(h, k), k) == h,
        undo_n(h, k).past.len() == h.past.len() - k,
        undo_n(h, k).future.len() == k,
        undo_n(h, k).limit == h.limit,
    decreases k,
{
    if k > 0 {
        lemma_history_round_trip(h, (k - 1) as nat);
        let u = undo_n(h, (k - 1) as nat);
        assert(u.past.len() > 0);
        lemma_undo_then_redo(u);
        assert(undo_n(h, k) == undo_t(u));
        assert(redo_n(undo_t(u), k) == redo_n(redo_t(undo_t(u)), (k - 1) as nat));
        assert(redo_t(undo_t(u)) == u);
    }
}

/// Every node of a well-formed store reaches the root along the parent
/// map, within its own position in the order.
pub proof fn lemma_wf_reaches_root(s: TreeStore, j: int)
    requires
        s.wf(),
        0 <= j < s.ids().len(),
    ensures
        reaches(s.pm(), s.ids()[j], s.root(), j as nat),
    decreases j,
{
    let x = s.ids()[j];
    if j > 0 {
        assert(x != s.root()) by {
            if x == s.root() {
                assert(s.ids()[0] == s.root());
            }
        }
        assert(s.nodes_model().dom().contains(x)) by {
            assert(s.ids().contains(x)) by {
                assert(s.ids()[j] == x);
            }
            assert(s.ids().to_set().contains(x));
        }
        assert(s.pm().dom().contains(x));
        let p = s.pm()[x];
        assert(s.ids().take(j).contains(p));
        let i = choose|i: int| 0 <= i < s.ids().take(j).len() && s.ids().take(j)[i] == p;
        assert(s.ids()[i] == p);
        lemma_wf_reaches_root(s, i);
        lemma_reaches_mono(s.pm(), p, s.root(), i as nat, (j - 1) as nat);
    }
}

/// A query whose filter covers every node keeps every node, in order.
proof fn lemma_query_all(
    ids: Seq<Seq<char>>,
    m: Map<Seq<char>, crate::model::NodeView>,
    filt: Set<Seq<char>>,
)
    requires
        forall|j: int|
            0 <= j < ids.len() ==> m.dom().contains(#[trigger] ids[j]) && filt.contains(
                m[ids[j]].node_type,
            ),
    ensures
        query_spec(ids, m, filt).len() == ids.len(),
        forall|j: int| 0 <= j < ids.len() ==> query_spec(ids, m, filt)[j] == m[#[trigger] ids[j]],
    decreases ids.len(),
{
    if ids.len() > 0 {
        let dl = ids.drop_last();
        lemma_query_all(dl, m, filt);
        assert(ids[ids.len() - 1] == ids.last());
        assert forall|j: int| 0 <= j < ids.len() implies query_spec(ids, m, filt)[j] == m[
            #[trigger] ids[j]
        ] by {
            if j < ids.len() - 1 {
                assert(query_spec(dl, m, filt)[j] == m[dl[j]]);
            }
        }
    }
}

/// Law (reconstruction totality, store side): for a well-formed store
/// — which every store built from insert commands is — and a type
/// filter that covers every node, the queried candidate set holds the
/// whole store and is rooted, so `from_nodes` returns a tree holding
/// every candidate whose edges match the parent map exactly.
pub proof fn lemma_reconstruction_total(s: TreeStore, filt: Set<Seq<char>>)
    requires
        s.wf(),
        forall|k: Seq<char>|
            #[trigger] s.nodes_model().dom().contains(k) ==> filt.contains(
                s.nodes_model()[k].node_type,
            ),
    ensures
        query_spec(s.ids(), s.nodes_model(), filt).len() == s.ids().len(),
        rooted(query_spec(s.ids(), s.nodes_model(), filt), s.pm(), s.root()),
{
    let m = s.nodes_model();
    let ids = s.ids();
    assert forall|j: int|
        0 <= j < ids.len() implies m.dom().contains(#[trigger] ids[j]) && filt.contains(
        m[ids[j]].node_type,
    ) by {
        assert(ids.contains(ids[j]));
        assert(ids.to_set().contains(ids[j]));
    }
    lemma_query_all(ids, m, filt);
    let q = query_spec(ids, m, filt);
    assert forall|j: int|
        0 <= j < q.len() implies {
        &&& reaches(s.pm(), (#[trigger] q[j]).id, s.root(), q.len() as nat)
        &&& (q[j].id != s.root() ==> s.pm().dom().contains(q[j].id) && exists|p: int|
            0 <= p < q.len() && q[p].id == s.pm()[q[j].id])
    } by {
        assert(q[j] == m[ids[j]]);
        assert(q[j].id == ids[j]);
        lemma_wf_reaches_root(s, j);
        lemma_reaches_mono(s.pm(), ids[j], s.root(), j as nat, q.len() as nat);
        if q[j].id != s.root() {
            assert(s.pm().dom().contains(ids[j]));
            let pv = s.pm()[ids[j]];
            assert(m.dom().contains(pv));
            assert(ids.to_set().contains(pv));
            let p = choose|p: int| 0 <= p < ids.len() && ids[p] == pv;
            assert(q[p].id == pv);
        }
    }
}

} // verus!
