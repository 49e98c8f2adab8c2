//! Cascading subtree removal. The subtree of a node is defined through
//! the parent map: a node belongs to it exactly when its parent chain
//! reaches the target. Removal drops the whole subtree from the node
//! set and the parent map together, so no dangling parent entry ever
//! remains.

use vstd::prelude::*;
use crate::imkv::{pm_get, pm_remove, pool_remove};
use crate::model::{contains_str, strs_view};
use crate::tree::TreeStore;

verus! {

/// Whether the parent chain of `x` in `pm` reaches `t` within `fuel`
/// steps (`x` itself counts as reaching).
pub open spec fn reaches(
    pm: Map<Seq<char>, Seq<char>>,
    x: Seq<char>,
    t: Seq<char>,
    fuel: nat,
) -> bool
    decreases fuel,
{
    x == t || (fuel > 0 && pm.dom().contains(x) && reaches(pm, pm[x], t, (fuel - 1) as nat))
}

/// The ids of the subtree rooted at `t` in store `s`: `t` itself and
/// every node whose parent chain reaches it.
pub open spec fn subtree_ids(s: TreeStore, t: Seq<char>) -> Set<Seq<char>> {
    s.nodes_model().dom().filter(|k: Seq<char>| reaches(s.pm(), k, t, s.ids().len() as nat))
}

/// Reaching within less fuel implies reaching within more.
pub proof fn lemma_reaches_mono(
    pm: Map<Seq<char>, Seq<char>>,
    x: Seq<char>,
    t: Seq<char>,
    f1: nat,
    f2: nat,
)
    requires
        reaches(pm, x, t, f1),
        f1 <= f2,
    ensures
        reaches(pm, x, t, f2),
    decreases f1,
{
    if x != t {
        lemma_reaches_mono(pm, pm[x], t, (f1 - 1) as nat, (f2 - 1) as nat);
    }
}

/// In a well-formed store, a node at position `j` of the order list
/// that reaches `t` at all reaches it within `j` steps: parents stand
/// earlier in the list.
pub proof fn lemma_reaches_bound(s: TreeStore, t: Seq<char>, j: int, f: nat)
    requires
        s.wf(),
        0 <= j < s.ids().len(),
        reaches(s.pm(), s.ids()[j], t, f),
    ensures
        reaches(s.pm(), s.ids()[j], t, j as nat),
    decreases j,
{
    let x = s.ids()[j];
    if x != t {
        assert(f > 0 && s.pm().dom().contains(x));
        let p = s.pm()[x];
        if j == 0 {
            assert(x == s.root());
            assert(s.nodes_model().dom() == s.ids().to_set());
            assert(!s.pm().dom().contains(s.root()));
        } else {
            assert(s.ids().take(j).contains(p));
            let i = choose|i: int| 0 <= i < s.ids().take(j).len() && s.ids().take(j)[i] == p;
            assert(s.ids()[i] == p);
            lemma_reaches_bound(s, t, i, (f - 1) as nat);
            lemma_reaches_mono(s.pm(), p, t, i as nat, (j - 1) as nat);
            assert(reaches(s.pm(), x, t, j as nat));
        }
    }
}

/// In a well-formed store, a node lies in a subtree exactly when its
/// parent does, or it is the subtree's own root.
pub proof fn lemma_subtree_step(s: TreeStore, t: Seq<char>, x: Seq<char>)
    requires
        s.wf(),
        s.pm().dom().contains(x),
        x != t,
        s.nodes_model().dom().contains(t),
    ensures
        subtree_ids(s, t).contains(x) <==> subtree_ids(s, t).contains(s.pm()[x]),
{
    let fuel = s.ids().len() as nat;
    let p = s.pm()[x];
    assert(s.nodes_model().dom().contains(p));
    if subtree_ids(s, t).contains(p) {
        assert(reaches(s.pm(), p, t, fuel));
        assert(s.ids().to_set().contains(p));
        let i = choose|i: int| 0 <= i < s.ids().len() && s.ids()[i] == p;
        lemma_reaches_bound(s, t, i, fuel);
        lemma_reaches_mono(s.pm(), p, t, i as nat, (fuel - 1) as nat);
        assert(reaches(s.pm(), x, t, fuel));
        assert(s.nodes_model().dom().contains(x));
    }
    if subtree_ids(s, t).contains(x) {
        assert(reaches(s.pm(), x, t, fuel));
        assert(reaches(s.pm(), p, t, (fuel - 1) as nat));
        lemma_reaches_mono(s.pm(), p, t, (fuel - 1) as nat, fuel);
    }
}

/// The root of a well-formed store lies in no subtree but its own.
pub proof fn lemma_root_outside_subtree(s: TreeStore, t: Seq<char>)
    requires
        s.wf(),
        t != s.root(),
    ensures
        !subtree_ids(s, t).contains(s.root()),
{
    if subtree_ids(s, t).contains(s.root()) {
        assert(reaches(s.pm(), s.root(), t, s.ids().len() as nat));
        assert(!s.pm().dom().contains(s.root()));
    }
}

/// Membership in a pushed sequence.
proof fn lemma_push_contains(s: Seq<Seq<char>>, a: Seq<char>, x: Seq<char>)
    ensures
        s.push(a).contains(x) <==> (s.contains(x) || x == a),
{
    if s.push(a).contains(x) {
        let i = choose|i: int| 0 <= i < s.push(a).len() && s.push(a)[i] == x;
        if i < s.len() {
            assert(s[i] == x);
        }
    }
    if s.contains(x) {
        let i = choose|i: int| 0 <= i < s.len() && s[i] == x;
        assert(s.push(a)[i] == x);
    }
    if x == a {
        assert(s.push(a)[s.len() as int] == x);
    }
}

/// The set of a pushed sequence.
pub proof fn lemma_push_to_set(s: Seq<Seq<char>>, a: Seq<char>)
    ensures
        s.push(a).to_set() == s.to_set().insert(a),
{
    assert forall|x: Seq<char>|
        s.push(a).to_set().contains(x) == s.to_set().insert(a).contains(x) by {
        lemma_push_contains(s, a, x);
    }
    assert(s.push(a).to_set() =~= s.to_set().insert(a));
}

/// An element of a duplicate-free sequence does not occur in the prefix
/// before its position.
proof fn lemma_no_dup_prefix(s: Seq<Seq<char>>, j: int)
    requires
        s.no_duplicates(),
        0 <= j < s.len(),
    ensures
        !s.take(j).contains(s[j]),
{
    if s.take(j).contains(s[j]) {
        let i = choose|i: int| 0 <= i < s.take(j).len() && s.take(j)[i] == s[j];
        assert(s[i] == s[j]);
    }
}

impl TreeStore {
    /// Remove a non-root node and, transitively, all its descendants.
    /// The node set and the parent map lose exactly the subtree's
    /// entries; every other node, every other parent entry and the
    /// relative order of the survivors are untouched. Returns how many
    /// nodes were removed.
    pub fn remove_subtree(&mut self, target: &String) -> (removed_count: usize)
        requires
            old(self).wf(),
            old(self).nodes_model().dom().contains(target@),
            target@ != old(self).root(),
        ensures
            final(self).wf(),
            final(self).nodes_model() == old(self).nodes_model().remove_keys(
                subtree_ids(*old(self), target@),
            ),
            final(self).pm() == old(self).pm().remove_keys(subtree_ids(*old(self), target@)),
            final(self).root() == old(self).root(),
            final(self).next_id == old(self).next_id,
            final(self).ids().to_set() == old(self).ids().to_set().difference(
                subtree_ids(*old(self), target@),
            ),
            removed_count == subtree_ids(*old(self), target@).len(),
            subtree_ids(*old(self), target@).contains(target@),
            subtree_ids(*old(self), target@).subset_of(old(self).nodes_model().dom()),
    {
        let ghost o = *old(self);
        let ghost fuel = o.ids().len() as nat;
        let ghost sub = subtree_ids(o, target@);
        proof {
            assert(reaches(o.pm(), target@, target@, fuel));
            assert(sub.contains(target@));
            assert(sub.subset_of(o.nodes_model().dom()));
        }
        let n = self.order.len();
        let mut removed: Vec<String> = Vec::new();
        let mut kept: Vec<String> = Vec::new();
        proof {
            assert(o.ids().take(0).to_set() =~= (Set::<Seq<char>>::empty()));
            assert(strs_view(removed@).to_set() =~= o.ids().take(0).to_set().intersect(sub));
            assert(strs_view(kept@).to_set() =~= o.ids().take(0).to_set().difference(sub));
            assert(self.nodes_model() =~= o.nodes_model().remove_keys(
                strs_view(removed@).to_set(),
            ));
            assert(self.pm() =~= o.pm().remove_keys(strs_view(removed@).to_set()));
        }
        for j in 0..n
            invariant
                o == *old(self),
                o.wf(),
                fuel == o.ids().len(),
                sub == subtree_ids(o, target@),
                sub.contains(target@),
                sub.subset_of(o.nodes_model().dom()),
                target@ != o.root(),
                o.nodes_model().dom().contains(target@),
                n == o.ids().len(),
                self.order == o.order,
                self.root_id == o.root_id,
                self.next_id == o.next_id,
                strs_view(removed@).no_duplicates(),
                strs_view(kept@).no_duplicates(),
                strs_view(removed@).to_set() == o.ids().take(j as int).to_set().intersect(sub),
                strs_view(kept@).to_set() == o.ids().take(j as int).to_set().difference(sub),
                self.nodes_model() == o.nodes_model().remove_keys(strs_view(removed@).to_set()),
                self.pm() == o.pm().remove_keys(strs_view(removed@).to_set()),
                strs_view(kept@).len() > 0 ==> strs_view(kept@)[0] == o.root(),
                forall|i: int|
                    1 <= i < strs_view(kept@).len() ==> strs_view(kept@).take(i).contains(
                        #[trigger] o.pm()[strs_view(kept@)[i]],
                    ),
        {
            let k = self.order[j].clone();
            let ghost kv = k@;
            let ghost rprev = strs_view(removed@);
            let ghost kprev = strs_view(kept@);
            let ghost tkj = o.ids().take(j as int);
            proof {
                assert(kv == o.ids()[j as int]);
                lemma_no_dup_prefix(o.ids(), j as int);
                assert(!tkj.contains(kv));
                assert(!tkj.to_set().contains(kv));
                assert(!rprev.to_set().contains(kv));
                assert(!kprev.to_set().contains(kv));
                assert(o.ids().contains(kv)) by {
                    assert(o.ids()[j as int] == kv);
                }
                assert(o.ids().to_set().contains(kv));
                assert(o.nodes_model().dom().contains(kv));
                assert(o.ids().take(j + 1) =~= tkj.push(kv));
                lemma_push_to_set(tkj, kv);
            }
            // Decide whether k lies in the subtree of the target.
            let in_sub: bool;
            if k == *target {
                in_sub = true;
                proof {
                    assert(sub.contains(kv));
                }
            } else {
                let parent = pm_get(&self.parent_map, &k);
                match parent {
                    None => {
                        in_sub = false;
                        proof {
                            // k has no parent entry here, and none was
                            // removed for it, so k is the root, which
                            // cannot reach the non-root target.
                            assert(!self.pm().dom().contains(kv));
                            assert(!o.pm().dom().contains(kv));
                            assert(!reaches(o.pm(), kv, target@, fuel));
                            assert(!sub.contains(kv));
                        }
                    },
                    Some(p) => {
                        in_sub = contains_str(&removed, &p);
                        proof {
                            assert(self.pm().dom().contains(kv));
                            assert(o.pm().dom().contains(kv));
                            let pv = o.pm()[kv];
                            assert(self.pm()[kv] == pv);
                            assert(p@ == pv);
                            // The parent stands earlier in the order.
                            assert(j >= 1) by {
                                if j == 0 {
                                    assert(kv == o.root());
                                    assert(!o.pm().dom().contains(o.root()));
                                }
                            }
                            assert(tkj.contains(pv));
                            assert(tkj.to_set().contains(pv));
                            // The test against the removed list decides
                            // subtree membership of the parent.
                            assert(strs_view(removed@).contains(pv) == rprev.to_set().contains(
                                pv,
                            ));
                            assert(rprev.to_set().contains(pv) <==> sub.contains(pv));
                            lemma_subtree_step(o, target@, kv);
                            assert(in_sub <==> sub.contains(kv));
                        }
                    },
                }
            }
            if in_sub {
                pool_remove(&mut self.nodes, &k);
                pm_remove(&mut self.parent_map, &k);
                removed.push(k);
                proof {
                    assert(strs_view(removed@) =~= rprev.push(kv));
                    assert forall|i: int, i2: int|
                        0 <= i < i2 < strs_view(removed@).len() implies strs_view(removed@)[i]
                        != strs_view(removed@)[i2] by {
                        if i2 < rprev.len() {
                        } else {
                            assert(strs_view(removed@)[i2] == kv);
                            assert(rprev.to_set().contains(rprev[i])) by {
                                assert(rprev.contains(rprev[i]));
                            }
                        }
                    }
                    lemma_push_to_set(rprev, kv);
                    assert(strs_view(removed@).to_set() == rprev.to_set().insert(kv));
                    assert(strs_view(removed@).to_set() =~= o.ids().take(j + 1).to_set().intersect(
                        sub,
                    ));
                    assert(strs_view(kept@).to_set() =~= o.ids().take(j + 1).to_set().difference(
                        sub,
                    ));
                    assert(self.nodes_model() =~= o.nodes_model().remove_keys(
                        strs_view(removed@).to_set(),
                    ));
                    assert(self.pm() =~= o.pm().remove_keys(strs_view(removed@).to_set()));
                }
            } else {
                kept.push(k);
                proof {
                    assert(strs_view(kept@) =~= kprev.push(kv));
                    assert forall|i: int, i2: int|
                        0 <= i < i2 < strs_view(kept@).len() implies strs_view(kept@)[i]
                        != strs_view(kept@)[i2] by {
                        if i2 < kprev.len() {
                        } else {
                            assert(strs_view(kept@)[i2] == kv);
                            assert(kprev.to_set().contains(kprev[i])) by {
                                assert(kprev.contains(kprev[i]));
                            }
                        }
                    }
                    lemma_push_to_set(kprev, kv);
                    assert(strs_view(kept@).to_set() =~= o.ids().take(j + 1).to_set().difference(
                        sub,
                    ));
                    assert(strs_view(removed@).to_set() =~= o.ids().take(j + 1).to_set().intersect(
                        sub,
                    ));
                    // Order facts for the kept list.
                    lemma_root_outside_subtree(o, target@);
                    if kprev.len() == 0 {
                        assert(j == 0) by {
                            if j >= 1 {
                                assert(o.ids()[0] == o.root());
                                assert(tkj[0] == o.root());
                                assert(tkj.contains(o.root()));
                                assert(tkj.to_set().contains(o.root()));
                                assert(kprev.to_set().contains(o.root()));
                                assert(kprev.contains(o.root()));
                            }
                        }
                        assert(kv == o.root());
                        assert(strs_view(kept@)[0] == o.root());
                    } else {
                        assert(strs_view(kept@)[0] == kprev[0]);
                    }
                    assert forall|i: int|
                        1 <= i < strs_view(kept@).len() implies strs_view(kept@).take(i).contains(
                        #[trigger] o.pm()[strs_view(kept@)[i]],
                    ) by {
                        if i < kprev.len() {
                            assert(strs_view(kept@).take(i) =~= kprev.take(i));
                            assert(strs_view(kept@)[i] == kprev[i]);
                        } else {
                            // The new element: its parent is kept already.
                            assert(strs_view(kept@)[i] == kv);
                            assert(kv != o.root()) by {
                                if kv == o.root() {
                                    assert(strs_view(kept@)[0] == o.root());
                                }
                            }
                            assert(o.pm().dom().contains(kv)) by {
                                assert(o.pm().dom() == o.nodes_model().dom().remove(o.root()));
                            }
                            let pv = o.pm()[kv];
                            assert(j >= 1) by {
                                if j == 0 {
                                    assert(kv == o.ids()[0]);
                                }
                            }
                            assert(tkj.contains(pv));
                            assert(tkj.to_set().contains(pv));
                            lemma_subtree_step(o, target@, kv);
                            assert(!sub.contains(pv));
                            assert(kprev.to_set().contains(pv));
                            assert(kprev.contains(pv));
                            assert(strs_view(kept@).take(i) =~= kprev);
                        }
                    }
                }
            }
        }
        let count = removed.len();
        self.order = kept;
        proof {
            assert(o.ids().take(n as int) =~= o.ids());
            // The removed set is exactly the subtree.
            assert(strs_view(removed@).to_set() =~= sub);
            strs_view(removed@).unique_seq_to_set();
            assert(count == sub.len());
            // Re-establish the invariant on the shrunken store.
            assert(self.ids() == strs_view(kept@));
            assert(self.ids().to_set() == o.ids().to_set().difference(sub));
            assert(self.nodes_model().dom() =~= self.ids().to_set());
            assert(self.nodes_model().dom().finite()) by {
                assert(self.nodes_model().dom().subset_of(o.nodes_model().dom()));
                vstd::set_lib::lemma_len_subset(self.nodes_model().dom(), o.nodes_model().dom());
            }
            lemma_root_outside_subtree(o, target@);
            assert(self.ids().len() > 0) by {
                assert(o.ids().to_set().contains(o.root())) by {
                    assert(o.ids()[0] == o.root());
                    assert(o.ids().contains(o.root()));
                }
                assert(self.ids().to_set().contains(o.root()));
                assert(self.ids().contains(o.root()));
            }
            assert(self.pm().dom() =~= self.nodes_model().dom().remove(self.root()));
            assert forall|k2: Seq<char>|
                #[trigger] self.pm().dom().contains(k2) implies self.nodes_model().dom().contains(
                self.pm()[k2],
            ) by {
                assert(o.pm().dom().contains(k2));
                let pv = o.pm()[k2];
                assert(self.pm()[k2] == pv);
                assert(o.nodes_model().dom().contains(pv));
                assert(!sub.contains(k2));
                assert(k2 != target@);
                lemma_subtree_step(o, target@, k2);
                assert(!sub.contains(pv));
            }
            assert forall|k2: Seq<char>|
                #[trigger] self.nodes_model().dom().contains(k2) implies self.nodes_model()[k2].id
                == k2 && crate::model::node_wf(self.nodes_model()[k2]) by {
                assert(o.nodes_model().dom().contains(k2));
                assert(self.nodes_model()[k2] == o.nodes_model()[k2]);
            }
        }
        count
    }
}

} // verus!
