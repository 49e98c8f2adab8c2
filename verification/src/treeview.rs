//! Tree reconstruction: turn a root id, a flat candidate node set and
//! the parent map into a nested display tree. Candidates are first
//! grouped by parent id in one pass (an index keyed by candidate
//! position), then the tree is assembled by descent; sibling order is
//! the order of the candidate list, which the tree store hands out in
//! insertion order.

use vstd::prelude::*;
use crate::imkv::{idx_get, idx_insert, idx_model, idx_new, pm_get, pm_model};
use crate::model::{Attr, AttrView, Mark, MarkView, Node, NodeView, clone_attrs, clone_marks,
    nodes_view};

verus! {

/// A reconstructed display tree node.
pub struct GcxmTreeItem {
    pub id: String,
    pub node_type: String,
    pub attrs: Vec<Attr>,
    pub children: Vec<GcxmTreeItem>,
    pub marks: Vec<Mark>,
}

/// The view of a reconstructed tree node.
pub ghost struct TreeItemView {
    pub id: Seq<char>,
    pub node_type: Seq<char>,
    pub attrs: Seq<AttrView>,
    pub marks: Seq<MarkView>,
    pub children: Seq<TreeItemView>,
}

/// The view of a reconstructed tree node.
pub open spec fn item_view(t: GcxmTreeItem) -> TreeItemView
    decreases t,
{
    TreeItemView {
        id: t.id@,
        node_type: t.node_type@,
        attrs: crate::model::attrs_view(t.attrs@),
        marks: crate::model::marks_view(t.marks@),
        children: items_view(t.children@),
    }
}

/// The views of a list of reconstructed tree nodes.
pub open spec fn items_view(s: Seq<GcxmTreeItem>) -> Seq<TreeItemView>
    decreases s,
{
    if s.len() == 0 {
        Seq::empty()
    } else {
        items_view(s.drop_last()).push(item_view(s.last()))
    }
}

/// The number of nodes in a reconstructed tree.
pub open spec fn item_count(t: TreeItemView) -> nat
    decreases t,
{
    1 + items_count(t.children)
}

/// The number of nodes in a list of reconstructed trees.
pub open spec fn items_count(s: Seq<TreeItemView>) -> nat
    decreases s,
{
    if s.len() == 0 {
        0nat
    } else {
        items_count(s.drop_last()) + item_count(s.last())
    }
}

/// Every parent/child edge of the reconstructed tree is an edge of the
/// parent map: each child's parent-map entry names its parent item.
pub open spec fn edges_match(t: TreeItemView, pm: Map<Seq<char>, Seq<char>>) -> bool
    decreases t,
{
    forall|c: int|
        0 <= c < t.children.len() ==> {
            &&& pm.dom().contains((#[trigger] t.children[c]).id)
            &&& pm[t.children[c].id] == t.id
            &&& edges_match(t.children[c], pm)
        }
}

/// The number of positions not yet consumed.
pub open spec fn count_false(s: Seq<bool>) -> nat
    decreases s,
{
    if s.len() == 0 {
        0nat
    } else {
        count_false(s.drop_last()) + (if s.last() {
            0nat
        } else {
            1nat
        })
    }
}

/// Flipping one unconsumed position to consumed lowers the count by
/// one.
proof fn lemma_count_false_set(s: Seq<bool>, i: int)
    requires
        0 <= i < s.len(),
        !s[i],
    ensures
        count_false(s.update(i, true)) == count_false(s) - 1,
    decreases s.len(),
{
    if s.len() > 0 {
        if i == s.len() - 1 {
            assert(s.update(i, true).drop_last() =~= s.drop_last());
        } else {
            lemma_count_false_set(s.drop_last(), i);
            assert(s.update(i, true).drop_last() =~= s.drop_last().update(i, true));
        }
    }
}

/// Indexing the views of a list of tree items.
proof fn lemma_items_view_index(s: Seq<GcxmTreeItem>)
    ensures
        items_view(s).len() == s.len(),
        forall|k: int| 0 <= k < s.len() ==> items_view(s)[k] == item_view(#[trigger] s[k]),
    decreases s.len(),
{
    if s.len() > 0 {
        lemma_items_view_index(s.drop_last());
        assert forall|k: int| 0 <= k < s.len() implies items_view(s)[k] == item_view(
            #[trigger] s[k],
        ) by {
            if k < s.len() - 1 {
                assert(items_view(s.drop_last())[k] == item_view(s.drop_last()[k]));
            }
        }
    }
}

/// A count of zero means every position is consumed.
proof fn lemma_count_false_zero(s: Seq<bool>)
    requires
        count_false(s) == 0,
    ensures
        forall|i: int| 0 <= i < s.len() ==> s[i],
    decreases s.len(),
{
    if s.len() > 0 {
        lemma_count_false_zero(s.drop_last());
        assert forall|i: int| 0 <= i < s.len() implies s[i] by {
            if i < s.len() - 1 {
                assert(s.drop_last()[i]);
            }
        }
    }
}

/// Membership in a pushed position list.
proof fn lemma_push_contains_usize(s: Seq<usize>, a: usize, x: usize)
    ensures
        s.push(a).contains(x) <==> (s.contains(x) || x == a),
{
    if s.push(a).contains(x) {
        let i = choose|i: int| 0 <= i < s.push(a).len() && s.push(a)[i] == x;
        if i < s.len() {
            assert(s[i] == x);
        }
    }
    if s.contains(x) {
        let i = choose|i: int| 0 <= i < s.len() && s[i] == x;
        assert(s.push(a)[i] == x);
    }
    if x == a {
        assert(s.push(a)[s.len() as int] == x);
    }
}

/// Candidate ids are pairwise distinct: the candidate list is a set.
pub open spec fn ids_distinct(cands: Seq<NodeView>) -> bool {
    forall|a: int, b: int| 0 <= a < b < cands.len() ==> cands[a].id != cands[b].id
}

/// The candidate set as a lookup from id to node view.
pub open spec fn cands_map(cands: Seq<NodeView>) -> Map<Seq<char>, NodeView> {
    Map::new(
        |k: Seq<char>| exists|i: int| 0 <= i < cands.len() && cands[i].id == k,
        |k: Seq<char>| cands[choose|i: int| 0 <= i < cands.len() && cands[i].id == k],
    )
}

/// With distinct ids, the lookup returns each candidate at its own id.
pub proof fn lemma_cands_map_at(cands: Seq<NodeView>, i: int)
    requires
        ids_distinct(cands),
        0 <= i < cands.len(),
    ensures
        cands_map(cands).dom().contains(cands[i].id),
        cands_map(cands)[cands[i].id] == cands[i],
{
    let k = cands[i].id;
    assert(exists|q: int| 0 <= q < cands.len() && (#[trigger] cands[q]).id == k) by {
        assert(0 <= i < cands.len() && cands[i].id == k);
    }
    assert(exists|q: int| 0 <= q < cands.len() && cands[q].id == k);
    let j = choose|q: int| 0 <= q < cands.len() && cands[q].id == k;
    if j != i {
        assert(cands[j].id != cands[i].id);
    }
}

/// Every node of the reconstructed tree carries exactly the type,
/// attributes and marks of the candidate bearing its id.
pub open spec fn payloads_match(t: TreeItemView, m: Map<Seq<char>, NodeView>) -> bool
    decreases t,
{
    &&& m.dom().contains(t.id)
    &&& t.node_type == m[t.id].node_type
    &&& t.attrs == m[t.id].attrs
    &&& t.marks == m[t.id].marks
    &&& forall|c: int| 0 <= c < t.children.len() ==> payloads_match(#[trigger] t.children[c], m)
}

/// The grouping is sound: every recorded child position holds a
/// candidate whose parent-map entry names the group's candidate.
pub open spec fn groups_ok(
    cands: Seq<NodeView>,
    groups: Seq<Vec<usize>>,
    pm: Map<Seq<char>, Seq<char>>,
) -> bool {
    &&& groups.len() == cands.len()
    &&& forall|p: int, j: int|
        0 <= p < groups.len() && 0 <= j < groups[p]@.len() ==> {
            &&& 0 <= #[trigger] groups[p]@[j] < cands.len()
            &&& pm.dom().contains(cands[groups[p]@[j] as int].id)
            &&& pm[cands[groups[p]@[j] as int].id] == cands[p].id
        }
}

/// The grouping is complete: every candidate whose parent-map entry
/// names another candidate is recorded under it.
pub open spec fn groups_complete(
    cands: Seq<NodeView>,
    groups: Seq<Vec<usize>>,
    pm: Map<Seq<char>, Seq<char>>,
) -> bool {
    forall|q: int, p: int|
        0 <= q < cands.len() && 0 <= p < cands.len() && pm.dom().contains(cands[q].id)
            && pm[cands[q].id] == cands[p].id ==> #[trigger] groups[p]@.contains(q as usize)
}

/// The candidate set is rooted: every candidate's parent chain reaches
/// the root within the set, and every non-root candidate's parent is a
/// candidate. A tree built purely from insert commands always hands
/// its full node set over in this shape.
pub open spec fn rooted(
    cands: Seq<NodeView>,
    pm: Map<Seq<char>, Seq<char>>,
    root: Seq<char>,
) -> bool {
    forall|q: int|
        0 <= q < cands.len() ==> {
            &&& crate::subtree::reaches(pm, (#[trigger] cands[q]).id, root, cands.len() as nat)
            &&& (cands[q].id != root ==> pm.dom().contains(cands[q].id) && exists|p: int|
                0 <= p < cands.len() && cands[p].id == pm[cands[q].id])
        }
}

/// Assemble the item for candidate `i`, consuming it and (recursively)
/// every reachable unconsumed child.
fn build_item(
    cands: &Vec<Node>,
    groups: &Vec<Vec<usize>>,
    i: usize,
    visited: &mut Vec<bool>,
    Ghost(pm): Ghost<Map<Seq<char>, Seq<char>>>,
) -> (t: GcxmTreeItem)
    requires
        cands@.len() == groups@.len(),
        old(visited)@.len() == cands@.len(),
        i < cands@.len(),
        !old(visited)@[i as int],
        ids_distinct(nodes_view(cands@)),
        groups_ok(nodes_view(cands@), groups@, pm),
    ensures
        final(visited)@.len() == old(visited)@.len(),
        forall|j: int| 0 <= j < old(visited)@.len() && old(visited)@[j] ==> final(visited)@[j],
        final(visited)@[i as int],
        count_false(final(visited)@) == count_false(old(visited)@) - item_count(item_view(t)),
        item_view(t).id == nodes_view(cands@)[i as int].id,
        item_view(t).node_type == nodes_view(cands@)[i as int].node_type,
        item_view(t).attrs == nodes_view(cands@)[i as int].attrs,
        item_view(t).marks == nodes_view(cands@)[i as int].marks,
        edges_match(item_view(t), pm),
        payloads_match(item_view(t), cands_map(nodes_view(cands@))),
        forall|p: int|
            0 <= p < cands@.len() && !old(visited)@[p] && #[trigger] final(visited)@[p] ==> (forall|
                j: int,
            |
                0 <= j < groups@[p]@.len() ==> final(visited)@[#[trigger] groups@[p]@[j] as int]),
    decreases count_false(visited@),
{
    let ghost cv = nodes_view(cands@);
    let ghost v0 = visited@;
    let ghost n = cands@.len() as int;
    visited.set(i, true);
    proof {
        lemma_count_false_set(v0, i as int);
        lemma_items_view_index(Seq::<GcxmTreeItem>::empty());
    }
    let ghost v1 = visited@;
    let mut children: Vec<GcxmTreeItem> = Vec::new();
    let glen = groups[i].len();
    proof {
        assert(items_view(children@) =~= Seq::<TreeItemView>::empty());
    }
    for j in 0..glen
        invariant
            cands@.len() == groups@.len(),
            cv == nodes_view(cands@),
            n == cands@.len(),
            0 <= i < n,
            glen == groups@[i as int]@.len(),
            groups_ok(cv, groups@, pm),
            v0 == old(visited)@,
            v1 == v0.update(i as int, true),
            count_false(v1) == count_false(v0) - 1,
            v0.len() == n,
            !v0[i as int],
            visited@.len() == n,
            visited@[i as int],
            // Only growth since v1.
            forall|k: int| 0 <= k < n && v1[k] ==> visited@[k],
            // Count bookkeeping.
            count_false(visited@) == count_false(v1) - items_count(items_view(children@)),
            ids_distinct(cv),
            // Accumulated children are correct subtrees.
            forall|c: int|
                0 <= c < items_view(children@).len() ==> {
                    &&& pm.dom().contains((#[trigger] items_view(children@)[c]).id)
                    &&& pm[items_view(children@)[c].id] == cv[i as int].id
                    &&& edges_match(items_view(children@)[c], pm)
                    &&& payloads_match(items_view(children@)[c], cands_map(cv))
                },
            // Every processed child position is consumed.
            forall|j2: int| 0 <= j2 < j ==> visited@[#[trigger] groups@[i as int]@[j2] as int],
            // Newly consumed positions other than i have their whole
            // group consumed.
            forall|p: int|
                0 <= p < n && !v0[p] && p != i && #[trigger] visited@[p] ==> (forall|j2: int|
                    0 <= j2 < groups@[p]@.len() ==> visited@[
                        #[trigger] groups@[p]@[j2] as int
                    ]),
    {
        let q = groups[i][j];
        proof {
            assert(groups@[i as int]@[j as int] == q);
            assert(0 <= q < n && pm.dom().contains(cv[q as int].id) && pm[cv[q as int].id]
                == cv[i as int].id);
        }
        if !visited[q] {
            let ghost vpre = visited@;
            let ghost chpre = children@;
            proof {
                assert(count_false(visited@) < count_false(v0));
            }
            let c = build_item(cands, groups, q, visited, Ghost(pm));
            children.push(c);
            proof {
                assert(items_view(children@) =~= items_view(chpre).push(item_view(c))) by {
                    assert(children@.drop_last() =~= chpre);
                }
                assert(items_count(items_view(children@)) == items_count(items_view(chpre))
                    + item_count(item_view(c))) by {
                    assert(items_view(children@).drop_last() =~= items_view(chpre));
                }
                assert forall|c2: int|
                    0 <= c2 < items_view(children@).len() implies {
                    &&& pm.dom().contains((#[trigger] items_view(children@)[c2]).id)
                    &&& pm[items_view(children@)[c2].id] == cv[i as int].id
                    &&& edges_match(items_view(children@)[c2], pm)
                    &&& payloads_match(items_view(children@)[c2], cands_map(cv))
                } by {
                    if c2 < items_view(chpre).len() {
                        assert(items_view(children@)[c2] == items_view(chpre)[c2]);
                    } else {
                        assert(items_view(children@)[c2] == item_view(c));
                    }
                }
                assert forall|p: int|
                    0 <= p < n && !v0[p] && p != i && #[trigger] visited@[p] implies (forall|
                    j2: int,
                |
                    0 <= j2 < groups@[p]@.len() ==> visited@[
                        #[trigger] groups@[p]@[j2] as int
                    ]) by {
                    if vpre[p] {
                        assert forall|j2: int| 0 <= j2 < groups@[p]@.len() implies visited@[
                            #[trigger] groups@[p]@[j2] as int
                        ] by {
                            assert(vpre[groups@[p]@[j2] as int]);
                        }
                    } else {
                        // consumed by the recursive call
                        assert forall|j2: int| 0 <= j2 < groups@[p]@.len() implies visited@[
                            #[trigger] groups@[p]@[j2] as int
                        ] by {}
                    }
                }
            }
        }
    }
    let item = GcxmTreeItem {
        id: cands[i].id.clone(),
        node_type: cands[i].node_type.clone(),
        attrs: clone_attrs(&cands[i].attrs),
        marks: clone_marks(&cands[i].marks),
        children,
    };
    proof {
        assert forall|k: int| 0 <= k < v0.len() && v0[k] implies visited@[k] by {
            assert(v1[k]);
        }
        assert(cv[i as int] == cands@[i as int]@);
        assert(item_view(item).children == items_view(item.children@));
        assert(count_false(visited@) == count_false(v0) - item_count(item_view(item)));
        assert(edges_match(item_view(item), pm)) by {
            assert(item_view(item).id == cv[i as int].id);
        }
        assert(payloads_match(item_view(item), cands_map(cv))) by {
            lemma_cands_map_at(cv, i as int);
            assert(item_view(item).id == cv[i as int].id);
            assert(item_view(item).node_type == cv[i as int].node_type);
            assert(item_view(item).attrs == cv[i as int].attrs);
            assert(item_view(item).marks == cv[i as int].marks);
        }
        assert forall|p: int|
            0 <= p < n && !v0[p] && #[trigger] visited@[p] implies (forall|j2: int|
            0 <= j2 < groups@[p]@.len() ==> visited@[#[trigger] groups@[p]@[j2] as int]) by {
            if p == i {
                assert forall|j2: int| 0 <= j2 < groups@[p]@.len() implies visited@[
                    #[trigger] groups@[p]@[j2] as int
                ] by {}
            }
        }
    }
    item
}

/// Once the descent from the root has finished, every candidate whose
/// chain reaches the root has been consumed.
proof fn lemma_all_consumed(
    cands: Seq<NodeView>,
    groups: Seq<Vec<usize>>,
    pm: Map<Seq<char>, Seq<char>>,
    root: Seq<char>,
    visited: Seq<bool>,
    ri: int,
    q: int,
    fuel: nat,
)
    requires
        cands.len() <= usize::MAX,
        visited.len() == cands.len(),
        groups.len() == cands.len(),
        ids_distinct(cands),
        groups_ok(cands, groups, pm),
        groups_complete(cands, groups, pm),
        forall|p: int|
            0 <= p < cands.len() && #[trigger] visited[p] ==> (forall|j: int|
                0 <= j < groups[p]@.len() ==> visited[#[trigger] groups[p]@[j] as int]),
        0 <= ri < cands.len(),
        cands[ri].id == root,
        visited[ri],
        forall|q2: int|
            0 <= q2 < cands.len() && (#[trigger] cands[q2]).id != root ==> pm.dom().contains(
                cands[q2].id,
            ) && exists|p2: int| 0 <= p2 < cands.len() && cands[p2].id == pm[cands[q2].id],
        0 <= q < cands.len(),
        crate::subtree::reaches(pm, cands[q].id, root, fuel),
    ensures
        visited[q],
    decreases fuel,
{
    if cands[q].id == root {
        if q != ri {
            assert(cands[ri].id == cands[q].id);
            assert(false);
        }
    } else {
        let p = choose|p2: int| 0 <= p2 < cands.len() && cands[p2].id == pm[cands[q].id];
        assert(fuel > 0);
        assert(crate::subtree::reaches(pm, pm[cands[q].id], root, (fuel - 1) as nat));
        lemma_all_consumed(cands, groups, pm, root, visited, ri, p, (fuel - 1) as nat);
        assert(groups[p]@.contains(q as usize));
        let j = choose|j: int| 0 <= j < groups[p]@.len() && groups[p]@[j] == q as usize;
        assert(visited[groups[p]@[j] as int]);
        assert(groups[p]@[j] as int == q);
    }
}

/// A fully consumed vector counts zero.
proof fn lemma_count_false_all_true(s: Seq<bool>)
    requires
        forall|i: int| 0 <= i < s.len() ==> s[i],
    ensures
        count_false(s) == 0,
    decreases s.len(),
{
    if s.len() > 0 {
        lemma_count_false_all_true(s.drop_last());
    }
}

/// Reconstruct the display tree rooted at `root_id` from an unordered
/// candidate node set and the parent map. Returns `None` when the root
/// id is not among the candidates. Children are grouped by parent id
/// in one pass over the candidates; sibling order is the candidate
/// list's order (insertion order when the candidates come from the
/// store's query). Every edge of the result is an edge of the parent
/// map, and on a rooted candidate set (such as the full node set of a
/// store built by insert commands) the result holds every candidate.
pub fn from_nodes(
    root_id: String,
    nodes: Vec<Node>,
    parent_map: &im::HashMap<String, String>,
) -> (r: Option<GcxmTreeItem>)
    requires
        ids_distinct(nodes_view(nodes@)),
    ensures
        r is Some <==> exists|i: int|
            0 <= i < nodes@.len() && (#[trigger] nodes_view(nodes@)[i]).id == root_id@,
        match r {
            Some(t) => {
                &&& item_view(t).id == root_id@
                &&& edges_match(item_view(t), pm_model(*parent_map))
                &&& payloads_match(item_view(t), cands_map(nodes_view(nodes@)))
                &&& item_count(item_view(t)) <= nodes@.len()
                &&& rooted(nodes_view(nodes@), pm_model(*parent_map), root_id@) ==> item_count(
                    item_view(t),
                ) == nodes@.len()
            },
            None => true,
        },
{
    let ghost cv = nodes_view(nodes@);
    let ghost pm = pm_model(*parent_map);
    let n = nodes.len();
    proof {
        assert(cv.len() == n);
        assert forall|k: int| 0 <= k < n implies (#[trigger] cv[k]) == nodes@[k]@ by {}
    }
    // Index each candidate id by its position.
    let mut idx = idx_new();
    for i in 0..n
        invariant
            n == nodes@.len(),
            cv == nodes_view(nodes@),
            ids_distinct(cv),
            forall|q: int|
                0 <= q < i ==> idx_model(idx).dom().contains((#[trigger] cv[q]).id) && idx_model(
                    idx,
                )[cv[q].id] == q,
            forall|k: Seq<char>|
                #[trigger] idx_model(idx).dom().contains(k) ==> exists|q: int|
                    0 <= q < i && (#[trigger] cv[q]).id == k,
    {
        proof {
            assert(cv[i as int] == nodes@[i as int]@);
        }
        idx_insert(&mut idx, nodes[i].id.clone(), i);
        proof {
            assert forall|q: int|
                0 <= q < i + 1 implies idx_model(idx).dom().contains((#[trigger] cv[q]).id)
                && idx_model(idx)[cv[q].id] == q by {
                if q < i {
                    assert(cv[q].id != cv[i as int].id);
                }
            }
            assert forall|k: Seq<char>|
                #[trigger] idx_model(idx).dom().contains(k) implies exists|q: int|
                0 <= q < i + 1 && (#[trigger] cv[q]).id == k by {
                if k != cv[i as int].id {
                    let q = choose|q: int| 0 <= q < i && (#[trigger] cv[q]).id == k;
                    assert(0 <= q < i + 1 && cv[q].id == k);
                } else {
                    assert(0 <= i < i + 1 && cv[i as int].id == k);
                }
            }
        }
    }
    // Find the root among the candidates.
    let ri = match idx_get(&idx, &root_id) {
        None => {
            proof {
                if exists|i: int| 0 <= i < cv.len() && (#[trigger] cv[i]).id == root_id@ {
                    let i = choose|i: int| 0 <= i < cv.len() && (#[trigger] cv[i]).id == root_id@;
                    assert(idx_model(idx).dom().contains(cv[i].id));
                }
            }
            return None;
        },
        Some(p) => p,
    };
    proof {
        assert(idx_model(idx).dom().contains(root_id@));
        let q = choose|q: int| 0 <= q < n && (#[trigger] cv[q]).id == root_id@;
        assert(idx_model(idx)[cv[q].id] == q);
        assert(ri as int == q);
        assert(0 <= ri < n && cv[ri as int].id == root_id@);
    }
    // Group the candidates by parent position, in one pass.
    let mut groups: Vec<Vec<usize>> = Vec::new();
    for p in 0..n
        invariant
            groups@.len() == p,
            forall|q: int| 0 <= q < p ==> (#[trigger] groups@[q])@.len() == 0,
    {
        groups.push(Vec::new());
    }
    for q in 0..n
        invariant
            n == nodes@.len(),
            cv == nodes_view(nodes@),
            ids_distinct(cv),
            pm == pm_model(*parent_map),
            groups@.len() == n,
            groups_ok(cv, groups@, pm),
            forall|q2: int|
                0 <= q2 < n ==> idx_model(idx).dom().contains((#[trigger] cv[q2]).id)
                    && idx_model(idx)[cv[q2].id] == q2,
            forall|k: Seq<char>|
                #[trigger] idx_model(idx).dom().contains(k) ==> exists|q2: int|
                    0 <= q2 < n && (#[trigger] cv[q2]).id == k,
            forall|q2: int, p: int|
                0 <= q2 < q && 0 <= p < n && pm.dom().contains((#[trigger] cv[q2]).id)
                    && pm[cv[q2].id] == (#[trigger] cv[p]).id ==> groups@[p]@.contains(
                    q2 as usize,
                ),
    {
        proof {
            assert(cv[q as int] == nodes@[q as int]@);
        }
        let parent = pm_get(parent_map, &nodes[q].id);
        match parent {
            None => {
                proof {
                    assert(!pm.dom().contains(cv[q as int].id));
                }
            },
            Some(pstr) => {
                match idx_get(&idx, &pstr) {
                    None => {
                        proof {
                            assert forall|q2: int, p: int|
                                0 <= q2 < q + 1 && 0 <= p < n && pm.dom().contains(
                                    (#[trigger] cv[q2]).id,
                                ) && pm[cv[q2].id] == (#[trigger] cv[p]).id implies groups@[p]@.contains(
                                q2 as usize,
                            ) by {
                                if q2 == q {
                                    assert(cv[p].id == pstr@);
                                    assert(idx_model(idx).dom().contains(cv[p].id));
                                }
                            }
                        }
                    },
                    Some(pi) => {
                        proof {
                            assert(idx_model(idx).dom().contains(pstr@));
                            let p2 = choose|p2: int|
                                0 <= p2 < n && (#[trigger] cv[p2]).id == pstr@;
                            assert(idx_model(idx)[cv[p2].id] == p2);
                            assert(pi as int == p2);
                            assert(0 <= pi < n && cv[pi as int].id == pstr@);
                        }
                        let ghost gpre = groups@;
                        let g = &mut groups[pi];
                        g.push(q);
                        proof {
                            assert(groups@[pi as int]@ =~= gpre[pi as int]@.push(q));
                            assert(groups@.len() == n);
                            assert forall|p: int| 0 <= p < n && p != pi implies groups@[p]
                                == gpre[p] by {}
                            assert forall|p: int, j: int|
                                0 <= p < groups@.len() && 0 <= j < groups@[p]@.len() implies {
                                &&& 0 <= #[trigger] groups@[p]@[j] < cv.len()
                                &&& pm.dom().contains(cv[groups@[p]@[j] as int].id)
                                &&& pm[cv[groups@[p]@[j] as int].id] == cv[p].id
                            } by {
                                if p == pi {
                                    if j < gpre[pi as int]@.len() {
                                        assert(groups@[p]@[j] == gpre[p]@[j]);
                                        assert(0 <= gpre[p]@[j] < cv.len());
                                    } else {
                                        assert(groups@[p]@[j] == q);
                                        assert(pm.dom().contains(cv[q as int].id));
                                        assert(pm[cv[q as int].id] == pstr@);
                                        assert(cv[pi as int].id == pstr@);
                                    }
                                } else {
                                    assert(groups@[p]@[j] == gpre[p]@[j]);
                                    assert(0 <= gpre[p]@[j] < cv.len());
                                }
                            }
                            assert forall|q2: int, p: int|
                                0 <= q2 < q + 1 && 0 <= p < n && pm.dom().contains(
                                    (#[trigger] cv[q2]).id,
                                ) && pm[cv[q2].id] == (#[trigger] cv[p]).id implies groups@[p]@.contains(
                                q2 as usize,
                            ) by {
                                if q2 < q {
                                    assert(gpre[p]@.contains(q2 as usize));
                                    if p == pi {
                                        lemma_push_contains_usize(gpre[p]@, q, q2 as usize);
                                    } else {
                                        assert(groups@[p] == gpre[p]);
                                    }
                                } else {
                                    assert(cv[p].id == pm[cv[q as int].id]);
                                    assert(cv[p].id == cv[pi as int].id);
                                    assert(p == pi) by {
                                        if p != pi {
                                            assert(cv[p].id != cv[pi as int].id);
                                        }
                                    }
                                    assert(groups@[pi as int]@[gpre[pi as int]@.len() as int]
                                        == q);
                                    assert(groups@[pi as int]@.contains(q2 as usize));
                                }
                            }
                        }
                    },
                }
            },
        }
    }
    // Consume the candidates by descent from the root.
    let mut visited: Vec<bool> = Vec::new();
    for i in 0..n
        invariant
            visited@.len() == i,
            count_false(visited@) == i,
            forall|k: int| 0 <= k < i ==> !(#[trigger] visited@[k]),
    {
        let ghost vpre = visited@;
        visited.push(false);
        proof {
            assert(visited@.drop_last() =~= vpre);
        }
    }
    let ghost v0 = visited@;
    let t = build_item(&nodes, &groups, ri, &mut visited, Ghost(pm));
    proof {
        assert(item_view(t).id == root_id@);
        assert(item_count(item_view(t)) == count_false(v0) - count_false(visited@));
        assert(item_count(item_view(t)) <= n);
        if rooted(cv, pm, root_id@) {
            assert forall|p: int|
                0 <= p < n && #[trigger] visited@[p] implies (forall|j: int|
                0 <= j < groups@[p]@.len() ==> visited@[#[trigger] groups@[p]@[j] as int]) by {
                assert(!v0[p]);
            }
            assert(groups_complete(cv, groups@, pm));
            assert forall|q: int| 0 <= q < n implies #[trigger] visited@[q] by {
                assert(crate::subtree::reaches(pm, cv[q].id, root_id@, cv.len() as nat));
                assert forall|q2: int|
                    0 <= q2 < cv.len() && (#[trigger] cv[q2]).id != root_id@ implies pm.dom().contains(
                    cv[q2].id,
                ) && exists|p2: int| 0 <= p2 < cv.len() && cv[p2].id == pm[cv[q2].id] by {}
                lemma_all_consumed(
                    cv,
                    groups@,
                    pm,
                    root_id@,
                    visited@,
                    ri as int,
                    q,
                    cv.len() as nat,
                );
            }
            lemma_count_false_all_true(visited@);
            assert(item_count(item_view(t)) == n);
        }
        assert(exists|i: int|
            0 <= i < nodes@.len() && (#[trigger] nodes_view(nodes@)[i]).id == root_id@) by {
            assert(cv[ri as int].id == root_id@);
        }
    }
    Some(t)
}

} // verus!
