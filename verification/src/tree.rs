//! The tree store: the canonical node set, the node-id to node lookup,
//! and the node-id to parent-id index (the parent map), both kept in
//! persistent `im` maps, plus the insertion-order list of node ids that
//! fixes a deterministic ordering. The central invariant: every
//! non-root node has exactly one parent-map entry pointing to an
//! existing node, and every node appears in the order list after its
//! parent, which makes the parent relation acyclic.

use vstd::prelude::*;
use crate::imkv::{pm_clone, pm_get, pm_insert, pm_len, pm_model, pm_new, pool_clone, pool_get,
    pool_insert, pool_len, pool_model, pool_new};
use crate::model::{Node, NodeView, clone_node, contains_str, node_wf, strs_view};
use crate::model::{Mark, MarkView};
use crate::strutil::{dec_seq, lemma_dec_seq_injective, string_of};

verus! {

/// The id of a generated node: the letter `n` followed by the canonical
/// decimal numeral of the counter value.
pub open spec fn gen_id_seq(v: nat) -> Seq<char> {
    seq!['n'] + dec_seq(v)
}

/// Generated ids are injective in the counter value.
pub proof fn lemma_gen_id_injective(a: nat, b: nat)
    requires
        gen_id_seq(a) == gen_id_seq(b),
    ensures
        a == b,
{
    assert(dec_seq(a) =~= gen_id_seq(a).drop_first());
    assert(dec_seq(b) =~= gen_id_seq(b).drop_first());
    lemma_dec_seq_injective(a, b);
}

/// The view of a whole document.
pub ghost struct DocView {
    pub nodes: Map<Seq<char>, NodeView>,
    pub pm: Map<Seq<char>, Seq<char>>,
    pub ids: Seq<Seq<char>>,
    pub root: Seq<char>,
}

/// The central invariant of a document: node ids are the order list's
/// ids, without duplicates and with the root first; every non-root node
/// has exactly one parent entry pointing to an existing node; every
/// node stands after its parent in the order; and every node is keyed
/// by its own id and well formed.
pub open spec fn doc_wf(d: DocView) -> bool {
    &&& d.nodes.dom().finite()
    &&& d.ids.no_duplicates()
    &&& d.nodes.dom() == d.ids.to_set()
    &&& d.ids.len() > 0
    &&& d.ids[0] == d.root
    &&& d.pm.dom() == d.nodes.dom().remove(d.root)
    &&& forall|k: Seq<char>|
        #[trigger] d.pm.dom().contains(k) ==> d.nodes.dom().contains(d.pm[k])
    &&& forall|j: int|
        1 <= j < d.ids.len() ==> d.ids.take(j).contains(#[trigger] d.pm[d.ids[j]])
    &&& forall|k: Seq<char>|
        #[trigger] d.nodes.dom().contains(k) ==> d.nodes[k].id == k && node_wf(d.nodes[k])
}

/// The tree store.
pub struct TreeStore {
    /// The id of the document root node.
    pub root_id: String,
    /// Node id to node.
    pub nodes: im::HashMap<String, Node>,
    /// Node id to parent id; the root has no entry.
    pub parent_map: im::HashMap<String, String>,
    /// All node ids, in insertion order; parents precede children.
    pub order: Vec<String>,
    /// Counter for generated node ids.
    pub next_id: u64,
}

impl TreeStore {
    /// The node set: id to node view.
    pub open spec fn nodes_model(&self) -> Map<Seq<char>, NodeView> {
        pool_model(self.nodes)
    }

    /// The parent map: child id to parent id.
    pub open spec fn pm(&self) -> Map<Seq<char>, Seq<char>> {
        pm_model(self.parent_map)
    }

    /// The node ids in insertion order.
    pub open spec fn ids(&self) -> Seq<Seq<char>> {
        strs_view(self.order@)
    }

    /// The root id.
    pub open spec fn root(&self) -> Seq<char> {
        self.root_id@
    }

    /// The whole document as one mathematical value: the node set, the
    /// parent map, the id order and the root id.
    pub open spec fn doc_view(&self) -> DocView {
        DocView { nodes: self.nodes_model(), pm: self.pm(), ids: self.ids(), root: self.root() }
    }

    /// Whether two stores hold the same document: same node set, same
    /// parent map, same order, same root.
    pub open spec fn same_doc(a: TreeStore, b: TreeStore) -> bool {
        a.doc_view() == b.doc_view()
    }

    /// The central invariant of the store.
    pub open spec fn wf(&self) -> bool {
        doc_wf(self.doc_view())
    }

    /// A store holding only the given root node.
    pub fn new(root: Node) -> (r: TreeStore)
        requires
            node_wf(root@),
        ensures
            r.wf(),
            r.nodes_model() =~= Map::empty().insert(root@.id, root@),
            r.pm() =~= (Map::<Seq<char>, Seq<char>>::empty()),
            r.ids() =~= seq![root@.id],
            r.root() == root@.id,
            r.next_id == 0,
    {
        let root_id = root.id.clone();
        let key = root.id.clone();
        let okey = root.id.clone();
        let ghost rv = root@;
        let mut nodes = pool_new();
        pool_insert(&mut nodes, key, root);
        let parent_map = pm_new();
        let mut order: Vec<String> = Vec::new();
        order.push(okey);
        let r = TreeStore { root_id, nodes, parent_map, order, next_id: 0 };
        proof {
            assert(r.ids() =~= seq![rv.id]);
            assert forall|x: Seq<char>|
                r.nodes_model().dom().contains(x) == r.ids().to_set().contains(x) by {
                if r.nodes_model().dom().contains(x) {
                    assert(x == rv.id);
                    assert(r.ids()[0] == rv.id);
                    assert(r.ids().contains(x));
                }
                if r.ids().to_set().contains(x) {
                    let i = choose|i: int| 0 <= i < r.ids().len() && r.ids()[i] == x;
                    assert(x == rv.id);
                }
            }
            assert(r.nodes_model().dom() =~= r.ids().to_set());
            assert(r.pm().dom() =~= r.nodes_model().dom().remove(r.root()));
        }
        r
    }

    /// The node with the given id, if any.
    pub fn get_node<'a>(&'a self, id: &String) -> (r: Option<&'a Node>)
        ensures
            match r {
                Some(n) => self.nodes_model().dom().contains(id@) && n@ == self.nodes_model()[id@],
                None => !self.nodes_model().dom().contains(id@),
            },
    {
        pool_get(&self.nodes, id)
    }

    /// The parent id of the given node, if it has one.
    pub fn get_parent(&self, id: &String) -> (r: Option<String>)
        ensures
            match r {
                Some(p) => self.pm().dom().contains(id@) && p@ == self.pm()[id@],
                None => !self.pm().dom().contains(id@),
            },
    {
        pm_get(&self.parent_map, id)
    }

    /// The number of nodes in the store.
    pub fn node_count(&self) -> (r: usize)
        requires
            self.wf(),
        ensures
            r == self.nodes_model().dom().len(),
    {
        pool_len(&self.nodes)
    }

    /// The number of parent-map entries: one per non-root node.
    pub fn parent_count(&self) -> (r: usize)
        requires
            self.wf(),
        ensures
            r == self.pm().dom().len(),
    {
        proof {
            assert(self.pm().dom() == self.nodes_model().dom().remove(self.root()));
        }
        pm_len(&self.parent_map)
    }

    /// An O(1) structurally shared copy of the store.
    pub fn snapshot(&self) -> (r: TreeStore)
        ensures
            TreeStore::same_doc(r, *self),
            r.next_id == self.next_id,
            r.wf() == self.wf(),
    {
        let r = TreeStore {
            root_id: self.root_id.clone(),
            nodes: pool_clone(&self.nodes),
            parent_map: pm_clone(&self.parent_map),
            order: clone_order(&self.order),
            next_id: self.next_id,
        };
        proof {
            assert(r.ids() =~= self.ids());
        }
        r
    }

    /// Append a node as a child of an existing parent. The primitive
    /// behind the insert command: the parent must exist and the id must
    /// be fresh.
    pub fn add_node(&mut self, parent_id: &String, node: Node)
        requires
            old(self).wf(),
            old(self).nodes_model().dom().contains(parent_id@),
            !old(self).nodes_model().dom().contains(node@.id),
            node_wf(node@),
        ensures
            final(self).wf(),
            final(self).nodes_model() == old(self).nodes_model().insert(node@.id, node@),
            final(self).pm() == old(self).pm().insert(node@.id, parent_id@),
            final(self).ids() == old(self).ids().push(node@.id),
            final(self).root() == old(self).root(),
            final(self).next_id == old(self).next_id,
    {
        let ghost nv = node@;
        let ghost nid = node@.id;
        let key = node.id.clone();
        let okey = node.id.clone();
        let pkey = node.id.clone();
        pm_insert(&mut self.parent_map, pkey, parent_id.clone());
        pool_insert(&mut self.nodes, key, node);
        self.order.push(okey);
        proof {
            let o = *old(self);
            assert(self.ids() =~= o.ids().push(nid));
            assert(!o.ids().contains(nid));
            let n = o.ids().len() as int;
            assert forall|i: int, j: int|
                0 <= i < j < self.ids().len() implies self.ids()[i] != self.ids()[j] by {
                if j < n {
                    assert(o.ids()[i] != o.ids()[j]);
                } else {
                    assert(self.ids()[j] == nid);
                    assert(self.ids()[i] == o.ids()[i]);
                    assert(o.ids().contains(o.ids()[i]));
                }
            }
            assert forall|x: Seq<char>|
                self.nodes_model().dom().contains(x) implies self.ids().to_set().contains(x) by {
                if x == nid {
                    assert(self.ids()[n] == nid);
                    assert(self.ids().contains(x));
                } else {
                    assert(o.nodes_model().dom().contains(x));
                    assert(o.ids().to_set().contains(x));
                    let i = choose|i: int| 0 <= i < o.ids().len() && o.ids()[i] == x;
                    assert(self.ids()[i] == x);
                    assert(self.ids().contains(x));
                }
            }
            assert forall|x: Seq<char>|
                self.ids().to_set().contains(x) implies self.nodes_model().dom().contains(x) by {
                let i = choose|i: int| 0 <= i < self.ids().len() && self.ids()[i] == x;
                if i < n {
                    assert(o.ids()[i] == x);
                    assert(o.ids().contains(x));
                    assert(o.ids().to_set().contains(x));
                } else {
                    assert(x == nid);
                }
            }
            assert(self.nodes_model().dom() =~= self.ids().to_set());
            assert(nid != o.root()) by {
                assert(o.nodes_model().dom().contains(o.root())) by {
                    assert(o.ids().contains(o.ids()[0]));
                }
            }
            assert(self.pm().dom() =~= self.nodes_model().dom().remove(self.root()));
            assert forall|j: int|
                1 <= j < self.ids().len() implies self.ids().take(j).contains(
                #[trigger] self.pm()[self.ids()[j]],
            ) by {
                if j < n {
                    assert(self.ids()[j] == o.ids()[j]);
                    assert(o.ids().take(j).contains(o.pm()[o.ids()[j]]));
                    assert(self.ids().take(j) =~= o.ids().take(j));
                    assert(o.ids()[j] != nid) by {
                        assert(o.ids().contains(o.ids()[j]));
                    }
                } else {
                    assert(self.ids()[j] == nid);
                    assert(self.pm()[nid] == parent_id@);
                    assert(self.ids().take(j) =~= o.ids());
                    assert(o.ids().to_set().contains(parent_id@));
                }
            }
        }
    }
}

impl TreeStore {
    /// Generate a fresh node id. Probes the counter upward past any
    /// explicit ids that happen to collide; fails only if the counter
    /// space is exhausted, which cannot happen while the counter plus
    /// the node count leaves headroom.
    pub fn generate_id(&mut self) -> (r: Result<String, crate::errors::EditError>)
        requires
            old(self).wf(),
        ensures
            final(self).wf(),
            TreeStore::same_doc(*final(self), *old(self)),
            final(self).root_id == old(self).root_id,
            match r {
                Ok(id) => !final(self).nodes_model().dom().contains(id@),
                Err(e) => e == crate::errors::EditError::SchemaValidationFailed,
            },
            old(self).next_id + old(self).nodes_model().dom().len() < u64::MAX ==> r is Ok,
    {
        let ghost o = *self;
        let ghost start = self.next_id as nat;
        loop
            invariant
                o == *old(self),
                start == old(self).next_id as nat,
                self.wf(),
                self.nodes == o.nodes,
                self.parent_map == o.parent_map,
                self.order == o.order,
                self.root_id == o.root_id,
                start <= self.next_id,
                forall|v: nat|
                    start <= v < self.next_id ==> o.nodes_model().dom().contains(
                        #[trigger] gen_id_seq(v),
                    ),
            decreases u64::MAX - self.next_id,
        {
            let cur = self.next_id;
            let mut chars: Vec<char> = Vec::new();
            chars.push('n');
            crate::strutil::dec_chars_into(cur, &mut chars);
            proof {
                assert(chars@ =~= gen_id_seq(cur as nat));
            }
            let id = string_of(&chars);
            let taken = pool_get(&self.nodes, &id).is_some();
            if !taken {
                if cur < u64::MAX {
                    self.next_id = cur + 1;
                }
                return Ok(id);
            }
            if cur == u64::MAX {
                proof {
                    assert forall|v: nat|
                        start <= v <= u64::MAX implies o.nodes_model().dom().contains(
                        #[trigger] gen_id_seq(v),
                    ) by {
                        if v == u64::MAX {
                            assert(o.nodes_model().dom().contains(gen_id_seq(cur as nat)));
                        }
                    }
                    lemma_gen_range_in_dom_card(
                        o.nodes_model().dom(),
                        start,
                        (u64::MAX + 1) as nat,
                    );
                }
                return Err(crate::errors::EditError::SchemaValidationFailed);
            }
            self.next_id = cur + 1;
        }
    }
}

/// Whether some mark in `s` bears the given name.
pub open spec fn has_mark(s: Seq<MarkView>, name: Seq<char>) -> bool {
    exists|i: int| 0 <= i < s.len() && s[i].name == name
}

/// The position of the mark bearing the given name, or the length of
/// the list if there is none.
fn find_mark_index(marks: &Vec<Mark>, name: &String) -> (r: usize)
    ensures
        r <= marks@.len(),
        r < marks@.len() ==> crate::model::marks_view(marks@)[r as int].name == name@,
        r == marks@.len() ==> !has_mark(crate::model::marks_view(marks@), name@),
{
    let n = marks.len();
    for i in 0..n
        invariant
            n == marks.len(),
            forall|j: int| 0 <= j < i ==> crate::model::marks_view(marks@)[j].name != name@,
    {
        proof {
            assert(crate::model::marks_view(marks@)[i as int] == marks@[i as int]@);
        }
        if marks[i].name == *name {
            return i;
        }
    }
    n
}

/// The marks of a node after attaching `m`: the mark of the same name
/// is replaced if present, else `m` is appended. At most one mark per
/// name.
pub open spec fn upsert_marks(s: Seq<MarkView>, m: MarkView) -> Seq<MarkView> {
    if has_mark(s, m.name) {
        s.map_values(|x: MarkView| if x.name == m.name { m } else { x })
    } else {
        s.push(m)
    }
}

/// The view of a node after attaching a mark.
pub open spec fn with_mark(n: NodeView, m: MarkView) -> NodeView {
    NodeView { marks: upsert_marks(n.marks, m), ..n }
}

impl TreeStore {
    /// Attach a mark to an existing node, replacing any mark of the
    /// same name on that node.
    pub fn attach_mark(&mut self, id: &String, mark: Mark)
        requires
            old(self).wf(),
            old(self).nodes_model().dom().contains(id@),
            crate::model::attr_keys_unique(mark@.attrs),
        ensures
            final(self).wf(),
            final(self).nodes_model() == old(self).nodes_model().insert(
                id@,
                with_mark(old(self).nodes_model()[id@], mark@),
            ),
            final(self).pm() == old(self).pm(),
            final(self).ids() == old(self).ids(),
            final(self).root() == old(self).root(),
            final(self).next_id == old(self).next_id,
    {
        let ghost o = *old(self);
        let ghost mv = mark@;
        let ghost nv = o.nodes_model()[id@];
        let nref = pool_get(&self.nodes, id);
        let mut node = clone_node(nref.unwrap());
        let key = node.id.clone();
        let n = node.marks.len();
        let at = find_mark_index(&node.marks, &mark.name);
        if at < n {
            proof {
                assert(has_mark(nv.marks, mv.name));
            }
            node.marks.set(at, mark);
            proof {
                assert forall|j: int|
                    0 <= j < nv.marks.len() implies crate::model::marks_view(node.marks@)[j]
                    == upsert_marks(nv.marks, mv)[j] by {
                    assert(crate::model::marks_view(node.marks@)[j] == node.marks@[j]@);
                    if j != at {
                        assert(nv.marks[j] == node.marks@[j]@);
                        if nv.marks[j].name == mv.name {
                            assert(nv.marks[at as int].name == mv.name);
                        }
                    }
                }
                assert(crate::model::marks_view(node.marks@) =~= upsert_marks(nv.marks, mv));
            }
        } else {
            proof {
                assert(!has_mark(nv.marks, mv.name));
            }
            node.marks.push(mark);
            proof {
                assert(crate::model::marks_view(node.marks@) =~= upsert_marks(nv.marks, mv));
            }
        }
        proof {
            assert(node@ == with_mark(nv, mv));
        }
        pool_insert(&mut self.nodes, key, node);
        proof {
            assert(self.nodes_model() == o.nodes_model().insert(id@, with_mark(nv, mv)));
            assert(self.nodes_model().dom() =~= o.nodes_model().dom());
            assert(self.pm().dom() =~= self.nodes_model().dom().remove(self.root()));
            assert(node_wf(with_mark(nv, mv))) by {
                let um = upsert_marks(nv.marks, mv);
                if has_mark(nv.marks, mv.name) {
                    assert forall|i: int, j: int|
                        0 <= i < j < um.len() implies um[i].name != um[j].name by {
                        assert(nv.marks[i].name != nv.marks[j].name);
                    }
                    assert forall|i: int|
                        0 <= i < um.len() implies crate::model::attr_keys_unique(
                        #[trigger] um[i].attrs,
                    ) by {
                        if nv.marks[i].name != mv.name {
                            assert(um[i] == nv.marks[i]);
                        }
                    }
                } else {
                    assert forall|i: int, j: int|
                        0 <= i < j < um.len() implies um[i].name != um[j].name by {
                        if j < nv.marks.len() {
                            assert(nv.marks[i].name != nv.marks[j].name);
                        } else {
                            if nv.marks[i].name == mv.name {
                                assert(has_mark(nv.marks, mv.name));
                            }
                        }
                    }
                }
            }
            assert forall|k: Seq<char>|
                #[trigger] self.nodes_model().dom().contains(k) implies self.nodes_model()[k].id
                == k && node_wf(self.nodes_model()[k]) by {
                if k != id@ {
                    assert(o.nodes_model().dom().contains(k));
                }
            }
        }
    }

    /// The nodes whose type is one of the given names, in insertion
    /// order. The caller's filtered candidate set for reconstruction.
    pub fn query_nodes(&self, filter: &Vec<String>) -> (r: Vec<Node>)
        requires
            self.wf(),
        ensures
            crate::model::nodes_view(r@) == query_spec(
                self.ids(),
                self.nodes_model(),
                strs_view(filter@).to_set(),
            ),
    {
        let ghost filt = strs_view(filter@).to_set();
        let mut out: Vec<Node> = Vec::new();
        let n = self.order.len();
        proof {
            assert(crate::model::nodes_view(out@) =~= query_spec(
                self.ids().take(0),
                self.nodes_model(),
                filt,
            ));
        }
        for i in 0..n
            invariant
                self.wf(),
                n == self.order.len(),
                filt == strs_view(filter@).to_set(),
                crate::model::nodes_view(out@) == query_spec(
                    self.ids().take(i as int),
                    self.nodes_model(),
                    filt,
                ),
        {
            let ghost prev = out@;
            let k = &self.order[i];
            proof {
                assert(self.ids()[i as int] == k@);
                assert(self.ids().contains(k@)) by {
                    assert(self.ids()[i as int] == k@);
                }
                assert(self.ids().to_set().contains(k@));
            }
            let nref = pool_get(&self.nodes, k);
            let node = nref.unwrap();
            if contains_str(filter, &node.node_type) {
                out.push(clone_node(node));
            }
            proof {
                assert(self.ids().take(i + 1).drop_last() =~= self.ids().take(i as int));
                assert(self.ids().take(i + 1).last() == self.ids()[i as int]);
                assert(strs_view(filter@).contains(self.nodes_model()[k@].node_type)
                    == filt.contains(self.nodes_model()[k@].node_type));
                if out@.len() > prev.len() {
                    assert(crate::model::nodes_view(out@) =~= crate::model::nodes_view(
                        prev,
                    ).push(out@.last()@));
                }
                assert(crate::model::nodes_view(out@) =~= query_spec(
                    self.ids().take(i + 1),
                    self.nodes_model(),
                    filt,
                ));
            }
        }
        proof {
            assert(self.ids().take(n as int) =~= self.ids());
        }
        out
    }
}

/// The views of the nodes named by `ids` whose type lies in `filt`, in
/// the order of `ids`.
pub open spec fn query_spec(
    ids: Seq<Seq<char>>,
    m: Map<Seq<char>, NodeView>,
    filt: Set<Seq<char>>,
) -> Seq<NodeView>
    decreases ids.len(),
{
    if ids.len() == 0 {
        Seq::empty()
    } else {
        let rest = query_spec(ids.drop_last(), m, filt);
        let k = ids.last();
        if m.dom().contains(k) && filt.contains(m[k].node_type) {
            rest.push(m[k])
        } else {
            rest
        }
    }
}

/// If every generated id with counter in `[a, b)` lies in a finite set,
/// the set has at least `b - a` elements.
proof fn lemma_gen_range_in_dom_card(dom: Set<Seq<char>>, a: nat, b: nat)
    requires
        dom.finite(),
        a <= b,
        forall|v: nat| a <= v < b ==> dom.contains(#[trigger] gen_id_seq(v)),
    ensures
        b - a <= dom.len(),
    decreases b - a,
{
    if a < b {
        let d2 = dom.remove(gen_id_seq(a));
        assert forall|v: nat| a + 1 <= v < b implies d2.contains(#[trigger] gen_id_seq(v)) by {
            if gen_id_seq(v) == gen_id_seq(a) {
                lemma_gen_id_injective(v, a);
            }
        }
        lemma_gen_range_in_dom_card(d2, (a + 1) as nat, b);
        assert(dom.contains(gen_id_seq(a)));
        assert(d2.len() == dom.len() - 1);
    }
}

/// Clone the order list, keeping its view.
fn clone_order(v: &Vec<String>) -> (r: Vec<String>)
    ensures
        strs_view(r@) == strs_view(v@),
{
    let mut out: Vec<String> = Vec::new();
    let n = v.len();
    for i in 0..n
        invariant
            n == v.len(),
            out@.len() == i,
            forall|j: int| 0 <= j < i ==> #[trigger] out@[j]@ == v@[j]@,
    {
        out.push(v[i].clone());
    }
    proof {
        assert(strs_view(out@) =~= strs_view(v@));
    }
    out
}

} // verus!
