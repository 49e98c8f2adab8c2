//! The data model: attributes, marks and nodes, with their mathematical
//! views. A node is a typed, attribute-bearing unit of the document tree;
//! a mark is a named annotation attached to a node, at most one per name.

use vstd::prelude::*;

verus! {

/// One attribute: a name and its value.
#[derive(Clone, Debug)]
pub struct Attr {
    pub key: String,
    pub value: String,
}

/// The view of an attribute: both sides as character sequences.
pub ghost struct AttrView {
    pub key: Seq<char>,
    pub value: Seq<char>,
}

impl View for Attr {
    type V = AttrView;

    open spec fn view(&self) -> AttrView {
        AttrView { key: self.key@, value: self.value@ }
    }
}

/// The view of a list of attributes.
pub open spec fn attrs_view(s: Seq<Attr>) -> Seq<AttrView> {
    s.map_values(|a: Attr| a@)
}

/// The value of the first attribute named `key`, if any.
pub open spec fn attr_lookup(s: Seq<AttrView>, key: Seq<char>) -> Option<Seq<char>>
    decreases s.len(),
{
    if s.len() == 0 {
        None
    } else if s[0].key == key {
        Some(s[0].value)
    } else {
        attr_lookup(s.drop_first(), key)
    }
}

/// Whether some attribute in `s` is named `key`.
pub open spec fn attr_has_key(s: Seq<AttrView>, key: Seq<char>) -> bool {
    attr_lookup(s, key) is Some
}

/// Attribute names are pairwise distinct.
pub open spec fn attr_keys_unique(s: Seq<AttrView>) -> bool {
    forall|i: int, j: int| 0 <= i < j < s.len() ==> s[i].key != s[j].key
}

/// Find the value of the first attribute named `key`.
pub fn find_attr(attrs: &Vec<Attr>, key: &String) -> (r: Option<String>)
    ensures
        match r {
            Some(v) => attr_lookup(attrs_view(attrs@), key@) == Some(v@),
            None => attr_lookup(attrs_view(attrs@), key@) is None,
        },
{
    let n = attrs.len();
    proof {
        assert(attrs_view(attrs@).skip(0) =~= attrs_view(attrs@));
    }
    for i in 0..n
        invariant
            n == attrs.len(),
            attr_lookup(attrs_view(attrs@), key@) == attr_lookup(
                attrs_view(attrs@).skip(i as int),
                key@,
            ),
    {
        proof {
            assert(attrs_view(attrs@).skip(i as int).drop_first() =~= attrs_view(attrs@).skip(
                i + 1,
            ));
        }
        if attrs[i].key == *key {
            return Some(attrs[i].value.clone());
        }
    }
    None
}

/// The views of a list of strings.
pub open spec fn strs_view(s: Seq<String>) -> Seq<Seq<char>> {
    s.map_values(|x: String| x@)
}

/// Whether the list contains a string with the given view.
pub fn contains_str(v: &Vec<String>, x: &String) -> (r: bool)
    ensures
        r == strs_view(v@).contains(x@),
{
    let n = v.len();
    for i in 0..n
        invariant
            n == v.len(),
            forall|j: int| 0 <= j < i ==> strs_view(v@)[j] != x@,
    {
        if v[i] == *x {
            proof {
                assert(strs_view(v@)[i as int] == x@);
            }
            return true;
        }
        proof {
            assert(strs_view(v@)[i as int] == v@[i as int]@);
        }
    }
    proof {
        assert forall|j: int| 0 <= j < strs_view(v@).len() implies strs_view(v@)[j] != x@ by {}
    }
    false
}

/// Clone a list of attributes, keeping its view.
pub fn clone_attrs(v: &Vec<Attr>) -> (r: Vec<Attr>)
    ensures
        attrs_view(r@) == attrs_view(v@),
{
    let mut out: Vec<Attr> = Vec::new();
    let n = v.len();
    for i in 0..n
        invariant
            n == v.len(),
            out@.len() == i,
            forall|j: int| 0 <= j < i ==> #[trigger] out@[j]@ == v@[j]@,
    {
        out.push(Attr { key: v[i].key.clone(), value: v[i].value.clone() });
    }
    proof {
        assert(attrs_view(out@) =~= attrs_view(v@));
    }
    out
}

/// A named, attribute-bearing annotation attached to a node.
#[derive(Clone, Debug)]
pub struct Mark {
    pub name: String,
    pub attrs: Vec<Attr>,
}

/// The view of a mark.
pub ghost struct MarkView {
    pub name: Seq<char>,
    pub attrs: Seq<AttrView>,
}

impl View for Mark {
    type V = MarkView;

    open spec fn view(&self) -> MarkView {
        MarkView { name: self.name@, attrs: attrs_view(self.attrs@) }
    }
}

/// The view of a list of marks.
pub open spec fn marks_view(s: Seq<Mark>) -> Seq<MarkView> {
    s.map_values(|m: Mark| m@)
}

/// Mark names are pairwise distinct: at most one mark per name.
pub open spec fn mark_names_unique(s: Seq<MarkView>) -> bool {
    forall|i: int, j: int| 0 <= i < j < s.len() ==> s[i].name != s[j].name
}

/// A typed, attribute-bearing unit of the document tree. Its position is
/// implied by the parent map, not stored on the node itself.
#[derive(Clone, Debug)]
pub struct Node {
    pub id: String,
    pub node_type: String,
    pub attrs: Vec<Attr>,
    pub marks: Vec<Mark>,
}

/// The view of a node.
pub ghost struct NodeView {
    pub id: Seq<char>,
    pub node_type: Seq<char>,
    pub attrs: Seq<AttrView>,
    pub marks: Seq<MarkView>,
}

impl View for Node {
    type V = NodeView;

    open spec fn view(&self) -> NodeView {
        NodeView {
            id: self.id@,
            node_type: self.node_type@,
            attrs: attrs_view(self.attrs@),
            marks: marks_view(self.marks@),
        }
    }
}

/// Clone a list of marks, keeping its view.
pub fn clone_marks(v: &Vec<Mark>) -> (r: Vec<Mark>)
    ensures
        marks_view(r@) == marks_view(v@),
{
    let mut out: Vec<Mark> = Vec::new();
    let n = v.len();
    for i in 0..n
        invariant
            n == v.len(),
            out@.len() == i,
            forall|j: int| 0 <= j < i ==> #[trigger] out@[j]@ == v@[j]@,
    {
        out.push(Mark { name: v[i].name.clone(), attrs: clone_attrs(&v[i].attrs) });
    }
    proof {
        assert(marks_view(out@) =~= marks_view(v@));
    }
    out
}

/// Clone a node, keeping its view.
pub fn clone_node(n: &Node) -> (r: Node)
    ensures
        r@ == n@,
{
    Node {
        id: n.id.clone(),
        node_type: n.node_type.clone(),
        attrs: clone_attrs(&n.attrs),
        marks: clone_marks(&n.marks),
    }
}

/// The views of a list of nodes.
pub open spec fn nodes_view(s: Seq<Node>) -> Seq<NodeView> {
    s.map_values(|n: Node| n@)
}

/// A well-formed node: attribute names unique, mark names unique, and
/// each mark's own attribute names unique.
pub open spec fn node_wf(n: NodeView) -> bool {
    &&& attr_keys_unique(n.attrs)
    &&& mark_names_unique(n.marks)
    &&& forall|i: int| 0 <= i < n.marks.len() ==> attr_keys_unique(#[trigger] n.marks[i].attrs)
}

} // verus!
