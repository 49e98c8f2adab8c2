//! The schema registry: node-type and mark descriptors, name resolution,
//! and schema-validated construction of nodes and marks. A descriptor
//! declares the attribute names a node or mark of that type carries and
//! the default value of each; construction keeps a provided value for
//! each declared attribute and drops unknown attributes.

use vstd::prelude::*;
use crate::model::{Attr, AttrView, Mark, Node, NodeView, attr_keys_unique, attr_lookup,
    attrs_view, find_attr, node_wf};

verus! {

/// The view of a descriptor: its name and its declared attributes
/// (attribute name paired with default value).
pub ghost struct DescView {
    pub name: Seq<char>,
    pub attrs: Seq<AttrView>,
}

/// Describes one node type: its name and its declared attributes.
#[derive(Clone, Debug)]
pub struct NodeTypeDescriptor {
    pub name: String,
    pub attrs: Vec<Attr>,
}

impl View for NodeTypeDescriptor {
    type V = DescView;

    open spec fn view(&self) -> DescView {
        DescView { name: self.name@, attrs: attrs_view(self.attrs@) }
    }
}

/// Describes one mark type: its name and its declared attributes.
#[derive(Clone, Debug)]
pub struct MarkDescriptor {
    pub name: String,
    pub attrs: Vec<Attr>,
}

impl View for MarkDescriptor {
    type V = DescView;

    open spec fn view(&self) -> DescView {
        DescView { name: self.name@, attrs: attrs_view(self.attrs@) }
    }
}

/// The first descriptor named `name`, if any.
pub open spec fn find_desc(s: Seq<DescView>, name: Seq<char>) -> Option<DescView>
    decreases s.len(),
{
    if s.len() == 0 {
        None
    } else if s[0].name == name {
        Some(s[0])
    } else {
        find_desc(s.drop_first(), name)
    }
}

/// A found descriptor is an element of the registry and bears the
/// looked-up name.
pub proof fn lemma_find_desc_found(s: Seq<DescView>, name: Seq<char>)
    requires
        find_desc(s, name) is Some,
    ensures
        exists|i: int| 0 <= i < s.len() && s[i] == find_desc(s, name)->0,
        (find_desc(s, name)->0).name == name,
    decreases s.len(),
{
    if s.len() > 0 {
        if s[0].name == name {
            assert(s[0] == find_desc(s, name)->0);
        } else {
            lemma_find_desc_found(s.drop_first(), name);
            let i = choose|i: int|
                0 <= i < s.drop_first().len() && s.drop_first()[i] == find_desc(
                    s.drop_first(),
                    name,
                )->0;
            assert(s[i + 1] == find_desc(s, name)->0);
        }
    }
}

/// A well-formed descriptor: declared attribute names are distinct.
pub open spec fn desc_wf(d: DescView) -> bool {
    attr_keys_unique(d.attrs)
}

/// The schema: the registered node types, the registered mark types, and
/// the name of the top (document root) node type.
#[derive(Clone, Debug)]
pub struct Schema {
    pub top_type: String,
    pub node_types: Vec<NodeTypeDescriptor>,
    pub mark_types: Vec<MarkDescriptor>,
}

/// The views of the registered node types.
pub open spec fn node_types_view(s: &Schema) -> Seq<DescView> {
    s.node_types@.map_values(|d: NodeTypeDescriptor| d@)
}

/// The views of the registered mark types.
pub open spec fn mark_types_view(s: &Schema) -> Seq<DescView> {
    s.mark_types@.map_values(|d: MarkDescriptor| d@)
}

impl Schema {
    /// A well-formed schema: every descriptor has distinct attribute
    /// names, and the top type is registered.
    pub open spec fn wf(&self) -> bool {
        &&& forall|i: int|
            0 <= i < node_types_view(self).len() ==> desc_wf(#[trigger] node_types_view(self)[i])
        &&& forall|i: int|
            0 <= i < mark_types_view(self).len() ==> desc_wf(#[trigger] mark_types_view(self)[i])
        &&& find_desc(node_types_view(self), self.top_type@) is Some
    }

    /// Resolve a node type name to its descriptor.
    pub fn resolve_type(&self, name: &String) -> (r: Option<&NodeTypeDescriptor>)
        ensures
            match r {
                Some(d) => find_desc(node_types_view(self), name@) == Some(d@),
                None => find_desc(node_types_view(self), name@) is None,
            },
    {
        let n = self.node_types.len();
        proof {
            assert(node_types_view(self).skip(0) =~= node_types_view(self));
        }
        for i in 0..n
            invariant
                n == self.node_types.len(),
                find_desc(node_types_view(self), name@) == find_desc(
                    node_types_view(self).skip(i as int),
                    name@,
                ),
        {
            proof {
                assert(node_types_view(self).skip(i as int).drop_first() =~= node_types_view(
                    self,
                ).skip(i + 1));
            }
            if self.node_types[i].name == *name {
                return Some(&self.node_types[i]);
            }
        }
        None
    }

    /// Resolve a mark name to its descriptor.
    pub fn resolve_mark(&self, name: &String) -> (r: Option<&MarkDescriptor>)
        ensures
            match r {
                Some(d) => find_desc(mark_types_view(self), name@) == Some(d@),
                None => find_desc(mark_types_view(self), name@) is None,
            },
    {
        let n = self.mark_types.len();
        proof {
            assert(mark_types_view(self).skip(0) =~= mark_types_view(self));
        }
        for i in 0..n
            invariant
                n == self.mark_types.len(),
                find_desc(mark_types_view(self), name@) == find_desc(
                    mark_types_view(self).skip(i as int),
                    name@,
                ),
        {
            proof {
                assert(mark_types_view(self).skip(i as int).drop_first() =~= mark_types_view(
                    self,
                ).skip(i + 1));
            }
            if self.mark_types[i].name == *name {
                return Some(&self.mark_types[i]);
            }
        }
        None
    }
}

/// The value construction gives a declared attribute: the first provided
/// value of that name, or the declared default.
pub open spec fn filled_value(d: AttrView, prov: Seq<AttrView>) -> Seq<char> {
    match attr_lookup(prov, d.key) {
        Some(v) => v,
        None => d.value,
    }
}

/// The attributes of a freshly constructed node or mark: one per
/// declared attribute, in declaration order, each filled from the
/// provided attributes or defaulted; unknown provided names are dropped.
pub open spec fn filled_attrs(decl: Seq<AttrView>, prov: Seq<AttrView>) -> Seq<AttrView> {
    decl.map_values(|d: AttrView| AttrView { key: d.key, value: filled_value(d, prov) })
}

/// Fill the declared attributes of `decl` from `provided`.
fn fill_attrs(decl: &Vec<Attr>, provided: &Vec<Attr>) -> (r: Vec<Attr>)
    ensures
        attrs_view(r@) == filled_attrs(attrs_view(decl@), attrs_view(provided@)),
{
    let ghost gdecl = attrs_view(decl@);
    let ghost gprov = attrs_view(provided@);
    let mut out: Vec<Attr> = Vec::new();
    let n = decl.len();
    proof {
        assert(attrs_view(out@) =~= filled_attrs(gdecl.take(0), gprov));
    }
    for i in 0..n
        invariant
            n == decl.len(),
            gdecl == attrs_view(decl@),
            gprov == attrs_view(provided@),
            out@.len() == i,
            attrs_view(out@) == filled_attrs(gdecl.take(i as int), gprov),
    {
        let value = match find_attr(provided, &decl[i].key) {
            Some(v) => v,
            None => decl[i].value.clone(),
        };
        let a = Attr { key: decl[i].key.clone(), value };
        proof {
            assert(a@.key == gdecl[i as int].key);
            assert(a@.value == filled_value(gdecl[i as int], gprov));
        }
        let ghost prev = out@;
        out.push(a);
        proof {
            assert(out@ == prev.push(a));
            assert(gdecl.take(i + 1) =~= gdecl.take(i as int).push(gdecl[i as int]));
            assert forall|j: int| 0 <= j < i + 1 implies attrs_view(out@)[j] == filled_attrs(
                gdecl.take(i + 1),
                gprov,
            )[j] by {
                if j < i {
                    assert(attrs_view(prev)[j] == prev[j]@);
                    assert(out@[j] == prev[j]);
                    assert(filled_attrs(gdecl.take(i as int), gprov)[j] == filled_attrs(
                        gdecl.take(i + 1),
                        gprov,
                    )[j]);
                } else {
                    assert(out@[j] == a);
                    assert(a@ == filled_attrs(gdecl.take(i + 1), gprov)[i as int]);
                }
                assert(attrs_view(out@)[j] == out@[j]@);
            }
            assert(attrs_view(out@) =~= filled_attrs(gdecl.take(i + 1), gprov));
        }
    }
    proof {
        assert(gdecl.take(n as int) =~= gdecl);
    }
    out
}

/// Schema-validated construction of a node of the descriptor's type:
/// the node carries exactly the declared attributes, filled from the
/// provided ones, and starts with no marks.
pub fn construct_node(desc: &NodeTypeDescriptor, id: String, provided: &Vec<Attr>) -> (r: Node)
    ensures
        r@.id == id@,
        r@.node_type == desc@.name,
        r@.attrs == filled_attrs(desc@.attrs, attrs_view(provided@)),
        r@.marks.len() == 0,
        desc_wf(desc@) ==> node_wf(r@),
{
    let attrs = fill_attrs(&desc.attrs, provided);
    let r = Node { id, node_type: desc.name.clone(), attrs, marks: Vec::new() };
    proof {
        assert(marks_empty_ok(r@));
    }
    r
}

/// Helper fact: a node without marks satisfies the mark side of
/// well-formedness.
pub open spec fn marks_empty_ok(n: NodeView) -> bool {
    n.marks.len() == 0
}

/// Schema-validated construction of a mark of the descriptor's name:
/// the mark carries exactly the declared attributes, filled from the
/// provided ones.
pub fn create_mark(desc: &MarkDescriptor, provided: &Vec<Attr>) -> (r: Mark)
    ensures
        r@.name == desc@.name,
        r@.attrs == filled_attrs(desc@.attrs, attrs_view(provided@)),
        desc_wf(desc@) ==> attr_keys_unique(r@.attrs),
{
    let attrs = fill_attrs(&desc.attrs, provided);
    Mark { name: desc.name.clone(), attrs }
}

} // verus!
