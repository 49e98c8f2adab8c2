//! Session initialization: the registered node types and marks of the
//! estimation document (project, sub-project, unit work, sections,
//! items, norms and resources), the default options, and editor
//! construction.

use vstd::prelude::*;
use crate::editor::{DemoEditor, DemoEditorOptions, GcxmPost};
use crate::model::{Attr, AttrView, attrs_view};
use crate::schema::{DescView, MarkDescriptor, NodeTypeDescriptor, Schema, mark_types_view,
    node_types_view};

verus! {

/// A descriptor view with one declared attribute.
pub open spec fn desc1(name: Seq<char>, key: Seq<char>, value: Seq<char>) -> DescView {
    DescView { name, attrs: seq![(AttrView { key, value })] }
}

/// The node types every editor session registers: the project root,
/// sub-projects, unit works, sections, items, norms and resources,
/// each carrying a display name.
pub open spec fn default_node_types() -> Seq<DescView> {
    seq![
        desc1("gcxm"@, "name"@, ""@),
        desc1("dxgc"@, "name"@, ""@),
        desc1("dwgc"@, "name"@, ""@),
        desc1("fbfx"@, "name"@, ""@),
        desc1("csxm"@, "name"@, ""@),
        desc1("de"@, "name"@, ""@),
        desc1("rcj"@, "name"@, ""@),
    ]
}

/// The marks every editor session registers: a background colour and a
/// footnote, each carrying a value.
pub open spec fn default_mark_types() -> Seq<DescView> {
    seq![desc1("bgColor"@, "value"@, "#ffffff"@), desc1("footnote"@, "value"@, ""@)]
}

/// A node type descriptor with one declared attribute.
fn node_desc(name: &str, key: &str, value: &str) -> (r: NodeTypeDescriptor)
    ensures
        r@ == desc1(name@, key@, value@),
{
    let mut attrs: Vec<Attr> = Vec::new();
    attrs.push(Attr { key: String::from_str(key), value: String::from_str(value) });
    proof {
        assert(attrs_view(attrs@) =~= desc1(name@, key@, value@).attrs);
    }
    NodeTypeDescriptor { name: String::from_str(name), attrs }
}

/// A mark descriptor with one declared attribute.
fn mark_desc(name: &str, key: &str, value: &str) -> (r: MarkDescriptor)
    ensures
        r@ == desc1(name@, key@, value@),
{
    let mut attrs: Vec<Attr> = Vec::new();
    attrs.push(Attr { key: String::from_str(key), value: String::from_str(value) });
    proof {
        assert(attrs_view(attrs@) =~= desc1(name@, key@, value@).attrs);
    }
    MarkDescriptor { name: String::from_str(name), attrs }
}

/// The registered extensions of every session: the document's node
/// types and marks, as the schema the command layer validates against.
pub fn init_extension() -> (r: Schema)
    ensures
        r.wf(),
        r.top_type@ == "gcxm"@,
        node_types_view(&r) == default_node_types(),
        mark_types_view(&r) == default_mark_types(),
{
    let mut node_types: Vec<NodeTypeDescriptor> = Vec::new();
    node_types.push(node_desc("gcxm", "name", ""));
    node_types.push(node_desc("dxgc", "name", ""));
    node_types.push(node_desc("dwgc", "name", ""));
    node_types.push(node_desc("fbfx", "name", ""));
    node_types.push(node_desc("csxm", "name", ""));
    node_types.push(node_desc("de", "name", ""));
    node_types.push(node_desc("rcj", "name", ""));
    let mut mark_types: Vec<MarkDescriptor> = Vec::new();
    mark_types.push(mark_desc("bgColor", "value", "#ffffff"));
    mark_types.push(mark_desc("footnote", "value", ""));
    let r = Schema { top_type: String::from_str("gcxm"), node_types, mark_types };
    proof {
        assert(node_types_view(&r) =~= default_node_types());
        assert(mark_types_view(&r) =~= default_mark_types());
        assert(crate::schema::find_desc(node_types_view(&r), r.top_type@) is Some) by {
            assert(node_types_view(&r)[0].name == "gcxm"@);
        }
        assert forall|i: int|
            0 <= i < node_types_view(&r).len() implies crate::schema::desc_wf(
            #[trigger] node_types_view(&r)[i],
        ) by {
            assert(node_types_view(&r)[i].attrs.len() == 1);
        }
        assert forall|i: int|
            0 <= i < mark_types_view(&r).len() implies crate::schema::desc_wf(
            #[trigger] mark_types_view(&r)[i],
        ) by {
            assert(mark_types_view(&r)[i].attrs.len() == 1);
        }
    }
    r
}

/// The default session options: the registered extensions and a
/// history bound of twenty entries.
pub fn init_options() -> (r: DemoEditorOptions)
    ensures
        r.schema.wf(),
        r.schema.top_type@ == "gcxm"@,
        node_types_view(&r.schema) == default_node_types(),
        mark_types_view(&r.schema) == default_mark_types(),
        r.history_limit == 20,
{
    DemoEditorOptions { schema: init_extension(), history_limit: 20 }
}

/// Construct an editor session from options and a creation payload.
pub fn init_editor(options: DemoEditorOptions, post: &GcxmPost, now_secs: u64) -> (r: DemoEditor)
    requires
        options.schema.wf(),
        post.id is Some,
        now_secs < u64::MAX - 86400,
    ensures
        r.wf(),
        r.schema == options.schema,
        r.version == 1,
        r.store.root() == (post.id->0)@,
        r.history@.past.len() == 0,
        r.history@.future.len() == 0,
        r.history@.limit == options.history_limit as int,
    {
    DemoEditor::create(options, post, now_secs)
}

} // verus!
