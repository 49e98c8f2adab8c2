use gcxm_core::commands::{AddFootNoteCammand, DeleteGcxmCammand, EditCommand, InsertChildCammand};
use gcxm_core::editor::{DemoEditor, DemoEditorOptions, GcxmPost};
use gcxm_core::errors::EditError;
use gcxm_core::initialize::{init_extension, init_options};
use gcxm_core::model::Attr;
use gcxm_core::schema::{NodeTypeDescriptor, Schema};

const NOW: u64 = 1_700_000_000;

fn post(id: &str) -> GcxmPost {
    GcxmPost { name: String::from("Demo Project"), id: Some(String::from(id)) }
}

fn default_editor() -> DemoEditor {
    DemoEditor::create(init_options(), &post("root"), NOW)
}

fn insert_cmd(parent: &str, id: Option<&str>, ty: &str, name: &str) -> EditCommand {
    EditCommand::Insert(InsertChildCammand {
        editor_name: String::from("root"),
        parent_id: String::from(parent),
        id: id.map(String::from),
        node_type: String::from(ty),
        other: vec![Attr { key: String::from("name"), value: String::from(name) }],
    })
}

fn delete_cmd(id: &str) -> EditCommand {
    EditCommand::Delete(DeleteGcxmCammand {
        editor_name: String::from("root"),
        id: String::from(id),
    })
}

fn footnote_cmd(id: &str, note: &str) -> EditCommand {
    EditCommand::Footnote(AddFootNoteCammand {
        editor_name: String::from("root"),
        id: String::from(id),
        footnote: String::from(note),
    })
}

fn apply(ed: &mut DemoEditor, cmd: &EditCommand, desc: &str) -> Result<(), EditError> {
    ed.command_with_meta(cmd, String::from(desc), Vec::new(), NOW)
}

fn count_items(t: &gcxm_core::treeview::GcxmTreeItem) -> usize {
    let mut total: usize = 1;
    for c in &t.children {
        total += count_items(c);
    }
    total
}

#[test]
fn create_seeds_single_root() {
    let ed = default_editor();
    assert_eq!(ed.doc().node_count(), 1);
    let root = ed.doc().get_node(&String::from("root")).expect("root exists");
    assert_eq!(root.node_type, "gcxm");
    assert_eq!(root.attrs.len(), 1);
    assert_eq!(root.attrs[0].key, "name");
    assert_eq!(root.attrs[0].value, "Demo Project");
    assert!(ed.doc().get_parent(&String::from("root")).is_none());
}

#[test]
fn insert_child_adds_node_under_parent() {
    let mut ed = default_editor();
    let r = apply(&mut ed, &insert_cmd("root", Some("d1"), "dxgc", "Sub A"), "insert");
    assert!(r.is_ok());
    assert_eq!(ed.doc().node_count(), 2);
    let n = ed.doc().get_node(&String::from("d1")).expect("inserted");
    assert_eq!(n.node_type, "dxgc");
    assert_eq!(n.attrs[0].value, "Sub A");
    assert_eq!(ed.doc().get_parent(&String::from("d1")).as_deref(), Some("root"));
}

#[test]
fn insert_generates_id_when_absent() {
    let mut ed = default_editor();
    assert!(apply(&mut ed, &insert_cmd("root", None, "dxgc", "Sub"), "insert").is_ok());
    assert_eq!(ed.doc().node_count(), 2);
    // The generated id follows the counter scheme and resolves.
    let n = ed.doc().get_node(&String::from("n0")).expect("generated id n0");
    assert_eq!(n.node_type, "dxgc");
}

#[test]
fn insert_unknown_parent_fails_target_not_found() {
    let mut ed = default_editor();
    let r = apply(&mut ed, &insert_cmd("nope", Some("d1"), "dxgc", "Sub"), "insert");
    assert_eq!(r, Err(EditError::TargetNotFound));
}

#[test]
fn insert_unknown_type_fails_unknown_type() {
    let mut ed = default_editor();
    let r = apply(&mut ed, &insert_cmd("root", Some("d1"), "mystery", "Sub"), "insert");
    assert_eq!(r, Err(EditError::UnknownType));
}

#[test]
fn insert_duplicate_id_fails_validation() {
    let mut ed = default_editor();
    assert!(apply(&mut ed, &insert_cmd("root", Some("d1"), "dxgc", "Sub"), "i").is_ok());
    let r = apply(&mut ed, &insert_cmd("root", Some("d1"), "dxgc", "Again"), "i");
    assert_eq!(r, Err(EditError::SchemaValidationFailed));
    assert_eq!(ed.doc().node_count(), 2);
}

#[test]
fn unknown_attributes_are_dropped_and_first_value_wins() {
    let mut ed = default_editor();
    let cmd = EditCommand::Insert(InsertChildCammand {
        editor_name: String::from("root"),
        parent_id: String::from("root"),
        id: Some(String::from("d1")),
        node_type: String::from("dxgc"),
        other: vec![
            Attr { key: String::from("name"), value: String::from("First") },
            Attr { key: String::from("name"), value: String::from("Second") },
            Attr { key: String::from("unknown"), value: String::from("dropped") },
        ],
    });
    assert!(apply(&mut ed, &cmd, "i").is_ok());
    let n = ed.doc().get_node(&String::from("d1")).unwrap();
    assert_eq!(n.attrs.len(), 1);
    assert_eq!(n.attrs[0].key, "name");
    assert_eq!(n.attrs[0].value, "First");
}

// Atomicity: a command that fails its precondition check leaves the
// node count, the parent map and the history untouched.
#[test]
fn failed_command_changes_nothing() {
    let mut ed = default_editor();
    assert!(apply(&mut ed, &insert_cmd("root", Some("d1"), "dxgc", "Sub"), "i").is_ok());
    let count_before = ed.doc().node_count();
    let hist_before = gcxm_core::controller::get_history(&ed).len();
    let version_before = ed.version;

    assert!(apply(&mut ed, &insert_cmd("ghost", Some("x"), "dxgc", "X"), "i").is_err());
    assert!(apply(&mut ed, &insert_cmd("root", Some("y"), "mystery", "Y"), "i").is_err());
    assert!(apply(&mut ed, &delete_cmd("ghost"), "d").is_err());
    assert!(apply(&mut ed, &delete_cmd("root"), "d").is_err());
    assert!(apply(&mut ed, &footnote_cmd("ghost", "n"), "f").is_err());

    assert_eq!(ed.doc().node_count(), count_before);
    assert_eq!(gcxm_core::controller::get_history(&ed).len(), hist_before);
    assert_eq!(ed.version, version_before);
    assert_eq!(ed.doc().get_parent(&String::from("d1")).as_deref(), Some("root"));
}

// Insert/delete inverse: inserting then deleting by the same id
// restores the node set and the parent map.
#[test]
fn insert_then_delete_restores_store() {
    let mut ed = default_editor();
    assert!(apply(&mut ed, &insert_cmd("root", Some("d1"), "dxgc", "Sub"), "i").is_ok());
    assert_eq!(ed.doc().node_count(), 2);
    assert!(apply(&mut ed, &delete_cmd("d1"), "d").is_ok());
    assert_eq!(ed.doc().node_count(), 1);
    assert!(ed.doc().get_node(&String::from("d1")).is_none());
    assert!(ed.doc().get_parent(&String::from("d1")).is_none());
    assert!(ed.doc().get_node(&String::from("root")).is_some());
}

// Cascading delete: deleting a node with two descendants removes
// exactly three nodes and leaves no dangling parent entry.
#[test]
fn cascading_delete_removes_whole_subtree() {
    let mut ed = default_editor();
    assert!(apply(&mut ed, &insert_cmd("root", Some("a"), "dxgc", "A"), "i").is_ok());
    assert!(apply(&mut ed, &insert_cmd("a", Some("b"), "dwgc", "B"), "i").is_ok());
    assert!(apply(&mut ed, &insert_cmd("b", Some("c"), "fbfx", "C"), "i").is_ok());
    assert!(apply(&mut ed, &insert_cmd("root", Some("z"), "dxgc", "Z"), "i").is_ok());
    assert_eq!(ed.doc().node_count(), 5);
    assert_eq!(ed.doc().parent_count(), 4);

    // Deleting `a`, which has two descendants, removes exactly three
    // nodes and three parent entries.
    assert!(apply(&mut ed, &delete_cmd("a"), "d").is_ok());
    assert_eq!(ed.doc().node_count(), 2);
    assert_eq!(ed.doc().parent_count(), 1);
    for gone in ["a", "b", "c"] {
        assert!(ed.doc().get_node(&String::from(gone)).is_none());
        assert!(ed.doc().get_parent(&String::from(gone)).is_none());
    }
    assert!(ed.doc().get_node(&String::from("z")).is_some());
    assert_eq!(ed.doc().get_parent(&String::from("z")).as_deref(), Some("root"));
}

// History round trip: three edits, three undos, three redos.
#[test]
fn undo_redo_round_trip() {
    let mut ed = default_editor();
    assert!(apply(&mut ed, &insert_cmd("root", Some("a"), "dxgc", "A"), "one").is_ok());
    assert!(apply(&mut ed, &insert_cmd("a", Some("b"), "dwgc", "B"), "two").is_ok());
    assert!(apply(&mut ed, &insert_cmd("root", Some("c"), "dxgc", "C"), "three").is_ok());
    assert_eq!(ed.doc().node_count(), 4);
    let hist = gcxm_core::controller::get_history(&ed);
    assert_eq!(hist.len(), 4);

    assert!(ed.undo());
    assert_eq!(ed.doc().node_count(), 3);
    assert!(ed.undo());
    assert_eq!(ed.doc().node_count(), 2);
    assert!(ed.undo());
    assert_eq!(ed.doc().node_count(), 1);
    // Nothing left to undo.
    assert!(!ed.undo());
    assert_eq!(ed.doc().node_count(), 1);
    assert!(ed.doc().get_node(&String::from("a")).is_none());

    assert!(ed.redo());
    assert!(ed.redo());
    assert!(ed.redo());
    assert!(!ed.redo());
    assert_eq!(ed.doc().node_count(), 4);
    assert!(ed.doc().get_node(&String::from("a")).is_some());
    assert!(ed.doc().get_node(&String::from("b")).is_some());
    assert!(ed.doc().get_node(&String::from("c")).is_some());
    assert_eq!(gcxm_core::controller::get_history(&ed).len(), 4);
}

// A fresh edit invalidates the redo branch: no branching history.
#[test]
fn new_edit_clears_future() {
    let mut ed = default_editor();
    assert!(apply(&mut ed, &insert_cmd("root", Some("a"), "dxgc", "A"), "one").is_ok());
    assert!(apply(&mut ed, &insert_cmd("root", Some("b"), "dxgc", "B"), "two").is_ok());
    assert!(ed.undo());
    assert!(apply(&mut ed, &insert_cmd("root", Some("c"), "dxgc", "C"), "three").is_ok());
    // The undone insert of b is no longer redo-available.
    assert!(!ed.redo());
    assert!(ed.doc().get_node(&String::from("b")).is_none());
    assert!(ed.doc().get_node(&String::from("c")).is_some());
}

// The history bound drops the oldest past entry.
#[test]
fn history_limit_caps_undo_depth() {
    let options = DemoEditorOptions { schema: init_extension(), history_limit: 2 };
    let mut ed = DemoEditor::create(options, &post("root"), NOW);
    assert!(apply(&mut ed, &insert_cmd("root", Some("a"), "dxgc", "A"), "one").is_ok());
    assert!(apply(&mut ed, &insert_cmd("root", Some("b"), "dxgc", "B"), "two").is_ok());
    assert!(apply(&mut ed, &insert_cmd("root", Some("c"), "dxgc", "C"), "three").is_ok());
    assert!(ed.undo());
    assert!(ed.undo());
    // The oldest entry was evicted: only two undos are possible.
    assert!(!ed.undo());
    assert_eq!(ed.doc().node_count(), 2);
}

// Scenario: an insert on an empty root, displayed through the
// reconstructed tree.
#[test]
fn insert_on_empty_root_shows_one_unit_work_child() {
    let schema = Schema {
        top_type: String::from("project"),
        node_types: vec![
            NodeTypeDescriptor {
                name: String::from("project"),
                attrs: vec![Attr { key: String::from("name"), value: String::new() }],
            },
            NodeTypeDescriptor {
                name: String::from("unit-work"),
                attrs: vec![Attr { key: String::from("name"), value: String::new() }],
            },
        ],
        mark_types: vec![],
    };
    let options = DemoEditorOptions { schema, history_limit: 20 };
    let mut ed = DemoEditor::create(options, &post("root"), NOW);
    let cmd = EditCommand::Insert(InsertChildCammand {
        editor_name: String::from("root"),
        parent_id: String::from("root"),
        id: None,
        node_type: String::from("unit-work"),
        other: vec![Attr { key: String::from("name"), value: String::from("Unit A") }],
    });
    assert!(ed.command_with_meta(&cmd, String::from("insert"), Vec::new(), NOW).is_ok());
    // The returned id resolves: the generated id is fresh and present.
    assert_eq!(ed.doc().node_count(), 2);

    let filter = vec![String::from("project"), String::from("unit-work")];
    let tree = ed.get_gcxm_tree(&filter).expect("root present");
    assert_eq!(tree.id, "root");
    assert_eq!(tree.children.len(), 1);
    assert_eq!(tree.children[0].node_type, "unit-work");
    assert_eq!(tree.children[0].attrs[0].value, "Unit A");
    assert_eq!(tree.children[0].children.len(), 0);
}

// Scenario: deleting the root fails and the store is unchanged.
#[test]
fn delete_root_fails_and_changes_nothing() {
    let mut ed = default_editor();
    assert!(apply(&mut ed, &insert_cmd("root", Some("a"), "dxgc", "A"), "i").is_ok());
    let before = ed.doc().node_count();
    let r = apply(&mut ed, &delete_cmd("root"), "d");
    assert_eq!(r, Err(EditError::CannotDeleteRoot));
    assert_eq!(ed.doc().node_count(), before);
    assert!(ed.doc().get_node(&String::from("root")).is_some());
    assert!(ed.doc().get_node(&String::from("a")).is_some());
}

// Scenario: re-attaching a mark of the same name replaces it.
#[test]
fn footnote_replaces_same_name_mark() {
    let mut ed = default_editor();
    assert!(apply(&mut ed, &insert_cmd("root", Some("a"), "dwgc", "A"), "i").is_ok());
    assert!(apply(&mut ed, &footnote_cmd("a", "note1"), "f1").is_ok());
    assert!(apply(&mut ed, &footnote_cmd("a", "note2"), "f2").is_ok());
    let n = ed.doc().get_node(&String::from("a")).unwrap();
    assert_eq!(n.marks.len(), 1);
    assert_eq!(n.marks[0].name, "footnote");
    assert_eq!(n.marks[0].attrs.len(), 1);
    assert_eq!(n.marks[0].attrs[0].key, "value");
    assert_eq!(n.marks[0].attrs[0].value, "note2");
}

#[test]
fn footnote_on_schema_without_marks_fails() {
    let schema = Schema {
        top_type: String::from("project"),
        node_types: vec![
            NodeTypeDescriptor {
                name: String::from("project"),
                attrs: vec![Attr { key: String::from("name"), value: String::new() }],
            },
        ],
        mark_types: vec![],
    };
    let options = DemoEditorOptions { schema, history_limit: 20 };
    let mut ed = DemoEditor::create(options, &post("root"), NOW);
    let r = apply(&mut ed, &footnote_cmd("root", "n"), "f");
    assert_eq!(r, Err(EditError::UnknownMark));
}

// Reconstruction totality: a tree built purely from inserts
// reconstructs with every node and the right edges.
#[test]
fn reconstruction_holds_every_node() {
    let mut ed = default_editor();
    assert!(apply(&mut ed, &insert_cmd("root", Some("a"), "dxgc", "A"), "i").is_ok());
    assert!(apply(&mut ed, &insert_cmd("root", Some("b"), "dxgc", "B"), "i").is_ok());
    assert!(apply(&mut ed, &insert_cmd("a", Some("a1"), "dwgc", "A1"), "i").is_ok());
    assert!(apply(&mut ed, &insert_cmd("a", Some("a2"), "dwgc", "A2"), "i").is_ok());

    let filter = vec![String::from("gcxm"), String::from("dxgc"), String::from("dwgc")];
    let tree = ed.get_gcxm_tree(&filter).expect("root present");
    assert_eq!(count_items(&tree), 5);
    // Sibling order is insertion order.
    assert_eq!(tree.children.len(), 2);
    assert_eq!(tree.children[0].id, "a");
    assert_eq!(tree.children[1].id, "b");
    assert_eq!(tree.children[0].children.len(), 2);
    assert_eq!(tree.children[0].children[0].id, "a1");
    assert_eq!(tree.children[0].children[1].id, "a2");
}

// A filtered reconstruction drops nodes of other types but keeps the
// root's direct structure.
#[test]
fn reconstruction_with_filter_drops_other_types() {
    let mut ed = default_editor();
    assert!(apply(&mut ed, &insert_cmd("root", Some("a"), "dxgc", "A"), "i").is_ok());
    assert!(apply(&mut ed, &insert_cmd("a", Some("a1"), "dwgc", "A1"), "i").is_ok());
    let filter = vec![String::from("gcxm"), String::from("dxgc")];
    let tree = ed.get_gcxm_tree(&filter).expect("root present");
    assert_eq!(tree.children.len(), 1);
    assert_eq!(tree.children[0].id, "a");
    assert_eq!(tree.children[0].children.len(), 0);
    // A filter that misses the root type yields no tree.
    let off_filter = vec![String::from("dxgc")];
    assert!(ed.get_gcxm_tree(&off_filter).is_none());
}

#[test]
fn error_messages_are_stable() {
    assert_eq!(EditError::TargetNotFound.message(), "target node does not exist");
    assert_eq!(EditError::UnknownType.message(), "node type does not exist");
    assert_eq!(EditError::UnknownMark.message(), "mark type does not exist");
    assert_eq!(EditError::CannotDeleteRoot.message(), "the project root cannot be deleted");
    assert_eq!(EditError::SchemaValidationFailed.message(), "schema validation failed");
}
