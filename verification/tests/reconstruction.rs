use gcxm_core::model::Node;
use gcxm_core::treeview::{GcxmTreeItem, from_nodes};

fn node(id: &str, ty: &str) -> Node {
    Node {
        id: String::from(id),
        node_type: String::from(ty),
        attrs: Vec::new(),
        marks: Vec::new(),
    }
}

fn count_items(t: &GcxmTreeItem) -> usize {
    let mut total = 1;
    for c in &t.children {
        total += count_items(c);
    }
    total
}

#[test]
fn from_nodes_builds_nested_tree_from_flat_set() {
    let nodes = vec![node("root", "gcxm"), node("a", "dxgc"), node("b", "dwgc")];
    let mut pm: im::HashMap<String, String> = im::HashMap::new();
    pm.insert(String::from("a"), String::from("root"));
    pm.insert(String::from("b"), String::from("a"));
    let tree = from_nodes(String::from("root"), nodes, &pm).expect("root present");
    assert_eq!(tree.id, "root");
    assert_eq!(count_items(&tree), 3);
    assert_eq!(tree.children.len(), 1);
    assert_eq!(tree.children[0].id, "a");
    assert_eq!(tree.children[0].children[0].id, "b");
}

#[test]
fn from_nodes_without_root_candidate_is_none() {
    let nodes = vec![node("a", "dxgc")];
    let pm: im::HashMap<String, String> = im::HashMap::new();
    assert!(from_nodes(String::from("root"), nodes, &pm).is_none());
    assert!(from_nodes(String::from("root"), Vec::new(), &pm).is_none());
}

#[test]
fn from_nodes_ignores_candidates_outside_the_root() {
    // `x` hangs under a parent that is not a candidate: it cannot be
    // attached and is left out.
    let nodes = vec![node("root", "gcxm"), node("a", "dxgc"), node("x", "dwgc")];
    let mut pm: im::HashMap<String, String> = im::HashMap::new();
    pm.insert(String::from("a"), String::from("root"));
    pm.insert(String::from("x"), String::from("elsewhere"));
    let tree = from_nodes(String::from("root"), nodes, &pm).expect("root present");
    assert_eq!(count_items(&tree), 2);
}

#[test]
fn from_nodes_terminates_on_cyclic_parent_entries() {
    // A corrupted parent map with a cycle outside the root's reach must
    // not hang; the cycle's nodes are simply not reachable.
    let nodes = vec![node("root", "gcxm"), node("a", "dxgc"), node("b", "dxgc")];
    let mut pm: im::HashMap<String, String> = im::HashMap::new();
    pm.insert(String::from("a"), String::from("b"));
    pm.insert(String::from("b"), String::from("a"));
    let tree = from_nodes(String::from("root"), nodes, &pm).expect("root present");
    assert_eq!(count_items(&tree), 1);
}

#[test]
fn from_nodes_keeps_candidate_order_for_siblings() {
    let nodes = vec![
        node("root", "gcxm"),
        node("c1", "dxgc"),
        node("c2", "dxgc"),
        node("c3", "dxgc"),
    ];
    let mut pm: im::HashMap<String, String> = im::HashMap::new();
    pm.insert(String::from("c1"), String::from("root"));
    pm.insert(String::from("c2"), String::from("root"));
    pm.insert(String::from("c3"), String::from("root"));
    let tree = from_nodes(String::from("root"), nodes, &pm).expect("root present");
    let ids: Vec<&str> = tree.children.iter().map(|c| c.id.as_str()).collect();
    assert_eq!(ids, ["c1", "c2", "c3"]);
}
