//! Trusted interface to `im::HashMap`, the persistent (structurally
//! shared) hash map that backs the tree store's node pool and parent
//! index. Each wrapper's contract states, over an abstract contents
//! map, what the corresponding `im` operation does, as documented and
//! implemented in `im`'s source: `insert` adds or replaces a binding,
//! `remove` drops one, `get` looks one up, `len` counts bindings, and
//! `clone` shares the structure without changing the contents.

use vstd::prelude::*;
use crate::model::{Node, NodeView};

verus! {

/// Declares `im::HashMap` so that it can stand in signatures and fields.
/// The type is opaque to the verifier; everything known about a value of
/// it goes through the wrappers below.
#[verifier::external_type_specification]
#[verifier::external_body]
#[verifier::reject_recursive_types(K)]
#[verifier::reject_recursive_types(V)]
#[verifier::reject_recursive_types(S)]
pub struct ExImHashMap<K, V, S>(im::HashMap<K, V, S>);

/// The contents of a node pool: node id to node view.
pub uninterp spec fn pool_model(m: im::HashMap<String, Node>) -> Map<Seq<char>, NodeView>;

/// The contents of a parent map: node id to parent id.
pub uninterp spec fn pm_model(m: im::HashMap<String, String>) -> Map<Seq<char>, Seq<char>>;

/// The contents of an index map: node id to a position.
pub uninterp spec fn idx_model(m: im::HashMap<String, usize>) -> Map<Seq<char>, int>;

/// Relies on im::HashMap::new: an empty map.
#[verifier::external_body]
pub(crate) fn pool_new() -> (r: im::HashMap<String, Node>)
    ensures
        pool_model(r) == (Map::<Seq<char>, NodeView>::empty()),
{
    im::HashMap::new()
}

/// Relies on im::HashMap::insert: adds the binding, replacing any
/// binding of an equal key.
#[verifier::external_body]
pub(crate) fn pool_insert(m: &mut im::HashMap<String, Node>, k: String, v: Node)
    ensures
        pool_model(*final(m)) == pool_model(*old(m)).insert(k@, v@),
{
    m.insert(k, v);
}

/// Relies on im::HashMap::remove: drops the binding of the key, if any.
#[verifier::external_body]
pub(crate) fn pool_remove(m: &mut im::HashMap<String, Node>, k: &String)
    ensures
        pool_model(*final(m)) == pool_model(*old(m)).remove(k@),
{
    m.remove(k);
}

/// Relies on im::HashMap::get: the value bound to the key, if any.
#[verifier::external_body]
pub(crate) fn pool_get<'a>(m: &'a im::HashMap<String, Node>, k: &String) -> (r: Option<&'a Node>)
    ensures
        match r {
            Some(n) => pool_model(*m).dom().contains(k@) && pool_model(*m)[k@] == n@,
            None => !pool_model(*m).dom().contains(k@),
        },
{
    m.get(k)
}

/// Relies on im::HashMap::len: the number of bindings.
#[verifier::external_body]
pub(crate) fn pool_len(m: &im::HashMap<String, Node>) -> (r: usize)
    requires
        pool_model(*m).dom().finite(),
    ensures
        r == pool_model(*m).dom().len(),
{
    m.len()
}

/// Relies on im::HashMap::clone: an O(1) structurally shared copy with
/// the same contents.
#[verifier::external_body]
pub(crate) fn pool_clone(m: &im::HashMap<String, Node>) -> (r: im::HashMap<String, Node>)
    ensures
        pool_model(r) == pool_model(*m),
{
    m.clone()
}

/// Relies on im::HashMap::new: an empty map.
#[verifier::external_body]
pub(crate) fn pm_new() -> (r: im::HashMap<String, String>)
    ensures
        pm_model(r) == (Map::<Seq<char>, Seq<char>>::empty()),
{
    im::HashMap::new()
}

/// Relies on im::HashMap::insert: adds the binding, replacing any
/// binding of an equal key.
#[verifier::external_body]
pub(crate) fn pm_insert(m: &mut im::HashMap<String, String>, k: String, v: String)
    ensures
        pm_model(*final(m)) == pm_model(*old(m)).insert(k@, v@),
{
    m.insert(k, v);
}

/// Relies on im::HashMap::remove: drops the binding of the key, if any.
#[verifier::external_body]
pub(crate) fn pm_remove(m: &mut im::HashMap<String, String>, k: &String)
    ensures
        pm_model(*final(m)) == pm_model(*old(m)).remove(k@),
{
    m.remove(k);
}

/// Relies on im::HashMap::get: the value bound to the key, if any.
#[verifier::external_body]
pub(crate) fn pm_get(m: &im::HashMap<String, String>, k: &String) -> (r: Option<String>)
    ensures
        match r {
            Some(p) => pm_model(*m).dom().contains(k@) && pm_model(*m)[k@] == p@,
            None => !pm_model(*m).dom().contains(k@),
        },
{
    m.get(k).cloned()
}

/// Relies on im::HashMap::len: the number of bindings.
#[verifier::external_body]
pub(crate) fn pm_len(m: &im::HashMap<String, String>) -> (r: usize)
    requires
        pm_model(*m).dom().finite(),
    ensures
        r == pm_model(*m).dom().len(),
{
    m.len()
}

/// Relies on im::HashMap::clone: an O(1) structurally shared copy with
/// the same contents.
#[verifier::external_body]
pub(crate) fn pm_clone(m: &im::HashMap<String, String>) -> (r: im::HashMap<String, String>)
    ensures
        pm_model(r) == pm_model(*m),
{
    m.clone()
}

/// Relies on im::HashMap::new: an empty map.
#[verifier::external_body]
pub(crate) fn idx_new() -> (r: im::HashMap<String, usize>)
    ensures
        idx_model(r) == (Map::<Seq<char>, int>::empty()),
{
    im::HashMap::new()
}

/// Relies on im::HashMap::insert: adds the binding, replacing any
/// binding of an equal key.
#[verifier::external_body]
pub(crate) fn idx_insert(m: &mut im::HashMap<String, usize>, k: String, v: usize)
    ensures
        idx_model(*final(m)) == idx_model(*old(m)).insert(k@, v as int),
{
    m.insert(k, v);
}

/// Relies on im::HashMap::get: the value bound to the key, if any.
#[verifier::external_body]
pub(crate) fn idx_get(m: &im::HashMap<String, usize>, k: &String) -> (r: Option<usize>)
    ensures
        match r {
            Some(i) => idx_model(*m).dom().contains(k@) && idx_model(*m)[k@] == i as int,
            None => !idx_model(*m).dom().contains(k@),
        },
{
    m.get(k).copied()
}

} // verus!
