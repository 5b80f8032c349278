//! The insertion-ordered maps of the tree, kept in `indexmap::IndexMap`.
//!
//! Each map is seen through a name for the sequence of its entries, in
//! insertion order, with each value given by its model.
use crate::elements::{
    data_node_model, fragments_model, scalar_node_model, DataModel, EntryData, EntryFragment,
    FragmentModel, Node,
};
use crate::group::{key_index, NodeModel};
use crate::text::text;
use indexmap::IndexMap;
use vstd::prelude::*;

verus! {

#[verifier::external_type_specification]
#[verifier::external_body]
#[verifier::reject_recursive_types(K)]
#[verifier::reject_recursive_types(V)]
#[verifier::reject_recursive_types(S)]
pub struct ExIndexMap<K, V, S>(IndexMap<K, V, S>);

/// The entries of a sub-entry's map, in insertion order.
pub uninterp spec fn scalar_entries(m: IndexMap<&str, Node<&str>>) -> Seq<
    (Seq<u8>, NodeModel<Seq<u8>>),
>;

/// The entries of a fragment's map, in insertion order.
pub uninterp spec fn field_entries(m: IndexMap<&str, Node<EntryData>>) -> Seq<
    (Seq<u8>, NodeModel<DataModel>),
>;

/// The entries of a document's map, in insertion order.
pub uninterp spec fn group_entries(m: IndexMap<&str, Vec<EntryFragment>>) -> Seq<
    (Seq<u8>, Seq<FragmentModel>),
>;

/// Relies on IndexMap::new: a new map is empty.
#[verifier::external_body]
pub(crate) fn scalar_map_new<'a>() -> (r: IndexMap<&'a str, Node<&'a str>>)
    ensures
        scalar_entries(r) == Seq::<(Seq<u8>, NodeModel<Seq<u8>>)>::empty(),
{
    IndexMap::new()
}

/// Relies on IndexMap::len: the number of entries.
#[verifier::external_body]
pub(crate) fn scalar_map_len(m: &IndexMap<&str, Node<&str>>) -> (r: usize)
    ensures
        r == scalar_entries(*m).len(),
    no_unwind
{
    m.len()
}

/// Relies on IndexMap::get_index: the entry at a position of the insertion
/// order, if the position is in range.
#[verifier::external_body]
pub(crate) fn scalar_map_get_index<'a>(
    m: &'a IndexMap<&'a str, Node<&'a str>>,
    i: usize,
) -> (r: Option<(&'a str, &'a Node<&'a str>)>)
    ensures
        r is Some <==> i < scalar_entries(*m).len(),
        r matches Some(e) ==> text(e.0) == scalar_entries(*m)[i as int].0
            && scalar_node_model(*e.1) == scalar_entries(*m)[i as int].1,
    no_unwind
{
    m.get_index(i).map(|(k, v)| (*k, v))
}

/// Relies on IndexMap::get_index_of: the position of the entry of a key.
#[verifier::external_body]
pub(crate) fn scalar_map_find(m: &IndexMap<&str, Node<&str>>, key: &str) -> (r: Option<usize>)
    ensures
        r matches Some(i) ==> key_index(scalar_entries(*m), text(key)) == Some(i as int),
        r is None ==> key_index(scalar_entries(*m), text(key)) is None,
{
    m.get_index_of(key)
}

/// Relies on IndexMap::insert: a present key keeps its place and takes the
/// new value, and the old value is returned; an absent key is appended.
#[verifier::external_body]
pub(crate) fn scalar_map_insert<'a>(
    m: &mut IndexMap<&'a str, Node<&'a str>>,
    key: &'a str,
    v: Node<&'a str>,
) -> (r: Option<Node<&'a str>>)
    ensures
        ({
            let before = scalar_entries(*old(m));
            let after = scalar_entries(*final(m));
            match key_index(before, text(key)) {
                Some(i) => after == before.update(i, (before[i].0, scalar_node_model(v)))
                    && (r matches Some(o) && scalar_node_model(o) == before[i].1),
                None => after == before.push((text(key), scalar_node_model(v))) && r is None,
            }
        }),
{
    m.insert(key, v)
}

/// Relies on IndexMap::new: a new map is empty.
#[verifier::external_body]
pub(crate) fn field_map_new<'a>() -> (r: IndexMap<&'a str, Node<EntryData<'a>>>)
    ensures
        field_entries(r) == Seq::<(Seq<u8>, NodeModel<DataModel>)>::empty(),
{
    IndexMap::new()
}

/// Relies on IndexMap::len: the number of entries.
#[verifier::external_body]
pub(crate) fn field_map_len(m: &IndexMap<&str, Node<EntryData>>) -> (r: usize)
    ensures
        r == field_entries(*m).len(),
    no_unwind
{
    m.len()
}

/// Relies on IndexMap::get_index: the entry at a position of the insertion
/// order, if the position is in range.
#[verifier::external_body]
pub(crate) fn field_map_get_index<'a>(
    m: &'a IndexMap<&'a str, Node<EntryData<'a>>>,
    i: usize,
) -> (r: Option<(&'a str, &'a Node<EntryData<'a>>)>)
    ensures
        r is Some <==> i < field_entries(*m).len(),
        r matches Some(e) ==> text(e.0) == field_entries(*m)[i as int].0
            && data_node_model(*e.1) == field_entries(*m)[i as int].1,
    no_unwind
{
    m.get_index(i).map(|(k, v)| (*k, v))
}

/// Relies on IndexMap::get_index_of: the position of the entry of a key.
#[verifier::external_body]
pub(crate) fn field_map_find(m: &IndexMap<&str, Node<EntryData>>, key: &str) -> (r: Option<usize>)
    ensures
        r matches Some(i) ==> key_index(field_entries(*m), text(key)) == Some(i as int),
        r is None ==> key_index(field_entries(*m), text(key)) is None,
{
    m.get_index_of(key)
}

/// Relies on IndexMap::insert: a present key keeps its place and takes the
/// new value, and the old value is returned; an absent key is appended.
#[verifier::external_body]
pub(crate) fn field_map_insert<'a>(
    m: &mut IndexMap<&'a str, Node<EntryData<'a>>>,
    key: &'a str,
    v: Node<EntryData<'a>>,
) -> (r: Option<Node<EntryData<'a>>>)
    ensures
        ({
            let before = field_entries(*old(m));
            let after = field_entries(*final(m));
            match key_index(before, text(key)) {
                Some(i) => after == before.update(i, (before[i].0, data_node_model(v)))
                    && (r matches Some(o) && data_node_model(o) == before[i].1),
                None => after == before.push((text(key), data_node_model(v))) && r is None,
            }
        }),
{
    m.insert(key, v)
}

/// Relies on IndexMap::new: a new map is empty.
#[verifier::external_body]
pub(crate) fn group_map_new<'a>() -> (r: IndexMap<&'a str, Vec<EntryFragment<'a>>>)
    ensures
        group_entries(r) == Seq::<(Seq<u8>, Seq<FragmentModel>)>::empty(),
{
    IndexMap::new()
}

/// Relies on IndexMap::len: the number of entries.
#[verifier::external_body]
pub(crate) fn group_map_len(m: &IndexMap<&str, Vec<EntryFragment>>) -> (r: usize)
    ensures
        r == group_entries(*m).len(),
    no_unwind
{
    m.len()
}

/// Relies on IndexMap::get_index: the entry at a position of the insertion
/// order, if the position is in range.
#[verifier::external_body]
pub(crate) fn group_map_get_index<'a>(
    m: &'a IndexMap<&'a str, Vec<EntryFragment<'a>>>,
    i: usize,
) -> (r: Option<(&'a str, &'a [EntryFragment<'a>])>)
    ensures
        r is Some <==> i < group_entries(*m).len(),
        r matches Some(e) ==> text(e.0) == group_entries(*m)[i as int].0
            && fragments_model(e.1@) == group_entries(*m)[i as int].1,
    no_unwind
{
    m.get_index(i).map(|(k, v)| (*k, v.as_slice()))
}

/// Relies on IndexMap::get_index_of: the position of the entry of a key.
#[verifier::external_body]
pub(crate) fn group_map_find(m: &IndexMap<&str, Vec<EntryFragment>>, key: &str) -> (r: Option<usize>)
    ensures
        r matches Some(i) ==> key_index(group_entries(*m), text(key)) == Some(i as int),
        r is None ==> key_index(group_entries(*m), text(key)) is None,
{
    m.get_index_of(key)
}

/// Relies on IndexMap::insert: a present key keeps its place and takes the
/// new value, and the old value is returned; an absent key is appended.
#[verifier::external_body]
pub(crate) fn group_map_insert<'a>(
    m: &mut IndexMap<&'a str, Vec<EntryFragment<'a>>>,
    key: &'a str,
    v: Vec<EntryFragment<'a>>,
) -> (r: Option<Vec<EntryFragment<'a>>>)
    ensures
        ({
            let before = group_entries(*old(m));
            let after = group_entries(*final(m));
            match key_index(before, text(key)) {
                Some(i) => after == before.update(i, (before[i].0, fragments_model(v@)))
                    && (r matches Some(o) && fragments_model(o@) == before[i].1),
                None => after == before.push((text(key), fragments_model(v@))) && r is None,
            }
        }),
{
    m.insert(key, v)
}

} // verus!
