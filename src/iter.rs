//! Cursors over the elements of the tree. Each yields borrowed elements in
//! order through `next` and knows how many remain.
use crate::elements::{
    data_node_model, fragments_model, scalar_node_model, DataModel, DocumentModel, EntryData,
    EntryFragment, Node,
};
use crate::group::NodeModel;
use crate::maps::{
    field_entries, field_map_get_index, field_map_len, group_entries, group_map_get_index,
    group_map_len, scalar_entries, scalar_map_get_index, scalar_map_len,
};
use crate::text::text;
use indexmap::IndexMap;
use vstd::prelude::*;

verus! {

/// Yields the values of a `Node`, reading `Unique` and `Many` alike.
pub struct NodeIter<'a, T> {
    node: &'a Node<T>,
    index: usize,
}

impl<'a, T> NodeIter<'a, T> {
    #[verifier::type_invariant]
    closed spec fn inv(self) -> bool {
        self.index <= self.node.items().len()
    }

    /// The values of the node.
    pub closed spec fn items(&self) -> Seq<T> {
        self.node.items()
    }

    /// How many values were yielded.
    pub open spec fn pos(&self) -> int {
        self.position() as int
    }

    pub closed spec fn position(&self) -> nat {
        self.index as nat
    }

    pub(crate) fn new(node: &'a Node<T>) -> (r: Self)
        ensures
            r.items() == node.items(),
            r.pos() == 0,
    {
        NodeIter { node, index: 0 }
    }

    /// The next value, if any is left.
    pub fn next(&mut self) -> (r: Option<&'a T>)
        ensures
            final(self).items() == old(self).items(),
            old(self).pos() < old(self).items().len() ==> (r matches Some(t) && *t == old(
                self,
            ).items()[old(self).pos()] && final(self).pos() == old(self).pos() + 1),
            old(self).pos() >= old(self).items().len() ==> r is None && final(self).pos() == old(
                self,
            ).pos(),
        no_unwind
    {
        proof {
            use_type_invariant(&*self);
        }
        match self.node {
            Node::Unique(entry) => {
                if self.index == 0 {
                    self.index = 1;
                    Some(entry)
                } else {
                    None
                }
            },
            Node::Many(entries) => {
                if self.index < entries.len() {
                    let t = &entries[self.index];
                    self.index = self.index + 1;
                    Some(t)
                } else {
                    None
                }
            },
        }
    }

    /// The number of values not yet yielded.
    pub fn remaining(&self) -> (r: usize)
        ensures
            r == self.items().len() - self.pos(),
    {
        proof {
            use_type_invariant(self);
        }
        match self.node {
            Node::Unique(_) => 1 - self.index,
            Node::Many(entries) => entries.len() - self.index,
        }
    }
}

/// Yields the keys and nodes of a sub-entry or a fragment in insertion order.
#[verifier::reject_recursive_types(V)]
pub struct EntryIter<'a, V> {
    map: &'a IndexMap<&'a str, V>,
    index: usize,
}

impl<'a, V> EntryIter<'a, V> {
    /// How many entries were yielded.
    pub open spec fn pos(&self) -> int {
        self.position() as int
    }

    pub closed spec fn position(&self) -> nat {
        self.index as nat
    }
}

impl<'a> EntryIter<'a, Node<&'a str>> {
    /// The entries of the sub-entry.
    pub closed spec fn entries(&self) -> Seq<(Seq<u8>, NodeModel<Seq<u8>>)> {
        scalar_entries(*self.map)
    }

    pub(crate) fn new(map: &'a IndexMap<&'a str, Node<&'a str>>) -> (r: Self)
        ensures
            r.entries() == scalar_entries(*map),
            r.pos() == 0,
    {
        EntryIter { map, index: 0 }
    }

    /// The next key and node, if any is left.
    pub fn next(&mut self) -> (r: Option<(&'a str, &'a Node<&'a str>)>)
        ensures
            final(self).entries() == old(self).entries(),
            old(self).pos() < old(self).entries().len() ==> (r matches Some(e) && text(e.0)
                == old(self).entries()[old(self).pos()].0 && scalar_node_model(*e.1) == old(
                self,
            ).entries()[old(self).pos()].1 && final(self).pos() == old(self).pos() + 1),
            old(self).pos() >= old(self).entries().len() ==> r is None && final(self).pos()
                == old(self).pos(),
        no_unwind
    {
        if self.index < scalar_map_len(self.map) {
            let r = scalar_map_get_index(self.map, self.index);
            self.index = self.index + 1;
            r
        } else {
            None
        }
    }

    /// The number of entries not yet yielded.
    pub fn remaining(&self) -> (r: usize)
        requires
            self.pos() <= self.entries().len(),
        ensures
            r == self.entries().len() - self.pos(),
    {
        scalar_map_len(self.map) - self.index
    }
}

impl<'a> EntryIter<'a, Node<EntryData<'a>>> {
    /// The entries of the fragment.
    pub closed spec fn entries(&self) -> Seq<(Seq<u8>, NodeModel<DataModel>)> {
        field_entries(*self.map)
    }

    pub(crate) fn new(map: &'a IndexMap<&'a str, Node<EntryData<'a>>>) -> (r: Self)
        ensures
            r.entries() == field_entries(*map),
            r.pos() == 0,
    {
        EntryIter { map, index: 0 }
    }

    /// The next key and node, if any is left.
    pub fn next(&mut self) -> (r: Option<(&'a str, &'a Node<EntryData<'a>>)>)
        ensures
            final(self).entries() == old(self).entries(),
            old(self).pos() < old(self).entries().len() ==> (r matches Some(e) && text(e.0)
                == old(self).entries()[old(self).pos()].0 && data_node_model(*e.1) == old(
                self,
            ).entries()[old(self).pos()].1 && final(self).pos() == old(self).pos() + 1),
            old(self).pos() >= old(self).entries().len() ==> r is None && final(self).pos()
                == old(self).pos(),
        no_unwind
    {
        if self.index < field_map_len(self.map) {
            let r = field_map_get_index(self.map, self.index);
            self.index = self.index + 1;
            r
        } else {
            None
        }
    }

    /// The number of entries not yet yielded.
    pub fn remaining(&self) -> (r: usize)
        requires
            self.pos() <= self.entries().len(),
        ensures
            r == self.entries().len() - self.pos(),
    {
        field_map_len(self.map) - self.index
    }
}

/// Yields the keys of a document with the fragments of each, in order of
/// first appearance.
pub struct SliceIter<'a> {
    map: &'a IndexMap<&'a str, Vec<EntryFragment<'a>>>,
    index: usize,
}

impl<'a> SliceIter<'a> {
    #[verifier::type_invariant]
    closed spec fn inv(self) -> bool {
        self.index <= group_entries(*self.map).len()
    }

    /// The groups of the document.
    pub closed spec fn entries(&self) -> DocumentModel {
        group_entries(*self.map)
    }

    /// How many groups were yielded.
    pub open spec fn pos(&self) -> int {
        self.position() as int
    }

    pub closed spec fn position(&self) -> nat {
        self.index as nat
    }

    pub(crate) fn new(map: &'a IndexMap<&'a str, Vec<EntryFragment<'a>>>) -> (r: Self)
        ensures
            r.entries() == group_entries(*map),
            r.pos() == 0,
    {
        SliceIter { map, index: 0 }
    }

    /// The next key and its fragments, if any is left.
    pub fn next(&mut self) -> (r: Option<(&'a str, &'a [EntryFragment<'a>])>)
        ensures
            final(self).entries() == old(self).entries(),
            old(self).pos() < old(self).entries().len() ==> (r matches Some(e) && text(e.0)
                == old(self).entries()[old(self).pos()].0 && fragments_model(e.1@) == old(
                self,
            ).entries()[old(self).pos()].1 && final(self).pos() == old(self).pos() + 1),
            old(self).pos() >= old(self).entries().len() ==> r is None && final(self).pos()
                == old(self).pos(),
        no_unwind
    {
        if self.index < group_map_len(self.map) {
            match group_map_get_index(self.map, self.index) {
                Some((k, v)) => {
                    self.index = self.index + 1;
                    Some((k, v))
                },
                None => None,
            }
        } else {
            None
        }
    }

    /// The number of groups not yet yielded.
    pub fn remaining(&self) -> (r: usize)
        ensures
            r == self.entries().len() - self.pos(),
    {
        proof {
            use_type_invariant(self);
        }
        group_map_len(self.map) - self.index
    }
}

} // verus!
