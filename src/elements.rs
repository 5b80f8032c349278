//! The expression tree of a parsed text. Every string in it borrows from
//! the input, and the tree is read-only once built.
use crate::group::{groups_nonempty, key_index, nodes_wf, NodeModel};
use crate::iter::{EntryIter, NodeIter, SliceIter};
use crate::maps::{
    field_entries, field_map_find, field_map_get_index, group_entries, group_map_find,
    group_map_get_index, scalar_entries, scalar_map_find, scalar_map_get_index,
};
use crate::text::text;
use indexmap::IndexMap;
use vstd::prelude::*;

verus! {

/// The model of an item data value.
pub enum DataModel {
    Scalar(Seq<u8>),
    SubEntry(Seq<(Seq<u8>, NodeModel<Seq<u8>>)>),
}

/// The model of a fragment: its fields in insertion order.
pub type FragmentModel = Seq<(Seq<u8>, NodeModel<DataModel>)>;

/// The model of a document: its groups in order of first appearance.
pub type DocumentModel = Seq<(Seq<u8>, Seq<FragmentModel>)>;

/// The nodes stored under one key of a ListInfo entry.
///
/// `Unique` holds a key that occurred once, `Many` one that occurred two or
/// more times, in text order. `iter` and `unique` read both alike.
#[derive(Debug, PartialEq, Eq)]
pub enum Node<T> {
    /// A key that occurred exactly once.
    Unique(T),
    /// A key that occurred more than once.
    Many(Vec<T>),
}

impl<T> Node<T> {
    /// The values of the node, in text order.
    pub open spec fn items(&self) -> Seq<T> {
        match self {
            Node::Unique(t) => seq![*t],
            Node::Many(v) => v@,
        }
    }

    /// A `Many` node holds at least two values.
    pub open spec fn wf(&self) -> bool {
        match self {
            Node::Unique(_) => true,
            Node::Many(v) => v@.len() >= 2,
        }
    }

    /// Iterates over the values; a unique value is yielded once.
    pub fn iter<'a>(&'a self) -> (r: NodeIter<'a, T>)
        ensures
            r.items() == self.items(),
            r.pos() == 0,
    {
        NodeIter::new(self)
    }

    /// The single value, or the first of several.
    pub fn unique(&self) -> (r: &T)
        requires
            self.wf(),
        ensures
            *r == self.items()[0],
    {
        match self {
            Node::Unique(entry) => entry,
            Node::Many(entries) => &entries[0],
        }
    }
}

/// The model of a node of scalars.
pub open spec fn scalar_node_model(n: Node<&str>) -> NodeModel<Seq<u8>> {
    match n {
        Node::Unique(t) => NodeModel::Unique(text(t)),
        Node::Many(v) => NodeModel::Many(v@.map_values(|t: &str| text(t))),
    }
}

/// The model of a node of item data values.
pub open spec fn data_node_model(n: Node<EntryData>) -> NodeModel<DataModel> {
    match n {
        Node::Unique(d) => NodeModel::Unique(d@),
        Node::Many(v) => NodeModel::Many(v@.map_values(|d: EntryData| d@)),
    }
}

/// The models of a list of fragments.
pub open spec fn fragments_model(v: Seq<EntryFragment>) -> Seq<FragmentModel> {
    v.map_values(|f: EntryFragment| f@)
}

pub proof fn lemma_scalar_node_model<'a>(n: Node<&'a str>)
    ensures
        n.wf() == scalar_node_model(n).wf(),
        scalar_node_model(n).items() == n.items().map_values(|t: &str| text(t)),
{
    assert(scalar_node_model(n).items() =~= n.items().map_values(|t: &str| text(t)));
}

pub proof fn lemma_data_node_model<'a>(n: Node<EntryData<'a>>)
    ensures
        n.wf() == data_node_model(n).wf(),
        data_node_model(n).items() == n.items().map_values(|d: EntryData| d@),
{
    assert(data_node_model(n).items() =~= n.items().map_values(|d: EntryData| d@));
}

/// The contents of a sub-entry (such as `rom` or `disk`) of a ListInfo entry.
#[derive(Debug, PartialEq, Eq)]
pub struct SubEntry<'a> {
    keys: IndexMap<&'a str, Node<&'a str>>,
}

impl<'a> View for SubEntry<'a> {
    type V = Seq<(Seq<u8>, NodeModel<Seq<u8>>)>;

    closed spec fn view(&self) -> Self::V {
        scalar_entries(self.keys)
    }
}

impl<'a> SubEntry<'a> {
    #[verifier::type_invariant]
    closed spec fn inv(self) -> bool {
        nodes_wf(scalar_entries(self.keys))
    }

    pub(crate) fn new(keys: IndexMap<&'a str, Node<&'a str>>) -> (r: Self)
        requires
            nodes_wf(scalar_entries(keys)),
        ensures
            r@ == scalar_entries(keys),
    {
        SubEntry { keys }
    }

    /// The node stored under a key.
    pub fn value(&'a self, key: &str) -> (r: Option<&'a Node<&'a str>>)
        ensures
            match key_index(self@, text(key)) {
                Some(i) => (r matches Some(n) && scalar_node_model(*n) == self@[i].1 && n.wf()),
                None => r is None,
            },
    {
        proof {
            use_type_invariant(self);
        }
        match scalar_map_find(&self.keys, key) {
            Some(i) => {
                proof {
                    crate::group::lemma_key_index(self@, text(key));
                }
                match scalar_map_get_index(&self.keys, i) {
                    Some((_, n)) => {
                        proof {
                            lemma_scalar_node_model(*n);
                        }
                        Some(n)
                    },
                    None => None,
                }
            },
            None => None,
        }
    }

    /// The value stored under a key, or the first of several.
    pub fn value_unique(&'a self, key: &str) -> (r: Option<&'a str>)
        ensures
            match key_index(self@, text(key)) {
                Some(i) => (r matches Some(t) && text(t) == self@[i].1.items()[0]),
                None => r is None,
            },
    {
        match self.value(key) {
            Some(n) => {
                proof {
                    lemma_scalar_node_model(*n);
                }
                Some(*n.unique())
            },
            None => None,
        }
    }

    /// Iterates over the values stored under a key.
    pub fn value_iter(&'a self, key: &str) -> (r: Option<NodeIter<'a, &'a str>>)
        ensures
            match key_index(self@, text(key)) {
                Some(i) => (r matches Some(it) && it.items().map_values(|t: &str| text(t))
                    == self@[i].1.items() && it.pos() == 0),
                None => r is None,
            },
    {
        match self.value(key) {
            Some(n) => {
                proof {
                    lemma_scalar_node_model(*n);
                }
                Some(n.iter())
            },
            None => None,
        }
    }

    /// Iterates over the keys and nodes in insertion order.
    pub fn iter(&'a self) -> (r: EntryIter<'a, Node<&'a str>>)
        ensures
            r.entries() == self@,
            r.pos() == 0,
            nodes_wf(r.entries()),
    {
        proof {
            use_type_invariant(self);
        }
        EntryIter::<'a, Node<&'a str>>::new(&self.keys)
    }
}

/// An item data value of an entry.
#[derive(Debug, PartialEq, Eq)]
pub enum EntryData<'a> {
    /// A scalar string entry.
    Scalar(&'a str),
    /// A sub-entry (such as `rom`).
    SubEntry(SubEntry<'a>),
}

impl<'a> View for EntryData<'a> {
    type V = DataModel;

    open spec fn view(&self) -> DataModel {
        match self {
            EntryData::Scalar(t) => DataModel::Scalar(text(t)),
            EntryData::SubEntry(s) => DataModel::SubEntry(s@),
        }
    }
}

/// A single ListInfo entry fragment, such as one `game ( ... )` record.
#[derive(Debug, PartialEq, Eq)]
pub struct EntryFragment<'a> {
    keys: IndexMap<&'a str, Node<EntryData<'a>>>,
}

impl<'a> View for EntryFragment<'a> {
    type V = FragmentModel;

    closed spec fn view(&self) -> FragmentModel {
        field_entries(self.keys)
    }
}

impl<'a> EntryFragment<'a> {
    #[verifier::type_invariant]
    closed spec fn inv(self) -> bool {
        nodes_wf(field_entries(self.keys))
    }

    pub(crate) fn new(keys: IndexMap<&'a str, Node<EntryData<'a>>>) -> (r: Self)
        requires
            nodes_wf(field_entries(keys)),
        ensures
            r@ == field_entries(keys),
    {
        EntryFragment { keys }
    }

    /// The node stored under a key.
    pub fn entry(&'a self, key: &str) -> (r: Option<&'a Node<EntryData<'a>>>)
        ensures
            match key_index(self@, text(key)) {
                Some(i) => (r matches Some(n) && data_node_model(*n) == self@[i].1 && n.wf()),
                None => r is None,
            },
    {
        proof {
            use_type_invariant(self);
        }
        match field_map_find(&self.keys, key) {
            Some(i) => {
                proof {
                    crate::group::lemma_key_index(self@, text(key));
                }
                match field_map_get_index(&self.keys, i) {
                    Some((_, n)) => {
                        proof {
                            lemma_data_node_model(*n);
                        }
                        Some(n)
                    },
                    None => None,
                }
            },
            None => None,
        }
    }

    /// The value stored under a key, or the first of several.
    pub fn entry_unique(&'a self, key: &str) -> (r: Option<&'a EntryData<'a>>)
        ensures
            match key_index(self@, text(key)) {
                Some(i) => (r matches Some(d) && d@ == self@[i].1.items()[0]),
                None => r is None,
            },
    {
        match self.entry(key) {
            Some(n) => {
                proof {
                    lemma_data_node_model(*n);
                }
                Some(n.unique())
            },
            None => None,
        }
    }

    /// Iterates over the values stored under a key.
    pub fn entry_iter(&'a self, key: &str) -> (r: Option<NodeIter<'a, EntryData<'a>>>)
        ensures
            match key_index(self@, text(key)) {
                Some(i) => (r matches Some(it) && it.items().map_values(|d: EntryData| d@)
                    == self@[i].1.items() && it.pos() == 0),
                None => r is None,
            },
    {
        match self.entry(key) {
            Some(n) => {
                proof {
                    lemma_data_node_model(*n);
                }
                Some(n.iter())
            },
            None => None,
        }
    }

    /// Iterates over the keys and nodes in insertion order.
    pub fn iter(&'a self) -> (r: EntryIter<'a, Node<EntryData<'a>>>)
        ensures
            r.entries() == self@,
            r.pos() == 0,
            nodes_wf(r.entries()),
    {
        proof {
            use_type_invariant(self);
        }
        EntryIter::<'a, Node<EntryData<'a>>>::new(&self.keys)
    }
}

/// The contents of a ListInfo DAT file: its fragments grouped by key.
#[derive(Debug)]
pub struct DatDocument<'a> {
    document: IndexMap<&'a str, Vec<EntryFragment<'a>>>,
}

impl<'a> View for DatDocument<'a> {
    type V = DocumentModel;

    closed spec fn view(&self) -> DocumentModel {
        group_entries(self.document)
    }
}

impl<'a> DatDocument<'a> {
    #[verifier::type_invariant]
    closed spec fn inv(self) -> bool {
        groups_nonempty(group_entries(self.document))
    }

    pub(crate) fn new(document: IndexMap<&'a str, Vec<EntryFragment<'a>>>) -> (r: Self)
        requires
            groups_nonempty(group_entries(document)),
        ensures
            r@ == group_entries(document),
    {
        DatDocument { document }
    }

    /// The fragments with a key, in text order.
    pub fn entry(&'a self, key: &str) -> (r: Option<&'a [EntryFragment<'a>]>)
        ensures
            match key_index(self@, text(key)) {
                Some(i) => (r matches Some(v) && fragments_model(v@) == self@[i].1 && v@.len()
                    >= 1),
                None => r is None,
            },
    {
        proof {
            use_type_invariant(self);
        }
        match group_map_find(&self.document, key) {
            Some(i) => {
                proof {
                    crate::group::lemma_key_index(self@, text(key));
                }
                match group_map_get_index(&self.document, i) {
                    Some((_, v)) => Some(v),
                    None => None,
                }
            },
            None => None,
        }
    }

    /// Iterates over the keys and fragment lists in order of first appearance.
    pub fn iter(&'a self) -> (r: SliceIter<'a>)
        ensures
            r.entries() == self@,
            r.pos() == 0,
            groups_nonempty(r.entries()),
    {
        proof {
            use_type_invariant(self);
        }
        SliceIter::new(&self.document)
    }
}

} // verus!
