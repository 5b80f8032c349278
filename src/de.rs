//! The decode engine: cursors that hand a consumer the values of the tree in
//! the shapes it asks for.
//!
//! A consumer drives the engine top-down. A document is a map from group
//! keys to groups; a group is a sequence of fragments, or its first
//! fragment when a map is asked for; a fragment or a sub-entry is a map from
//! keys to nodes; a node is a sequence of its values, or its first value
//! when anything else is asked for. Scalars are read by the functions of
//! `scalar`.
use crate::elements::{
    data_node_model, fragments_model, scalar_node_model, DataModel, DatDocument, DocumentModel,
    EntryData, EntryFragment, FragmentModel, Node, SubEntry,
};
use crate::error::{Error, Found, Kind};
use crate::group::{groups_nonempty, nodes_wf, NodeModel};
use crate::iter::{EntryIter, NodeIter, SliceIter};
use crate::text::text;
use vstd::prelude::*;

verus! {

/// Decodes a node: its values in order when a sequence is asked for, its
/// first value for anything else.
pub struct NodeDeserializer<'a, T> {
    iter: NodeIter<'a, T>,
    item: &'a T,
}

impl<'a, T> NodeDeserializer<'a, T> {
    #[verifier::type_invariant]
    closed spec fn inv(self) -> bool {
        self.iter.items().len() >= 1 && *self.item == self.iter.items()[0]
    }

    /// The values of the node.
    pub closed spec fn items(&self) -> Seq<T> {
        self.iter.items()
    }

    /// How many values were handed out as sequence elements.
    pub closed spec fn pos(&self) -> int {
        self.iter.pos()
    }

    pub fn new(n: &'a Node<T>) -> (r: Self)
        requires
            n.wf(),
        ensures
            r.items() == n.items(),
            r.pos() == 0,
    {
        NodeDeserializer { iter: n.iter(), item: n.unique() }
    }

    /// The next sequence element, if any is left.
    pub fn next_element(&mut self) -> (r: Option<&'a T>)
        ensures
            final(self).items() == old(self).items(),
            old(self).pos() < old(self).items().len() ==> (r matches Some(t) && *t == old(
                self,
            ).items()[old(self).pos()] && final(self).pos() == old(self).pos() + 1),
            old(self).pos() >= old(self).items().len() ==> r is None && final(self).pos() == old(
                self,
            ).pos(),
    {
        proof {
            use_type_invariant(&*self);
        }
        self.iter.next()
    }

    /// The number of sequence elements left.
    pub fn size_hint(&self) -> (r: usize)
        ensures
            r == self.items().len() - self.pos(),
    {
        self.iter.remaining()
    }

    /// The value decoded when a single value is asked for: the first one.
    pub fn item(&self) -> (r: &'a T)
        ensures
            *r == self.items()[0],
    {
        proof {
            use_type_invariant(self);
        }
        self.item
    }
}

impl<'a> NodeDeserializer<'a, &'a str> {
    /// The token a scalar is read from: the first value.
    pub fn token(&self) -> (r: &'a str)
        ensures
            r == self.items()[0],
    {
        *self.item()
    }

    /// The error for asking a node of scalars for a map.
    pub fn reject_map(&self) -> (e: Error)
        ensures
            e matches Error::InvalidType(Found::Scalar(m), k) && m@ == self.items()[0]@ && k
                == Kind::Mapping,
    {
        Error::InvalidType(Found::Scalar(self.token().to_owned()), Kind::Mapping)
    }
}

impl<'a> NodeDeserializer<'a, EntryData<'a>> {
    /// The token a scalar of `kind` is read from: the first value, which
    /// must be a scalar.
    pub fn scalar(&self, kind: Kind) -> (r: Result<&'a str, Error>)
        ensures
            match self.items()[0] {
                EntryData::Scalar(t) => r == Ok::<&'a str, Error>(t),
                EntryData::SubEntry(_) => r == Err::<&'a str, Error>(
                    Error::InvalidType(Found::Mapping, kind),
                ),
            },
    {
        self.item().scalar(kind)
    }

    /// A map cursor over the first value, which must be a sub-entry.
    pub fn map(&self) -> (r: Result<SubEntryDeserializer<'a>, Error>)
        ensures
            match self.items()[0] {
                EntryData::SubEntry(se) => (r matches Ok(d) && d.entries() == se@ && d.pos() == 0
                    && d.pending() is None),
                EntryData::Scalar(t) => (r matches Err(Error::InvalidType(Found::Scalar(m), k))
                    && m@ == t@ && k == Kind::Mapping),
            },
    {
        self.item().map()
    }
}

impl<'a> EntryData<'a> {
    /// The token of a scalar asked for as `kind`; a sub-entry is no scalar.
    pub fn scalar(&self, kind: Kind) -> (r: Result<&'a str, Error>)
        ensures
            match *self {
                EntryData::Scalar(t) => r == Ok::<&'a str, Error>(t),
                EntryData::SubEntry(_) => r == Err::<&'a str, Error>(
                    Error::InvalidType(Found::Mapping, kind),
                ),
            },
    {
        match self {
            EntryData::Scalar(t) => Ok(*t),
            EntryData::SubEntry(_) => Err(Error::InvalidType(Found::Mapping, kind)),
        }
    }

    /// A map cursor over a sub-entry; a scalar is no map.
    pub fn map(&'a self) -> (r: Result<SubEntryDeserializer<'a>, Error>)
        ensures
            match *self {
                EntryData::SubEntry(se) => (r matches Ok(d) && d.entries() == se@ && d.pos() == 0
                    && d.pending() is None),
                EntryData::Scalar(t) => (r matches Err(Error::InvalidType(Found::Scalar(m), k))
                    && m@ == t@ && k == Kind::Mapping),
            },
    {
        match self {
            EntryData::SubEntry(se) => Ok(SubEntryDeserializer::from_sub_entry(se)),
            EntryData::Scalar(t) => Err(Error::InvalidType(Found::Scalar((*t).to_owned()), Kind::Mapping)),
        }
    }

    /// The error for asking this value for a shape it cannot take, such as a
    /// sequence.
    pub fn reject(&self, kind: Kind) -> (e: Error)
        ensures
            match *self {
                EntryData::Scalar(t) => (e matches Error::InvalidType(Found::Scalar(m), k) && m@
                    == t@ && k == kind),
                EntryData::SubEntry(_) => e == Error::InvalidType(Found::Mapping, kind),
            },
    {
        match self {
            EntryData::Scalar(t) => Error::InvalidType(Found::Scalar((*t).to_owned()), kind),
            EntryData::SubEntry(_) => Error::InvalidType(Found::Mapping, kind),
        }
    }
}

/// A map cursor over a sub-entry: keys in insertion order, each followed by
/// its node.
pub struct SubEntryDeserializer<'a> {
    iter: EntryIter<'a, Node<&'a str>>,
    value: Option<&'a Node<&'a str>>,
}

impl<'a> SubEntryDeserializer<'a> {
    #[verifier::type_invariant]
    closed spec fn inv(self) -> bool {
        &&& nodes_wf(self.iter.entries())
        &&& self.iter.pos() <= self.iter.entries().len()
        &&& self.value matches Some(n) ==> n.wf()
    }

    /// The entries of the sub-entry.
    pub closed spec fn entries(&self) -> Seq<(Seq<u8>, NodeModel<Seq<u8>>)> {
        self.iter.entries()
    }

    /// How many keys were handed out.
    pub closed spec fn pos(&self) -> int {
        self.iter.pos()
    }

    /// The node of the last key handed out, until its value is taken.
    pub closed spec fn pending(&self) -> Option<NodeModel<Seq<u8>>> {
        match self.value {
            Some(n) => Some(scalar_node_model(*n)),
            None => None,
        }
    }

    pub fn new(iter: EntryIter<'a, Node<&'a str>>) -> (r: Self)
        requires
            nodes_wf(iter.entries()),
            iter.pos() <= iter.entries().len(),
        ensures
            r.entries() == iter.entries(),
            r.pos() == iter.pos(),
            r.pending() is None,
    {
        SubEntryDeserializer { iter, value: None }
    }

    pub fn from_sub_entry(se: &'a SubEntry<'a>) -> (r: Self)
        ensures
            r.entries() == se@,
            r.pos() == 0,
            r.pending() is None,
    {
        Self::new(se.iter())
    }

    /// The next key; its node becomes the pending value.
    pub fn next_key(&mut self) -> (r: Option<&'a str>)
        ensures
            final(self).entries() == old(self).entries(),
            old(self).pos() < old(self).entries().len() ==> (r matches Some(k)
                && text(k) == old(self).entries()[old(self).pos()].0
                && final(self).pos() == old(self).pos() + 1
                && final(self).pending() == Some(old(self).entries()[old(self).pos()].1)),
            old(self).pos() >= old(self).entries().len() ==> (r is None && final(self).pos()
                == old(self).pos() && final(self).pending() == old(self).pending()),
    {
        proof {
            use_type_invariant(&*self);
        }
        let ghost es = self.iter.entries();
        let ghost p = self.iter.pos();
        match self.iter.next() {
            Some((k, n)) => {
                proof {
                    crate::elements::lemma_scalar_node_model(*n);
                    assert(es[p].1.wf());
                }
                self.value = Some(n);
                Some(k)
            },
            None => None,
        }
    }

    /// The pending value as a node decoder; asking before a key is a
    /// protocol error.
    pub fn next_value(&mut self) -> (r: Result<NodeDeserializer<'a, &'a str>, Error>)
        ensures
            final(self).entries() == old(self).entries(),
            final(self).pos() == old(self).pos(),
            final(self).pending() is None,
            match old(self).pending() {
                Some(n) => (r matches Ok(d) && d.items().map_values(|t: &str| text(t)) == n.items()
                    && d.pos() == 0),
                None => r == Err::<NodeDeserializer<'a, &'a str>, Error>(Error::ValueBeforeKey),
            },
    {
        proof {
            use_type_invariant(&*self);
        }
        let pending = self.value;
        self.value = None;
        match pending {
            Some(n) => {
                proof {
                    crate::elements::lemma_scalar_node_model(*n);
                }
                Ok(NodeDeserializer::new(n))
            },
            None => Err(Error::ValueBeforeKey),
        }
    }

    /// The number of keys left.
    pub fn size_hint(&self) -> (r: usize)
        ensures
            r == self.entries().len() - self.pos(),
    {
        proof {
            use_type_invariant(self);
        }
        self.iter.remaining()
    }
}

/// A map cursor over a fragment: keys in insertion order, each followed by
/// its node.
pub struct EntryFragmentDeserializer<'a> {
    iter: EntryIter<'a, Node<EntryData<'a>>>,
    value: Option<&'a Node<EntryData<'a>>>,
}

/// The map cursor over a fragment.
pub type FragmentDeserializer<'a> = EntryFragmentDeserializer<'a>;

impl<'a> EntryFragmentDeserializer<'a> {
    #[verifier::type_invariant]
    closed spec fn inv(self) -> bool {
        &&& nodes_wf(self.iter.entries())
        &&& self.iter.pos() <= self.iter.entries().len()
        &&& self.value matches Some(n) ==> n.wf()
    }

    /// The entries of the fragment.
    pub closed spec fn entries(&self) -> FragmentModel {
        self.iter.entries()
    }

    /// How many keys were handed out.
    pub closed spec fn pos(&self) -> int {
        self.iter.pos()
    }

    /// The node of the last key handed out, until its value is taken.
    pub closed spec fn pending(&self) -> Option<NodeModel<DataModel>> {
        match self.value {
            Some(n) => Some(data_node_model(*n)),
            None => None,
        }
    }

    pub fn new(iter: EntryIter<'a, Node<EntryData<'a>>>) -> (r: Self)
        requires
            nodes_wf(iter.entries()),
            iter.pos() <= iter.entries().len(),
        ensures
            r.entries() == iter.entries(),
            r.pos() == iter.pos(),
            r.pending() is None,
    {
        EntryFragmentDeserializer { iter, value: None }
    }

    /// Creates a map cursor over a parsed fragment.
    pub fn from_fragment(fragment: &'a EntryFragment<'a>) -> (r: Self)
        ensures
            r.entries() == fragment@,
            r.pos() == 0,
            r.pending() is None,
    {
        Self::new(fragment.iter())
    }

    /// The next key; its node becomes the pending value.
    pub fn next_key(&mut self) -> (r: Option<&'a str>)
        ensures
            final(self).entries() == old(self).entries(),
            old(self).pos() < old(self).entries().len() ==> (r matches Some(k)
                && text(k) == old(self).entries()[old(self).pos()].0
                && final(self).pos() == old(self).pos() + 1
                && final(self).pending() == Some(old(self).entries()[old(self).pos()].1)),
            old(self).pos() >= old(self).entries().len() ==> (r is None && final(self).pos()
                == old(self).pos() && final(self).pending() == old(self).pending()),
    {
        proof {
            use_type_invariant(&*self);
        }
        let ghost es = self.iter.entries();
        let ghost p = self.iter.pos();
        match self.iter.next() {
            Some((k, n)) => {
                proof {
                    crate::elements::lemma_data_node_model(*n);
                    assert(es[p].1.wf());
                }
                self.value = Some(n);
                Some(k)
            },
            None => None,
        }
    }

    /// The pending value as a node decoder; asking before a key is a
    /// protocol error.
    pub fn next_value(&mut self) -> (r: Result<NodeDeserializer<'a, EntryData<'a>>, Error>)
        ensures
            final(self).entries() == old(self).entries(),
            final(self).pos() == old(self).pos(),
            final(self).pending() is None,
            match old(self).pending() {
                Some(n) => (r matches Ok(d) && d.items().map_values(|x: EntryData| x@) == n.items()
                    && d.pos() == 0),
                None => r == Err::<NodeDeserializer<'a, EntryData<'a>>, Error>(
                    Error::ValueBeforeKey,
                ),
            },
    {
        proof {
            use_type_invariant(&*self);
        }
        let pending = self.value;
        self.value = None;
        match pending {
            Some(n) => {
                proof {
                    crate::elements::lemma_data_node_model(*n);
                }
                Ok(NodeDeserializer::new(n))
            },
            None => Err(Error::ValueBeforeKey),
        }
    }

    /// The number of keys left.
    pub fn size_hint(&self) -> (r: usize)
        ensures
            r == self.entries().len() - self.pos(),
    {
        proof {
            use_type_invariant(self);
        }
        self.iter.remaining()
    }
}

/// Decodes the fragments of one group: each in text order when a sequence
/// is asked for, the first one when a map is asked for.
pub struct FragmentSliceDeserializer<'a> {
    fragments: &'a [EntryFragment<'a>],
    index: usize,
}

impl<'a> FragmentSliceDeserializer<'a> {
    #[verifier::type_invariant]
    closed spec fn inv(self) -> bool {
        1 <= self.fragments@.len() && self.index <= self.fragments@.len()
    }

    /// The fragments of the group.
    pub closed spec fn items(&self) -> Seq<FragmentModel> {
        fragments_model(self.fragments@)
    }

    /// How many fragments were handed out as sequence elements.
    pub closed spec fn pos(&self) -> int {
        self.index as int
    }

    pub fn new(n: &'a [EntryFragment<'a>]) -> (r: Self)
        requires
            n@.len() >= 1,
        ensures
            r.items() == fragments_model(n@),
            r.pos() == 0,
    {
        FragmentSliceDeserializer { fragments: n, index: 0 }
    }

    /// The next fragment as a map cursor, if any is left.
    pub fn next_element(&mut self) -> (r: Option<EntryFragmentDeserializer<'a>>)
        ensures
            final(self).items() == old(self).items(),
            old(self).pos() < old(self).items().len() ==> (r matches Some(d)
                && d.entries() == old(self).items()[old(self).pos()] && d.pos() == 0
                && d.pending() is None && final(self).pos() == old(self).pos() + 1),
            old(self).pos() >= old(self).items().len() ==> (r is None && final(self).pos()
                == old(self).pos()),
    {
        proof {
            use_type_invariant(&*self);
        }
        if self.index < self.fragments.len() {
            let f = &self.fragments[self.index];
            self.index = self.index + 1;
            Some(EntryFragmentDeserializer::from_fragment(f))
        } else {
            None
        }
    }

    /// The number of fragments left.
    pub fn size_hint(&self) -> (r: usize)
        ensures
            r == self.items().len() - self.pos(),
    {
        proof {
            use_type_invariant(self);
        }
        self.fragments.len() - self.index
    }

    /// A map cursor over the first fragment of the group.
    pub fn map(&self) -> (r: EntryFragmentDeserializer<'a>)
        ensures
            r.entries() == self.items()[0],
            r.pos() == 0,
            r.pending() is None,
    {
        proof {
            use_type_invariant(self);
        }
        EntryFragmentDeserializer::from_fragment(&self.fragments[0])
    }
}

/// A map cursor over a document: group keys in order of first appearance,
/// each followed by its group of fragments.
pub struct Deserializer<'a> {
    iter: SliceIter<'a>,
    value: Option<&'a [EntryFragment<'a>]>,
}

/// The map cursor over a document.
pub type DatDocumentDeserializer<'a> = Deserializer<'a>;

impl<'a> Deserializer<'a> {
    #[verifier::type_invariant]
    closed spec fn inv(self) -> bool {
        &&& groups_nonempty(self.iter.entries())
        &&& self.value matches Some(v) ==> v@.len() >= 1
    }

    /// The groups of the document.
    pub closed spec fn entries(&self) -> DocumentModel {
        self.iter.entries()
    }

    /// How many keys were handed out.
    pub closed spec fn pos(&self) -> int {
        self.iter.pos()
    }

    /// The fragments of the last key handed out, until they are taken.
    pub closed spec fn pending(&self) -> Option<Seq<FragmentModel>> {
        match self.value {
            Some(v) => Some(fragments_model(v@)),
            None => None,
        }
    }

    pub fn new(iter: SliceIter<'a>) -> (r: Self)
        requires
            groups_nonempty(iter.entries()),
        ensures
            r.entries() == iter.entries(),
            r.pos() == iter.pos(),
            r.pending() is None,
    {
        Deserializer { iter, value: None }
    }

    /// Creates a map cursor over a parsed document.
    pub fn from_document(input: &'a DatDocument<'a>) -> (r: Self)
        ensures
            r.entries() == input@,
            r.pos() == 0,
            r.pending() is None,
    {
        Self::new(input.iter())
    }

    /// The next group key; its fragments become the pending value.
    pub fn next_key(&mut self) -> (r: Option<&'a str>)
        ensures
            final(self).entries() == old(self).entries(),
            old(self).pos() < old(self).entries().len() ==> (r matches Some(k)
                && text(k) == old(self).entries()[old(self).pos()].0
                && final(self).pos() == old(self).pos() + 1
                && final(self).pending() == Some(old(self).entries()[old(self).pos()].1)),
            old(self).pos() >= old(self).entries().len() ==> (r is None && final(self).pos()
                == old(self).pos() && final(self).pending() == old(self).pending()),
    {
        proof {
            use_type_invariant(&*self);
        }
        let ghost es = self.iter.entries();
        let ghost p = self.iter.pos();
        match self.iter.next() {
            Some((k, v)) => {
                proof {
                    assert(es[p].1.len() >= 1);
                }
                self.value = Some(v);
                Some(k)
            },
            None => None,
        }
    }

    /// The pending group as a fragment decoder; asking before a key is a
    /// protocol error.
    pub fn next_value(&mut self) -> (r: Result<FragmentSliceDeserializer<'a>, Error>)
        ensures
            final(self).entries() == old(self).entries(),
            final(self).pos() == old(self).pos(),
            final(self).pending() is None,
            match old(self).pending() {
                Some(g) => (r matches Ok(d) && d.items() == g && d.pos() == 0),
                None => r == Err::<FragmentSliceDeserializer<'a>, Error>(Error::ValueBeforeKey),
            },
    {
        proof {
            use_type_invariant(&*self);
        }
        let pending = self.value;
        self.value = None;
        match pending {
            Some(v) => Ok(FragmentSliceDeserializer::new(v)),
            None => Err(Error::ValueBeforeKey),
        }
    }

    /// The number of keys left.
    pub fn size_hint(&self) -> (r: usize)
        ensures
            r == self.entries().len() - self.pos(),
    {
        self.iter.remaining()
    }
}

} // verus!
