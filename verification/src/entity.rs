//! The entity wrappers: a component's configuration together with the edges
//! that the topology needs from it.
//!
//! The configuration itself is a value of the type parameter `C`. Nothing
//! here looks inside it: it is stored, moved and handed on.

use crate::id::{ComponentId, Key};
use vstd::prelude::*;

verus! {

/// The keys that a list of identities denotes, in order.
pub open spec fn keys_of(ids: Seq<ComponentId>) -> Seq<Key> {
    ids.map_values(|id: ComponentId| id@)
}

/// The texts of a list of strings, in order.
pub open spec fn texts_of(strings: Seq<String>) -> Seq<Seq<char>> {
    strings.map_values(|s: String| s@)
}

/// Appending an identity appends its key.
pub proof fn lemma_keys_of_push(ids: Seq<ComponentId>, id: ComponentId)
    ensures
        keys_of(ids.push(id)) == keys_of(ids).push(id@),
{
    assert(keys_of(ids.push(id)) =~= keys_of(ids).push(id@));
}

/// Appending a string appends its text.
pub proof fn lemma_texts_of_push(strings: Seq<String>, s: String)
    ensures
        texts_of(strings.push(s)) == texts_of(strings).push(s@),
{
    assert(texts_of(strings.push(s)) =~= texts_of(strings).push(s@));
}

/// A node of the topology that receives events: its upstream edges, in
/// order, and its configuration. The view of a sink and of a transform.
pub struct Node<C> {
    pub inputs: Seq<Key>,
    pub inner: C,
}

/// A source: a root of the topology, without inputs.
#[derive(Debug, PartialEq)]
pub struct SourceOuter<C> {
    pub inner: C,
}

/// An enrichment table: a root of the topology, without inputs.
#[derive(Debug, PartialEq)]
pub struct EnrichmentTableOuter<C> {
    pub inner: C,
}

/// A sink with the identities it reads from.
#[derive(Debug, PartialEq)]
pub struct SinkOuter<C> {
    pub inputs: Vec<ComponentId>,
    pub inner: C,
}

/// A transform with the identities it reads from.
#[derive(Debug, PartialEq)]
pub struct TransformOuter<C> {
    pub inputs: Vec<ComponentId>,
    pub inner: C,
}

/// A test of the topology, known to the builder by its name.
#[derive(Debug, PartialEq)]
pub struct TestDefinition<C> {
    pub name: String,
    pub body: C,
}

impl<C> SourceOuter<C> {
    /// Wraps the configuration of a source.
    pub fn new(inner: C) -> (source: Self)
        ensures
            source.inner == inner,
    {
        SourceOuter { inner }
    }
}

impl<C> EnrichmentTableOuter<C> {
    /// Wraps the configuration of an enrichment table.
    pub fn new(inner: C) -> (table: Self)
        ensures
            table.inner == inner,
    {
        EnrichmentTableOuter { inner }
    }
}

impl<C> View for SinkOuter<C> {
    type V = Node<C>;

    open spec fn view(&self) -> Node<C> {
        Node { inputs: keys_of(self.inputs@), inner: self.inner }
    }
}

impl<C> SinkOuter<C> {
    /// A sink that reads from `inputs`.
    pub fn new(inputs: Vec<ComponentId>, inner: C) -> (sink: Self)
        ensures
            sink@ == (Node { inputs: keys_of(inputs@), inner }),
    {
        SinkOuter { inputs, inner }
    }
}

impl<C> View for TransformOuter<C> {
    type V = Node<C>;

    open spec fn view(&self) -> Node<C> {
        Node { inputs: keys_of(self.inputs@), inner: self.inner }
    }
}

impl<C> TransformOuter<C> {
    /// A transform that reads from `inputs`.
    pub fn new(inputs: Vec<ComponentId>, inner: C) -> (transform: Self)
        ensures
            transform@ == (Node { inputs: keys_of(inputs@), inner }),
    {
        TransformOuter { inputs, inner }
    }
}

} // verus!
