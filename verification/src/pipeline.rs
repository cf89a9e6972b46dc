//! Pipelines: named groups of transforms with local names, which declare by
//! name the components that read from them.

use crate::entity::{texts_of, Node, TransformOuter};
use crate::id::{global_key, scoped_key, ComponentId, Key};
use crate::ordered::{OrderedMap, Table};
use vstd::prelude::*;

verus! {

/// The mathematical value of a transform that a pipeline declares: the
/// transform itself and the names of the components that read from it.
pub struct Stage<C> {
    pub node: Node<C>,
    pub outputs: Seq<Seq<char>>,
}

/// A transform of a pipeline, under the identity that it has in the
/// topology.
pub struct Scoped<C> {
    pub id: Key,
    pub stage: Stage<C>,
}

/// The mathematical value of a pipeline: its stages under their local names,
/// in declaration order.
pub type PipelineView<C> = Table<Stage<C>>;

/// The mathematical value of a set of pipelines: each under its name, in
/// declaration order.
pub type PipelinesView<C> = Table<Table<Stage<C>>>;

/// Whether every key is a plain name, without a scope.
pub open spec fn plain_names(keys: Seq<Key>) -> bool {
    forall|i: int| 0 <= i < keys.len() ==> (#[trigger] keys[i]).0 is None
}

/// A pipeline's stages hang under distinct plain names.
pub open spec fn pipeline_wf<C>(pipeline: PipelineView<C>) -> bool {
    pipeline.wf() && plain_names(pipeline.keys)
}

/// The pipelines hang under distinct plain names, and each is well formed.
pub open spec fn pipelines_wf<C>(pipelines: PipelinesView<C>) -> bool {
    &&& pipelines.wf()
    &&& plain_names(pipelines.keys)
    &&& forall|i: int| 0 <= i < pipelines.values.len() ==> pipeline_wf(#[trigger] pipelines.values[i])
}

/// The stages of one pipeline, each scoped to that pipeline, in declaration
/// order.
pub open spec fn scoped_in<C>(pipeline: Seq<char>, stages: PipelineView<C>) -> Seq<Scoped<C>> {
    Seq::new(
        stages.len(),
        |i: int| Scoped { id: scoped_key(pipeline, stages.keys[i].1), stage: stages.values[i] },
    )
}

/// The scoped stages of the first `n` pipelines.
pub open spec fn flattened_prefix<C>(pipelines: PipelinesView<C>, n: nat) -> Seq<Scoped<C>>
    decreases n,
{
    if n == 0 {
        Seq::empty()
    } else {
        flattened_prefix(pipelines, (n - 1) as nat) + scoped_in(
            pipelines.keys[n - 1].1,
            pipelines.values[n - 1],
        )
    }
}

/// Every stage of every pipeline under its scoped identity: the pipelines in
/// declaration order, and the stages of each in declaration order.
pub open spec fn flattened<C>(pipelines: PipelinesView<C>) -> Seq<Scoped<C>> {
    flattened_prefix(pipelines, pipelines.len())
}

/// Every flattened stage has a scoped identity.
pub proof fn lemma_flattened_scoped<C>(pipelines: PipelinesView<C>, n: nat, i: int)
    requires
        0 <= i < flattened_prefix(pipelines, n).len(),
    ensures
        flattened_prefix(pipelines, n)[i].id.0 is Some,
    decreases n,
{
    if n > 0 {
        let before = flattened_prefix(pipelines, (n - 1) as nat);
        if i < before.len() {
            lemma_flattened_scoped(pipelines, (n - 1) as nat, i);
        }
    }
}

/// A transform as a pipeline declares it.
#[derive(Debug, PartialEq)]
pub struct PipelineTransform<C> {
    pub inner: TransformOuter<C>,
    /// The names of the transforms and sinks that read from this transform.
    pub outputs: Vec<String>,
}

impl<C> View for PipelineTransform<C> {
    type V = Stage<C>;

    open spec fn view(&self) -> Stage<C> {
        Stage { node: self.inner@, outputs: texts_of(self.outputs@) }
    }
}

impl<C> PipelineTransform<C> {
    /// A transform that the components called `outputs` read from.
    pub fn new(inner: TransformOuter<C>, outputs: Vec<String>) -> (transform: Self)
        ensures
            transform@ == (Stage { node: inner@, outputs: texts_of(outputs@) }),
    {
        PipelineTransform { inner, outputs }
    }
}

/// What a scoped transform is, as a value.
pub open spec fn scoped_view<C>(entry: (ComponentId, PipelineTransform<C>)) -> Scoped<C> {
    Scoped { id: entry.0@, stage: entry.1@ }
}

/// What a list of scoped transforms is, as a value.
pub open spec fn scoped_views<C>(entries: Seq<(ComponentId, PipelineTransform<C>)>) -> Seq<
    Scoped<C>,
> {
    entries.map_values(|e: (ComponentId, PipelineTransform<C>)| scoped_view(e))
}

/// Appending a scoped transform appends its value.
pub proof fn lemma_scoped_views_push<C>(
    entries: Seq<(ComponentId, PipelineTransform<C>)>,
    entry: (ComponentId, PipelineTransform<C>),
)
    ensures
        scoped_views(entries.push(entry)) == scoped_views(entries).push(scoped_view(entry)),
{
    assert(scoped_views(entries.push(entry)) =~= scoped_views(entries).push(scoped_view(entry)));
}

/// A named group of transforms. Inside the group a transform is known by
/// its local name.
#[derive(Debug)]
pub struct Pipeline<C> {
    transforms: OrderedMap<PipelineTransform<C>>,
}

impl<C> View for Pipeline<C> {
    type V = PipelineView<C>;

    closed spec fn view(&self) -> PipelineView<C> {
        self.transforms@.map(|t: PipelineTransform<C>| t@)
    }
}

impl<C> Pipeline<C> {
    /// The stages hang under distinct plain names. Every pipeline that the
    /// functions of this type make is well formed.
    pub closed spec fn wf(&self) -> bool {
        self.transforms.wf() && pipeline_wf(self@)
    }

    /// The value of a well-formed pipeline is well formed.
    pub proof fn lemma_wf(&self)
        requires
            self.wf(),
        ensures
            pipeline_wf(self@),
    {
    }

    /// The pipeline without transforms.
    pub fn new() -> (pipeline: Self)
        ensures
            pipeline.wf(),
            pipeline@ == Table::<Stage<C>>::empty(),
    {
        let pipeline = Pipeline { transforms: OrderedMap::new() };
        assert(pipeline@.values =~= Seq::<Stage<C>>::empty());
        pipeline
    }

    /// The number of transforms.
    pub fn len(&self) -> (n: usize)
        requires
            self.wf(),
        ensures
            n == self@.len(),
    {
        self.transforms.len()
    }

    /// Declares `transform` under the local name `name`. A name that is
    /// already declared keeps its place and gets the new transform.
    pub fn insert(&mut self, name: String, transform: PipelineTransform<C>)
        requires
            old(self).wf(),
        ensures
            final(self).wf(),
            final(self)@ == old(self)@.put(global_key(name@), transform@),
    {
        proof {
            self.transforms@.lemma_map_put(|t: PipelineTransform<C>| t@, global_key(name@), transform);
            self@.lemma_put_wf(global_key(name@), transform@);
        }
        self.transforms.insert(ComponentId::global(name), transform);
        proof {
            let keys = self@.keys;
            assert forall|i: int| 0 <= i < keys.len() implies (#[trigger] keys[i]).0 is None by {
                if i < old(self)@.keys.len() {
                    assert(keys[i] == old(self)@.keys[i]);
                }
            }
        }
    }

    /// Takes the pipeline apart into its transforms, each with its local
    /// name, in declaration order.
    pub fn into_transforms(self) -> (entries: Vec<(String, PipelineTransform<C>)>)
        requires
            self.wf(),
        ensures
            entries@.len() == self@.len(),
            forall|i: int|
                0 <= i < entries@.len() ==> (#[trigger] entries@[i]).0@ == self@.keys[i].1
                    && entries@[i].1@ == self@.values[i],
    {
        names_of(self.transforms.into_entries())
    }
}

/// Replaces each identity by its local name.
fn names_of<V>(entries: Vec<(ComponentId, V)>) -> (named: Vec<(String, V)>)
    ensures
        named@.len() == entries@.len(),
        forall|i: int|
            0 <= i < named@.len() ==> (#[trigger] named@[i]).0@ == entries@[i].0@.1 && named@[i].1
                == entries@[i].1,
{
    let mut named: Vec<(String, V)> = Vec::new();
    for entry in it: entries.into_iter()
        invariant
            it.seq() == entries@,
            named@.len() == it.index(),
            forall|i: int|
                0 <= i < named@.len() ==> (#[trigger] named@[i]).0@ == entries@[i].0@.1
                    && named@[i].1 == entries@[i].1,
    {
        let (id, value) = entry;
        named.push((id.qualified.1, value));
    }
    named
}

/// The pipelines of a configuration, each under its name.
#[derive(Debug)]
pub struct Pipelines<C> {
    pipelines: OrderedMap<Pipeline<C>>,
}

impl<C> View for Pipelines<C> {
    type V = PipelinesView<C>;

    closed spec fn view(&self) -> PipelinesView<C> {
        self.pipelines@.map(|p: Pipeline<C>| p@)
    }
}

impl<C> Pipelines<C> {
    /// The pipelines hang under distinct plain names and each is well
    /// formed. Every value that the functions of this type make is well
    /// formed.
    pub closed spec fn wf(&self) -> bool {
        &&& self.pipelines.wf()
        &&& pipelines_wf(self@)
        &&& forall|i: int|
            0 <= i < self.pipelines@.values.len() ==> (#[trigger] self.pipelines@.values[i]).wf()
    }

    /// The value of well-formed pipelines is well formed.
    pub proof fn lemma_wf(&self)
        requires
            self.wf(),
        ensures
            pipelines_wf(self@),
    {
    }

    /// No pipelines.
    pub fn new() -> (pipelines: Self)
        ensures
            pipelines.wf(),
            pipelines@ == Table::<Table<Stage<C>>>::empty(),
    {
        let pipelines = Pipelines { pipelines: OrderedMap::new() };
        assert(pipelines@.values =~= Seq::<Table<Stage<C>>>::empty());
        pipelines
    }

    /// The number of pipelines.
    pub fn len(&self) -> (n: usize)
        requires
            self.wf(),
        ensures
            n == self@.len(),
    {
        self.pipelines.len()
    }

    /// Whether there is no pipeline.
    pub fn is_empty(&self) -> (empty: bool)
        requires
            self.wf(),
        ensures
            empty == (self@.len() == 0),
    {
        self.pipelines.is_empty()
    }

    /// Adds `pipeline` under `name`. A name that is already taken keeps its
    /// place and gets the new pipeline.
    pub fn insert(&mut self, name: String, pipeline: Pipeline<C>)
        requires
            old(self).wf(),
            pipeline.wf(),
        ensures
            final(self).wf(),
            final(self)@ == old(self)@.put(global_key(name@), pipeline@),
    {
        let ghost key = global_key(name@);
        proof {
            self.pipelines@.lemma_map_put(|p: Pipeline<C>| p@, key, pipeline);
            self@.lemma_put_wf(key, pipeline@);
            if self.pipelines@.has(key) {
                self.pipelines@.keys.index_of_first_ensures(key);
            }
        }
        self.pipelines.insert(ComponentId::global(name), pipeline);
        proof {
            let keys = self@.keys;
            assert forall|i: int| 0 <= i < keys.len() implies (#[trigger] keys[i]).0 is None by {
                if i < old(self)@.keys.len() {
                    assert(keys[i] == old(self)@.keys[i]);
                }
            }
            let before = old(self).pipelines@;
            let after = self.pipelines@;
            assert forall|i: int| 0 <= i < after.values.len() implies (#[trigger] after.values[i]).wf() by {
                if after.values[i] != pipeline {
                    assert(after.values[i] == before.values[i]);
                }
            }
            assert forall|i: int| 0 <= i < self@.values.len() implies pipeline_wf(
                #[trigger] self@.values[i],
            ) by {
                assert(after.values[i].wf());
            }
        }
    }

    /// Takes the pipelines apart, each with its name, in declaration order.
    pub fn into_pipelines(self) -> (entries: Vec<(String, Pipeline<C>)>)
        requires
            self.wf(),
        ensures
            entries@.len() == self@.len(),
            forall|i: int|
                0 <= i < entries@.len() ==> (#[trigger] entries@[i]).0@ == self@.keys[i].1
                    && entries@[i].1@ == self@.values[i] && entries@[i].1.wf(),
    {
        let entries = names_of(self.pipelines.into_entries());
        assert forall|i: int| 0 <= i < entries@.len() implies (#[trigger] entries@[i]).0@
            == self@.keys[i].1 && entries@[i].1@ == self@.values[i] && entries@[i].1.wf() by {
            assert(self.pipelines@.values[i].wf());
        }
        entries
    }

    /// Flattens the pipelines into their transforms, each under its scoped
    /// identity: the pipelines in declaration order, and the transforms of
    /// each in declaration order.
    pub fn into_scoped(self) -> (scoped: Vec<(ComponentId, PipelineTransform<C>)>)
        requires
            self.wf(),
        ensures
            scoped_views(scoped@) == flattened(self@),
    {
        let ghost whole = self@;
        let mut scoped: Vec<(ComponentId, PipelineTransform<C>)> = Vec::new();
        let pipelines = self.into_pipelines();
        assert(scoped_views(scoped@) =~= flattened_prefix(whole, 0));
        for entry in outer: pipelines.into_iter()
            invariant
                outer.seq() == pipelines@,
                pipelines@.len() == whole.len(),
                whole.keys.len() == whole.values.len(),
                forall|i: int|
                    0 <= i < pipelines@.len() ==> (#[trigger] pipelines@[i]).0@ == whole.keys[i].1
                        && pipelines@[i].1@ == whole.values[i] && pipelines@[i].1.wf(),
                scoped_views(scoped@) == flattened_prefix(whole, outer.index() as nat),
        {
            let ghost p = outer.index();
            let ghost done = scoped_views(scoped@);
            assert(entry == pipelines@[p]);
            let (name, pipeline) = entry;
            let ghost stages = pipeline@;
            proof {
                pipeline.lemma_wf();
            }
            let transforms = pipeline.into_transforms();
            assert(scoped_views(scoped@) =~= done + scoped_in(name@, stages).take(0));
            for transform in it: transforms.into_iter()
                invariant
                    it.seq() == transforms@,
                    transforms@.len() == stages.len(),
                    stages.keys.len() == stages.values.len(),
                    forall|i: int|
                        0 <= i < transforms@.len() ==> (#[trigger] transforms@[i]).0@
                            == stages.keys[i].1 && transforms@[i].1@ == stages.values[i],
                    scoped_views(scoped@) == done + scoped_in(name@, stages).take(
                        it.index() as int,
                    ),
            {
                let ghost before = scoped_views(scoped@);
                let ghost k = it.index();
                assert(transform == transforms@[k]);
                let (local, stage) = transform;
                let id = ComponentId::pipeline(name.as_str(), local.as_str());
                proof {
                    lemma_scoped_views_push(scoped@, (id, stage));
                }
                scoped.push((id, stage));
                assert(scoped_view((id, stage)) == scoped_in(name@, stages)[k]);
                assert(scoped_views(scoped@) =~= before.push(scoped_in(name@, stages)[k]));
                assert(scoped_views(scoped@) =~= done + scoped_in(name@, stages).take(k + 1));
            }
            assert(scoped_in(name@, stages).take(stages.len() as int) =~= scoped_in(
                name@,
                stages,
            ));
        }
        scoped
    }
}

} // verus!
