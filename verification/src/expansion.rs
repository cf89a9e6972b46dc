//! Pipeline expansion: the transforms that pipelines declare become scoped
//! transforms of the topology, and the components that they name as outputs
//! get them as inputs.
//!
//! Problems do not stop the expansion. Each one adds a diagnostic, and the
//! rest of the pipelines is expanded all the same.

use crate::builder::{sink_table, transform_table, BuilderView, ConfigBuilder};
use crate::entity::{
    lemma_keys_of_push, lemma_texts_of_push, texts_of, Node, SinkOuter, TransformOuter,
};
use crate::id::{global_key, ComponentId, Key};
use crate::ordered::{OrderedMap, Table};
use crate::pipeline::{
    flattened, lemma_flattened_scoped, scoped_views, PipelineTransform, Pipelines, Scoped,
};
use vstd::prelude::*;
use vstd::string::StringExecFns;

verus! {

/// The diagnostic for a pipeline transform whose local name is taken by a
/// global transform or source.
pub open spec fn name_taken_message(name: Seq<char>) -> Seq<char> {
    "Component ID '"@ + name + "' is already used."@
}

/// The diagnostic for an output that names neither a transform nor a sink.
pub open spec fn missing_output_message(name: Seq<char>) -> Seq<char> {
    "Couldn't find transform or sink '"@ + name + "'"@
}

/// What an expansion has built so far: the transforms and the sinks with
/// the edges wired in, and the diagnostics.
pub struct Wiring<C> {
    pub transforms: Table<Node<C>>,
    pub sinks: Table<Node<C>>,
    pub errors: Seq<Seq<char>>,
}

/// The table in which the node at `target` has `input` as its last input.
/// It is meant for a `target` that is bound.
pub open spec fn with_input<C>(table: Table<Node<C>>, target: Key, input: Key) -> Table<Node<C>> {
    let at = table.position(target);
    let node = table.values[at];
    Table {
        keys: table.keys,
        values: table.values.update(at, Node { inputs: node.inputs.push(input), inner: node.inner }),
    }
}

/// Wires one output of the transform `id`: the global transform called
/// `output` gets `id` as an input; failing that, the global sink of that
/// name does; failing that too, a diagnostic is added.
pub open spec fn wire_output<C>(wiring: Wiring<C>, id: Key, output: Seq<char>) -> Wiring<C> {
    let target = global_key(output);
    if wiring.transforms.has(target) {
        Wiring { transforms: with_input(wiring.transforms, target, id), ..wiring }
    } else if wiring.sinks.has(target) {
        Wiring { sinks: with_input(wiring.sinks, target, id), ..wiring }
    } else {
        Wiring { errors: wiring.errors.push(missing_output_message(output)), ..wiring }
    }
}

/// Wires the first `n` outputs of the transform `id`, in order.
pub open spec fn wire_outputs<C>(wiring: Wiring<C>, id: Key, outputs: Seq<Seq<char>>, n: nat) -> Wiring<
    C,
>
    decreases n,
{
    if n == 0 {
        wiring
    } else {
        wire_output(wire_outputs(wiring, id, outputs, (n - 1) as nat), id, outputs[n - 1])
    }
}

/// Whether a local name is taken: a transform or a source of the global
/// namespace has it.
pub open spec fn name_taken(transforms: Seq<Key>, sources: Seq<Key>, name: Seq<char>) -> bool {
    transforms.contains(global_key(name)) || sources.contains(global_key(name))
}

/// Expands one pipeline transform. Where its local name is taken, a
/// diagnostic is all that is added. Otherwise its outputs are wired, and
/// then it is bound under its scoped identity, whether or not every output
/// was found.
pub open spec fn expand_one<C>(wiring: Wiring<C>, taken: bool, scoped: Scoped<C>) -> Wiring<C> {
    if taken {
        Wiring { errors: wiring.errors.push(name_taken_message(scoped.id.1)), ..wiring }
    } else {
        let wired = wire_outputs(
            wiring,
            scoped.id,
            scoped.stage.outputs,
            scoped.stage.outputs.len(),
        );
        Wiring { transforms: wired.transforms.put(scoped.id, scoped.stage.node), ..wired }
    }
}

/// Expands the first `n` of the pipeline transforms `scoped`, in order.
/// Which names are taken is decided once, by the transforms and sources
/// that were there before the expansion: `transforms` and `sources`.
pub open spec fn expand_prefix<C>(
    start: Wiring<C>,
    transforms: Seq<Key>,
    sources: Seq<Key>,
    scoped: Seq<Scoped<C>>,
    n: nat,
) -> Wiring<C>
    decreases n,
{
    if n == 0 {
        start
    } else {
        expand_one(
            expand_prefix(start, transforms, sources, scoped, (n - 1) as nat),
            name_taken(transforms, sources, scoped[n - 1].id.1),
            scoped[n - 1],
        )
    }
}

/// Where an expansion starts: the transforms and sinks of the builder, and
/// no diagnostic.
pub open spec fn start_of<C>(builder: BuilderView<C>) -> Wiring<C> {
    Wiring { transforms: builder.transforms, sinks: builder.sinks, errors: Seq::empty() }
}

/// The expansion of the first `n` pipeline transforms of a builder.
pub open spec fn expansion_prefix<C>(builder: BuilderView<C>, n: nat) -> Wiring<C> {
    expand_prefix(
        start_of(builder),
        builder.transforms.keys,
        builder.sources.keys,
        flattened(builder.pipelines),
        n,
    )
}

/// The expansion of all pipelines of a builder.
pub open spec fn expansion<C>(builder: BuilderView<C>) -> Wiring<C> {
    expansion_prefix(builder, flattened(builder.pipelines).len())
}

/// The builder after the expansion: the transforms and sinks as the
/// expansion leaves them, no pipeline pending and no provider.
pub open spec fn expanded<C>(builder: BuilderView<C>) -> BuilderView<C> {
    BuilderView {
        transforms: expansion(builder).transforms,
        sinks: expansion(builder).sinks,
        provider: None,
        pipelines: Table::empty(),
        ..builder
    }
}

/// Adds `input` as the last input of the transform or sink called
/// `output`, or the diagnostic to `errors` where there is none.
fn wire<C>(
    transforms: &mut OrderedMap<TransformOuter<C>>,
    sinks: &mut OrderedMap<SinkOuter<C>>,
    errors: &mut Vec<String>,
    input: &ComponentId,
    output: &String,
)
    requires
        old(transforms).wf(),
        old(sinks).wf(),
    ensures
        final(transforms).wf(),
        final(sinks).wf(),
        final(transforms)@.keys == old(transforms)@.keys,
        final(sinks)@.keys == old(sinks)@.keys,
        (Wiring {
            transforms: transform_table(final(transforms)@),
            sinks: sink_table(final(sinks)@),
            errors: texts_of(final(errors)@),
        }) == wire_output(
            Wiring {
                transforms: transform_table(old(transforms)@),
                sinks: sink_table(old(sinks)@),
                errors: texts_of(old(errors)@),
            },
            input@,
            output@,
        ),
{
    let target = ComponentId::global(output.clone());
    match transforms.position(&target) {
        Some(at) => {
            let transform = transforms.value_at_mut(at);
            let copy = input.clone();
            proof {
                lemma_keys_of_push(transform.inputs@, copy);
            }
            transform.inputs.push(copy);
            assert(transform_table(transforms@).values =~= with_input(
                transform_table(old(transforms)@),
                target@,
                input@,
            ).values);
        },
        None => match sinks.position(&target) {
            Some(at) => {
                let sink = sinks.value_at_mut(at);
                let copy = input.clone();
                proof {
                    lemma_keys_of_push(sink.inputs@, copy);
                }
                sink.inputs.push(copy);
                assert(sink_table(sinks@).values =~= with_input(
                    sink_table(old(sinks)@),
                    target@,
                    input@,
                ).values);
            },
            None => {
                let mut message = String::from_str("Couldn't find transform or sink '");
                message.append(output.as_str());
                message.append("'");
                proof {
                    lemma_texts_of_push(errors@, message);
                }
                errors.push(message);
            },
        },
    }
}

/// The wiring that two maps and a list of diagnostics stand for.
pub open spec fn wiring_of<C>(
    transforms: OrderedMap<TransformOuter<C>>,
    sinks: OrderedMap<SinkOuter<C>>,
    errors: Vec<String>,
) -> Wiring<C> {
    Wiring {
        transforms: transform_table(transforms@),
        sinks: sink_table(sinks@),
        errors: texts_of(errors@),
    }
}

impl<C> ConfigBuilder<C> {
    /// Expands the pending pipelines. Every transform that a pipeline
    /// declares becomes a transform of the topology under its scoped
    /// identity, and each transform or sink of the global namespace that it
    /// names as an output gets it as an input.
    ///
    /// The pipelines are taken in declaration order, and the transforms of
    /// each in declaration order. A transform whose local name is that of a
    /// global transform or source of the builder is skipped with a
    /// diagnostic; an output that names nothing adds a diagnostic and the
    /// transform is bound all the same. The builder that comes back has no
    /// pipeline pending and no provider, and the diagnostics come back in
    /// the order in which the problems were met.
    pub fn merge_pipelines(self) -> (result: (Self, Vec<String>))
        requires
            self.wf(),
        ensures
            result.0.wf(),
            result.0@ == expanded(self@),
            texts_of(result.1@) == expansion(self@).errors,
    {
        let ghost start = self@;
        let ConfigBuilder {
            global,
            healthchecks,
            enrichment_tables,
            sources,
            sinks,
            transforms,
            tests,
            provider: _,
            pipelines,
        } = self;
        let mut sinks = sinks;
        let mut transforms = transforms;
        let mut errors: Vec<String> = Vec::new();
        let ghost initial = wiring_of(transforms, sinks, errors);
        assert(initial.errors =~= Seq::<Seq<char>>::empty());
        let scoped = pipelines.into_scoped();
        let ghost stages = flattened(start.pipelines);
        for entry in it: scoped.into_iter()
            invariant
                it.seq() == scoped@,
                scoped_views(scoped@) == stages,
                stages == flattened(start.pipelines),
                sources.wf(),
                transforms.wf(),
                sinks.wf(),
                sources@.keys == start.sources.keys,
                forall|k: Key|
                    k.0 is None ==> (transforms@.keys.contains(k) == start.transforms.keys.contains(
                        k,
                    )),
                wiring_of(transforms, sinks, errors) == expand_prefix(
                    initial,
                    start.transforms.keys,
                    start.sources.keys,
                    stages,
                    it.index() as nat,
                ),
        {
            let ghost k = it.index();
            let ghost before = wiring_of(transforms, sinks, errors);
            assert(entry == scoped@[k]);
            assert(scoped_views(scoped@)[k] == stages[k]);
            proof {
                lemma_flattened_scoped(start.pipelines, start.pipelines.len(), k);
            }
            let (id, stage) = entry;
            let probe = ComponentId::global(String::from_str(id.id()));
            if transforms.contains_key(&probe) || sources.contains_key(&probe) {
                let mut message = String::from_str("Component ID '");
                message.append(id.id());
                message.append("' is already used.");
                proof {
                    lemma_texts_of_push(errors@, message);
                }
                errors.push(message);
            } else {
                let PipelineTransform { inner, outputs } = stage;
                let mut j: usize = 0;
                while j < outputs.len()
                    invariant
                        j <= outputs@.len(),
                        transforms.wf(),
                        sinks.wf(),
                        transforms@.keys == before.transforms.keys,
                        wiring_of(transforms, sinks, errors) == wire_outputs(
                            before,
                            id@,
                            texts_of(outputs@),
                            j as nat,
                        ),
                    decreases outputs@.len() - j,
                {
                    wire(&mut transforms, &mut sinks, &mut errors, &id, &outputs[j]);
                    j += 1;
                }
                let ghost wired = transforms@;
                proof {
                    wired.lemma_map_put(|t: TransformOuter<C>| t@, id@, inner);
                    wired.lemma_put_wf(id@, inner);
                    assert forall|k: Key| k.0 is None implies wired.put(id@, inner).keys.contains(k)
                        == start.transforms.keys.contains(k) by {
                        assert(wired.put(id@, inner).has(k) == wired.has(k));
                    }
                }
                transforms.insert(id, inner);
            }
        }
        let builder = ConfigBuilder {
            global,
            healthchecks,
            enrichment_tables,
            sources,
            sinks,
            transforms,
            tests,
            provider: None,
            pipelines: Pipelines::new(),
        };
        (builder, errors)
    }

    /// Expands the pending pipelines ahead of compiling. Only an expansion
    /// without a diagnostic may go on: it gives the expanded builder. With
    /// any diagnostic the builder is given up, and the diagnostics come
    /// back in its place.
    pub fn into_expanded(self) -> (result: Result<Self, Vec<String>>)
        requires
            self.wf(),
        ensures
            match result {
                Ok(builder) => expansion(self@).errors.len() == 0 && builder.wf() && builder@
                    == expanded(self@),
                Err(errors) => errors@.len() > 0 && texts_of(errors@) == expansion(self@).errors,
            },
    {
        let (builder, errors) = self.merge_pipelines();
        if errors.len() == 0 {
            Ok(builder)
        } else {
            Err(errors)
        }
    }
}

} // verus!
