//! The configuration builder: everything that one or more fragments say
//! about a topology, before it is compiled.

use crate::entity::{
    keys_of, lemma_keys_of_push, EnrichmentTableOuter, Node, SinkOuter, SourceOuter,
    TestDefinition, TransformOuter,
};
use crate::global::{GlobalOptions, GlobalView, HealthcheckOptions, default_log_schema};
use crate::id::{global_key, ComponentId, Key};
use crate::ordered::{OrderedMap, Table};
use crate::pipeline::{pipelines_wf, Pipelines, PipelinesView};
use vstd::prelude::*;
use vstd::string::StringExecFns;

verus! {

/// The mathematical value of a test definition.
pub struct TestView<C> {
    pub name: Seq<char>,
    pub body: C,
}

impl<C> View for TestDefinition<C> {
    type V = TestView<C>;

    open spec fn view(&self) -> TestView<C> {
        TestView { name: self.name@, body: self.body }
    }
}

/// The values of a list of test definitions, in order.
pub open spec fn tests_of<C>(tests: Seq<TestDefinition<C>>) -> Seq<TestView<C>> {
    tests.map_values(|t: TestDefinition<C>| t@)
}

/// The configurations of a table of sources.
pub open spec fn source_table<C>(sources: Table<SourceOuter<C>>) -> Table<C> {
    sources.map(|s: SourceOuter<C>| s.inner)
}

/// The configurations of a table of enrichment tables.
pub open spec fn enrichment_table<C>(tables: Table<EnrichmentTableOuter<C>>) -> Table<C> {
    tables.map(|t: EnrichmentTableOuter<C>| t.inner)
}

/// The nodes of a table of sinks.
pub open spec fn sink_table<C>(sinks: Table<SinkOuter<C>>) -> Table<Node<C>> {
    sinks.map(|s: SinkOuter<C>| s@)
}

/// The nodes of a table of transforms.
pub open spec fn transform_table<C>(transforms: Table<TransformOuter<C>>) -> Table<Node<C>> {
    transforms.map(|t: TransformOuter<C>| t@)
}

/// The global keys that a list of names denotes, in order.
pub open spec fn global_keys(names: Seq<&str>) -> Seq<Key> {
    names.map_values(|name: &str| global_key(name@))
}

/// The mathematical value of a builder.
pub struct BuilderView<C> {
    pub global: GlobalView,
    pub healthchecks: HealthcheckOptions,
    pub enrichment_tables: Table<C>,
    pub sources: Table<C>,
    pub sinks: Table<Node<C>>,
    pub transforms: Table<Node<C>>,
    pub tests: Seq<TestView<C>>,
    pub provider: Option<C>,
    pub pipelines: PipelinesView<C>,
}

impl<C> BuilderView<C> {
    /// In every collection each key has one value and occurs once, and the
    /// pipelines and their transforms hang under distinct plain names.
    pub open spec fn wf(self) -> bool {
        &&& self.enrichment_tables.wf()
        &&& self.sources.wf()
        &&& self.sinks.wf()
        &&& self.transforms.wf()
        &&& pipelines_wf(self.pipelines)
    }

    /// The builder that says nothing: no entity, no test, no provider, no
    /// pipeline, and every option unset or at its default.
    pub open spec fn empty() -> Self {
        BuilderView {
            global: GlobalView { data_dir: None, log_schema: default_log_schema() },
            healthchecks: HealthcheckOptions { enabled: true, require_healthy: false },
            enrichment_tables: Table::empty(),
            sources: Table::empty(),
            sinks: Table::empty(),
            transforms: Table::empty(),
            tests: Seq::empty(),
            provider: None,
            pipelines: Table::empty(),
        }
    }
}

/// The intermediate form of a configuration: one per fragment, or the
/// result of merging several.
#[derive(Debug)]
pub struct ConfigBuilder<C> {
    pub global: GlobalOptions,
    pub healthchecks: HealthcheckOptions,
    pub enrichment_tables: OrderedMap<EnrichmentTableOuter<C>>,
    pub sources: OrderedMap<SourceOuter<C>>,
    pub sinks: OrderedMap<SinkOuter<C>>,
    pub transforms: OrderedMap<TransformOuter<C>>,
    pub tests: Vec<TestDefinition<C>>,
    pub provider: Option<C>,
    pub pipelines: Pipelines<C>,
}

impl<C> View for ConfigBuilder<C> {
    type V = BuilderView<C>;

    open spec fn view(&self) -> BuilderView<C> {
        BuilderView {
            global: self.global@,
            healthchecks: self.healthchecks,
            enrichment_tables: enrichment_table(self.enrichment_tables@),
            sources: source_table(self.sources@),
            sinks: sink_table(self.sinks@),
            transforms: transform_table(self.transforms@),
            tests: tests_of(self.tests@),
            provider: self.provider,
            pipelines: self.pipelines@,
        }
    }
}

/// Turns names into global identities, in order.
fn global_ids(names: &[&str]) -> (ids: Vec<ComponentId>)
    ensures
        keys_of(ids@) == global_keys(names@),
{
    let mut ids: Vec<ComponentId> = Vec::new();
    let mut i: usize = 0;
    while i < names.len()
        invariant
            i <= names@.len(),
            keys_of(ids@) == global_keys(names@.take(i as int)),
        decreases names@.len() - i,
    {
        let id = ComponentId::global(String::from_str(names[i]));
        proof {
            lemma_keys_of_push(ids@, id);
            assert(global_keys(names@.take(i + 1)) =~= global_keys(names@.take(i as int)).push(
                global_key(names@[i as int]@),
            ));
        }
        ids.push(id);
        i += 1;
    }
    assert(names@.take(names@.len() as int) =~= names@);
    ids
}

impl<C> Default for ConfigBuilder<C> {
    /// The builder that says nothing.
    fn default() -> (builder: Self)
        ensures
            builder.wf(),
            builder@ == BuilderView::<C>::empty(),
    {
        ConfigBuilder::new()
    }
}

impl<C> ConfigBuilder<C> {
    /// Every collection is well formed. Every builder that the functions of
    /// this type make is.
    pub open spec fn wf(&self) -> bool {
        &&& self.enrichment_tables.wf()
        &&& self.sources.wf()
        &&& self.sinks.wf()
        &&& self.transforms.wf()
        &&& self.pipelines.wf()
    }

    /// The value of a well-formed builder is well formed.
    pub proof fn lemma_view_wf(&self)
        requires
            self.wf(),
        ensures
            self@.wf(),
    {
        self.pipelines.lemma_wf();
    }

    /// The builder that says nothing.
    pub fn new() -> (builder: Self)
        ensures
            builder.wf(),
            builder@ == BuilderView::<C>::empty(),
    {
        let builder = ConfigBuilder {
            global: GlobalOptions::default(),
            healthchecks: HealthcheckOptions::default(),
            enrichment_tables: OrderedMap::new(),
            sources: OrderedMap::new(),
            sinks: OrderedMap::new(),
            transforms: OrderedMap::new(),
            tests: Vec::new(),
            provider: None,
            pipelines: Pipelines::new(),
        };
        assert(builder@.enrichment_tables.values =~= Seq::<C>::empty());
        assert(builder@.sources.values =~= Seq::<C>::empty());
        assert(builder@.sinks.values =~= Seq::<Node<C>>::empty());
        assert(builder@.transforms.values =~= Seq::<Node<C>>::empty());
        assert(builder@.tests =~= Seq::<TestView<C>>::empty());
        builder
    }

    /// Binds the enrichment table `name` of the global namespace to
    /// `enrichment_table`, over whatever the name was bound to.
    pub fn add_enrichment_table(&mut self, name: String, enrichment_table: C)
        requires
            old(self).wf(),
        ensures
            final(self).wf(),
            final(self)@ == (BuilderView {
                enrichment_tables: old(self)@.enrichment_tables.put(
                    global_key(name@),
                    enrichment_table,
                ),
                ..old(self)@
            }),
    {
        let table = EnrichmentTableOuter::new(enrichment_table);
        proof {
            self.enrichment_tables@.lemma_map_put(
                |t: EnrichmentTableOuter<C>| t.inner,
                global_key(name@),
                table,
            );
        }
        self.enrichment_tables.insert(ComponentId::global(name), table);
    }

    /// Binds the source `id` of the global namespace to `source`, over
    /// whatever the name was bound to.
    pub fn add_source(&mut self, id: String, source: C)
        requires
            old(self).wf(),
        ensures
            final(self).wf(),
            final(self)@ == (BuilderView {
                sources: old(self)@.sources.put(global_key(id@), source),
                ..old(self)@
            }),
    {
        let source = SourceOuter::new(source);
        proof {
            self.sources@.lemma_map_put(|s: SourceOuter<C>| s.inner, global_key(id@), source);
        }
        self.sources.insert(ComponentId::global(id), source);
    }

    /// Binds the sink `id` of the global namespace to `sink`, reading from
    /// the global components called `inputs`, over whatever the name was
    /// bound to.
    pub fn add_sink(&mut self, id: String, inputs: &[&str], sink: C)
        requires
            old(self).wf(),
        ensures
            final(self).wf(),
            final(self)@ == (BuilderView {
                sinks: old(self)@.sinks.put(
                    global_key(id@),
                    Node { inputs: global_keys(inputs@), inner: sink },
                ),
                ..old(self)@
            }),
    {
        let sink = SinkOuter::new(global_ids(inputs), sink);
        proof {
            self.sinks@.lemma_map_put(|s: SinkOuter<C>| s@, global_key(id@), sink);
        }
        self.sinks.insert(ComponentId::global(id), sink);
    }

    /// Binds the transform `id` of the global namespace to `transform`,
    /// reading from the global components called `inputs`, over whatever
    /// the name was bound to.
    pub fn add_transform(&mut self, id: String, inputs: &[&str], transform: C)
        requires
            old(self).wf(),
        ensures
            final(self).wf(),
            final(self)@ == (BuilderView {
                transforms: old(self)@.transforms.put(
                    global_key(id@),
                    Node { inputs: global_keys(inputs@), inner: transform },
                ),
                ..old(self)@
            }),
    {
        let transform = TransformOuter::new(global_ids(inputs), transform);
        proof {
            self.transforms@.lemma_map_put(|t: TransformOuter<C>| t@, global_key(id@), transform);
        }
        self.transforms.insert(ComponentId::global(id), transform);
    }

    /// Replaces the pending pipelines by `pipelines`.
    pub fn set_pipelines(&mut self, pipelines: Pipelines<C>)
        requires
            old(self).wf(),
            pipelines.wf(),
        ensures
            final(self).wf(),
            final(self)@ == (BuilderView { pipelines: pipelines@, ..old(self)@ }),
    {
        self.pipelines = pipelines;
    }
}

} // verus!
