//! The compiled configuration, as far as a builder can be made from it
//! again.

use crate::builder::{
    enrichment_table, sink_table, source_table, tests_of, transform_table, BuilderView,
    ConfigBuilder,
};
use crate::entity::{EnrichmentTableOuter, SinkOuter, SourceOuter, TestDefinition, TransformOuter};
use crate::global::{GlobalOptions, HealthcheckOptions};
use crate::ordered::{OrderedMap, Table};
use crate::pipeline::Pipelines;
use vstd::prelude::*;
use vstd::std_specs::convert::FromSpecImpl;

verus! {

/// A configuration that has been compiled: the entities and options of a
/// builder, with no provider and no pipeline left.
#[derive(Debug)]
pub struct Config<C> {
    pub global: GlobalOptions,
    pub healthchecks: HealthcheckOptions,
    pub enrichment_tables: OrderedMap<EnrichmentTableOuter<C>>,
    pub sources: OrderedMap<SourceOuter<C>>,
    pub sinks: OrderedMap<SinkOuter<C>>,
    pub transforms: OrderedMap<TransformOuter<C>>,
    pub tests: Vec<TestDefinition<C>>,
}

impl<C> Config<C> {
    /// Every collection is well formed.
    pub open spec fn wf(&self) -> bool {
        &&& self.enrichment_tables.wf()
        &&& self.sources.wf()
        &&& self.sinks.wf()
        &&& self.transforms.wf()
    }

    /// What the configuration is as a builder: every collection and option
    /// as it stands, no provider and no pending pipeline.
    pub open spec fn as_builder(&self) -> BuilderView<C> {
        BuilderView {
            global: self.global@,
            healthchecks: self.healthchecks,
            enrichment_tables: enrichment_table(self.enrichment_tables@),
            sources: source_table(self.sources@),
            sinks: sink_table(self.sinks@),
            transforms: transform_table(self.transforms@),
            tests: tests_of(self.tests@),
            provider: None,
            pipelines: Table::empty(),
        }
    }
}

impl<C> FromSpecImpl<Config<C>> for ConfigBuilder<C> {
    /// The builder that comes back is stated by `from` itself, over its
    /// value: a builder's pipelines have no name in specifications.
    open spec fn obeys_from_spec() -> bool {
        false
    }

    open spec fn from_spec(config: Config<C>) -> Self {
        arbitrary()
    }
}

impl<C> From<Config<C>> for ConfigBuilder<C> {
    /// Makes a compiled configuration editable again. Every collection and
    /// option is taken over as it stands; the builder has no provider and
    /// no pending pipeline.
    fn from(config: Config<C>) -> (builder: Self)
        ensures
            builder@ == config.as_builder(),
            config.wf() ==> builder.wf(),
    {
        ConfigBuilder {
            global: config.global,
            healthchecks: config.healthchecks,
            enrichment_tables: config.enrichment_tables,
            sources: config.sources,
            sinks: config.sinks,
            transforms: config.transforms,
            provider: None,
            tests: config.tests,
            pipelines: Pipelines::new(),
        }
    }
}

} // verus!
