use config_builder::builder::ConfigBuilder;
use config_builder::config::Config;
use config_builder::entity::{
    EnrichmentTableOuter, SinkOuter, SourceOuter, TestDefinition, TransformOuter,
};
use config_builder::global::{GlobalOptions, HealthcheckOptions};
use config_builder::id::ComponentId;
use config_builder::ordered::OrderedMap;
use config_builder::pipeline::{Pipeline, Pipelines};

fn global(name: &str) -> ComponentId {
    ComponentId::global(name.to_string())
}

#[test]
fn new_builder_says_nothing() {
    let builder: ConfigBuilder<String> = ConfigBuilder::new();
    assert!(builder.enrichment_tables.is_empty());
    assert!(builder.sources.is_empty());
    assert!(builder.sinks.is_empty());
    assert!(builder.transforms.is_empty());
    assert!(builder.tests.is_empty());
    assert!(builder.pipelines.is_empty());
    assert_eq!(builder.provider, None);
    assert_eq!(builder.global.data_dir, None);
    assert_eq!(builder.global.log_schema.source_type_key, "source_type");
    assert_eq!(builder.healthchecks, HealthcheckOptions { enabled: true, require_healthy: false });

    let builder: ConfigBuilder<String> = ConfigBuilder::default();
    assert!(builder.sources.is_empty());
    assert_eq!(builder.global.data_dir, None);
}

#[test]
fn add_source_binds_a_global_name_and_the_last_writer_wins() {
    let mut builder: ConfigBuilder<String> = ConfigBuilder::new();
    builder.add_source("in".to_string(), "stdin".to_string());
    builder.add_source("other".to_string(), "file".to_string());
    builder.add_source("in".to_string(), "socket".to_string());
    assert_eq!(builder.sources.len(), 2);
    assert_eq!(builder.sources.key_at(0), global("in"));
    assert_eq!(builder.sources.get(&global("in")).unwrap().inner, "socket");
    assert_eq!(builder.sources.get(&global("other")).unwrap().inner, "file");
    assert!(builder.transforms.is_empty());
}

#[test]
fn add_enrichment_table_binds_a_global_name() {
    let mut builder: ConfigBuilder<String> = ConfigBuilder::new();
    builder.add_enrichment_table("geo".to_string(), "file".to_string());
    builder.add_enrichment_table("geo".to_string(), "mmdb".to_string());
    assert_eq!(builder.enrichment_tables.len(), 1);
    assert_eq!(builder.enrichment_tables.get(&global("geo")).unwrap().inner, "mmdb");
    assert!(builder.sources.is_empty());
}

#[test]
fn add_sink_makes_its_inputs_global() {
    let mut builder: ConfigBuilder<String> = ConfigBuilder::new();
    builder.add_sink("out".to_string(), &["b", "a", "foo#bar"], "console".to_string());
    let sink = builder.sinks.get(&global("out")).unwrap();
    assert_eq!(sink.inner, "console");
    assert_eq!(sink.inputs, vec![global("b"), global("a"), global("foo#bar")]);
    builder.add_sink("out".to_string(), &[], "file".to_string());
    assert_eq!(builder.sinks.len(), 1);
    assert!(builder.sinks.get(&global("out")).unwrap().inputs.is_empty());
    assert_eq!(builder.sinks.get(&global("out")).unwrap().inner, "file");
}

#[test]
fn add_transform_makes_its_inputs_global() {
    let mut builder: ConfigBuilder<String> = ConfigBuilder::new();
    builder.add_transform("map".to_string(), &["in", "in"], "remap".to_string());
    let transform = builder.transforms.get(&global("map")).unwrap();
    assert_eq!(transform.inner, "remap");
    assert_eq!(transform.inputs, vec![global("in"), global("in")]);
    assert!(builder.sinks.is_empty());
}

#[test]
fn a_source_and_a_sink_may_share_a_name() {
    let mut builder: ConfigBuilder<String> = ConfigBuilder::new();
    builder.add_source("x".to_string(), "stdin".to_string());
    builder.add_sink("x".to_string(), &["x"], "console".to_string());
    assert_eq!(builder.sources.len(), 1);
    assert_eq!(builder.sinks.len(), 1);
}

#[test]
fn set_pipelines_replaces_the_pending_ones() {
    let mut builder: ConfigBuilder<String> = ConfigBuilder::new();
    let mut pipelines = Pipelines::new();
    pipelines.insert("a".to_string(), Pipeline::new());
    pipelines.insert("b".to_string(), Pipeline::new());
    builder.set_pipelines(pipelines);
    assert_eq!(builder.pipelines.len(), 2);
    let mut pipelines = Pipelines::new();
    pipelines.insert("c".to_string(), Pipeline::new());
    builder.set_pipelines(pipelines);
    assert_eq!(builder.pipelines.len(), 1);
    builder.set_pipelines(Pipelines::new());
    assert!(builder.pipelines.is_empty());
}

#[test]
fn a_compiled_configuration_becomes_a_builder_again() {
    let mut global_options = GlobalOptions::default();
    global_options.data_dir = Some("/data".to_string());
    let mut enrichment_tables = OrderedMap::new();
    enrichment_tables.insert(global("geo"), EnrichmentTableOuter::new("file".to_string()));
    let mut sources = OrderedMap::new();
    sources.insert(global("in"), SourceOuter::new("stdin".to_string()));
    let mut sinks = OrderedMap::new();
    sinks.insert(
        global("out"),
        SinkOuter::new(vec![ComponentId::pipeline("p", "t")], "console".to_string()),
    );
    let mut transforms = OrderedMap::new();
    transforms.insert(
        ComponentId::pipeline("p", "t"),
        TransformOuter::new(vec![global("in")], "remap".to_string()),
    );
    let config = Config {
        global: global_options,
        healthchecks: HealthcheckOptions { enabled: false, require_healthy: false },
        enrichment_tables,
        sources,
        sinks,
        transforms,
        tests: vec![TestDefinition { name: "t".to_string(), body: "checks".to_string() }],
    };
    let builder = ConfigBuilder::from(config);
    assert_eq!(builder.global.data_dir, Some("/data".to_string()));
    assert_eq!(builder.healthchecks, HealthcheckOptions { enabled: false, require_healthy: false });
    assert_eq!(builder.enrichment_tables.get(&global("geo")).unwrap().inner, "file");
    assert_eq!(builder.sources.get(&global("in")).unwrap().inner, "stdin");
    assert_eq!(
        builder.sinks.get(&global("out")).unwrap().inputs,
        vec![ComponentId::pipeline("p", "t")]
    );
    assert_eq!(
        builder.transforms.get(&ComponentId::pipeline("p", "t")).unwrap().inputs,
        vec![global("in")]
    );
    assert_eq!(builder.tests.len(), 1);
    assert_eq!(builder.tests[0].name, "t");
    assert_eq!(builder.provider, None);
    assert!(builder.pipelines.is_empty());
}
