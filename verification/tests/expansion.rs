use config_builder::builder::ConfigBuilder;
use config_builder::entity::TransformOuter;
use config_builder::id::ComponentId;
use config_builder::pipeline::{Pipeline, PipelineTransform, Pipelines};

fn global(name: &str) -> ComponentId {
    ComponentId::global(name.to_string())
}

fn stage(kind: &str, inputs: &[&str], outputs: &[&str]) -> PipelineTransform<String> {
    PipelineTransform::new(
        TransformOuter::new(inputs.iter().map(|name| global(name)).collect(), kind.to_string()),
        outputs.iter().map(|name| name.to_string()).collect(),
    )
}

fn pipeline(stages: Vec<(&str, PipelineTransform<String>)>) -> Pipeline<String> {
    let mut pipeline = Pipeline::new();
    for (name, stage) in stages {
        pipeline.insert(name.to_string(), stage);
    }
    pipeline
}

fn logs_to_print() -> ConfigBuilder<String> {
    let mut builder = ConfigBuilder::new();
    builder.add_source("logs".to_string(), "generator".to_string());
    builder.add_sink("print".to_string(), &[], "console".to_string());
    builder
}

fn outcome(
    expanded: (ConfigBuilder<String>, Vec<String>),
) -> Result<ConfigBuilder<String>, Vec<String>> {
    if expanded.1.is_empty() {
        Ok(expanded.0)
    } else {
        Err(expanded.1)
    }
}

#[test]
fn success() {
    let mut pipelines = Pipelines::new();
    pipelines.insert("foo".into(), pipeline(vec![("bar", stage("remap", &["logs"], &["print"]))]));
    let mut builder = logs_to_print();
    builder.set_pipelines(pipelines);
    let result = outcome(builder.merge_pipelines());
    assert!(result.is_ok());

    let builder = result.unwrap();
    assert_eq!(builder.transforms.len(), 1);
    assert_eq!(builder.transforms.key_at(0), ComponentId::pipeline("foo", "bar"));
    let bar = builder.transforms.get(&ComponentId::pipeline("foo", "bar")).unwrap();
    assert_eq!(bar.inner, "remap");
    assert_eq!(bar.inputs, vec![global("logs")]);
    let print = builder.sinks.get(&global("print")).unwrap();
    assert_eq!(print.inputs, vec![ComponentId::pipeline("foo", "bar")]);
    assert!(builder.pipelines.is_empty());
}

#[test]
fn overlaping_transform_id() {
    let mut pipelines = Pipelines::new();
    pipelines.insert("foo".into(), pipeline(vec![("bar", stage("remap", &["logs"], &["print"]))]));
    let mut builder: ConfigBuilder<String> = ConfigBuilder::new();
    builder.add_source("logs".to_string(), "generator".to_string());
    builder.add_transform("bar".to_string(), &["logs"], "remap".to_string());
    builder.add_sink("print".to_string(), &["bar"], "console".to_string());
    builder.set_pipelines(pipelines);
    let errors = outcome(builder.merge_pipelines()).err().unwrap();
    assert_eq!(errors[0], "Component ID 'bar' is already used.");
    assert_eq!(errors.len(), 1);
}

#[test]
fn overlaping_pipeline_transform_id() {
    let mut pipelines = Pipelines::new();
    pipelines.insert(
        "foo".into(),
        pipeline(vec![("remap", stage("remap", &["logs"], &["print"]))]),
    );
    pipelines.insert(
        "bar".into(),
        pipeline(vec![("remap", stage("remap", &["logs"], &["print"]))]),
    );
    let mut builder = logs_to_print();
    builder.set_pipelines(pipelines);
    let config = outcome(builder.merge_pipelines()).unwrap();
    assert_eq!(config.transforms.len(), 2);

    assert!(config.transforms.contains_key(&ComponentId::pipeline("foo", "remap")));
    assert!(config.transforms.contains_key(&ComponentId::pipeline("bar", "remap")));
    assert_eq!(
        config.sinks.get(&global("print")).unwrap().inputs,
        vec![ComponentId::pipeline("foo", "remap"), ComponentId::pipeline("bar", "remap")]
    );
}

#[test]
fn shadowed_stage_is_skipped_and_not_wired() {
    let mut pipelines = Pipelines::new();
    pipelines.insert("foo".into(), pipeline(vec![("bar", stage("remap", &["logs"], &["print"]))]));
    let mut builder: ConfigBuilder<String> = ConfigBuilder::new();
    builder.add_source("logs".to_string(), "generator".to_string());
    builder.add_transform("bar".to_string(), &["logs"], "remap".to_string());
    builder.add_sink("print".to_string(), &["bar"], "console".to_string());
    builder.set_pipelines(pipelines);
    let (builder, errors) = builder.merge_pipelines();
    assert_eq!(errors, vec!["Component ID 'bar' is already used.".to_string()]);
    assert_eq!(builder.transforms.len(), 1);
    assert!(!builder.transforms.contains_key(&ComponentId::pipeline("foo", "bar")));
    assert_eq!(builder.sinks.get(&global("print")).unwrap().inputs, vec![global("bar")]);
}

#[test]
fn a_source_shadows_too_but_a_sink_does_not() {
    let mut pipelines = Pipelines::new();
    pipelines.insert(
        "foo".into(),
        pipeline(vec![
            ("logs", stage("remap", &[], &["print"])),
            ("print", stage("remap", &[], &["print"])),
        ]),
    );
    let mut builder = logs_to_print();
    builder.set_pipelines(pipelines);
    let (builder, errors) = builder.merge_pipelines();
    assert_eq!(errors, vec!["Component ID 'logs' is already used.".to_string()]);
    assert_eq!(builder.transforms.len(), 1);
    assert!(builder.transforms.contains_key(&ComponentId::pipeline("foo", "print")));
    assert_eq!(
        builder.sinks.get(&global("print")).unwrap().inputs,
        vec![ComponentId::pipeline("foo", "print")]
    );
}

#[test]
fn unresolved_output_is_reported_and_the_stage_is_kept() {
    let mut pipelines = Pipelines::new();
    pipelines.insert(
        "foo".into(),
        pipeline(vec![("bar", stage("remap", &["logs"], &["nowhere", "print"]))]),
    );
    let mut builder = logs_to_print();
    builder.set_pipelines(pipelines);
    let (builder, errors) = builder.merge_pipelines();
    assert_eq!(errors, vec!["Couldn't find transform or sink 'nowhere'".to_string()]);
    assert!(builder.transforms.contains_key(&ComponentId::pipeline("foo", "bar")));
    assert_eq!(
        builder.sinks.get(&global("print")).unwrap().inputs,
        vec![ComponentId::pipeline("foo", "bar")]
    );
}

#[test]
fn every_problem_is_reported_in_the_order_met() {
    let mut pipelines = Pipelines::new();
    pipelines.insert(
        "one".into(),
        pipeline(vec![
            ("a", stage("remap", &[], &["lost", "print", "gone"])),
            ("logs", stage("remap", &[], &["print"])),
        ]),
    );
    pipelines.insert("two".into(), pipeline(vec![("b", stage("remap", &[], &["missing"]))]));
    let mut builder = logs_to_print();
    builder.set_pipelines(pipelines);
    let (builder, errors) = builder.merge_pipelines();
    assert_eq!(
        errors,
        vec![
            "Couldn't find transform or sink 'lost'".to_string(),
            "Couldn't find transform or sink 'gone'".to_string(),
            "Component ID 'logs' is already used.".to_string(),
            "Couldn't find transform or sink 'missing'".to_string(),
        ]
    );
    assert_eq!(builder.transforms.len(), 2);
    assert_eq!(builder.transforms.key_at(0), ComponentId::pipeline("one", "a"));
    assert_eq!(builder.transforms.key_at(1), ComponentId::pipeline("two", "b"));
}

#[test]
fn a_transform_is_preferred_to_a_sink_of_the_same_name() {
    let mut pipelines = Pipelines::new();
    pipelines.insert("foo".into(), pipeline(vec![("bar", stage("remap", &[], &["out"]))]));
    let mut builder: ConfigBuilder<String> = ConfigBuilder::new();
    builder.add_transform("out".to_string(), &["logs"], "filter".to_string());
    builder.add_sink("out".to_string(), &[], "console".to_string());
    builder.set_pipelines(pipelines);
    let (builder, errors) = builder.merge_pipelines();
    assert!(errors.is_empty());
    assert_eq!(
        builder.transforms.get(&global("out")).unwrap().inputs,
        vec![global("logs"), ComponentId::pipeline("foo", "bar")]
    );
    assert!(builder.sinks.get(&global("out")).unwrap().inputs.is_empty());
}

#[test]
fn outputs_do_not_reach_scoped_transforms() {
    let mut pipelines = Pipelines::new();
    pipelines.insert(
        "foo".into(),
        pipeline(vec![("a", stage("remap", &[], &[])), ("b", stage("remap", &[], &["a"]))]),
    );
    let mut builder: ConfigBuilder<String> = ConfigBuilder::new();
    builder.set_pipelines(pipelines);
    let (builder, errors) = builder.merge_pipelines();
    assert_eq!(errors, vec!["Couldn't find transform or sink 'a'".to_string()]);
    assert_eq!(builder.transforms.len(), 2);
    assert!(builder.transforms.get(&ComponentId::pipeline("foo", "a")).unwrap().inputs.is_empty());
}

#[test]
fn stages_are_taken_in_declaration_order() {
    let mut pipelines = Pipelines::new();
    pipelines.insert(
        "z".into(),
        pipeline(vec![("b", stage("one", &[], &["print"])), ("a", stage("two", &[], &["print"]))]),
    );
    pipelines.insert("y".into(), pipeline(vec![("c", stage("three", &[], &["print"]))]));
    let scoped = {
        let mut again = Pipelines::new();
        again.insert(
            "z".into(),
            pipeline(vec![
                ("b", stage("one", &[], &["print"])),
                ("a", stage("two", &[], &["print"])),
            ]),
        );
        again.insert("y".into(), pipeline(vec![("c", stage("three", &[], &["print"]))]));
        again.into_scoped()
    };
    let ids: Vec<ComponentId> = scoped.into_iter().map(|(id, _)| id).collect();
    assert_eq!(
        ids,
        vec![
            ComponentId::pipeline("z", "b"),
            ComponentId::pipeline("z", "a"),
            ComponentId::pipeline("y", "c"),
        ]
    );

    let mut builder = logs_to_print();
    builder.set_pipelines(pipelines);
    let (builder, errors) = builder.merge_pipelines();
    assert!(errors.is_empty());
    assert_eq!(builder.sinks.get(&global("print")).unwrap().inputs, ids);
    assert_eq!(builder.transforms.key_at(0), ids[0]);
    assert_eq!(builder.transforms.key_at(1), ids[1]);
    assert_eq!(builder.transforms.key_at(2), ids[2]);
    assert_eq!(builder.transforms.value_at(2).inner, "three");
}

#[test]
fn expansion_drops_the_provider_and_the_pipelines() {
    let mut builder = logs_to_print();
    builder.provider = Some("http".to_string());
    let mut pipelines = Pipelines::new();
    pipelines.insert("foo".into(), pipeline(vec![]));
    builder.set_pipelines(pipelines);
    let (builder, errors) = builder.merge_pipelines();
    assert!(errors.is_empty());
    assert_eq!(builder.provider, None);
    assert_eq!(builder.pipelines.len(), 0);
    assert_eq!(builder.sources.len(), 1);
    assert_eq!(builder.sinks.len(), 1);
    assert_eq!(builder.transforms.len(), 0);
}

#[test]
fn redeclared_names_keep_their_place() {
    let mut first = Pipeline::new();
    first.insert("a".to_string(), stage("one", &[], &[]));
    first.insert("b".to_string(), stage("two", &[], &[]));
    first.insert("a".to_string(), stage("three", &[], &[]));
    assert_eq!(first.len(), 2);
    let mut pipelines = Pipelines::new();
    pipelines.insert("p".to_string(), first);
    pipelines.insert("q".to_string(), pipeline(vec![("c", stage("four", &[], &[]))]));
    pipelines.insert("p".to_string(), pipeline(vec![("d", stage("five", &[], &[]))]));
    assert_eq!(pipelines.len(), 2);
    let scoped = pipelines.into_scoped();
    let seen: Vec<(ComponentId, String)> =
        scoped.into_iter().map(|(id, stage)| (id, stage.inner.inner)).collect();
    assert_eq!(
        seen,
        vec![
            (ComponentId::pipeline("p", "d"), "five".to_string()),
            (ComponentId::pipeline("q", "c"), "four".to_string()),
        ]
    );
}

#[test]
fn into_expanded_gives_the_builder_when_nothing_went_wrong() {
    let mut pipelines = Pipelines::new();
    pipelines.insert("foo".into(), pipeline(vec![("bar", stage("remap", &["logs"], &["print"]))]));
    let mut builder = logs_to_print();
    builder.set_pipelines(pipelines);
    let builder = builder.into_expanded().unwrap();
    assert_eq!(builder.transforms.len(), 1);
    assert_eq!(
        builder.sinks.get(&global("print")).unwrap().inputs,
        vec![ComponentId::pipeline("foo", "bar")]
    );
}

#[test]
fn into_expanded_gives_the_diagnostics_when_something_went_wrong() {
    let mut pipelines = Pipelines::new();
    pipelines.insert(
        "foo".into(),
        pipeline(vec![("logs", stage("remap", &[], &[])), ("bar", stage("remap", &[], &["x"]))]),
    );
    let mut builder = logs_to_print();
    builder.set_pipelines(pipelines);
    let errors = builder.into_expanded().err().unwrap();
    assert_eq!(
        errors,
        vec![
            "Component ID 'logs' is already used.".to_string(),
            "Couldn't find transform or sink 'x'".to_string(),
        ]
    );
}

#[test]
fn pipelines_come_apart_with_their_names() {
    let mut pipelines = Pipelines::new();
    pipelines.insert(
        "z".into(),
        pipeline(vec![("b", stage("one", &["in"], &["out"])), ("a", stage("two", &[], &[]))]),
    );
    pipelines.insert("y".into(), pipeline(vec![]));
    let parts = pipelines.into_pipelines();
    assert_eq!(parts.len(), 2);
    let mut seen = Vec::new();
    for (name, pipeline) in parts {
        for (local, stage) in pipeline.into_transforms() {
            seen.push((name.clone(), local, stage.inner.inner, stage.inner.inputs, stage.outputs));
        }
        seen.push((name, String::new(), String::new(), Vec::new(), Vec::new()));
    }
    assert_eq!(
        seen,
        vec![
            (
                "z".to_string(),
                "b".to_string(),
                "one".to_string(),
                vec![global("in")],
                vec!["out".to_string()]
            ),
            ("z".to_string(), "a".to_string(), "two".to_string(), vec![], vec![]),
            ("z".to_string(), String::new(), String::new(), vec![], vec![]),
            ("y".to_string(), String::new(), String::new(), vec![], vec![]),
        ]
    );
}
