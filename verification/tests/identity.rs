use config_builder::id::ComponentId;

#[test]
fn global_identity_has_no_scope() {
    let id = ComponentId::global("logs".to_string());
    assert!(id.is_global());
    assert!(!id.is_pipeline());
    assert_eq!(id.id(), "logs");
    assert_eq!(id.pipeline_str(), None);
    assert_eq!(id.to_text(), "logs");
}

#[test]
fn scoped_identity_keeps_pipeline_and_name() {
    let id = ComponentId::pipeline("foo", "bar");
    assert!(!id.is_global());
    assert!(id.is_pipeline());
    assert_eq!(id.id(), "bar");
    assert_eq!(id.pipeline_str(), Some("foo"));
    assert_eq!(id.to_text(), "foo#bar");
}

#[test]
fn same_local_name_in_two_scopes_differs() {
    let in_foo = ComponentId::pipeline("foo", "remap");
    let in_bar = ComponentId::pipeline("bar", "remap");
    let global = ComponentId::global("remap".to_string());
    assert_ne!(in_foo, in_bar);
    assert_ne!(in_foo, global);
    assert_eq!(in_foo, ComponentId::pipeline("foo", "remap"));
}

#[test]
fn clone_is_equal() {
    let scoped = ComponentId::pipeline("foo", "bar");
    assert_eq!(scoped.clone(), scoped);
    let global = ComponentId::global("bar".to_string());
    assert_eq!(global.clone(), global);
}

#[test]
fn from_a_name_is_global() {
    let id = ComponentId::from("a#b".to_string());
    assert!(id.is_global());
    assert_eq!(id.id(), "a#b");
    assert_eq!(id, ComponentId::global("a#b".to_string()));
}

#[test]
fn global_sorts_before_scoped() {
    let global = ComponentId::global("z".to_string());
    let scoped = ComponentId::pipeline("a", "a");
    assert!(global < scoped);
    assert!(ComponentId::pipeline("a", "b") < ComponentId::pipeline("b", "a"));
}
