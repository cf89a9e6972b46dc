//! Component identities.

use vstd::prelude::*;
use vstd::std_specs::convert::FromSpecImpl;
use vstd::string::StringExecFns;

verus! {

/// The mathematical value of an identity: the owning pipeline, if any, and
/// the local name.
pub type Key = (Option<Seq<char>>, Seq<char>);

/// The key of the global component called `name`.
pub open spec fn global_key(name: Seq<char>) -> Key {
    (None, name)
}

/// The key of the component called `name` inside `pipeline`.
pub open spec fn scoped_key(pipeline: Seq<char>, name: Seq<char>) -> Key {
    (Some(pipeline), name)
}

/// The text that separates the pipeline from the local name when a scoped
/// identity is written out.
pub open spec fn scope_separator() -> Seq<char> {
    seq!['#']
}

/// How a key is written in diagnostics: a global key as its name, a scoped
/// key as the pipeline, the separator and the local name.
pub open spec fn key_text(key: Key) -> Seq<char> {
    match key.0 {
        None => key.1,
        Some(pipeline) => pipeline + scope_separator() + key.1,
    }
}

/// The identity of a component: either a name of the global namespace or a
/// name qualified by the pipeline that declares it.
///
/// Two identities are equal when both the scope and the local name are, so
/// the same local name in two pipelines gives two distinct identities.
#[derive(Debug, PartialEq, Eq, PartialOrd, Ord, Hash)]
pub struct ComponentId {
    /// The owning pipeline (`None` for the global namespace) and the local name.
    pub qualified: (Option<String>, String),
}

impl View for ComponentId {
    type V = Key;

    open spec fn view(&self) -> Key {
        self.qualified.deep_view()
    }
}

impl Clone for ComponentId {
    fn clone(&self) -> (copy: Self)
        ensures
            copy@ == self@,
    {
        let scope = match &self.qualified.0 {
            Some(pipeline) => Some(pipeline.clone()),
            None => None,
        };
        ComponentId { qualified: (scope, self.qualified.1.clone()) }
    }
}

impl FromSpecImpl<String> for ComponentId {
    open spec fn obeys_from_spec() -> bool {
        true
    }

    open spec fn from_spec(name: String) -> Self {
        ComponentId { qualified: (None, name) }
    }
}

impl From<String> for ComponentId {
    /// A name alone stands for the global identity of that name.
    fn from(name: String) -> (id: Self)
        ensures
            id@ == global_key(name@),
    {
        ComponentId { qualified: (None, name) }
    }
}

impl ComponentId {
    /// The identity of `name` in the global namespace.
    pub fn global(name: String) -> (id: Self)
        ensures
            id@ == global_key(name@),
    {
        ComponentId { qualified: (None, name) }
    }

    /// The identity of `name` inside the pipeline `pipeline`.
    pub fn pipeline(pipeline: &str, name: &str) -> (id: Self)
        ensures
            id@ == scoped_key(pipeline@, name@),
    {
        ComponentId { qualified: (Some(String::from_str(pipeline)), String::from_str(name)) }
    }

    /// The local name, without the scope.
    pub fn id(&self) -> (name: &str)
        ensures
            name@ == self@.1,
    {
        self.qualified.1.as_str()
    }

    /// The owning pipeline, `None` for a global identity.
    pub fn pipeline_str(&self) -> (pipeline: Option<&str>)
        ensures
            match pipeline {
                Some(p) => self@.0 == Some(p@),
                None => self@.0 is None,
            },
    {
        match &self.qualified.0 {
            Some(p) => Some(p.as_str()),
            None => None,
        }
    }

    /// Whether the identity belongs to the global namespace.
    pub fn is_global(&self) -> (global: bool)
        ensures
            global == (self@.0 is None),
    {
        self.qualified.0.is_none()
    }

    /// Whether the identity is scoped to a pipeline.
    pub fn is_pipeline(&self) -> (scoped: bool)
        ensures
            scoped == (self@.0 is Some),
    {
        self.qualified.0.is_some()
    }

    /// The identity as it is written in diagnostics.
    pub fn to_text(&self) -> (text: String)
        ensures
            text@ == key_text(self@),
    {
        match &self.qualified.0 {
            None => self.qualified.1.clone(),
            Some(pipeline) => {
                let mut text = pipeline.clone();
                proof {
                    reveal_strlit("#");
                }
                text.append("#");
                text.append(self.qualified.1.as_str());
                assert(text@ == pipeline@ + scope_separator() + self.qualified.1@);
                text
            },
        }
    }
}

} // verus!
