//! Merging: folding one builder into another.
//!
//! The options are reconciled one by one. The four entity collections and
//! the tests are extended together or not at all: a key or a test name that
//! both builders have is a diagnostic, and with any diagnostic nothing is
//! added.

use crate::builder::{tests_of, BuilderView, ConfigBuilder, TestView};
use crate::entity::{
    lemma_texts_of_push, texts_of, EnrichmentTableOuter, SinkOuter, SourceOuter, TestDefinition,
    TransformOuter,
};
use crate::global::{merged_global, merged_healthchecks, one_if, option_conflicts};
use crate::id::{key_text, Key};
use crate::ordered::{OrderedMap, Table};
use vstd::prelude::*;
use vstd::string::StringExecFns;

verus! {

/// The diagnostic for a key that both builders bind, in the collection
/// called `kind`.
pub open spec fn duplicate_message(kind: Seq<char>, key: Key) -> Seq<char> {
    "duplicate "@ + kind + " id found: "@ + key_text(key)
}

/// The diagnostic for a test name that both builders have.
pub open spec fn duplicate_test_message(name: Seq<char>) -> Seq<char> {
    "duplicate test name found: "@ + name
}

/// One diagnostic for each of the first `n` keys of `other` that `own`
/// holds too, in the order of `other`.
pub open spec fn duplicates(own: Seq<Key>, other: Seq<Key>, kind: Seq<char>, n: nat) -> Seq<
    Seq<char>,
>
    decreases n,
{
    if n == 0 {
        Seq::empty()
    } else {
        duplicates(own, other, kind, (n - 1) as nat) + one_if(
            own.contains(other[n - 1]),
            duplicate_message(kind, other[n - 1]),
        )
    }
}

/// The names of a list of tests, in order.
pub open spec fn test_names<C>(tests: Seq<TestView<C>>) -> Seq<Seq<char>> {
    tests.map_values(|t: TestView<C>| t.name)
}

/// One diagnostic for each of the first `n` names of `other` that is among
/// `own`, in the order of `other`.
pub open spec fn duplicate_tests(own: Seq<Seq<char>>, other: Seq<Seq<char>>, n: nat) -> Seq<
    Seq<char>,
>
    decreases n,
{
    if n == 0 {
        Seq::empty()
    } else {
        duplicate_tests(own, other, (n - 1) as nat) + one_if(
            own.contains(other[n - 1]),
            duplicate_test_message(other[n - 1]),
        )
    }
}

/// The diagnostics of the five collections: enrichment tables, sources,
/// sinks, transforms, tests.
pub open spec fn collection_conflicts<C>(own: BuilderView<C>, other: BuilderView<C>) -> Seq<
    Seq<char>,
> {
    duplicates(
        own.enrichment_tables.keys,
        other.enrichment_tables.keys,
        "enrichment_table"@,
        other.enrichment_tables.keys.len(),
    ) + duplicates(own.sources.keys, other.sources.keys, "source"@, other.sources.keys.len())
        + duplicates(own.sinks.keys, other.sinks.keys, "sink"@, other.sinks.keys.len())
        + duplicates(
        own.transforms.keys,
        other.transforms.keys,
        "transform"@,
        other.transforms.keys.len(),
    ) + duplicate_tests(test_names(own.tests), test_names(other.tests), other.tests.len())
}

/// Every diagnostic of merging `other` into `own`, in the order in which
/// the merge reports them.
pub open spec fn append_errors<C>(own: BuilderView<C>, other: BuilderView<C>) -> Seq<Seq<char>> {
    option_conflicts(own.global, other.global) + collection_conflicts(own, other)
}

/// The builder with the options of `other` folded in, and nothing else
/// changed: the provider is that of `other`, whether it has one or not.
pub open spec fn folded<C>(own: BuilderView<C>, other: BuilderView<C>) -> BuilderView<C> {
    BuilderView {
        provider: other.provider,
        global: merged_global(own.global, other.global),
        healthchecks: merged_healthchecks(own.healthchecks, other.healthchecks),
        ..own
    }
}

/// The builder after merging `other` into `own`. The options are folded in
/// either way. Without a diagnostic, each collection of `other` follows
/// that of `own`; with one, the collections stay as they were.
pub open spec fn appended<C>(own: BuilderView<C>, other: BuilderView<C>) -> BuilderView<C> {
    if append_errors(own, other).len() == 0 {
        BuilderView {
            enrichment_tables: own.enrichment_tables.concat(other.enrichment_tables),
            sources: own.sources.concat(other.sources),
            sinks: own.sinks.concat(other.sinks),
            transforms: own.transforms.concat(other.transforms),
            tests: own.tests + other.tests,
            ..folded(own, other)
        }
    } else {
        folded(own, other)
    }
}

/// Where no diagnostic was made, no key of `other` is bound in `own`.
pub proof fn lemma_no_duplicates_disjoint(own: Seq<Key>, other: Seq<Key>, kind: Seq<char>, n: nat)
    requires
        n <= other.len(),
        duplicates(own, other, kind, n).len() == 0,
    ensures
        forall|i: int| 0 <= i < n ==> !own.contains(#[trigger] other[i]),
    decreases n,
{
    if n > 0 {
        lemma_no_duplicates_disjoint(own, other, kind, (n - 1) as nat);
    }
}

/// Adds to `errors` one diagnostic for each key of `other` that `own` binds.
fn report_duplicates<V>(
    own: &OrderedMap<V>,
    other: &OrderedMap<V>,
    kind: &str,
    errors: &mut Vec<String>,
)
    requires
        own.wf(),
        other.wf(),
    ensures
        texts_of(final(errors)@) == texts_of(old(errors)@) + duplicates(
            own@.keys,
            other@.keys,
            kind@,
            other@.len(),
        ),
{
    let mut i: usize = 0;
    assert(texts_of(errors@) =~= texts_of(old(errors)@) + duplicates(
        own@.keys,
        other@.keys,
        kind@,
        0,
    ));
    while i < other.len()
        invariant
            own.wf(),
            other.wf(),
            i <= other@.len(),
            texts_of(errors@) == texts_of(old(errors)@) + duplicates(
                own@.keys,
                other@.keys,
                kind@,
                i as nat,
            ),
        decreases other@.len() - i,
    {
        let ghost before = texts_of(errors@);
        if own.shares_key_at(other, i) {
            let text = other.key_at(i).to_text();
            let mut message = String::from_str("duplicate ");
            message.append(kind);
            message.append(" id found: ");
            message.append(text.as_str());
            proof {
                lemma_texts_of_push(errors@, message);
            }
            errors.push(message);
        }
        assert(texts_of(errors@) =~= before + one_if(
            own@.keys.contains(other@.keys[i as int]),
            duplicate_message(kind@, other@.keys[i as int]),
        ));
        i += 1;
        assert(texts_of(errors@) =~= texts_of(old(errors)@) + duplicates(
            own@.keys,
            other@.keys,
            kind@,
            i as nat,
        ));
    }
}

/// Whether one of `tests` is called `name`.
fn has_test_named<C>(tests: &Vec<TestDefinition<C>>, name: &String) -> (found: bool)
    ensures
        found == test_names(tests_of(tests@)).contains(name@),
{
    let ghost names = test_names(tests_of(tests@));
    let mut i: usize = 0;
    while i < tests.len()
        invariant
            i <= tests@.len(),
            names == test_names(tests_of(tests@)),
            forall|j: int| 0 <= j < i ==> names[j] != name@,
        decreases tests@.len() - i,
    {
        if tests[i].name == *name {
            assert(names[i as int] == name@);
            return true;
        }
        i += 1;
    }
    false
}

/// Adds to `errors` one diagnostic for each test of `other` whose name one
/// of `own` has.
fn report_duplicate_tests<C>(
    own: &Vec<TestDefinition<C>>,
    other: &Vec<TestDefinition<C>>,
    errors: &mut Vec<String>,
)
    ensures
        texts_of(final(errors)@) == texts_of(old(errors)@) + duplicate_tests(
            test_names(tests_of(own@)),
            test_names(tests_of(other@)),
            other@.len(),
        ),
{
    let ghost own_names = test_names(tests_of(own@));
    let ghost other_names = test_names(tests_of(other@));
    let mut i: usize = 0;
    assert(texts_of(errors@) =~= texts_of(old(errors)@) + duplicate_tests(
        own_names,
        other_names,
        0,
    ));
    while i < other.len()
        invariant
            i <= other@.len(),
            own_names == test_names(tests_of(own@)),
            other_names == test_names(tests_of(other@)),
            texts_of(errors@) == texts_of(old(errors)@) + duplicate_tests(
                own_names,
                other_names,
                i as nat,
            ),
        decreases other@.len() - i,
    {
        let ghost before = texts_of(errors@);
        if has_test_named(own, &other[i].name) {
            let mut message = String::from_str("duplicate test name found: ");
            message.append(other[i].name.as_str());
            proof {
                lemma_texts_of_push(errors@, message);
            }
            errors.push(message);
        }
        assert(texts_of(errors@) =~= before + one_if(
            own_names.contains(other_names[i as int]),
            duplicate_test_message(other_names[i as int]),
        ));
        i += 1;
        assert(texts_of(errors@) =~= texts_of(old(errors)@) + duplicate_tests(
            own_names,
            other_names,
            i as nat,
        ));
    }
}

/// The concatenation of two tables, with `f` applied to every value.
proof fn lemma_map_concat<T, U>(a: Table<T>, b: Table<T>, f: spec_fn(T) -> U)
    ensures
        a.concat(b).map(f) == a.map(f).concat(b.map(f)),
{
    assert(a.concat(b).map(f).values =~= a.map(f).concat(b.map(f)).values);
}

/// Extends `own` by `other`, whose keys are all new to it.
fn extend_disjoint<V>(own: &mut OrderedMap<V>, other: OrderedMap<V>, Ghost(kind): Ghost<Seq<char>>)
    requires
        old(own).wf(),
        other.wf(),
        duplicates(old(own)@.keys, other@.keys, kind, other@.len()).len() == 0,
    ensures
        final(own).wf(),
        final(own)@ == old(own)@.concat(other@),
{
    proof {
        lemma_no_duplicates_disjoint(own@.keys, other@.keys, kind, other@.len());
        own@.lemma_put_all_disjoint(other@);
    }
    own.extend(other);
}

impl<C> ConfigBuilder<C> {
    /// Adds to `errors` one diagnostic for each key and each test name that
    /// `with` has in common with this builder: the enrichment tables first,
    /// then the sources, the sinks, the transforms and the tests.
    fn report_conflicts(&self, with: &Self, errors: &mut Vec<String>)
        requires
            self.wf(),
            with.wf(),
        ensures
            texts_of(final(errors)@) == texts_of(old(errors)@) + collection_conflicts(
                self@,
                with@,
            ),
    {
        report_duplicates(
            &self.enrichment_tables,
            &with.enrichment_tables,
            "enrichment_table",
            errors,
        );
        report_duplicates(&self.sources, &with.sources, "source", errors);
        report_duplicates(&self.sinks, &with.sinks, "sink", errors);
        report_duplicates(&self.transforms, &with.transforms, "transform", errors);
        report_duplicate_tests(&self.tests, &with.tests, errors);
    }

    /// Merges `with` into this builder.
    ///
    /// The options are folded in first, whatever follows: the provider of
    /// `with` replaces this builder's, also where `with` has none; the data
    /// directory and the log schema keep what this builder defines and take
    /// what it leaves at its default; the healthcheck options leave their
    /// default as soon as one side sets them. The pending pipelines stay
    /// those of this builder.
    ///
    /// Then each key of an entity collection of `with` that this builder
    /// binds in the same collection, and each test of `with` whose name this
    /// builder has, adds a diagnostic to those of the options. With any
    /// diagnostic the merge fails, and the collections and the tests are
    /// left as they were. Without one, the entries of `with` follow this
    /// builder's own.
    pub fn append(&mut self, with: Self) -> (result: Result<(), Vec<String>>)
        requires
            old(self).wf(),
            with.wf(),
        ensures
            final(self).wf(),
            final(self)@ == appended(old(self)@, with@),
            match result {
                Ok(_) => append_errors(old(self)@, with@).len() == 0,
                Err(errors) => errors@.len() > 0 && texts_of(errors@) == append_errors(
                    old(self)@,
                    with@,
                ),
            },
    {
        let ghost own = self@;
        let ghost other = with@;
        let mut errors: Vec<String> = Vec::new();
        assert(texts_of(errors@) =~= Seq::<Seq<char>>::empty());
        self.report_conflicts(&with, &mut errors);
        let ConfigBuilder {
            global,
            healthchecks,
            enrichment_tables,
            sources,
            sinks,
            transforms,
            tests,
            provider,
            pipelines: _,
        } = with;
        let mut tests = tests;
        let mut options: Vec<String> = Vec::new();
        self.provider = provider;
        self.global.merge(global, &mut options);
        self.healthchecks.merge(healthchecks);
        assert(self@ == folded(own, other));
        let ghost first = options@;
        let ghost second = errors@;
        options.append(&mut errors);
        assert(texts_of(first + second) =~= texts_of(first) + texts_of(second));
        assert(texts_of(options@) =~= append_errors(own, other));
        if options.len() > 0 {
            return Err(options);
        }
        proof {
            lemma_map_concat(
                self.enrichment_tables@,
                enrichment_tables@,
                |t: EnrichmentTableOuter<C>| t.inner,
            );
            lemma_map_concat(self.sources@, sources@, |s: SourceOuter<C>| s.inner);
            lemma_map_concat(self.sinks@, sinks@, |s: SinkOuter<C>| s@);
            lemma_map_concat(self.transforms@, transforms@, |t: TransformOuter<C>| t@);
            assert(tests_of(self.tests@ + tests@) =~= tests_of(self.tests@) + tests_of(tests@));
        }
        extend_disjoint(&mut self.enrichment_tables, enrichment_tables, Ghost("enrichment_table"@));
        extend_disjoint(&mut self.sources, sources, Ghost("source"@));
        extend_disjoint(&mut self.sinks, sinks, Ghost("sink"@));
        extend_disjoint(&mut self.transforms, transforms, Ghost("transform"@));
        self.tests.append(&mut tests);
        Ok(())
    }
}

} // verus!
