//! What holds of merging and of expansion, whatever the builders are.

use crate::builder::{BuilderView, TestView};
use crate::entity::Node;
use crate::expansion::{
    expand_one, expansion, expansion_prefix, missing_output_message, name_taken,
    name_taken_message, wire_output, wire_outputs, Wiring,
};
use crate::global::{default_data_dir_text, default_log_schema, one_if, HealthcheckOptions};
use crate::id::{global_key, Key};
use crate::merge::{
    append_errors, appended, collection_conflicts, duplicate_message, duplicate_test_message,
    duplicate_tests, duplicates, test_names,
};
use crate::ordered::Table;
use crate::pipeline::{
    flattened, flattened_prefix, lemma_flattened_scoped, pipeline_wf, pipelines_wf, scoped_in,
    PipelinesView, Scoped, Stage,
};
use vstd::prelude::*;

verus! {

/// Whether a builder says nothing: it has no entity, no test, no provider
/// and no pipeline, its log schema and healthcheck options are the
/// defaults, and its data directory is unset or the default.
pub open spec fn says_nothing<C>(builder: BuilderView<C>) -> bool {
    &&& builder.enrichment_tables == Table::<C>::empty()
    &&& builder.sources == Table::<C>::empty()
    &&& builder.sinks == Table::<Node<C>>::empty()
    &&& builder.transforms == Table::<Node<C>>::empty()
    &&& builder.tests == Seq::<TestView<C>>::empty()
    &&& builder.provider is None
    &&& builder.pipelines == Table::<Table<Stage<C>>>::empty()
    &&& builder.healthchecks == (HealthcheckOptions { enabled: true, require_healthy: false })
    &&& builder.global.log_schema == default_log_schema()
    &&& (builder.global.data_dir is None || builder.global.data_dir == Some(
        default_data_dir_text(),
    ))
}

/// Merging a builder that says nothing changes nothing: the merge succeeds
/// and the accumulator is afterwards what it was before. This holds of an
/// accumulator without a provider whose data directory is set exactly when
/// the other's is.
///
/// The other inputs are left out because the merge does change them: a
/// provider is dropped; a data directory that is unset takes the other's
/// default; one that is the default is unset by an unset one, and one that
/// is not the default conflicts with an unset one.
pub proof fn lemma_append_nothing_is_identity<C>(own: BuilderView<C>, other: BuilderView<C>)
    requires
        says_nothing(other),
        own.provider is None,
        own.global.data_dir is None <==> other.global.data_dir is None,
    ensures
        append_errors(own, other).len() == 0,
        appended(own, other) == own,
{
    assert(test_names(other.tests).len() == 0);
    let after = appended(own, other);
    assert(after.enrichment_tables.keys =~= own.enrichment_tables.keys);
    assert(after.enrichment_tables.values =~= own.enrichment_tables.values);
    assert(after.sources.keys =~= own.sources.keys);
    assert(after.sources.values =~= own.sources.values);
    assert(after.sinks.keys =~= own.sinks.keys);
    assert(after.sinks.values =~= own.sinks.values);
    assert(after.transforms.keys =~= own.transforms.keys);
    assert(after.transforms.values =~= own.transforms.values);
    assert(after.tests =~= own.tests);
}

/// The empty builder says nothing.
pub proof fn lemma_empty_says_nothing<C>()
    ensures
        says_nothing(BuilderView::<C>::empty()),
{
}

/// Whether `other` holds an item that `own` holds too.
pub open spec fn share_an_item<T>(own: Seq<T>, other: Seq<T>) -> bool {
    exists|i: int| 0 <= i < other.len() && own.contains(#[trigger] other[i])
}

/// A key that both sides hold among the first `n` is reported.
proof fn lemma_shared_key_is_reported(
    own: Seq<Key>,
    other: Seq<Key>,
    kind: Seq<char>,
    n: nat,
    i: int,
)
    requires
        0 <= i < n <= other.len(),
        own.contains(other[i]),
    ensures
        duplicates(own, other, kind, n).contains(duplicate_message(kind, other[i])),
    decreases n,
{
    let before = duplicates(own, other, kind, (n - 1) as nat);
    let last = one_if(own.contains(other[n - 1]), duplicate_message(kind, other[n - 1]));
    if i == n - 1 {
        assert((before + last)[before.len() as int] == duplicate_message(kind, other[i]));
    } else {
        lemma_shared_key_is_reported(own, other, kind, (n - 1) as nat, i);
        let at = before.index_of(duplicate_message(kind, other[i]));
        before.index_of_first_ensures(duplicate_message(kind, other[i]));
        assert((before + last)[at] == duplicate_message(kind, other[i]));
    }
}

/// A test name that both sides have among the first `n` is reported.
proof fn lemma_shared_test_is_reported(own: Seq<Seq<char>>, other: Seq<Seq<char>>, n: nat, i: int)
    requires
        0 <= i < n <= other.len(),
        own.contains(other[i]),
    ensures
        duplicate_tests(own, other, n).contains(duplicate_test_message(other[i])),
    decreases n,
{
    let before = duplicate_tests(own, other, (n - 1) as nat);
    let last = one_if(own.contains(other[n - 1]), duplicate_test_message(other[n - 1]));
    if i == n - 1 {
        assert((before + last)[before.len() as int] == duplicate_test_message(other[i]));
    } else {
        lemma_shared_test_is_reported(own, other, (n - 1) as nat, i);
        let at = before.index_of(duplicate_test_message(other[i]));
        before.index_of_first_ensures(duplicate_test_message(other[i]));
        assert((before + last)[at] == duplicate_test_message(other[i]));
    }
}

/// Whether two builders have a key in common in one of the four entity
/// collections, or a test name in common.
pub open spec fn collide<C>(own: BuilderView<C>, other: BuilderView<C>) -> bool {
    ||| share_an_item(own.enrichment_tables.keys, other.enrichment_tables.keys)
    ||| share_an_item(own.sources.keys, other.sources.keys)
    ||| share_an_item(own.sinks.keys, other.sinks.keys)
    ||| share_an_item(own.transforms.keys, other.transforms.keys)
    ||| share_an_item(test_names(own.tests), test_names(other.tests))
}

/// A merge extends the collections together or not at all: where the two
/// builders have a key in common in any entity collection, or a test name
/// in common, the merge reports it, and every entity collection and the
/// tests are afterwards what they were.
pub proof fn lemma_colliding_append_adds_nothing<C>(own: BuilderView<C>, other: BuilderView<C>)
    requires
        collide(own, other),
    ensures
        append_errors(own, other).len() > 0,
        appended(own, other).enrichment_tables == own.enrichment_tables,
        appended(own, other).sources == own.sources,
        appended(own, other).sinks == own.sinks,
        appended(own, other).transforms == own.transforms,
        appended(own, other).tests == own.tests,
{
    let tables = duplicates(
        own.enrichment_tables.keys,
        other.enrichment_tables.keys,
        "enrichment_table"@,
        other.enrichment_tables.keys.len(),
    );
    let sources = duplicates(
        own.sources.keys,
        other.sources.keys,
        "source"@,
        other.sources.keys.len(),
    );
    let sinks = duplicates(own.sinks.keys, other.sinks.keys, "sink"@, other.sinks.keys.len());
    let transforms = duplicates(
        own.transforms.keys,
        other.transforms.keys,
        "transform"@,
        other.transforms.keys.len(),
    );
    let tests = duplicate_tests(test_names(own.tests), test_names(other.tests), other.tests.len());
    assert(collection_conflicts(own, other) == tables + sources + sinks + transforms + tests);
    if share_an_item(own.enrichment_tables.keys, other.enrichment_tables.keys) {
        let keys = other.enrichment_tables.keys;
        let i = choose|i: int|
            0 <= i < keys.len() && own.enrichment_tables.keys.contains(#[trigger] keys[i]);
        lemma_shared_key_is_reported(
            own.enrichment_tables.keys,
            keys,
            "enrichment_table"@,
            keys.len(),
            i,
        );
        assert(tables.len() > 0);
    } else if share_an_item(own.sources.keys, other.sources.keys) {
        let keys = other.sources.keys;
        let i = choose|i: int| 0 <= i < keys.len() && own.sources.keys.contains(#[trigger] keys[i]);
        lemma_shared_key_is_reported(own.sources.keys, keys, "source"@, keys.len(), i);
        assert(sources.len() > 0);
    } else if share_an_item(own.sinks.keys, other.sinks.keys) {
        let keys = other.sinks.keys;
        let i = choose|i: int| 0 <= i < keys.len() && own.sinks.keys.contains(#[trigger] keys[i]);
        lemma_shared_key_is_reported(own.sinks.keys, keys, "sink"@, keys.len(), i);
        assert(sinks.len() > 0);
    } else if share_an_item(own.transforms.keys, other.transforms.keys) {
        let keys = other.transforms.keys;
        let i = choose|i: int|
            0 <= i < keys.len() && own.transforms.keys.contains(#[trigger] keys[i]);
        lemma_shared_key_is_reported(own.transforms.keys, keys, "transform"@, keys.len(), i);
        assert(transforms.len() > 0);
    } else {
        let names = test_names(other.tests);
        let i = choose|i: int|
            0 <= i < names.len() && test_names(own.tests).contains(#[trigger] names[i]);
        lemma_shared_test_is_reported(test_names(own.tests), names, names.len(), i);
        assert(tests.len() > 0);
    }
}

/// A failed merge adds nothing: whatever the diagnostics are about, every
/// entity collection and the tests are afterwards what they were.
pub proof fn lemma_failed_append_adds_nothing<C>(own: BuilderView<C>, other: BuilderView<C>)
    requires
        append_errors(own, other).len() > 0,
    ensures
        appended(own, other).enrichment_tables == own.enrichment_tables,
        appended(own, other).sources == own.sources,
        appended(own, other).sinks == own.sinks,
        appended(own, other).transforms == own.transforms,
        appended(own, other).tests == own.tests,
{
}

/// Wiring one output keeps the keys of both tables and every diagnostic
/// made so far, and leaves the transforms under scoped keys as they are.
proof fn lemma_wire_output_keeps<C>(wiring: Wiring<C>, id: Key, output: Seq<char>)
    requires
        wiring.transforms.wf(),
        wiring.sinks.wf(),
    ensures
        wire_output(wiring, id, output).transforms.wf(),
        wire_output(wiring, id, output).sinks.wf(),
        wire_output(wiring, id, output).transforms.keys == wiring.transforms.keys,
        wire_output(wiring, id, output).sinks.keys == wiring.sinks.keys,
        wiring.errors.is_prefix_of(wire_output(wiring, id, output).errors),
        forall|k: Key|
            k.0 is Some && wiring.transforms.has(k) ==> #[trigger] wire_output(
                wiring,
                id,
                output,
            ).transforms.get(k) == wiring.transforms.get(k),
{
    let target = global_key(output);
    let after = wire_output(wiring, id, output);
    if wiring.transforms.has(target) {
        wiring.transforms.keys.index_of_first_ensures(target);
        assert forall|k: Key| k.0 is Some && wiring.transforms.has(k) implies after.transforms.get(
            k,
        ) == wiring.transforms.get(k) by {
            wiring.transforms.keys.index_of_first_ensures(k);
        }
    } else if wiring.sinks.has(target) {
        wiring.sinks.keys.index_of_first_ensures(target);
    }
}

/// Wiring outputs keeps the keys of both tables and every diagnostic made
/// so far, and leaves the transforms under scoped keys as they are.
proof fn lemma_wire_outputs_keep<C>(wiring: Wiring<C>, id: Key, outputs: Seq<Seq<char>>, n: nat)
    requires
        wiring.transforms.wf(),
        wiring.sinks.wf(),
    ensures
        wire_outputs(wiring, id, outputs, n).transforms.wf(),
        wire_outputs(wiring, id, outputs, n).sinks.wf(),
        wire_outputs(wiring, id, outputs, n).transforms.keys == wiring.transforms.keys,
        wire_outputs(wiring, id, outputs, n).sinks.keys == wiring.sinks.keys,
        wiring.errors.is_prefix_of(wire_outputs(wiring, id, outputs, n).errors),
        forall|k: Key|
            k.0 is Some && wiring.transforms.has(k) ==> #[trigger] wire_outputs(
                wiring,
                id,
                outputs,
                n,
            ).transforms.get(k) == wiring.transforms.get(k),
    decreases n,
{
    if n > 0 {
        let before = wire_outputs(wiring, id, outputs, (n - 1) as nat);
        lemma_wire_outputs_keep(wiring, id, outputs, (n - 1) as nat);
        lemma_wire_output_keeps(before, id, outputs[n - 1]);
        let after = wire_outputs(wiring, id, outputs, n);
        assert forall|k: Key| k.0 is Some && wiring.transforms.has(k) implies after.transforms.get(
            k,
        ) == wiring.transforms.get(k) by {
            assert(before.transforms.has(k));
            assert(before.transforms.get(k) == wiring.transforms.get(k));
        }
    }
}

/// An output that names no global transform and no global sink is reported
/// when it is wired, whatever was wired before it.
proof fn lemma_wire_outputs_report<C>(
    wiring: Wiring<C>,
    id: Key,
    outputs: Seq<Seq<char>>,
    n: nat,
    j: int,
)
    requires
        wiring.transforms.wf(),
        wiring.sinks.wf(),
        0 <= j < n <= outputs.len(),
        !wiring.transforms.has(global_key(outputs[j])),
        !wiring.sinks.has(global_key(outputs[j])),
    ensures
        wire_outputs(wiring, id, outputs, n).errors.contains(missing_output_message(outputs[j])),
    decreases n,
{
    let before = wire_outputs(wiring, id, outputs, (n - 1) as nat);
    let after = wire_outputs(wiring, id, outputs, n);
    let message = missing_output_message(outputs[j]);
    lemma_wire_outputs_keep(wiring, id, outputs, (n - 1) as nat);
    if j == n - 1 {
        assert(after.errors == before.errors.push(message));
        assert(after.errors[before.errors.len() as int] == message);
    } else {
        lemma_wire_outputs_report(wiring, id, outputs, (n - 1) as nat, j);
        lemma_wire_output_keeps(before, id, outputs[n - 1]);
        lemma_prefix_keeps(before.errors, after.errors, message);
    }
}

/// What a list holds, every list that it is a prefix of holds too.
proof fn lemma_prefix_keeps<T>(earlier: Seq<T>, later: Seq<T>, item: T)
    requires
        earlier.is_prefix_of(later),
        earlier.contains(item),
    ensures
        later.contains(item),
{
    let at = earlier.index_of(item);
    earlier.index_of_first_ensures(item);
    assert(later.subrange(0, earlier.len() as int)[at] == item);
    assert(later[at] == item);
}

/// A prefix of a prefix is a prefix.
proof fn lemma_prefix_transitive<T>(a: Seq<T>, b: Seq<T>, c: Seq<T>)
    requires
        a.is_prefix_of(b),
        b.is_prefix_of(c),
    ensures
        a.is_prefix_of(c),
{
    assert forall|i: int| 0 <= i < a.len() implies a[i] == c.subrange(0, a.len() as int)[i] by {
        assert(a[i] == b.subrange(0, a.len() as int)[i]);
        assert(b[i] == c.subrange(0, b.len() as int)[i]);
    }
    assert(a =~= c.subrange(0, a.len() as int));
}

/// What one step of the expansion keeps, for a pipeline transform with a
/// scoped identity: both tables stay well formed, the sinks keep their
/// keys, the transforms keep theirs and gain at most the identity, the
/// diagnostics made so far stay, and a transform under another scoped key
/// stays as it is.
proof fn lemma_expand_one_keeps<C>(wiring: Wiring<C>, taken: bool, scoped: Scoped<C>)
    requires
        wiring.transforms.wf(),
        wiring.sinks.wf(),
        scoped.id.0 is Some,
    ensures
        expand_one(wiring, taken, scoped).transforms.wf(),
        expand_one(wiring, taken, scoped).sinks.wf(),
        expand_one(wiring, taken, scoped).sinks.keys == wiring.sinks.keys,
        wiring.errors.is_prefix_of(expand_one(wiring, taken, scoped).errors),
        taken ==> expand_one(wiring, taken, scoped).transforms == wiring.transforms,
        !taken ==> expand_one(wiring, taken, scoped).transforms.has(scoped.id) && expand_one(
            wiring,
            taken,
            scoped,
        ).transforms.get(scoped.id) == scoped.stage.node,
        forall|k: Key|
            k != scoped.id ==> #[trigger] expand_one(wiring, taken, scoped).transforms.has(k)
                == wiring.transforms.has(k),
        forall|k: Key|
            k.0 is Some && k != scoped.id && wiring.transforms.has(k) ==> #[trigger] expand_one(
                wiring,
                taken,
                scoped,
            ).transforms.get(k) == wiring.transforms.get(k),
{
    let after = expand_one(wiring, taken, scoped);
    if !taken {
        let outputs = scoped.stage.outputs;
        let wired = wire_outputs(wiring, scoped.id, outputs, outputs.len());
        lemma_wire_outputs_keep(wiring, scoped.id, outputs, outputs.len());
        wired.transforms.lemma_put_wf(scoped.id, scoped.stage.node);
        assert forall|k: Key| k != scoped.id implies after.transforms.has(k)
            == wiring.transforms.has(k) by {
            assert(wired.transforms.has(k) == wiring.transforms.has(k));
        }
        assert forall|k: Key|
            k.0 is Some && k != scoped.id && wiring.transforms.has(k) implies after.transforms.get(k)
            == wiring.transforms.get(k) by {
            assert(wired.transforms.has(k));
            assert(wired.transforms.get(k) == wiring.transforms.get(k));
        }
    }
}

/// Every pipeline transform of a builder has a scoped identity.
proof fn lemma_stage_is_scoped<C>(builder: BuilderView<C>, i: int)
    requires
        0 <= i < flattened(builder.pipelines).len(),
    ensures
        flattened(builder.pipelines)[i].id.0 is Some,
{
    lemma_flattened_scoped(builder.pipelines, builder.pipelines.len(), i);
}

/// What the expansion of the first `n` pipeline transforms keeps: both
/// tables stay well formed, the sinks keep their keys, and the global keys
/// of the transforms are those of the builder.
proof fn lemma_expansion_prefix_keeps<C>(builder: BuilderView<C>, n: nat)
    requires
        builder.wf(),
        n <= flattened(builder.pipelines).len(),
    ensures
        expansion_prefix(builder, n).transforms.wf(),
        expansion_prefix(builder, n).sinks.wf(),
        expansion_prefix(builder, n).sinks.keys == builder.sinks.keys,
        forall|k: Key|
            k.0 is None ==> #[trigger] expansion_prefix(builder, n).transforms.has(k)
                == builder.transforms.has(k),
    decreases n,
{
    if n > 0 {
        let stages = flattened(builder.pipelines);
        let before = expansion_prefix(builder, (n - 1) as nat);
        lemma_expansion_prefix_keeps(builder, (n - 1) as nat);
        lemma_stage_is_scoped(builder, n - 1);
        let taken = name_taken(builder.transforms.keys, builder.sources.keys, stages[n - 1].id.1);
        lemma_expand_one_keeps(before, taken, stages[n - 1]);
        let after = expansion_prefix(builder, n);
        assert forall|k: Key| k.0 is None implies after.transforms.has(k)
            == builder.transforms.has(k) by {
            assert(after.transforms.has(k) == before.transforms.has(k));
        }
    }
}

/// Diagnostics accumulate: what the expansion has reported after `n`
/// pipeline transforms is still there, in the same places, after any
/// further ones.
pub proof fn lemma_diagnostics_accumulate<C>(builder: BuilderView<C>, n: nat, m: nat)
    requires
        builder.wf(),
        n <= m <= flattened(builder.pipelines).len(),
    ensures
        expansion_prefix(builder, n).errors.is_prefix_of(expansion_prefix(builder, m).errors),
    decreases m,
{
    if n < m {
        let stages = flattened(builder.pipelines);
        let before = expansion_prefix(builder, (m - 1) as nat);
        lemma_diagnostics_accumulate(builder, n, (m - 1) as nat);
        lemma_expansion_prefix_keeps(builder, (m - 1) as nat);
        lemma_stage_is_scoped(builder, m - 1);
        let taken = name_taken(builder.transforms.keys, builder.sources.keys, stages[m - 1].id.1);
        lemma_expand_one_keeps(before, taken, stages[m - 1]);
        lemma_prefix_transitive(
            expansion_prefix(builder, n).errors,
            before.errors,
            expansion_prefix(builder, m).errors,
        );
    } else {
        let errors = expansion_prefix(builder, n).errors;
        assert(errors =~= errors.subrange(0, errors.len() as int));
    }
}

/// A pipeline transform whose local name a global transform or source of
/// the builder has is rejected: its step of the expansion adds the
/// diagnostic for that name and nothing else, leaves the transforms and the
/// sinks as they were, and the diagnostic is among those of the whole
/// expansion.
pub proof fn lemma_shadowing_stage_is_rejected<C>(builder: BuilderView<C>, i: nat)
    requires
        builder.wf(),
        i < flattened(builder.pipelines).len(),
        name_taken(
            builder.transforms.keys,
            builder.sources.keys,
            flattened(builder.pipelines)[i as int].id.1,
        ),
    ensures
        expansion_prefix(builder, i + 1).transforms == expansion_prefix(builder, i).transforms,
        expansion_prefix(builder, i + 1).sinks == expansion_prefix(builder, i).sinks,
        expansion_prefix(builder, i + 1).errors == expansion_prefix(builder, i).errors.push(
            name_taken_message(flattened(builder.pipelines)[i as int].id.1),
        ),
        expansion(builder).errors.contains(
            name_taken_message(flattened(builder.pipelines)[i as int].id.1),
        ),
{
    let stages = flattened(builder.pipelines);
    let message = name_taken_message(stages[i as int].id.1);
    let before = expansion_prefix(builder, i);
    let after = expansion_prefix(builder, i + 1);
    assert(after.errors[before.errors.len() as int] == message);
    lemma_diagnostics_accumulate(builder, i + 1, stages.len());
    lemma_prefix_keeps(after.errors, expansion(builder).errors, message);
}

/// An output that names nothing is reported and stops nothing: where a
/// pipeline transform whose local name is free names an output that is
/// neither a global transform nor a global sink of the builder, the
/// diagnostic for that output is among those of the expansion, and the
/// transform is bound under its scoped identity all the same.
pub proof fn lemma_missing_output_is_reported<C>(builder: BuilderView<C>, i: nat, j: nat)
    requires
        builder.wf(),
        i < flattened(builder.pipelines).len(),
        !name_taken(
            builder.transforms.keys,
            builder.sources.keys,
            flattened(builder.pipelines)[i as int].id.1,
        ),
        j < flattened(builder.pipelines)[i as int].stage.outputs.len(),
        !builder.transforms.has(
            global_key(flattened(builder.pipelines)[i as int].stage.outputs[j as int]),
        ),
        !builder.sinks.has(
            global_key(flattened(builder.pipelines)[i as int].stage.outputs[j as int]),
        ),
    ensures
        expansion(builder).errors.contains(
            missing_output_message(flattened(builder.pipelines)[i as int].stage.outputs[j as int]),
        ),
        expansion(builder).transforms.has(flattened(builder.pipelines)[i as int].id),
{
    let stages = flattened(builder.pipelines);
    let stage = stages[i as int];
    let outputs = stage.stage.outputs;
    let message = missing_output_message(outputs[j as int]);
    let before = expansion_prefix(builder, i);
    let after = expansion_prefix(builder, i + 1);
    lemma_expansion_prefix_keeps(builder, i);
    assert(before.transforms.has(global_key(outputs[j as int])) == builder.transforms.has(
        global_key(outputs[j as int]),
    ));
    lemma_wire_outputs_report(before, stage.id, outputs, outputs.len(), j as int);
    lemma_diagnostics_accumulate(builder, i + 1, stages.len());
    lemma_prefix_keeps(after.errors, expansion(builder).errors, message);
    lemma_free_stage_is_bound(builder, i);
}

/// The scope of each of the scoped transforms of the first `n` pipelines
/// is the name of one of those pipelines.
proof fn lemma_scope_is_a_pipeline<C>(pipelines: PipelinesView<C>, n: nat, i: int)
    requires
        n <= pipelines.keys.len(),
        0 <= i < flattened_prefix(pipelines, n).len(),
    ensures
        exists|m: int|
            0 <= m < n && flattened_prefix(pipelines, n)[i].id.0 == Some(
                (#[trigger] pipelines.keys[m]).1,
            ),
    decreases n,
{
    let before = flattened_prefix(pipelines, (n - 1) as nat);
    if i < before.len() {
        lemma_scope_is_a_pipeline(pipelines, (n - 1) as nat, i);
        let m = choose|m: int|
            0 <= m < n - 1 && before[i].id.0 == Some((#[trigger] pipelines.keys[m]).1);
        assert(flattened_prefix(pipelines, n)[i].id.0 == Some(pipelines.keys[m].1));
    } else {
        assert(flattened_prefix(pipelines, n)[i].id.0 == Some(pipelines.keys[n - 1].1));
    }
}

/// The scoped transforms of the first `n` pipelines have distinct
/// identities.
proof fn lemma_flattened_prefix_distinct<C>(pipelines: PipelinesView<C>, n: nat, i: int, j: int)
    requires
        pipelines_wf(pipelines),
        n <= pipelines.keys.len(),
        0 <= i < j < flattened_prefix(pipelines, n).len(),
    ensures
        flattened_prefix(pipelines, n)[i].id != flattened_prefix(pipelines, n)[j].id,
    decreases n,
{
    let before = flattened_prefix(pipelines, (n - 1) as nat);
    let name = pipelines.keys[n - 1];
    let stages = pipelines.values[n - 1];
    let block = scoped_in(name.1, stages);
    let all = flattened_prefix(pipelines, n);
    assert(all == before + block);
    if j < before.len() {
        lemma_flattened_prefix_distinct(pipelines, (n - 1) as nat, i, j);
    } else if i < before.len() {
        lemma_scope_is_a_pipeline(pipelines, (n - 1) as nat, i);
        let m = choose|m: int|
            0 <= m < n - 1 && before[i].id.0 == Some((#[trigger] pipelines.keys[m]).1);
        assert(pipelines.keys[m] != name);
        assert(pipelines.keys[m].0 is None && name.0 is None);
        assert(pipelines.keys[m].1 != name.1);
        assert(all[j].id.0 == Some(name.1));
    } else {
        let a = i - before.len();
        let b = j - before.len();
        assert(pipeline_wf(stages));
        assert(stages.keys[a] != stages.keys[b]);
        assert(stages.keys[a].0 is None && stages.keys[b].0 is None);
        assert(all[i].id.1 == stages.keys[a].1);
        assert(all[j].id.1 == stages.keys[b].1);
    }
}

/// Scoping keeps pipelines apart: any two transforms that pipelines
/// declare, be it under the same local name in two pipelines, have
/// distinct identities in the topology.
pub proof fn lemma_scoped_identities_are_distinct<C>(pipelines: PipelinesView<C>, i: int, j: int)
    requires
        pipelines_wf(pipelines),
        0 <= i < flattened(pipelines).len(),
        0 <= j < flattened(pipelines).len(),
        i != j,
    ensures
        flattened(pipelines)[i].id != flattened(pipelines)[j].id,
{
    if i < j {
        lemma_flattened_prefix_distinct(pipelines, pipelines.len(), i, j);
    } else {
        lemma_flattened_prefix_distinct(pipelines, pipelines.len(), j, i);
    }
}

/// Once bound, a pipeline transform stays bound as it was declared: after
/// its own step and after every later one the transforms hold its scoped
/// identity, with the node that the pipeline gave it.
proof fn lemma_stage_stays_bound<C>(builder: BuilderView<C>, i: nat, m: nat)
    requires
        builder.wf(),
        i < m <= flattened(builder.pipelines).len(),
        !name_taken(
            builder.transforms.keys,
            builder.sources.keys,
            flattened(builder.pipelines)[i as int].id.1,
        ),
    ensures
        expansion_prefix(builder, m).transforms.has(flattened(builder.pipelines)[i as int].id),
        expansion_prefix(builder, m).transforms.get(flattened(builder.pipelines)[i as int].id)
            == flattened(builder.pipelines)[i as int].stage.node,
    decreases m,
{
    let stages = flattened(builder.pipelines);
    let id = stages[i as int].id;
    let before = expansion_prefix(builder, (m - 1) as nat);
    let after = expansion_prefix(builder, m);
    lemma_expansion_prefix_keeps(builder, (m - 1) as nat);
    lemma_stage_is_scoped(builder, m - 1);
    lemma_stage_is_scoped(builder, i as int);
    let taken = name_taken(builder.transforms.keys, builder.sources.keys, stages[m - 1].id.1);
    lemma_expand_one_keeps(before, taken, stages[m - 1]);
    if i < m - 1 {
        lemma_stage_stays_bound(builder, i, (m - 1) as nat);
        lemma_scoped_identities_are_distinct(builder.pipelines, i as int, m - 1);
        assert(after.transforms.has(id) == before.transforms.has(id));
        assert(after.transforms.get(id) == before.transforms.get(id));
    }
}

/// A pipeline transform whose local name is free expands: after the
/// expansion the transforms hold its scoped identity, bound to the node
/// that the pipeline declared. So two pipelines that declare the same local
/// name give two transforms of the topology.
pub proof fn lemma_free_stage_is_bound<C>(builder: BuilderView<C>, i: nat)
    requires
        builder.wf(),
        i < flattened(builder.pipelines).len(),
        !name_taken(
            builder.transforms.keys,
            builder.sources.keys,
            flattened(builder.pipelines)[i as int].id.1,
        ),
    ensures
        expansion(builder).transforms.has(flattened(builder.pipelines)[i as int].id),
        expansion(builder).transforms.get(flattened(builder.pipelines)[i as int].id) == flattened(
            builder.pipelines,
        )[i as int].stage.node,
{
    lemma_stage_stays_bound(builder, i, flattened(builder.pipelines).len());
}

/// A rejected pipeline transform is not bound: where its local name is
/// taken and the builder has nothing under its scoped identity, the
/// expansion has nothing under it either.
pub proof fn lemma_shadowing_stage_is_not_bound<C>(builder: BuilderView<C>, i: nat)
    requires
        builder.wf(),
        i < flattened(builder.pipelines).len(),
        name_taken(
            builder.transforms.keys,
            builder.sources.keys,
            flattened(builder.pipelines)[i as int].id.1,
        ),
        !builder.transforms.has(flattened(builder.pipelines)[i as int].id),
    ensures
        !expansion(builder).transforms.has(flattened(builder.pipelines)[i as int].id),
{
    lemma_rejected_stays_unbound(builder, i, flattened(builder.pipelines).len());
}

/// Nothing binds the identity of a rejected pipeline transform.
proof fn lemma_rejected_stays_unbound<C>(builder: BuilderView<C>, i: nat, m: nat)
    requires
        builder.wf(),
        i < flattened(builder.pipelines).len(),
        m <= flattened(builder.pipelines).len(),
        name_taken(
            builder.transforms.keys,
            builder.sources.keys,
            flattened(builder.pipelines)[i as int].id.1,
        ),
        !builder.transforms.has(flattened(builder.pipelines)[i as int].id),
    ensures
        !expansion_prefix(builder, m).transforms.has(flattened(builder.pipelines)[i as int].id),
    decreases m,
{
    if m > 0 {
        let stages = flattened(builder.pipelines);
        let id = stages[i as int].id;
        let before = expansion_prefix(builder, (m - 1) as nat);
        lemma_rejected_stays_unbound(builder, i, (m - 1) as nat);
        lemma_expansion_prefix_keeps(builder, (m - 1) as nat);
        lemma_stage_is_scoped(builder, m - 1);
        let taken = name_taken(builder.transforms.keys, builder.sources.keys, stages[m - 1].id.1);
        lemma_expand_one_keeps(before, taken, stages[m - 1]);
        if stages[m - 1].id != id {
            assert(expansion_prefix(builder, m).transforms.has(id) == before.transforms.has(id));
        }
    }
}

} // verus!
