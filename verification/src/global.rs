//! The options that hold for a whole configuration, and how two fragments'
//! values of them are reconciled.

use crate::entity::{lemma_texts_of_push, texts_of};
use vstd::prelude::*;
use vstd::string::StringExecFns;

verus! {

/// The data directory that a configuration has when it names none.
pub open spec fn default_data_dir_text() -> Seq<char> {
    "/var/lib/vector/"@
}

/// The data directory after a merge: the accumulator's own value stays
/// unless it is unset or the default, in which case the fragment's is taken.
pub open spec fn merged_data_dir(own: Option<Seq<char>>, other: Option<Seq<char>>) -> Option<
    Seq<char>,
> {
    if own is None || own == Some(default_data_dir_text()) {
        other
    } else {
        own
    }
}

/// Whether two data directories conflict: both are set to something other
/// than the default, and they differ. An unset directory on the fragment's
/// side differs from a set one.
pub open spec fn data_dir_conflict(own: Option<Seq<char>>, other: Option<Seq<char>>) -> bool {
    &&& own is Some
    &&& own != Some(default_data_dir_text())
    &&& other != Some(default_data_dir_text())
    &&& own != other
}

/// The diagnostic for two conflicting data directories.
pub open spec fn data_dir_conflict_message() -> Seq<char> {
    "conflicting values for 'data_dir' found"@
}

/// The built-in data directory.
pub fn default_data_dir() -> (dir: Option<String>)
    ensures
        dir is Some,
        dir->0@ == default_data_dir_text(),
{
    Some(String::from_str("/var/lib/vector/"))
}

/// The mathematical value of a log schema: the name of each well-known field.
pub struct LogSchemaView {
    pub message_key: Seq<char>,
    pub timestamp_key: Seq<char>,
    pub host_key: Seq<char>,
    pub source_type_key: Seq<char>,
}

/// The schema that a configuration has when it names none.
pub open spec fn default_log_schema() -> LogSchemaView {
    LogSchemaView {
        message_key: "message"@,
        timestamp_key: "timestamp"@,
        host_key: "host"@,
        source_type_key: "source_type"@,
    }
}

/// A field after a merge: the accumulator's own name stays unless it is the
/// default, in which case the fragment's is taken.
pub open spec fn merged_key(own: Seq<char>, other: Seq<char>, default: Seq<char>) -> Seq<char> {
    if own == default {
        other
    } else {
        own
    }
}

/// Whether a field is defined incompatibly on both sides: neither name is
/// the default, and they differ.
pub open spec fn key_conflict(own: Seq<char>, other: Seq<char>, default: Seq<char>) -> bool {
    own != default && other != default && own != other
}

/// The list of `message` alone where `condition` holds, the empty list
/// where it does not.
pub open spec fn one_if(condition: bool, message: Seq<char>) -> Seq<Seq<char>> {
    if condition {
        seq![message]
    } else {
        Seq::empty()
    }
}

/// The diagnostic for two names of the host field.
pub open spec fn host_key_conflict_message() -> Seq<char> {
    "conflicting values for 'log_schema.host_key' found"@
}

/// The diagnostic for two names of the message field.
pub open spec fn message_key_conflict_message() -> Seq<char> {
    "conflicting values for 'log_schema.message_key' found"@
}

/// The diagnostic for two names of the timestamp field.
pub open spec fn timestamp_key_conflict_message() -> Seq<char> {
    "conflicting values for 'log_schema.timestamp_key' found"@
}

/// The diagnostic for two names of the source type field.
pub open spec fn source_type_key_conflict_message() -> Seq<char> {
    "conflicting values for 'log_schema.source_type_key' found"@
}

/// The schema after merging `other` into `own`, field by field.
pub open spec fn merged_log_schema(own: LogSchemaView, other: LogSchemaView) -> LogSchemaView {
    let d = default_log_schema();
    LogSchemaView {
        message_key: merged_key(own.message_key, other.message_key, d.message_key),
        timestamp_key: merged_key(own.timestamp_key, other.timestamp_key, d.timestamp_key),
        host_key: merged_key(own.host_key, other.host_key, d.host_key),
        source_type_key: merged_key(own.source_type_key, other.source_type_key, d.source_type_key),
    }
}

/// One diagnostic for each field that the two schemas define incompatibly,
/// in the order host, message, timestamp, source type.
pub open spec fn log_schema_conflicts(own: LogSchemaView, other: LogSchemaView) -> Seq<Seq<char>> {
    let d = default_log_schema();
    one_if(key_conflict(own.host_key, other.host_key, d.host_key), host_key_conflict_message())
        + one_if(
        key_conflict(own.message_key, other.message_key, d.message_key),
        message_key_conflict_message(),
    ) + one_if(
        key_conflict(own.timestamp_key, other.timestamp_key, d.timestamp_key),
        timestamp_key_conflict_message(),
    ) + one_if(
        key_conflict(own.source_type_key, other.source_type_key, d.source_type_key),
        source_type_key_conflict_message(),
    )
}

/// The names under which events carry their well-known fields.
#[derive(Debug)]
pub struct LogSchema {
    pub message_key: String,
    pub timestamp_key: String,
    pub host_key: String,
    pub source_type_key: String,
}

impl View for LogSchema {
    type V = LogSchemaView;

    open spec fn view(&self) -> LogSchemaView {
        LogSchemaView {
            message_key: self.message_key@,
            timestamp_key: self.timestamp_key@,
            host_key: self.host_key@,
            source_type_key: self.source_type_key@,
        }
    }
}

impl Default for LogSchema {
    fn default() -> (schema: Self)
        ensures
            schema@ == default_log_schema(),
    {
        LogSchema {
            message_key: String::from_str("message"),
            timestamp_key: String::from_str("timestamp"),
            host_key: String::from_str("host"),
            source_type_key: String::from_str("source_type"),
        }
    }
}

/// Merges one field. Returns whether the two names conflict; where they do
/// not, `own` becomes the merged name.
fn merge_key(own: &mut String, other: &String, default: &str) -> (conflict: bool)
    ensures
        conflict == key_conflict(old(own)@, other@, default@),
        final(own)@ == merged_key(old(own)@, other@, default@),
{
    let default = String::from_str(default);
    if *own == default {
        *own = other.clone();
        false
    } else {
        !(*other == default) && !(*own == *other)
    }
}

impl LogSchema {
    /// Merges `other` into this schema field by field. A field that this
    /// schema leaves at its default takes the other's name; a field that
    /// both define, differently, keeps its name and contributes one
    /// diagnostic. All four fields are merged whatever the others do.
    pub fn merge(&mut self, other: &LogSchema) -> (result: Result<(), Vec<String>>)
        ensures
            final(self)@ == merged_log_schema(old(self)@, other@),
            result is Ok <==> log_schema_conflicts(old(self)@, other@).len() == 0,
            result matches Err(errors) ==> texts_of(errors@) == log_schema_conflicts(
                old(self)@,
                other@,
            ),
    {
        let mut errors: Vec<String> = Vec::new();
        if merge_key(&mut self.host_key, &other.host_key, "host") {
            errors.push(String::from_str("conflicting values for 'log_schema.host_key' found"));
        }
        assert(texts_of(errors@) =~= one_if(
            key_conflict(old(self)@.host_key, other@.host_key, "host"@),
            host_key_conflict_message(),
        ));
        let ghost first = texts_of(errors@);
        if merge_key(&mut self.message_key, &other.message_key, "message") {
            errors.push(String::from_str("conflicting values for 'log_schema.message_key' found"));
        }
        assert(texts_of(errors@) =~= first + one_if(
            key_conflict(old(self)@.message_key, other@.message_key, "message"@),
            message_key_conflict_message(),
        ));
        let ghost second = texts_of(errors@);
        if merge_key(&mut self.timestamp_key, &other.timestamp_key, "timestamp") {
            errors.push(
                String::from_str("conflicting values for 'log_schema.timestamp_key' found"),
            );
        }
        assert(texts_of(errors@) =~= second + one_if(
            key_conflict(old(self)@.timestamp_key, other@.timestamp_key, "timestamp"@),
            timestamp_key_conflict_message(),
        ));
        let ghost third = texts_of(errors@);
        if merge_key(&mut self.source_type_key, &other.source_type_key, "source_type") {
            errors.push(
                String::from_str("conflicting values for 'log_schema.source_type_key' found"),
            );
        }
        assert(texts_of(errors@) =~= third + one_if(
            key_conflict(old(self)@.source_type_key, other@.source_type_key, "source_type"@),
            source_type_key_conflict_message(),
        ));
        if errors.len() == 0 {
            Ok(())
        } else {
            Err(errors)
        }
    }
}

/// The mathematical value of the global options.
pub struct GlobalView {
    pub data_dir: Option<Seq<char>>,
    pub log_schema: LogSchemaView,
}

/// The options of the whole process.
#[derive(Debug)]
pub struct GlobalOptions {
    /// Where components keep their state; `None` when unset.
    pub data_dir: Option<String>,
    pub log_schema: LogSchema,
}

impl View for GlobalOptions {
    type V = GlobalView;

    open spec fn view(&self) -> GlobalView {
        GlobalView { data_dir: self.data_dir.deep_view(), log_schema: self.log_schema@ }
    }
}

/// The options after merging `other` into `own`.
pub open spec fn merged_global(own: GlobalView, other: GlobalView) -> GlobalView {
    GlobalView {
        data_dir: merged_data_dir(own.data_dir, other.data_dir),
        log_schema: merged_log_schema(own.log_schema, other.log_schema),
    }
}

/// The diagnostics of the options: the data directory first, then the log
/// schema field by field.
pub open spec fn option_conflicts(own: GlobalView, other: GlobalView) -> Seq<Seq<char>> {
    one_if(data_dir_conflict(own.data_dir, other.data_dir), data_dir_conflict_message())
        + log_schema_conflicts(own.log_schema, other.log_schema)
}

/// Whether two optional texts are the same.
fn same_text(a: &Option<String>, b: &Option<String>) -> (same: bool)
    ensures
        same == (a.deep_view() == b.deep_view()),
{
    match (a, b) {
        (Some(x), Some(y)) => *x == *y,
        (None, None) => true,
        _ => false,
    }
}

impl GlobalOptions {
    /// Merges `other` into these options, and adds to `errors` a diagnostic
    /// for each option that the two define incompatibly. An option that
    /// conflicts keeps its value; the others are merged all the same.
    pub fn merge(&mut self, other: GlobalOptions, errors: &mut Vec<String>)
        ensures
            final(self)@ == merged_global(old(self)@, other@),
            texts_of(final(errors)@) == texts_of(old(errors)@) + option_conflicts(
                old(self)@,
                other@,
            ),
    {
        let ghost start = texts_of(errors@);
        let default = default_data_dir();
        let unset = self.data_dir.is_none();
        if unset || same_text(&self.data_dir, &default) {
            self.data_dir = other.data_dir;
        } else if !same_text(&other.data_dir, &default) && !same_text(
            &self.data_dir,
            &other.data_dir,
        ) {
            let message = String::from_str("conflicting values for 'data_dir' found");
            proof {
                lemma_texts_of_push(errors@, message);
            }
            errors.push(message);
        }
        assert(texts_of(errors@) =~= start + one_if(
            data_dir_conflict(old(self)@.data_dir, other@.data_dir),
            data_dir_conflict_message(),
        ));
        let ghost first = errors@;
        match self.log_schema.merge(&other.log_schema) {
            Ok(_) => {
                assert(texts_of(errors@) =~= start + option_conflicts(old(self)@, other@));
            },
            Err(schema_errors) => {
                let mut schema_errors = schema_errors;
                let ghost second = schema_errors@;
                errors.append(&mut schema_errors);
                assert(texts_of(first + second) =~= texts_of(first) + texts_of(second));
                assert(texts_of(errors@) =~= start + option_conflicts(old(self)@, other@));
            },
        }
    }
}

impl Default for GlobalOptions {
    fn default() -> (options: Self)
        ensures
            options@ == (GlobalView { data_dir: None, log_schema: default_log_schema() }),
    {
        GlobalOptions { data_dir: None, log_schema: LogSchema::default() }
    }
}

/// Whether and how strictly sinks are probed at start-up.
#[derive(Clone, Copy, Debug, PartialEq, Eq, Structural)]
pub struct HealthcheckOptions {
    /// Probing is on unless a fragment turns it off.
    pub enabled: bool,
    /// A failed probe is fatal once a fragment asks for it.
    pub require_healthy: bool,
}

/// The healthcheck options after a merge: each option leaves its default as
/// soon as one side sets it.
pub open spec fn merged_healthchecks(
    own: HealthcheckOptions,
    other: HealthcheckOptions,
) -> HealthcheckOptions {
    HealthcheckOptions {
        enabled: own.enabled && other.enabled,
        require_healthy: own.require_healthy || other.require_healthy,
    }
}

impl Default for HealthcheckOptions {
    fn default() -> (options: Self)
        ensures
            options == (HealthcheckOptions { enabled: true, require_healthy: false }),
    {
        HealthcheckOptions { enabled: true, require_healthy: false }
    }
}

impl HealthcheckOptions {
    /// Folds `other` into these options.
    pub fn merge(&mut self, other: HealthcheckOptions)
        ensures
            *final(self) == merged_healthchecks(*old(self), other),
    {
        self.enabled = self.enabled && other.enabled;
        self.require_healthy = self.require_healthy || other.require_healthy;
    }
}

} // verus!
