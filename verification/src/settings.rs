//! Settings: where they live, how they are read, and what a change leads to.
//!
//! A setting that is workspace-only lives in the registry alone. Any other setting is read from
//! the database, else from the registry, else from the built-in defaults. Without a registry the
//! database is the only place there is.

use crate::error::{AtomicCoreError, ErrorView};
use crate::strmap::{lemma_among_first, StrMap};
use crate::text::{glue, text_eq, text_in, views};
use vstd::prelude::*;

verus! {

/// Where the value of a setting comes from.
#[derive(Debug, Clone, Copy, PartialEq, Eq, Structural)]
pub enum SettingSource {
    Workspace,
    WorkspaceDefault,
    Override,
    BuiltinDefault,
}

/// The value of a setting, and where it comes from.
#[derive(Debug, Clone)]
pub struct SettingValue {
    pub value: String,
    pub source: SettingSource,
}

/// What is known of the settings beforehand.
pub struct SettingCatalog {
    /// The built-in defaults.
    pub defaults: StrMap<String>,
    /// The settings that are workspace-only.
    pub workspace_only: Vec<String>,
    /// The settings on which the space of the embeddings depends.
    pub embedding_space: Vec<String>,
}

impl SettingCatalog {
    /// Whether a setting is workspace-only.
    pub open spec fn is_shared(self, key: Seq<char>) -> bool {
        views(self.workspace_only@).contains(key)
    }

    /// Whether the space of the embeddings depends on a setting.
    pub open spec fn shapes_embeddings(self, key: Seq<char>) -> bool {
        views(self.embedding_space@).contains(key)
    }

    /// Whether a setting is workspace-only.
    pub fn is_workspace_only(&self, key: &str) -> (r: bool)
        ensures
            r == self.is_shared(key@),
    {
        text_in(&self.workspace_only, key)
    }

    /// Whether the space of the embeddings depends on a setting.
    pub fn is_embedding_space_key(&self, key: &str) -> (r: bool)
        ensures
            r == self.shapes_embeddings(key@),
    {
        text_in(&self.embedding_space, key)
    }
}

/// Rows of settings.
pub type Rows = Map<Seq<char>, String>;

/// The value of a setting and where it comes from.
pub type Resolved = Option<(Seq<char>, SettingSource)>;

/// What the row for a setting holds, if there is one.
pub open spec fn row(rows: Rows, key: Seq<char>) -> Option<Seq<char>> {
    if rows.contains_key(key) {
        Some(rows[key]@)
    } else {
        None
    }
}

/// The value of a setting, if it has one, and where it comes from.
pub open spec fn resolution(
    catalog: SettingCatalog,
    registry: Option<Rows>,
    database: Rows,
    key: Seq<char>,
) -> Resolved {
    let builtin = match row(catalog.defaults@, key) {
        Some(v) => Some((v, SettingSource::BuiltinDefault)),
        None => None,
    };
    match registry {
        Some(r) => if catalog.is_shared(key) {
            match row(r, key) {
                Some(v) => Some((v, SettingSource::Workspace)),
                None => builtin,
            }
        } else {
            match row(database, key) {
                Some(v) => Some((v, SettingSource::Override)),
                None => match row(r, key) {
                    Some(v) => Some((v, SettingSource::WorkspaceDefault)),
                    None => builtin,
                },
            }
        },
        None => match row(database, key) {
            Some(v) => Some(
                (
                    v,
                    if catalog.is_shared(key) {
                        SettingSource::Workspace
                    } else {
                        SettingSource::WorkspaceDefault
                    },
                ),
            ),
            None => builtin,
        },
    }
}

/// What a map of values says of a setting.
pub open spec fn setting_at(m: Map<Seq<char>, SettingValue>, key: Seq<char>) -> Resolved {
    if m.contains_key(key) {
        Some((m[key].value@, m[key].source))
    } else {
        None
    }
}

/// The layers of the settings.
#[derive(Debug, Clone, Copy, PartialEq, Eq, Structural)]
pub enum Layer {
    Builtin,
    Registry,
    /// The database, where there is a registry.
    Override,
    /// The database, where there is none.
    Only,
}

/// The source of a setting that a layer holds; nothing if the layer does not count for it.
pub open spec fn source_in(catalog: SettingCatalog, layer: Layer, key: Seq<char>) -> Option<
    SettingSource,
> {
    match layer {
        Layer::Builtin => Some(SettingSource::BuiltinDefault),
        Layer::Override => if catalog.is_shared(key) {
            None
        } else {
            Some(SettingSource::Override)
        },
        _ => Some(
            if catalog.is_shared(key) {
                SettingSource::Workspace
            } else {
                SettingSource::WorkspaceDefault
            },
        ),
    }
}

/// What is said of a setting once a layer is laid on top.
pub open spec fn laid_on(
    catalog: SettingCatalog,
    layer: Layer,
    rows: Rows,
    below: Resolved,
    key: Seq<char>,
) -> Resolved {
    match (source_in(catalog, layer, key), row(rows, key)) {
        (Some(source), Some(v)) => Some((v, source)),
        _ => below,
    }
}

fn lay(
    merged: &mut StrMap<SettingValue>,
    catalog: &SettingCatalog,
    layer: Layer,
    rows: &StrMap<String>,
)
    ensures
        forall|key: Seq<char>| #[trigger]
            setting_at(final(merged)@, key) == laid_on(
                *catalog,
                layer,
                rows@,
                setting_at(old(merged)@, key),
                key,
            ),
{
    let ghost start = merged@;
    let n: usize = rows.len();
    let ghost keys = rows.keys();
    let mut i: usize = 0;
    while i < n
        invariant
            i <= n == keys.len(),
            keys == rows.keys(),
            keys.no_duplicates(),
            forall|k: Seq<char>| #[trigger] rows@.contains_key(k) <==> keys.contains(k),
            forall|key: Seq<char>| #[trigger]
                setting_at(merged@, key) == if keys.take(i as int).contains(key) {
                    laid_on(*catalog, layer, rows@, setting_at(start, key), key)
                } else {
                    setting_at(start, key)
                },
        decreases n - i,
    {
        let ghost before = merged@;
        let (key, value) = rows.entry(i);
        let shared = catalog.is_workspace_only(key);
        let source: Option<SettingSource> = match layer {
            Layer::Builtin => Some(SettingSource::BuiltinDefault),
            Layer::Override => if shared {
                None
            } else {
                Some(SettingSource::Override)
            },
            _ => Some(
                if shared {
                    SettingSource::Workspace
                } else {
                    SettingSource::WorkspaceDefault
                },
            ),
        };
        match source {
            Some(source) => {
                merged.insert(key.to_owned(), SettingValue { value: value.clone(), source });
            },
            None => {},
        }
        proof {
            assert forall|q: Seq<char>| #[trigger]
                setting_at(merged@, q) == if keys.take(i + 1).contains(q) {
                    laid_on(*catalog, layer, rows@, setting_at(start, q), q)
                } else {
                    setting_at(start, q)
                } by {
                assert(setting_at(before, q) == if keys.take(i as int).contains(q) {
                    laid_on(*catalog, layer, rows@, setting_at(start, q), q)
                } else {
                    setting_at(start, q)
                });
                lemma_among_first(keys, i as int, q);
            }
        }
        i = i + 1;
    }
    proof {
        assert(keys.take(i as int) =~= keys);
        assert forall|key: Seq<char>| #[trigger]
            setting_at(merged@, key) == laid_on(
                *catalog,
                layer,
                rows@,
                setting_at(start, key),
                key,
            ) by {
            assert(rows@.contains_key(key) <==> keys.contains(key));
        }
    }
}

/// All the settings, each with its value and where that comes from.
pub fn get_settings_with_source(
    catalog: &SettingCatalog,
    registry: Option<&StrMap<String>>,
    database: &StrMap<String>,
) -> (r: StrMap<SettingValue>)
    ensures
        forall|key: Seq<char>| #[trigger]
            setting_at(r@, key) == resolution(
                *catalog,
                match registry {
                    Some(reg) => Some(reg@),
                    None => None,
                },
                database@,
                key,
            ),
{
    let mut merged: StrMap<SettingValue> = StrMap::new();
    lay(&mut merged, catalog, Layer::Builtin, &catalog.defaults);
    match registry {
        Some(reg) => {
            lay(&mut merged, catalog, Layer::Registry, reg);
            lay(&mut merged, catalog, Layer::Override, database);
        },
        None => {
            lay(&mut merged, catalog, Layer::Only, database);
        },
    }
    merged
}

/// The values of the settings alone.
pub fn get_settings(resolved: &StrMap<SettingValue>) -> (r: StrMap<String>)
    ensures
        forall|key: Seq<char>| #[trigger]
            row(r@, key) == match setting_at(resolved@, key) {
                Some((v, _)) => Some(v),
                None => None,
            },
{
    let n: usize = resolved.len();
    let ghost keys = resolved.keys();
    let mut r: StrMap<String> = StrMap::new();
    let mut i: usize = 0;
    while i < n
        invariant
            i <= n == keys.len(),
            keys == resolved.keys(),
            forall|k: Seq<char>| #[trigger] resolved@.contains_key(k) <==> keys.contains(k),
            forall|key: Seq<char>| #[trigger]
                row(r@, key) == if keys.take(i as int).contains(key) {
                    Some(resolved@[key].value@)
                } else {
                    None
                },
        decreases n - i,
    {
        let ghost before = r@;
        let (key, value) = resolved.entry(i);
        r.insert(key.to_owned(), value.value.clone());
        proof {
            assert forall|q: Seq<char>| #[trigger]
                row(r@, q) == if keys.take(i + 1).contains(q) {
                    Some(resolved@[q].value@)
                } else {
                    None
                } by {
                assert(row(before, q) == if keys.take(i as int).contains(q) {
                    Some(resolved@[q].value@)
                } else {
                    None
                });
                lemma_among_first(keys, i as int, q);
            }
        }
        i = i + 1;
    }
    proof {
        assert(keys.take(i as int) =~= keys);
        assert forall|key: Seq<char>| #[trigger]
            row(r@, key) == match setting_at(resolved@, key) {
                Some((v, _)) => Some(v),
                None => None,
            } by {
            assert(resolved@.contains_key(key) <==> keys.contains(key));
        }
    }
    r
}

/// Where a setting is written to.
#[derive(Debug, Clone, Copy, PartialEq, Eq, Structural)]
pub enum SettingTarget {
    Registry,
    Database,
}

/// Where a setting is written to: to the database if there is no registry; to the registry if it
/// is workspace-only, or if there is only one database; else to the database.
pub open spec fn write_target(
    catalog: SettingCatalog,
    has_registry: bool,
    databases: int,
    key: Seq<char>,
) -> SettingTarget {
    if has_registry && (catalog.is_shared(key) || databases <= 1) {
        SettingTarget::Registry
    } else {
        SettingTarget::Database
    }
}

/// Where a setting is written to, as far as that can be told before the databases are counted.
pub fn set_setting_target(catalog: &SettingCatalog, has_registry: bool, key: &str) -> (r: Option<
    SettingTarget,
>)
    ensures
        match r {
            Some(t) => forall|databases: int| #[trigger]
                write_target(*catalog, has_registry, databases, key@) == t,
            None => has_registry && !catalog.is_shared(key@),
        },
        r == if !has_registry {
            Some(SettingTarget::Database)
        } else if catalog.is_shared(key@) {
            Some(SettingTarget::Registry)
        } else {
            None
        },
{
    if !has_registry {
        Some(SettingTarget::Database)
    } else if catalog.is_workspace_only(key) {
        Some(SettingTarget::Registry)
    } else {
        None
    }
}

/// Where a setting is written to, given the number of databases.
pub fn set_setting(catalog: &SettingCatalog, has_registry: bool, databases: i64, key: &str) -> (r:
    SettingTarget)
    ensures
        r == write_target(*catalog, has_registry, databases as int, key@),
{
    match set_setting_target(catalog, has_registry, key) {
        Some(t) => {
            assert(write_target(*catalog, has_registry, databases as int, key@) == t);
            t
        },
        None => {
            if databases <= 1 {
                SettingTarget::Registry
            } else {
                SettingTarget::Database
            }
        },
    }
}

/// Whether the database's value for a setting may be cleared.
pub fn clear_override(catalog: &SettingCatalog, key: &str) -> (r: Result<(), AtomicCoreError>)
    ensures
        match r {
            Ok(_) => !catalog.is_shared(key@),
            Err(e) => catalog.is_shared(key@) && e@ == ErrorView::Validation(
                "Setting '"@ + key@ + "' is workspace-only and has no per-database override"@,
            ),
        },
{
    if catalog.is_workspace_only(key) {
        let head = glue("Setting '", key);
        return Err(
            AtomicCoreError::Validation(
                glue(
                    head.as_str(),
                    "' is workspace-only and has no per-database override",
                ),
            ),
        );
    }
    Ok(())
}

/// The database's own value for a setting: what its row holds, unless the setting is
/// workspace-only.
pub fn get_setting_override(catalog: &SettingCatalog, database: &StrMap<String>, key: &str) -> (r:
    Option<String>)
    ensures
        (match r {
            Some(v) => Some(v@),
            None => None,
        }) == if catalog.is_shared(key@) {
            None
        } else {
            row(database@, key@)
        },
{
    if catalog.is_workspace_only(key) {
        return None;
    }
    match database.get(key) {
        Some(v) => Some(v.clone()),
        None => None,
    }
}

/// Registry and database after a setting is written.
pub open spec fn written(
    catalog: SettingCatalog,
    registry: Option<Rows>,
    database: Rows,
    databases: int,
    key: Seq<char>,
    value: String,
) -> (Option<Rows>, Rows) {
    match write_target(catalog, registry is Some, databases, key) {
        SettingTarget::Registry => (
            Some(registry->0.insert(key, value)),
            database,
        ),
        SettingTarget::Database => (registry, database.insert(key, value)),
    }
}

/// What is written is read back. Left out is a setting that goes to the registry because there is
/// one database, while that database has a row of its own for it: that row is still what is read.
pub proof fn law_write_is_read_back(
    catalog: SettingCatalog,
    registry: Option<Rows>,
    database: Rows,
    databases: int,
    key: Seq<char>,
    value: String,
)
    requires
        registry is Some && !catalog.is_shared(key) && databases <= 1 ==> !database.contains_key(
            key,
        ),
    ensures
        ({
            let (r, d) = written(catalog, registry, database, databases, key, value);
            resolution(catalog, r, d, key) matches Some((v, _)) && v == value@
        }),
{
}

/// A write leaves every other setting alone.
pub proof fn law_write_leaves_others(
    catalog: SettingCatalog,
    registry: Option<Rows>,
    database: Rows,
    databases: int,
    key: Seq<char>,
    value: String,
    other: Seq<char>,
)
    requires
        other != key,
    ensures
        ({
            let (r, d) = written(catalog, registry, database, databases, key, value);
            resolution(catalog, r, d, other) == resolution(catalog, registry, database, other)
        }),
{
}

/// With more than one database, a setting that is not workspace-only is written for the one
/// database alone: every other database reads as before.
pub proof fn law_override_stays_in_its_database(
    catalog: SettingCatalog,
    registry: Option<Rows>,
    database: Rows,
    databases: int,
    key: Seq<char>,
    value: String,
    elsewhere: Rows,
    read: Seq<char>,
)
    requires
        databases > 1,
        !catalog.is_shared(key),
    ensures
        ({
            let (r, d) = written(catalog, registry, database, databases, key, value);
            resolution(catalog, r, elsewhere, read) == resolution(
                catalog,
                registry,
                elsewhere,
                read,
            )
        }),
{
}

/// A workspace-only setting reads the same in every database of a workspace, whatever rows a
/// database has for it.
pub proof fn law_workspace_settings_are_shared(
    catalog: SettingCatalog,
    registry: Rows,
    a: Rows,
    b: Rows,
    key: Seq<char>,
)
    requires
        catalog.is_shared(key),
    ensures
        resolution(catalog, Some(registry), a, key) == resolution(
            catalog,
            Some(registry),
            b,
            key,
        ),
{
}

/// With one database, what is written is inherited by a database that is added later.
pub proof fn law_single_database_writes_are_inherited(
    catalog: SettingCatalog,
    registry: Rows,
    database: Rows,
    databases: int,
    key: Seq<char>,
    value: String,
    added: Rows,
)
    requires
        databases <= 1,
        !added.contains_key(key),
    ensures
        ({
            let (r, d) = written(catalog, Some(registry), database, databases, key, value);
            resolution(catalog, r, added, key) matches Some((v, _)) && v == value@
        }),
{
}

/// Once a database's own value is cleared, a setting reads as in a database without one, and
/// every other setting as before.
pub proof fn law_cleared_override_falls_back(
    catalog: SettingCatalog,
    registry: Option<Rows>,
    database: Rows,
    key: Seq<char>,
    read: Seq<char>,
)
    ensures
        resolution(catalog, registry, database.remove(key), key) == resolution(
            catalog,
            registry,
            Map::empty(),
            key,
        ),
        read != key ==> resolution(catalog, registry, database.remove(key), read) == resolution(
            catalog,
            registry,
            database,
            read,
        ),
{
}

/// What came of a change of settings.
#[derive(Debug, Clone, Copy, PartialEq, Eq, Structural)]
pub struct SettingChangeResult {
    pub embedding_space_changed: bool,
    pub dimension_changed: bool,
    pub old_dim: usize,
    pub new_dim: usize,
    pub total_atom_count: i32,
    pub retried_failed_count: i32,
}

/// What is to be done about the embeddings after a change of settings.
#[derive(Debug, Clone, Copy, PartialEq, Eq, Structural)]
pub enum EmbeddingWork {
    Nothing,
    /// Make the vector index anew with this dimension, and embed what is pending.
    RecreateIndex(usize),
    /// Embed every atom again.
    ReembedAll,
}

/// What a change of settings leads to.
#[derive(Debug, Clone, Copy, PartialEq, Eq, Structural)]
pub struct SettingChangePlan {
    pub embedding_space_changed: bool,
    pub dimension_changed: bool,
    pub old_dim: usize,
    pub new_dim: usize,
    pub work: EmbeddingWork,
    /// Whether atoms that failed before are to be tried again.
    pub retry_failed: bool,
}

/// Whether a new value for a setting differs from the present one.
pub open spec fn value_changes(current: Rows, key: Seq<char>, value: Seq<char>) -> bool {
    row(current, key) != Some(value)
}

/// Whether a new value for a setting differs from the present one.
pub fn value_changed(current: &StrMap<String>, key: &str, value: &str) -> (r: bool)
    ensures
        r == value_changes(current@, key@, value@),
{
    match current.get(key) {
        Some(v) => !text_eq(v.as_str(), value),
        None => true,
    }
}

/// The settings as they will be.
pub fn changed_settings(current: &StrMap<String>, key: &str, value: &str) -> (r: StrMap<String>)
    ensures
        row(r@, key@) == Some(value@),
        forall|k: Seq<char>| k != key@ ==> #[trigger] row(r@, k) == row(current@, k),
{
    let n: usize = current.len();
    let ghost keys = current.keys();
    let mut r: StrMap<String> = StrMap::new();
    let mut i: usize = 0;
    while i < n
        invariant
            i <= n == keys.len(),
            keys == current.keys(),
            forall|k: Seq<char>| #[trigger] current@.contains_key(k) <==> keys.contains(k),
            forall|k: Seq<char>| #[trigger]
                row(r@, k) == if keys.take(i as int).contains(k) {
                    row(current@, k)
                } else {
                    None
                },
        decreases n - i,
    {
        let ghost before = r@;
        let (k, v) = current.entry(i);
        r.insert(k.to_owned(), v.clone());
        proof {
            assert forall|q: Seq<char>| #[trigger]
                row(r@, q) == if keys.take(i + 1).contains(q) {
                    row(current@, q)
                } else {
                    None
                } by {
                assert(row(before, q) == if keys.take(i as int).contains(q) {
                    row(current@, q)
                } else {
                    None
                });
                lemma_among_first(keys, i as int, q);
            }
        }
        i = i + 1;
    }
    let ghost copied = r@;
    r.insert(key.to_owned(), value.to_owned());
    proof {
        assert(keys.take(i as int) =~= keys);
        assert forall|k: Seq<char>| k != key@ implies #[trigger] row(r@, k) == row(
            current@,
            k,
        ) by {
            assert(row(copied, k) == if keys.take(i as int).contains(k) {
                row(current@, k)
            } else {
                None
            });
            assert(current@.contains_key(k) <==> keys.contains(k));
        }
    }
    r
}

/// The settings of a provider after which failed atoms are worth another try.
pub open spec fn is_retry_key(key: Seq<char>) -> bool {
    ||| key == "provider"@
    ||| key == "embedding_model"@
    ||| key == "ollama_embedding_model"@
    ||| key == "ollama_host"@
    ||| key == "openai_compat_embedding_model"@
    ||| key == "openai_compat_base_url"@
    ||| key == "openai_compat_api_key"@
    ||| key == "openrouter_api_key"@
}

fn retries_failed(key: &str) -> (r: bool)
    ensures
        r == is_retry_key(key@),
{
    text_eq(key, "provider") || text_eq(key, "embedding_model") || text_eq(
        key,
        "ollama_embedding_model",
    ) || text_eq(key, "ollama_host") || text_eq(key, "openai_compat_embedding_model") || text_eq(
        key,
        "openai_compat_base_url",
    ) || text_eq(key, "openai_compat_api_key") || text_eq(key, "openrouter_api_key")
}

/// What a change of the space of the embeddings leads to: where the dimension changes the index
/// is made anew; where it does not, every atom is embedded again, since equal dimensions do not
/// make equal spaces.
pub open spec fn embedding_plan(
    space_changed: bool,
    old_dim: usize,
    new_dim: usize,
    retry_failed: bool,
) -> SettingChangePlan {
    if !space_changed {
        SettingChangePlan {
            embedding_space_changed: false,
            dimension_changed: false,
            old_dim: 0,
            new_dim: 0,
            work: EmbeddingWork::Nothing,
            retry_failed,
        }
    } else {
        SettingChangePlan {
            embedding_space_changed: true,
            dimension_changed: old_dim != new_dim,
            old_dim,
            new_dim,
            work: if old_dim != new_dim {
                EmbeddingWork::RecreateIndex(new_dim)
            } else {
                EmbeddingWork::ReembedAll
            },
            retry_failed,
        }
    }
}

fn plan_embeddings(space_changed: bool, old_dim: usize, new_dim: usize, retry_failed: bool) -> (r:
    SettingChangePlan)
    ensures
        r == embedding_plan(space_changed, old_dim, new_dim, retry_failed),
{
    if !space_changed {
        return SettingChangePlan {
            embedding_space_changed: false,
            dimension_changed: false,
            old_dim: 0,
            new_dim: 0,
            work: EmbeddingWork::Nothing,
            retry_failed,
        };
    }
    SettingChangePlan {
        embedding_space_changed: true,
        dimension_changed: old_dim != new_dim,
        old_dim,
        new_dim,
        work: if old_dim != new_dim {
            EmbeddingWork::RecreateIndex(new_dim)
        } else {
            EmbeddingWork::ReembedAll
        },
        retry_failed,
    }
}

/// What setting a value leads to, given the dimensions of the embeddings before and after it.
pub fn plan_set_setting(
    catalog: &SettingCatalog,
    current: &StrMap<String>,
    key: &str,
    value: &str,
    old_dim: usize,
    new_dim: usize,
) -> (r: SettingChangePlan)
    ensures
        ({
            let changes = value_changes(current@, key@, value@);
            let space = catalog.shapes_embeddings(key@) && changes;
            r == embedding_plan(space, old_dim, new_dim, is_retry_key(key@) && !space && changes)
        }),
{
    let changes = value_changed(current, key, value);
    let space = catalog.is_embedding_space_key(key) && changes;
    plan_embeddings(space, old_dim, new_dim, retries_failed(key) && !space && changes)
}

/// What clearing a database's own value leads to, given the settings and the dimensions before
/// and after it.
pub fn plan_clear_override(
    catalog: &SettingCatalog,
    before: &StrMap<String>,
    after: &StrMap<String>,
    key: &str,
    old_dim: usize,
    new_dim: usize,
) -> (r: SettingChangePlan)
    ensures
        r == embedding_plan(
            catalog.shapes_embeddings(key@) && row(before@, key@) != row(after@, key@),
            old_dim,
            new_dim,
            false,
        ),
{
    let changes = match (before.get(key), after.get(key)) {
        (Some(a), Some(b)) => !text_eq(a.as_str(), b.as_str()),
        (None, None) => false,
        _ => true,
    };
    let space = catalog.is_embedding_space_key(key) && changes;
    plan_embeddings(space, old_dim, new_dim, false)
}

/// The answer to a change of settings: what changed, how many atoms are queued for embedding and
/// how many failed ones are tried again. Nothing is queued or tried that was not planned.
pub fn setting_change_result(plan: &SettingChangePlan, queued: i32, retried: i32) -> (r:
    SettingChangeResult)
    ensures
        r == (SettingChangeResult {
            embedding_space_changed: plan.embedding_space_changed,
            dimension_changed: plan.dimension_changed,
            old_dim: plan.old_dim,
            new_dim: plan.new_dim,
            total_atom_count: if plan.work == EmbeddingWork::Nothing {
                0
            } else {
                queued
            },
            retried_failed_count: if plan.retry_failed {
                retried
            } else {
                0
            },
        }),
{
    SettingChangeResult {
        embedding_space_changed: plan.embedding_space_changed,
        dimension_changed: plan.dimension_changed,
        old_dim: plan.old_dim,
        new_dim: plan.new_dim,
        total_atom_count: if plan.work == EmbeddingWork::Nothing {
            0
        } else {
            queued
        },
        retried_failed_count: if plan.retry_failed {
            retried
        } else {
            0
        },
    }
}

/// The kind of a provider of models.
#[derive(Debug, Clone, Copy, PartialEq, Eq, Structural)]
pub enum ProviderType {
    OpenRouter,
    Ollama,
    OpenAICompat,
}

/// What a provider must have to be usable.
#[derive(Debug, Clone)]
pub struct ProviderAccess {
    pub provider_type: ProviderType,
    pub openrouter_api_key: Option<String>,
    pub ollama_host: String,
    pub openai_compat_base_url: String,
}

/// Whether the provider in use has what it must have: a key or an address that is not empty.
pub fn verify_provider_configured(config: &ProviderAccess) -> (r: bool)
    ensures
        r == match config.provider_type {
            ProviderType::OpenRouter => config.openrouter_api_key is Some
                && config.openrouter_api_key->0@.len() > 0,
            ProviderType::Ollama => config.ollama_host@.len() > 0,
            ProviderType::OpenAICompat => config.openai_compat_base_url@.len() > 0,
        },
{
    match config.provider_type {
        ProviderType::OpenRouter => match &config.openrouter_api_key {
            Some(k) => !k.as_str().is_empty(),
            None => false,
        },
        ProviderType::Ollama => !config.ollama_host.as_str().is_empty(),
        ProviderType::OpenAICompat => !config.openai_compat_base_url.as_str().is_empty(),
    }
}

/// The setting that holds what is known of the models.
pub const CAPABILITIES_SETTING: &'static str = "model_capabilities_cache";

/// What is answered when the record of the models cannot be read.
pub fn capabilities_unreadable(reason: &str) -> (e: AtomicCoreError)
    ensures
        e@ == ErrorView::Configuration("Failed to parse capabilities cache: "@ + reason@),
{
    AtomicCoreError::Configuration(glue("Failed to parse capabilities cache: ", reason))
}

/// What is answered when the record of the models cannot be written.
pub fn capabilities_unwritable(reason: &str) -> (e: AtomicCoreError)
    ensures
        e@ == ErrorView::Configuration("Failed to serialize capabilities cache: "@ + reason@),
{
    AtomicCoreError::Configuration(glue("Failed to serialize capabilities cache: ", reason))
}

/// A setting is workspace-only if and only if it stands in the list of those that are, and the
/// same holds of the settings on which the space of the embeddings depends.
pub proof fn law_settings_are_what_they_are_listed_as(
    catalog: &SettingCatalog,
    key: &str,
    shared: bool,
    shapes: bool,
)
    requires
        call_ensures(SettingCatalog::is_workspace_only, (catalog, key), shared),
        call_ensures(SettingCatalog::is_embedding_space_key, (catalog, key), shapes),
    ensures
        shared <==> exists|i: int|
            0 <= i < catalog.workspace_only@.len() && (#[trigger] catalog.workspace_only@[i])@
                == key@,
        shapes <==> exists|i: int|
            0 <= i < catalog.embedding_space@.len() && (#[trigger] catalog.embedding_space@[i])@
                == key@,
{
    lemma_listed(catalog.workspace_only@, key@);
    lemma_listed(catalog.embedding_space@, key@);
}

proof fn lemma_listed(list: Seq<String>, key: Seq<char>)
    ensures
        views(list).contains(key) <==> exists|i: int|
            0 <= i < list.len() && (#[trigger] list[i])@ == key,
{
    if views(list).contains(key) {
        let i = choose|i: int| 0 <= i < views(list).len() && views(list)[i] == key;
        assert(list[i]@ == key);
    }
    if exists|i: int| 0 <= i < list.len() && (#[trigger] list[i])@ == key {
        let i = choose|i: int| 0 <= i < list.len() && (#[trigger] list[i])@ == key;
        assert(views(list)[i] == key);
    }
}

/// Where there is a registry, a workspace-only setting has the value that the registry holds for
/// it. Any other setting has the value that the database holds for it, or else the registry's.
pub proof fn law_nearest_layer_decides(
    catalog: &SettingCatalog,
    registry: &StrMap<String>,
    database: &StrMap<String>,
    r: StrMap<SettingValue>,
    key: Seq<char>,
)
    requires
        call_ensures(get_settings_with_source, (catalog, Some(registry), database), r),
    ensures
        catalog.is_shared(key) && registry@.contains_key(key) ==> r@.contains_key(key)
            && r@[key].value@ == registry@[key]@ && r@[key].source == SettingSource::Workspace,
        !catalog.is_shared(key) && database@.contains_key(key) ==> r@.contains_key(key)
            && r@[key].value@ == database@[key]@ && r@[key].source == SettingSource::Override,
        !catalog.is_shared(key) && !database@.contains_key(key) && registry@.contains_key(key)
            ==> r@.contains_key(key) && r@[key].value@ == registry@[key]@ && r@[key].source
            == SettingSource::WorkspaceDefault,
        !registry@.contains_key(key) && (catalog.is_shared(key) || !database@.contains_key(key))
            ==> {
            &&& r@.contains_key(key) <==> catalog.defaults@.contains_key(key)
            &&& r@.contains_key(key) ==> r@[key].value@ == catalog.defaults@[key]@ && r@[key].source
                == SettingSource::BuiltinDefault
        },
{
    assert(setting_at(r@, key) == resolution(*catalog, Some(registry@), database@, key));
}

/// Without a registry a setting has the value that the database holds for it, or else the
/// built-in one, or none.
pub proof fn law_lone_databases_decide(
    catalog: &SettingCatalog,
    database: &StrMap<String>,
    r: StrMap<SettingValue>,
    key: Seq<char>,
)
    requires
        call_ensures(get_settings_with_source, (catalog, None, database), r),
    ensures
        database@.contains_key(key) ==> r@.contains_key(key) && r@[key].value@ == database@[key]@
            && r@[key].source == if catalog.is_shared(key) {
            SettingSource::Workspace
        } else {
            SettingSource::WorkspaceDefault
        },
        !database@.contains_key(key) ==> {
            &&& r@.contains_key(key) <==> catalog.defaults@.contains_key(key)
            &&& r@.contains_key(key) ==> r@[key].value@ == catalog.defaults@[key]@ && r@[key].source
                == SettingSource::BuiltinDefault
        },
{
    assert(setting_at(r@, key) == resolution(*catalog, None, database@, key));
}

/// Without their sources the settings are the same ones with the same values.
pub proof fn law_values_are_kept(
    resolved: &StrMap<SettingValue>,
    r: StrMap<String>,
    key: Seq<char>,
)
    requires
        call_ensures(get_settings, (resolved,), r),
    ensures
        r@.contains_key(key) <==> resolved@.contains_key(key),
        r@.contains_key(key) ==> r@[key]@ == resolved@[key].value@,
{
    assert(row(r@, key) == match setting_at(resolved@, key) {
        Some((v, _)) => Some(v),
        None => None,
    });
}

/// A setting is written to the registry if and only if there is one and the setting is
/// workspace-only or there is no second database. What is told before the databases are counted
/// holds whatever their number is.
pub proof fn law_settings_are_written_in_one_place(
    catalog: &SettingCatalog,
    has_registry: bool,
    databases: i64,
    key: &str,
    early: Option<SettingTarget>,
    r: SettingTarget,
)
    requires
        call_ensures(set_setting_target, (catalog, has_registry, key), early),
        call_ensures(set_setting, (catalog, has_registry, databases, key), r),
    ensures
        r == SettingTarget::Registry <==> has_registry && (catalog.is_shared(key@) || databases
            <= 1),
        early matches Some(t) ==> t == r,
        early is None <==> has_registry && !catalog.is_shared(key@),
{
}

/// Only a setting that is not workspace-only has a value of a database's own: such a one can be
/// read and cleared, and no other.
pub proof fn law_shared_settings_have_no_override(
    catalog: &SettingCatalog,
    database: &StrMap<String>,
    key: &str,
    cleared: Result<(), AtomicCoreError>,
    read: Option<String>,
)
    requires
        call_ensures(clear_override, (catalog, key), cleared),
        call_ensures(get_setting_override, (catalog, database, key), read),
    ensures
        cleared is Ok <==> !catalog.is_shared(key@),
        read is Some <==> !catalog.is_shared(key@) && database@.contains_key(key@),
        read matches Some(v) ==> v@ == database@[key@]@,
{
}

/// A value changes unless the setting has it already.
pub open spec fn is_another(current: Rows, key: Seq<char>, value: Seq<char>) -> bool {
    !current.contains_key(key) || current[key]@ != value
}

/// The embeddings are touched if and only if a setting that shapes them gets another value; then
/// either the dimension changes and the index is made anew with the new one, or it stays and every
/// atom is embedded again. Failed atoms are tried again only after a change that leaves the
/// embeddings alone, and only where it is a change of the provider's access or of its models.
pub proof fn law_changes_lead_to_what_they_need(
    catalog: &SettingCatalog,
    current: &StrMap<String>,
    key: &str,
    value: &str,
    old_dim: usize,
    new_dim: usize,
    r: SettingChangePlan,
)
    requires
        call_ensures(plan_set_setting, (catalog, current, key, value, old_dim, new_dim), r),
    ensures
        r.embedding_space_changed <==> catalog.shapes_embeddings(key@) && is_another(
            current@,
            key@,
            value@,
        ),
        r.dimension_changed <==> r.embedding_space_changed && old_dim != new_dim,
        r.embedding_space_changed ==> r.old_dim == old_dim && r.new_dim == new_dim,
        !r.embedding_space_changed ==> r.work == EmbeddingWork::Nothing && r.old_dim == 0
            && r.new_dim == 0,
        r.dimension_changed ==> r.work == EmbeddingWork::RecreateIndex(new_dim),
        r.embedding_space_changed && !r.dimension_changed ==> r.work == EmbeddingWork::ReembedAll,
        r.retry_failed ==> !r.embedding_space_changed && is_another(current@, key@, value@),
        is_another(current@, key@, value@) && !r.embedding_space_changed && (key@ == "provider"@
            || key@ == "embedding_model"@ || key@ == "ollama_embedding_model"@ || key@
            == "ollama_host"@ || key@ == "openai_compat_embedding_model"@ || key@
            == "openai_compat_base_url"@ || key@ == "openai_compat_api_key"@ || key@
            == "openrouter_api_key"@) ==> r.retry_failed,
        r.retry_failed ==> key@ == "provider"@ || key@ == "embedding_model"@ || key@
            == "ollama_embedding_model"@ || key@ == "ollama_host"@ || key@
            == "openai_compat_embedding_model"@ || key@ == "openai_compat_base_url"@ || key@
            == "openai_compat_api_key"@ || key@ == "openrouter_api_key"@,
{
}

/// Clearing a database's own value touches the embeddings if and only if the setting shapes them
/// and reads otherwise afterwards, and never has failed atoms tried again.
pub proof fn law_clearing_leads_to_what_it_needs(
    catalog: &SettingCatalog,
    before: &StrMap<String>,
    after: &StrMap<String>,
    key: &str,
    old_dim: usize,
    new_dim: usize,
    r: SettingChangePlan,
)
    requires
        call_ensures(plan_clear_override, (catalog, before, after, key, old_dim, new_dim), r),
    ensures
        !r.retry_failed,
        r.embedding_space_changed ==> catalog.shapes_embeddings(key@),
        catalog.shapes_embeddings(key@) ==> (!r.embedding_space_changed <==> (before@.contains_key(
            key@,
        ) <==> after@.contains_key(key@)) && (before@.contains_key(key@) ==> before@[key@]@
            == after@[key@]@)),
        r.dimension_changed <==> r.embedding_space_changed && old_dim != new_dim,
        r.embedding_space_changed ==> r.old_dim == old_dim && r.new_dim == new_dim,
        r.work == EmbeddingWork::Nothing <==> !r.embedding_space_changed,
        r.work == EmbeddingWork::ReembedAll <==> r.embedding_space_changed && old_dim == new_dim,
        r.dimension_changed ==> r.work == EmbeddingWork::RecreateIndex(new_dim),
{
}

/// What is answered to a change is what was planned, and counts only what was planned.
pub proof fn law_answers_tell_the_plan(
    plan: &SettingChangePlan,
    queued: i32,
    retried: i32,
    r: SettingChangeResult,
)
    requires
        call_ensures(setting_change_result, (plan, queued, retried), r),
    ensures
        r.embedding_space_changed == plan.embedding_space_changed,
        r.dimension_changed == plan.dimension_changed,
        r.old_dim == plan.old_dim,
        r.new_dim == plan.new_dim,
        plan.work == EmbeddingWork::Nothing ==> r.total_atom_count == 0,
        plan.work != EmbeddingWork::Nothing ==> r.total_atom_count == queued,
        !plan.retry_failed ==> r.retried_failed_count == 0,
        plan.retry_failed ==> r.retried_failed_count == retried,
{
}

/// The settings as they will be differ from the present ones in the one setting alone.
pub proof fn law_changes_touch_one_setting(
    current: &StrMap<String>,
    key: &str,
    value: &str,
    r: StrMap<String>,
    other: Seq<char>,
)
    requires
        call_ensures(changed_settings, (current, key, value), r),
    ensures
        r@.contains_key(key@) && r@[key@]@ == value@,
        other != key@ ==> (r@.contains_key(other) <==> current@.contains_key(other)),
        other != key@ && r@.contains_key(other) ==> r@[other]@ == current@[other]@,
{
    assert(row(r@, key@) == Some(value@));
    if other != key@ {
        assert(row(r@, other) == row(current@, other));
    }
}

/// A provider is usable as soon as the one thing that its kind needs is given, whatever the other
/// kinds lack.
pub proof fn law_providers_need_one_thing(config: &ProviderAccess, r: bool)
    requires
        call_ensures(verify_provider_configured, (config,), r),
    ensures
        config.provider_type == ProviderType::OpenRouter ==> (!r <==> (config.openrouter_api_key
            is None || config.openrouter_api_key->0@.len() == 0)),
        config.provider_type == ProviderType::Ollama ==> (!r <==> config.ollama_host@.len() == 0),
        config.provider_type == ProviderType::OpenAICompat ==> (!r
            <==> config.openai_compat_base_url@.len() == 0),
{
}

} // verus!
