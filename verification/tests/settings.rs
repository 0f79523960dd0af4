use atomic_core::error::AtomicCoreError;
use atomic_core::settings::{
    capabilities_unreadable, capabilities_unwritable, changed_settings, clear_override,
    get_setting_override, get_settings, get_settings_with_source, plan_clear_override,
    plan_set_setting, set_setting, set_setting_target, setting_change_result, value_changed,
    verify_provider_configured, EmbeddingWork, ProviderAccess, ProviderType, SettingCatalog,
    SettingSource, SettingTarget, CAPABILITIES_SETTING,
};
use atomic_core::strmap::StrMap;

fn rows(list: &[(&str, &str)]) -> StrMap<String> {
    let mut m = StrMap::new();
    for (k, v) in list {
        m.insert(k.to_string(), v.to_string());
    }
    m
}

fn catalog() -> SettingCatalog {
    SettingCatalog {
        defaults: rows(&[
            ("theme", "obsidian"),
            ("chat_model", "builtin/chat"),
            ("tagging_model", "builtin/tag"),
            ("embedding_model", "openai/text-embedding-3-small"),
        ]),
        workspace_only: vec!["theme".to_string(), "openrouter_api_key".to_string()],
        embedding_space: vec![
            "provider".to_string(),
            "embedding_model".to_string(),
            "openai_compat_embedding_dimension".to_string(),
        ],
    }
}

/// A workspace: a registry, and the databases that share it.
struct Workspace {
    catalog: SettingCatalog,
    registry: StrMap<String>,
    databases: Vec<StrMap<String>>,
}

fn make_workspace(extra_dbs: usize) -> Workspace {
    Workspace {
        catalog: catalog(),
        registry: StrMap::new(),
        databases: (0..extra_dbs + 1).map(|_| StrMap::new()).collect(),
    }
}

impl Workspace {
    fn write(&mut self, db: usize, key: &str, value: &str) {
        let n = self.databases.len() as i64;
        match set_setting(&self.catalog, true, n, key) {
            SettingTarget::Registry => self.registry.insert(key.to_string(), value.to_string()),
            SettingTarget::Database => {
                self.databases[db].insert(key.to_string(), value.to_string())
            }
        }
    }

    fn read(&self, db: usize) -> StrMap<String> {
        get_settings(&get_settings_with_source(
            &self.catalog,
            Some(&self.registry),
            &self.databases[db],
        ))
    }

    fn value(&self, db: usize, key: &str) -> Option<String> {
        self.read(db).get(key).cloned()
    }

    fn source(&self, db: usize, key: &str) -> SettingSource {
        let all =
            get_settings_with_source(&self.catalog, Some(&self.registry), &self.databases[db]);
        all.get(key).unwrap().source
    }
}

fn some(s: &str) -> Option<String> {
    Some(s.to_string())
}

#[test]
fn test_workspace_only_writes_always_hit_registry() {
    let mut w = make_workspace(2);
    w.write(0, "theme", "dracula");
    for db in 0..3 {
        assert_eq!(w.value(db, "theme"), some("dracula"));
    }
    assert_eq!(w.registry.get("theme").unwrap(), "dracula");
}

#[test]
fn test_overridable_with_n1_writes_to_registry() {
    let mut w = make_workspace(0);
    w.write(0, "chat_model", "openai/gpt-4o");
    assert!(!w.databases[0].contains_key("chat_model"));
    assert_eq!(w.registry.get("chat_model").unwrap(), "openai/gpt-4o");
    // A database that comes later inherits it.
    w.databases.push(StrMap::new());
    assert_eq!(w.value(1, "chat_model"), some("openai/gpt-4o"));
}

#[test]
fn test_overridable_with_n2_writes_per_db() {
    let mut w = make_workspace(1);
    w.registry
        .insert("chat_model".to_string(), "workspace/default".to_string());
    w.write(0, "chat_model", "override/for-first");
    assert_eq!(w.value(0, "chat_model"), some("override/for-first"));
    assert_eq!(w.value(1, "chat_model"), some("workspace/default"));
}

#[test]
fn test_clear_override_falls_back_to_default() {
    let mut w = make_workspace(1);
    w.registry
        .insert("chat_model".to_string(), "workspace/default".to_string());
    w.write(0, "chat_model", "override/for-first");
    assert!(clear_override(&w.catalog, "chat_model").is_ok());
    w.databases[0].remove("chat_model");
    assert_eq!(w.value(0, "chat_model"), some("workspace/default"));
    // Without one, to what is built in.
    w.registry.remove("chat_model");
    assert_eq!(w.value(0, "chat_model"), some("builtin/chat"));
    assert_eq!(w.source(0, "chat_model"), SettingSource::BuiltinDefault);
}

#[test]
fn test_clear_override_rejects_workspace_only() {
    match clear_override(&catalog(), "theme") {
        Err(AtomicCoreError::Validation(m)) => assert_eq!(
            m,
            "Setting 'theme' is workspace-only and has no per-database override"
        ),
        _ => panic!("Wrong result"),
    }
}

#[test]
fn test_get_settings_with_source_labels_each_layer() {
    let mut w = make_workspace(1);
    w.registry
        .insert("chat_model".to_string(), "workspace/default".to_string());
    w.registry
        .insert("tagging_model".to_string(), "workspace/tag".to_string());
    w.write(0, "tagging_model", "override/tag");
    w.registry.insert("theme".to_string(), "dracula".to_string());

    assert_eq!(w.source(0, "theme"), SettingSource::Workspace);
    assert_eq!(w.value(0, "theme"), some("dracula"));
    assert_eq!(w.source(0, "chat_model"), SettingSource::WorkspaceDefault);
    assert_eq!(w.value(0, "chat_model"), some("workspace/default"));
    assert_eq!(w.source(0, "tagging_model"), SettingSource::Override);
    assert_eq!(w.value(0, "tagging_model"), some("override/tag"));
    assert_eq!(w.source(1, "tagging_model"), SettingSource::WorkspaceDefault);
}

#[test]
fn test_per_db_row_for_workspace_only_key_is_ignored() {
    let mut w = make_workspace(0);
    w.registry
        .insert("theme".to_string(), "registry-value".to_string());
    w.databases[0].insert("theme".to_string(), "stale-per-db-value".to_string());
    assert_eq!(w.value(0, "theme"), some("registry-value"));
    assert_eq!(get_setting_override(&w.catalog, &w.databases[0], "theme"), None);
}

#[test]
fn test_clear_embedding_dimension_override_recreates_vector_index() {
    let key = "openai_compat_embedding_dimension";
    let mut w = make_workspace(1);
    w.registry.insert("provider".to_string(), "openai_compat".to_string());
    w.registry.insert(key.to_string(), "1536".to_string());
    let plan = plan_set_setting(&w.catalog, &w.read(0), key, "768", 1536, 768);
    assert_eq!(plan.work, EmbeddingWork::RecreateIndex(768));
    w.write(0, key, "768");
    let before = w.read(0);
    w.databases[0].remove(key);
    let plan = plan_clear_override(&w.catalog, &before, &w.read(0), key, 768, 1536);
    assert_eq!(plan.work, EmbeddingWork::RecreateIndex(1536));
    let result = setting_change_result(&plan, 4, 9);
    assert!(result.embedding_space_changed);
    assert!(result.dimension_changed);
    assert_eq!(result.old_dim, 768);
    assert_eq!(result.new_dim, 1536);
    assert_eq!((result.total_atom_count, result.retried_failed_count), (4, 0));
}

#[test]
fn test_clear_embedding_model_override_marks_space_changed() {
    let mut w = make_workspace(1);
    w.registry.insert(
        "embedding_model".to_string(),
        "openai/text-embedding-3-small".to_string(),
    );
    w.write(0, "embedding_model", "custom/same-dimension");
    let before = w.read(0);
    w.databases[0].remove("embedding_model");
    let plan =
        plan_clear_override(&w.catalog, &before, &w.read(0), "embedding_model", 1536, 1536);
    assert!(plan.embedding_space_changed);
    assert!(!plan.dimension_changed);
    assert_eq!(plan.old_dim, 1536);
    assert_eq!(plan.new_dim, 1536);
    assert_eq!(plan.work, EmbeddingWork::ReembedAll);
}

#[test]
fn without_registry_the_database_is_the_workspace() {
    let c = catalog();
    let db = rows(&[("theme", "light"), ("chat_model", "mine"), ("extra", "x")]);
    let all = get_settings_with_source(&c, None, &db);
    assert_eq!(all.get("theme").unwrap().source, SettingSource::Workspace);
    assert_eq!(all.get("chat_model").unwrap().source, SettingSource::WorkspaceDefault);
    assert_eq!(all.get("extra").unwrap().value, "x");
    assert_eq!(all.get("tagging_model").unwrap().source, SettingSource::BuiltinDefault);
    assert_eq!(all.len(), 5);
    assert_eq!(set_setting_target(&c, false, "theme"), Some(SettingTarget::Database));
    assert_eq!(set_setting(&c, false, 0, "chat_model"), SettingTarget::Database);
}

#[test]
fn databases_are_counted_only_for_overridable_settings() {
    let c = catalog();
    assert_eq!(set_setting_target(&c, true, "theme"), Some(SettingTarget::Registry));
    assert_eq!(set_setting_target(&c, true, "chat_model"), None);
    assert_eq!(set_setting(&c, true, 1, "chat_model"), SettingTarget::Registry);
    assert_eq!(set_setting(&c, true, 0, "chat_model"), SettingTarget::Registry);
    assert_eq!(set_setting(&c, true, 2, "chat_model"), SettingTarget::Database);
    assert_eq!(
        get_setting_override(&c, &rows(&[("chat_model", "mine")]), "chat_model"),
        some("mine")
    );
    assert_eq!(get_setting_override(&c, &rows(&[]), "chat_model"), None);
}

#[test]
fn own_row_outlives_a_write_to_the_registry() {
    // One database, with a row of its own from before.
    let mut w = make_workspace(0);
    w.databases[0].insert("chat_model".to_string(), "old".to_string());
    w.write(0, "chat_model", "new");
    assert_eq!(w.value(0, "chat_model"), some("old"));
}

#[test]
fn unchanged_value_changes_nothing() {
    let c = catalog();
    let current = rows(&[("embedding_model", "m"), ("openrouter_api_key", "k")]);
    assert!(!value_changed(&current, "embedding_model", "m"));
    assert!(value_changed(&current, "embedding_model", "n"));
    assert!(value_changed(&current, "provider", "ollama"));
    let plan = plan_set_setting(&c, &current, "embedding_model", "m", 7, 8);
    assert_eq!(plan.work, EmbeddingWork::Nothing);
    assert!(!plan.retry_failed && !plan.embedding_space_changed);
    assert_eq!((plan.old_dim, plan.new_dim), (0, 0));
}

#[test]
fn failed_atoms_are_tried_again_after_a_new_key() {
    let c = catalog();
    let current = rows(&[("openrouter_api_key", "k")]);
    let plan = plan_set_setting(&c, &current, "openrouter_api_key", "k2", 0, 0);
    assert!(plan.retry_failed);
    assert_eq!(setting_change_result(&plan, 5, 3).retried_failed_count, 3);
    assert_eq!(setting_change_result(&plan, 5, 3).total_atom_count, 0);
    // Not when all are embedded anew anyway, nor after any other setting.
    assert!(!plan_set_setting(&c, &current, "provider", "ollama", 1, 1).retry_failed);
    assert!(!plan_set_setting(&c, &current, "theme", "dark", 0, 0).retry_failed);
    for key in ["ollama_embedding_model", "ollama_host", "openai_compat_embedding_model",
        "openai_compat_base_url", "openai_compat_api_key"]
    {
        assert!(plan_set_setting(&c, &current, key, "v", 0, 0).retry_failed, "{key}");
    }
}

#[test]
fn changed_settings_replace_one_value() {
    let current = rows(&[("a", "1"), ("b", "2")]);
    let changed = changed_settings(&current, "b", "3");
    assert_eq!(changed.get("a").unwrap(), "1");
    assert_eq!(changed.get("b").unwrap(), "3");
    assert_eq!(current.get("b").unwrap(), "2");
    assert_eq!(changed_settings(&current, "c", "4").len(), 3);
}

#[test]
fn provider_needs_its_key_or_address() {
    let access = |provider_type: ProviderType, key: Option<&str>, host: &str, url: &str| {
        verify_provider_configured(&ProviderAccess {
            provider_type,
            openrouter_api_key: key.map(|k| k.to_string()),
            ollama_host: host.to_string(),
            openai_compat_base_url: url.to_string(),
        })
    };
    assert!(access(ProviderType::OpenRouter, Some("k"), "", ""));
    assert!(!access(ProviderType::OpenRouter, Some(""), "h", "u"));
    assert!(!access(ProviderType::OpenRouter, None, "h", "u"));
    assert!(access(ProviderType::Ollama, None, "h", ""));
    assert!(!access(ProviderType::Ollama, Some("k"), "", "u"));
    assert!(access(ProviderType::OpenAICompat, None, "", "u"));
    assert!(!access(ProviderType::OpenAICompat, Some("k"), "h", ""));
}

#[test]
fn model_record_errors_are_configuration_errors() {
    assert_eq!(CAPABILITIES_SETTING, "model_capabilities_cache");
    match capabilities_unreadable("eof") {
        AtomicCoreError::Configuration(m) => {
            assert_eq!(m, "Failed to parse capabilities cache: eof")
        }
        _ => panic!("Wrong error"),
    }
    match capabilities_unwritable("nan") {
        AtomicCoreError::Configuration(m) => {
            assert_eq!(m, "Failed to serialize capabilities cache: nan")
        }
        _ => panic!("Wrong error"),
    }
}
