use config_history::errors::StorageError;
use config_history::manager::VersionManager;
use config_history::version_storage::VersionStorage;

fn contents(store: &VersionStorage, entity: &str) -> Vec<String> {
    store
        .get_history(entity, None)
        .unwrap()
        .into_iter()
        .map(|v| v.content)
        .collect()
}

#[test]
fn idempotent_auto_save() {
    let mut store = VersionStorage::new();
    let first = store
        .save_version("zsh", "export A=1", None, None, true)
        .unwrap();
    let second = store
        .save_version("zsh", "export A=1", None, None, true)
        .unwrap();
    assert_eq!(second.id, first.id);
    assert_eq!(second.timestamp, first.timestamp);
    let history = store.get_history("zsh", None).unwrap();
    assert_eq!(history.len(), 1);
}

#[test]
fn manual_save_always_appends() {
    let mut store = VersionStorage::new();
    let first = store
        .save_version("zsh", "export A=1", None, None, false)
        .unwrap();
    let second = store
        .save_version("zsh", "export A=1", None, None, false)
        .unwrap();
    assert_ne!(second.id, first.id);
    let history = store.get_history("zsh", None).unwrap();
    assert_eq!(history.len(), 2);
}

#[test]
fn retention_bound_keeps_three_most_recent() {
    let mut store = VersionStorage::new();
    store.set_max_versions("zsh", 3).unwrap();
    for i in 1..=5 {
        let content = format!("export A={}", i);
        store
            .save_version("zsh", &content, None, None, true)
            .unwrap();
    }
    let history = store.get_history("zsh", None).unwrap();
    assert_eq!(history.len(), 3);
    let texts: Vec<String> = history.into_iter().map(|v| v.content).collect();
    assert_eq!(texts, vec!["export A=5", "export A=4", "export A=3"]);
}

#[test]
fn manual_saves_survive_eviction() {
    let mut store = VersionStorage::new();
    store.set_max_versions("zsh", 1).unwrap();
    store
        .save_version("zsh", "manual keep", None, Some("edit".to_string()), false)
        .unwrap();
    store
        .save_version("zsh", "auto 1", None, None, true)
        .unwrap();
    store
        .save_version("zsh", "auto 2", None, None, true)
        .unwrap();
    store
        .save_version("zsh", "auto 3", None, None, true)
        .unwrap();
    let texts = contents(&store, "zsh");
    assert_eq!(texts, vec!["auto 3", "manual keep"]);
}

#[test]
fn round_trip_content_and_parsed() {
    let mut store = VersionStorage::new();
    let mut map = serde_json::Map::new();
    map.insert(
        "theme".to_string(),
        serde_json::Value::String("robbyrussell".to_string()),
    );
    let parsed = serde_json::Value::Object(map);
    let saved = store
        .save_version(
            "zsh",
            "ZSH_THEME=robbyrussell\n",
            Some(parsed.clone()),
            Some("with tree".to_string()),
            false,
        )
        .unwrap();
    let read = store.get_version("zsh", &saved.id).unwrap();
    assert_eq!(read.content, "ZSH_THEME=robbyrussell\n");
    assert_eq!(read.parsed_content, Some(parsed));
    assert_eq!(read.id, saved.id);
    assert_eq!(read.timestamp, saved.timestamp);
    assert_eq!(read.note, Some("with tree".to_string()));
    assert!(!read.is_auto_save);
    assert_eq!(read.checksum, saved.checksum);
}

#[test]
fn delete_is_idempotent() {
    let mut store = VersionStorage::new();
    let saved = store
        .save_version("zsh", "export A=1", None, None, false)
        .unwrap();
    store.delete_version("zsh", &saved.id).unwrap();
    assert!(matches!(
        store.get_version("zsh", &saved.id),
        Err(StorageError::NotFound)
    ));
    // deleting again, and deleting a never-existing id, both succeed
    store.delete_version("zsh", &saved.id).unwrap();
    store.delete_version("zsh", "never-existed").unwrap();
    assert!(matches!(
        store.get_version("zsh", &saved.id),
        Err(StorageError::NotFound)
    ));
}

#[test]
fn zsh_scenario() {
    let mut store = VersionStorage::new();
    let s1 = store
        .save_version("zsh", "export A=1", None, None, true)
        .unwrap();
    let again = store
        .save_version("zsh", "export A=1", None, None, true)
        .unwrap();
    assert_eq!(again.id, s1.id);
    let s2 = store
        .save_version("zsh", "export A=2", None, Some("edit".to_string()), false)
        .unwrap();
    assert_ne!(s2.id, s1.id);
    let history = store.get_history("zsh", None).unwrap();
    assert_eq!(history.len(), 2);
    assert_eq!(history[0].id, s2.id);
    assert_eq!(history[0].content, "export A=2");
    assert_eq!(history[0].note, Some("edit".to_string()));
    assert_eq!(history[1].id, s1.id);
    assert_eq!(history[1].content, "export A=1");
}

#[test]
fn history_limit_takes_most_recent() {
    let mut store = VersionStorage::new();
    for i in 1..=4 {
        let content = format!("v{}", i);
        store
            .save_version("zsh", &content, None, None, false)
            .unwrap();
    }
    let texts: Vec<String> = store
        .get_history("zsh", Some(2))
        .unwrap()
        .into_iter()
        .map(|v| v.content)
        .collect();
    assert_eq!(texts, vec!["v4", "v3"]);
    let all = store.get_history("zsh", Some(10)).unwrap();
    assert_eq!(all.len(), 4);
    let none = store.get_history("vim", None).unwrap();
    assert!(none.is_empty());
}

#[test]
fn save_version_at_is_deterministic() {
    let mut store = VersionStorage::new();
    let saved = store
        .save_version_at("zsh", "export A=1", None, None, false, "id-1", 7)
        .unwrap();
    assert_eq!(saved.id, "id-1");
    assert_eq!(saved.timestamp, 7);
    assert_eq!(
        saved.checksum.as_deref(),
        Some(VersionStorage::calculate_checksum("export A=1").as_str())
    );
    // a second save under the same identifier is refused and changes nothing
    let clash = store.save_version_at("zsh", "export A=2", None, None, false, "id-1", 8);
    assert!(matches!(clash, Err(StorageError::Io)));
    let history = store.get_history("zsh", None).unwrap();
    assert_eq!(history.len(), 1);
    assert_eq!(history[0].content, "export A=1");
}

#[test]
fn max_versions_defaults_and_updates() {
    let mut store = VersionStorage::new();
    assert_eq!(store.get_max_versions("zsh").unwrap(), 20);
    store.set_max_versions("zsh", 5).unwrap();
    assert_eq!(store.get_max_versions("zsh").unwrap(), 5);
    assert_eq!(store.get_max_versions("vim").unwrap(), 20);
}

#[test]
fn lowering_bound_evicts_immediately() {
    let mut store = VersionStorage::new();
    for i in 1..=4 {
        let content = format!("auto {}", i);
        store
            .save_version("zsh", &content, None, None, true)
            .unwrap();
    }
    store
        .save_version("zsh", "manual", None, None, false)
        .unwrap();
    store.set_max_versions("zsh", 2).unwrap();
    let texts = contents(&store, "zsh");
    assert_eq!(texts, vec!["manual", "auto 4", "auto 3"]);
}

#[test]
fn entities_are_partitioned() {
    let mut store = VersionStorage::new();
    let a = store
        .save_version("zsh", "zsh content", None, None, false)
        .unwrap();
    store
        .save_version("vim", "vim content", None, None, false)
        .unwrap();
    assert!(matches!(
        store.get_version("vim", &a.id),
        Err(StorageError::NotFound)
    ));
    assert_eq!(contents(&store, "zsh"), vec!["zsh content"]);
    assert_eq!(contents(&store, "vim"), vec!["vim content"]);
    // deleting in one entity leaves the other alone
    store.delete_version("zsh", &a.id).unwrap();
    assert_eq!(contents(&store, "vim"), vec!["vim content"]);
}

#[test]
fn manager_delegates_to_store() {
    let mut store = VersionStorage::new();
    let saved = VersionManager::save_version(
        &mut store,
        "git",
        "[user]\nname = someone\n",
        None,
        Some("initial".to_string()),
        false,
    )
    .unwrap();
    let read = VersionManager::get_version(&store, "git", &saved.id).unwrap();
    assert_eq!(read.content, "[user]\nname = someone\n");
    let history = VersionManager::get_history(&store, "git", None).unwrap();
    assert_eq!(history.len(), 1);
    VersionManager::set_max_versions(&mut store, "git", 9).unwrap();
    assert_eq!(VersionManager::get_max_versions(&store, "git").unwrap(), 9);
    VersionManager::delete_version(&mut store, "git", &saved.id).unwrap();
    assert!(matches!(
        VersionManager::get_version(&store, "git", &saved.id),
        Err(StorageError::NotFound)
    ));
}

#[test]
fn dedup_echoes_caller_parsed_content() {
    let mut store = VersionStorage::new();
    store
        .save_version("zsh", "export A=1", None, None, true)
        .unwrap();
    let tree = serde_json::Value::String("fresh".to_string());
    let second = store
        .save_version("zsh", "export A=1", Some(tree.clone()), None, true)
        .unwrap();
    // the no-op save keeps identity but echoes the caller's parsed content
    assert_eq!(second.parsed_content, Some(tree));
    // the stored blob still carries what the first save wrote
    let read = store.get_version("zsh", &second.id).unwrap();
    assert_eq!(read.parsed_content, None);
}

#[test]
fn zero_bound_evicts_the_new_auto_save() {
    let mut store = VersionStorage::new();
    store.set_max_versions("zsh", 0).unwrap();
    let saved = store
        .save_version("zsh", "gone at once", None, None, true)
        .unwrap();
    assert!(store.get_history("zsh", None).unwrap().is_empty());
    assert!(matches!(
        store.get_version("zsh", &saved.id),
        Err(StorageError::NotFound)
    ));
}

#[test]
fn empty_content_round_trips() {
    let mut store = VersionStorage::new();
    let saved = store.save_version("zsh", "", None, None, false).unwrap();
    let read = store.get_version("zsh", &saved.id).unwrap();
    assert_eq!(read.content, "");
    assert_eq!(read.checksum.as_deref(), Some("cbf29ce484222325"));
}

#[test]
fn history_limit_zero_is_empty() {
    let mut store = VersionStorage::new();
    store
        .save_version("zsh", "export A=1", None, None, false)
        .unwrap();
    assert!(store.get_history("zsh", Some(0)).unwrap().is_empty());
}
