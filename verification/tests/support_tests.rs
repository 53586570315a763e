use config_history::checksum::{checksum_of, hex_of_u64};
use config_history::definitions::{ConfigContent, ConfigFormat, SoftwareCategory};
use config_history::errors::StorageError;
use config_history::index::{split_for_retention, VersionIndex, VersionMetadata};
use config_history::preferences::{PreferencesStorage, SoftwarePreferences};
use config_history::restore::{backup_note, plan_restore, restore_note, RestoreAction};
use config_history::store_model::{EntityStore, VersionBlob};
use config_history::version_storage::VersionStorage;

#[test]
fn checksum_exact_values() {
    assert_eq!(checksum_of(""), "cbf29ce484222325");
    assert_eq!(checksum_of("a"), "af63dc4c8601ec8c");
    assert_eq!(checksum_of("export A=1"), "664347e703f500aa");
    assert_eq!(checksum_of("export A=2"), "664346e703f4fef7");
    assert_eq!(
        VersionStorage::calculate_checksum("export A=1"),
        "664347e703f500aa"
    );
}

#[test]
fn checksum_is_deterministic_and_discriminating() {
    assert_eq!(checksum_of("hello"), checksum_of("hello"));
    assert_ne!(checksum_of("hello"), checksum_of("hello "));
    assert_eq!(checksum_of("hello").len(), 16);
}

#[test]
fn hex_rendering_is_fixed_width() {
    assert_eq!(hex_of_u64(0), "0000000000000000");
    assert_eq!(hex_of_u64(255), "00000000000000ff");
    assert_eq!(hex_of_u64(0x123456789abcdef0), "123456789abcdef0");
    assert_eq!(hex_of_u64(u64::MAX), "ffffffffffffffff");
}

fn meta(id: &str, auto: bool) -> VersionMetadata {
    VersionMetadata {
        id: id.to_string(),
        software_id: "zsh".to_string(),
        timestamp: 0,
        note: None,
        is_auto_save: auto,
        checksum: checksum_of(id),
        file_name: format!("{}.json", id),
    }
}

#[test]
fn retention_split_keeps_recent_autos_and_all_manuals() {
    let records = vec![
        meta("a1", true),
        meta("m1", false),
        meta("a2", true),
        meta("a3", true),
        meta("a4", true),
    ];
    let (kept, evicted) = split_for_retention(records, 2);
    let kept_ids: Vec<&str> = kept.iter().map(|m| m.id.as_str()).collect();
    let evicted_ids: Vec<&str> = evicted.iter().map(|m| m.id.as_str()).collect();
    assert_eq!(kept_ids, vec!["m1", "a3", "a4"]);
    assert_eq!(evicted_ids, vec!["a1", "a2"]);
}

#[test]
fn retention_split_under_bound_is_a_no_op() {
    let records = vec![meta("a1", true), meta("m1", false)];
    let (kept, evicted) = split_for_retention(records, 5);
    assert_eq!(kept.len(), 2);
    assert!(evicted.is_empty());
}

#[test]
fn index_default_is_empty_with_bound_twenty() {
    let index = VersionIndex::default();
    assert!(index.versions.is_empty());
    assert_eq!(index.max_versions, 20);
}

fn entity_with(records: Vec<VersionMetadata>, blobs: Vec<VersionBlob>) -> EntityStore {
    EntityStore {
        software_id: "zsh".to_string(),
        index: VersionIndex {
            versions: records,
            max_versions: 20,
        },
        blobs,
    }
}

fn blob_for(id: &str, content: &str) -> VersionBlob {
    VersionBlob {
        file_name: format!("{}.json", id),
        content: content.to_string(),
        parsed_content: None,
    }
}

#[test]
fn from_parts_accepts_a_well_formed_store() {
    let entity = entity_with(vec![meta("a1", true)], vec![blob_for("a1", "x")]);
    let store = VersionStorage::from_parts(vec![entity]).unwrap();
    let read = store.get_history("zsh", None).unwrap();
    assert_eq!(read.len(), 1);
    assert_eq!(read[0].content, "x");
}

#[test]
fn from_parts_reports_missing_blob_as_corruption() {
    let entity = entity_with(vec![meta("a1", true)], vec![]);
    assert!(matches!(
        VersionStorage::from_parts(vec![entity]),
        Err(StorageError::Corruption)
    ));
}

#[test]
fn from_parts_reports_duplicate_ids_as_malformed() {
    let entity = entity_with(
        vec![meta("a1", true), meta("a1", false)],
        vec![blob_for("a1", "x")],
    );
    assert!(matches!(
        VersionStorage::from_parts(vec![entity]),
        Err(StorageError::Parse)
    ));
}

#[test]
fn preferences_default_when_absent() {
    let prefs = PreferencesStorage::new();
    let p = prefs.get_preferences("zsh").unwrap();
    assert_eq!(p.software_id, "zsh");
    assert_eq!(p.preferred_editor, "form");
    assert!(!p.show_advanced);
    assert!(p.auto_save);
    assert!(p.auto_backup);
    assert_eq!(p.backup_count, 20);
}

#[test]
fn preferences_save_then_get() {
    let mut prefs = PreferencesStorage::new();
    let record = SoftwarePreferences {
        software_id: "vim".to_string(),
        preferred_editor: "source".to_string(),
        show_advanced: true,
        auto_save: false,
        auto_backup: true,
        backup_count: 3,
    };
    prefs.save_preferences(record).unwrap();
    let p = prefs.get_preferences("vim").unwrap();
    assert_eq!(p.preferred_editor, "source");
    assert!(p.show_advanced);
    assert!(!p.auto_save);
    assert_eq!(p.backup_count, 3);
    // saving again replaces rather than appends
    let updated = SoftwarePreferences {
        preferred_editor: "form".to_string(),
        ..p
    };
    prefs.save_preferences(updated).unwrap();
    assert_eq!(prefs.records().len(), 1);
    assert_eq!(prefs.get_preferences("vim").unwrap().preferred_editor, "form");
}

#[test]
fn preferences_default_record() {
    let d = SoftwarePreferences::default();
    assert_eq!(d.software_id, "");
    assert_eq!(d.preferred_editor, "form");
    assert_eq!(d.backup_count, 20);
}

#[test]
fn restore_notes_and_plan() {
    assert_eq!(restore_note("abc-123"), "Restored from version abc-123");
    assert_eq!(backup_note(None), "Manual backup");
    assert_eq!(backup_note(Some("mine".to_string())), "mine");

    let mut store = VersionStorage::new();
    let tree = serde_json::Value::Bool(true);
    let with_tree = store
        .save_version("zsh", "raw", Some(tree.clone()), None, false)
        .unwrap();
    match plan_restore(&with_tree) {
        RestoreAction::WriteStructured(v) => assert_eq!(v, tree),
        RestoreAction::WriteRaw(_) => panic!("expected the structured write"),
    }
    let without_tree = store
        .save_version("zsh", "plain text", None, None, false)
        .unwrap();
    match plan_restore(&without_tree) {
        RestoreAction::WriteStructured(_) => panic!("expected the raw write"),
        RestoreAction::WriteRaw(c) => assert_eq!(c, "plain text"),
    }
}

#[test]
fn restore_is_a_manual_save() {
    // restoring saves again manually, so the restore point survives
    // later automatic cleanup
    let mut store = VersionStorage::new();
    store.set_max_versions("zsh", 1).unwrap();
    let old = store
        .save_version("zsh", "export A=1", None, None, true)
        .unwrap();
    store
        .save_version("zsh", "export A=2", None, None, true)
        .unwrap();
    let fetched = store.get_version("zsh", &old.id);
    assert!(fetched.is_err());
    // the restore flow: fetch (here the latest), write it out, save manually
    let latest = store.get_history("zsh", Some(1)).unwrap().remove(0);
    let note = restore_note(&latest.id);
    let restored = store
        .save_version("zsh", &latest.content, None, Some(note.clone()), false)
        .unwrap();
    for i in 0..3 {
        let content = format!("auto {}", i);
        store
            .save_version("zsh", &content, None, None, true)
            .unwrap();
    }
    let still_there = store.get_version("zsh", &restored.id).unwrap();
    assert_eq!(still_there.note, Some(note));
}

#[test]
fn error_labels_are_stable() {
    assert_eq!(StorageError::NotFound.label(), "not found");
    assert_eq!(StorageError::Io.label(), "storage failure");
    assert_eq!(StorageError::Parse.label(), "malformed record");
    assert_eq!(StorageError::Corruption.label(), "index corruption");
}

#[test]
fn definitions_are_plain_data() {
    let c = ConfigContent::new("setting = 1\n".to_string());
    assert_eq!(c.content, "setting = 1\n");
    assert_eq!(SoftwareCategory::Shell, SoftwareCategory::Shell);
    assert_ne!(ConfigFormat::Plain, ConfigFormat::Toml);
}
