use ovpnd::config::{ConfigEntry, ConfigError, ConfigIndex, ConfigManager};

fn manager() -> ConfigManager {
    ConfigManager { index: ConfigIndex::empty() }
}

#[test]
fn import_registers_and_refuses_duplicates() {
    let mut mgr = manager();
    let e = mgr.import_entry("foo".to_string()).expect("first import");
    assert_eq!(e.name, "foo");
    assert_eq!(mgr.index.entries.len(), 1);
    let dup = mgr.import_entry("foo".to_string());
    assert_eq!(dup.unwrap_err(), ConfigError::DuplicateName);
    assert_eq!(mgr.index.entries.len(), 1);
}

#[test]
fn get_by_name_finds_only_what_exists() {
    let mut mgr = manager();
    mgr.import_entry("foo".to_string()).expect("import");
    mgr.import_entry("bar".to_string()).expect("import");
    let found = mgr.get_by_name(&"bar".to_string()).expect("found");
    assert_eq!(found.name, "bar");
    assert!(mgr.get_by_name(&"baz".to_string()).is_none());
}

#[test]
fn delete_removes_exactly_the_named_entry() {
    let mut mgr = manager();
    mgr.import_entry("foo".to_string()).expect("import");
    mgr.import_entry("bar".to_string()).expect("import");
    let removed = mgr.delete_entry(&"foo".to_string()).expect("delete");
    assert_eq!(removed.name, "foo");
    assert_eq!(mgr.index.entries.len(), 1);
    assert_eq!(mgr.index.entries[0].name, "bar");
    let missing = mgr.delete_entry(&"foo".to_string());
    assert_eq!(missing.unwrap_err(), ConfigError::NotFound);
}

#[test]
fn config_path_is_under_the_configs_dir() {
    let entry = ConfigEntry { name: "foo".to_string(), guid: "abc-123".to_string() };
    assert_eq!(
        ConfigManager::get_config_path(&entry),
        "/etc/ovpnd/configs/abc-123.conf"
    );
}

#[test]
fn error_messages_are_exact() {
    assert_eq!(
        ConfigError::DuplicateName.message(),
        "A configuration with the same name already exists."
    );
    assert_eq!(
        ConfigError::NotFound.message(),
        "The specified configuration cannot be found."
    );
}

#[test]
fn entries_accessors_expose_the_index() {
    let mut idx = ConfigIndex::empty();
    assert!(idx.get_entries().is_empty());
    idx.get_entries_mut().push(ConfigEntry { name: "n".to_string(), guid: "g".to_string() });
    assert_eq!(idx.get_entries().len(), 1);
}
