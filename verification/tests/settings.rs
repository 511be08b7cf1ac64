use serde_json::Value;
use siphon::config::{load_versioned, migrate, migrate_step, Config, LoadError};

fn settings(text: &str) -> Value {
    load_versioned(text.as_bytes()).expect("settings are readable")
}

#[test]
fn default_settings() {
    let config = Config::default();
    assert_eq!(config.version, Config::VERSION);
    assert!(config.channels.is_empty());
    assert!(config.notify_title_changes);
    assert!(config.sound);
    assert_eq!(config.filtered_words, ["offline"]);
}

#[test]
fn migrate_step_covers_every_version_below_current() {
    for version in 0..u64::from(Config::VERSION) {
        let mut map = serde_json::Map::new();
        assert!(
            migrate_step(&mut map, version).is_ok(),
            "missing migration from config version {version}"
        );
    }
}

#[test]
fn no_step_from_the_current_version() {
    let mut map = serde_json::Map::new();
    let result = migrate_step(&mut map, u64::from(Config::VERSION));
    assert!(matches!(result, Err(LoadError::NoStep(2))));
    assert_eq!(LoadError::NoStep(2).message(), "no migration from config version 2");
}

#[test]
fn migrate_v1_keeps_existing_filtered_words() {
    let mut map = serde_json::Map::new();
    map.insert("version".to_owned(), Value::from(1));
    map.insert("filteredWords".to_owned(), Value::from(vec!["sponsored"]));
    migrate_step(&mut map, 1).unwrap();
    assert_eq!(map["filteredWords"], Value::from(vec!["sponsored"]));
}

#[test]
fn load_migrates_older_versions_preserving_channels() {
    for (name, version) in [("v1", 1), ("unversioned", 0)] {
        let value = settings(&format!(
            r#"{{"version":{version},"channels":[{{"login":"alice","id":7}}]}}"#
        ));
        assert_eq!(value["version"], Value::from(Config::VERSION), "{name}");
        let channels = value["channels"].as_array().expect("channels");
        assert_eq!(
            channels
                .iter()
                .map(|channel| channel["login"].as_str().expect("login"))
                .collect::<Vec<_>>(),
            ["alice"],
            "{name}"
        );
        assert_eq!(value["channels"][0]["id"], Value::from(7), "{name}");
        assert_eq!(value["filteredWords"], Value::from(vec!["offline"]), "{name}");
    }
}

#[test]
fn settings_without_a_version_are_migrated() {
    let value = settings(r#"{"channels":[],"sound":false}"#);
    assert_eq!(value["version"], Value::from(2));
    assert_eq!(value["sound"], Value::from(false));
    assert_eq!(value["filteredWords"], Value::from(vec!["offline"]));
}

#[test]
fn load_discards_newer_version_for_fresh_default() {
    let text = format!(
        r#"{{"version":{},"channels":[{{"login":"alice","id":7}}]}}"#,
        Config::VERSION + 1
    );
    let result = load_versioned(text.as_bytes());
    assert!(matches!(result, Err(LoadError::Newer(3))));
    assert_eq!(LoadError::Newer(3).message(), "ignoring config version 3");
    let config = Config::load(None);
    assert_eq!(config.version, Config::VERSION);
    assert!(config.channels.is_empty());
}

#[test]
fn load_matching_version_keeps_channels() {
    let value = settings(&format!(
        r#"{{"version":{},"channels":[{{"login":"alice","id":7}}],"filteredWords":[]}}"#,
        Config::VERSION
    ));
    let channels = value["channels"].as_array().expect("channels");
    assert_eq!(channels.len(), 1);
    assert_eq!(channels[0]["login"], Value::from("alice"));
    // A filter list that was cleared is data too.
    assert_eq!(value["filteredWords"].as_array().map(Vec::len), Some(0));
}

#[test]
fn settings_that_are_no_object_are_refused() {
    assert!(matches!(load_versioned(b"[1,2]"), Err(LoadError::NoObject)));
    let unreadable = load_versioned(b"{").err().expect("no JSON");
    assert!(matches!(unreadable, LoadError::Unreadable(_)));
    assert_eq!(
        unreadable.message(),
        "EOF while parsing an object at line 1 column 1"
    );
    assert_eq!(LoadError::NoObject.message(), "config root is not an object");
}

#[test]
fn migrating_twice_changes_nothing() {
    let once = settings(r#"{"version":1,"channels":[],"extra":{"kept":true}}"#);
    assert_eq!(once["extra"]["kept"], Value::from(true));
    let twice = migrate(once.clone()).expect("current settings are readable");
    assert_eq!(once, twice);
}

#[test]
fn loaded_settings_are_kept() {
    let mut config = Config::default();
    config.sound = false;
    assert!(!Config::load(Some(config)).sound);
    // Whatever is loaded has the current layout.
    let mut other = Config::default();
    other.version = 1;
    other.sound = false;
    let loaded = Config::load(Some(other));
    assert_eq!(loaded.version, Config::VERSION);
    assert!(loaded.sound);
}
