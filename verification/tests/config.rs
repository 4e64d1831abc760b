//! Preferences of the menu bar app.

use display_studio::gui::config::GuiConfig;
use display_studio::keyed::{TextMap, TextSet};
use display_studio::paths::FilePath;
use toml::{Table, Value};

#[test]
fn defaults_show_brightness_contrast_volume_only() {
    let c = GuiConfig::default();
    let k = "DEL:U2720Q:123";
    assert!(c.is_visible(k, 0x10)); // brightness
    assert!(c.is_visible(k, 0x12)); // contrast
    assert!(c.is_visible(k, 0x62)); // volume
    assert!(!c.is_visible(k, 0x59)); // saturation: opt-in
}

#[test]
fn enabling_a_code_keeps_defaults_visible() {
    let mut c = GuiConfig::default();
    let k = "DEL:U2720Q:123";
    // Enable saturation red; brightness/contrast/volume must remain shown.
    c.set_visible(k, 0x59, true);
    assert!(c.is_visible(k, 0x59));
    assert!(c.is_visible(k, 0x10));
    assert!(c.is_visible(k, 0x62));
}

fn to_table(sets: &TextMap<TextSet>) -> Value {
    let mut t = Table::new();
    for i in 0..sets.len() {
        let set = sets.value(i);
        let codes = (0..set.len())
            .map(|k| Value::String(set.key(k).clone()))
            .collect();
        t.insert(sets.key(i).clone(), Value::Array(codes));
    }
    Value::Table(t)
}

fn from_table(v: &Value) -> TextMap<TextSet> {
    let mut sets = TextMap::new();
    for (key, codes) in v.as_table().unwrap() {
        let mut set: TextSet = TextMap::new();
        for c in codes.as_array().unwrap() {
            set.insert(c.as_str().unwrap().to_string(), ());
        }
        sets.insert(key.clone(), set);
    }
    sets
}

fn written(c: &GuiConfig) -> String {
    let mut t = Table::new();
    t.insert("launch_at_login".into(), Value::Boolean(c.launch_at_login));
    t.insert("visible".into(), to_table(&c.visible));
    t.insert("ignored".into(), to_table(&c.ignored));
    toml::to_string_pretty(&t).unwrap()
}

fn read(text: &str) -> GuiConfig {
    let t: Table = toml::from_str(text).unwrap();
    GuiConfig {
        launch_at_login: t["launch_at_login"].as_bool().unwrap(),
        visible: from_table(&t["visible"]),
        ignored: from_table(&t["ignored"]),
    }
}

#[test]
fn hiding_a_default_persists_and_round_trips() {
    let mut c = GuiConfig::default();
    let k = "DEL:U2720Q:123";
    c.set_visible(k, 0x62, false); // hide volume
    assert!(!c.is_visible(k, 0x62));
    assert!(c.is_visible(k, 0x10)); // brightness still shown

    let text = written(&c);
    let back: GuiConfig = GuiConfig::load(Some(read(&text)));
    assert!(!back.is_visible(k, 0x62));
    assert!(back.is_visible(k, 0x10));
}

#[test]
fn launch_at_login_defaults_off() {
    assert!(!GuiConfig::default().launch_at_login);
}

#[test]
fn other_displays_keep_their_defaults() {
    let mut c = GuiConfig::default();
    c.set_visible("A", 0x10, false);
    assert!(!c.is_visible("A", 0x10));
    assert!(c.is_visible("B", 0x10));
}

#[test]
fn ignored_codes_are_recorded_once() {
    let mut c = GuiConfig::default();
    assert!(!c.is_ignored("A", 0x12));
    assert!(c.set_ignored("A", 0x12, true), "a first record is a change");
    assert!(c.is_ignored("A", 0x12));
    assert!(!c.set_ignored("A", 0x12, true), "a second one is none");
    assert!(!c.set_ignored("A", 0x10, false), "nor is a working code");
    assert!(c.set_ignored("A", 0x12, false));
    assert!(!c.is_ignored("A", 0x12));
    // A display with nothing to say has no entry.
    assert!(c.ignored.is_empty());
}

#[test]
fn a_broken_file_counts_as_defaults() {
    let c = GuiConfig::load(None);
    assert!(!c.launch_at_login);
    assert!(c.is_visible("A", 0x10));
}

#[test]
fn the_file_is_written_beside_itself_first() {
    assert_eq!(GuiConfig::temporary(&FilePath::of("/d/gui.toml")).describe(), "/d/gui.toml.tmp");
    let path = GuiConfig::path().describe();
    assert!(path.ends_with("/DisplayStudio/gui.toml"), "{path}");
    assert!(path.starts_with('/'), "{path}");
}
