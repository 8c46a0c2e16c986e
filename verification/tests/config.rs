use std::sync::Arc;

use helix_term::collections::IdMap;
use helix_term::config::{
    merge_section, plan, Config, ConfigLoadError, ConfigPlan, ConfigRaw, Converted, Loaded, Section,
};
use helix_term::keymap::key::{KeyCode, KeyEvent, Mode, ALT, CONTROL, SHIFT};
use helix_term::keymap::parse::visit_map;
use helix_term::keymap::trie::{merge_keys, CommandKind, CommandScope, KeyTrie, MappableCommand};
use helix_term::keymap::vim::ch;

fn command(name: &str) -> KeyTrie {
    KeyTrie::MappableCommand(Arc::new(MappableCommand {
        kind: CommandKind::Engine { token: 1 },
        name: name.to_string(),
        args: String::new(),
        doc: String::new(),
        scope: CommandScope::Engine,
        component_region: false,
    }))
}

fn keys(mode: Mode, entries: Vec<(KeyEvent, KeyTrie)>) -> IdMap<Mode, KeyTrie> {
    let mut map = IdMap::new();
    map.insert(mode, KeyTrie::Node(Arc::new(visit_map(entries))));
    map
}

fn defaults() -> IdMap<Mode, KeyTrie> {
    let mut map = keys(Mode::Normal, vec![(ch('i'), command("insert_mode"))]);
    map.insert(Mode::Insert, KeyTrie::Node(Arc::new(visit_map(vec![]))));
    map
}

type Raw = ConfigRaw<&'static str, &'static str>;

fn empty() -> Raw {
    ConfigRaw { theme: None, keys: None, editor: None, pkg: None, plugins: None, icons: None }
}

fn unread() -> Result<Raw, ConfigLoadError> {
    Err(ConfigLoadError::default())
}

fn name_of(map: &IdMap<Mode, KeyTrie>, mode: Mode, key: KeyEvent) -> Option<String> {
    match map.get(mode)?.search(&[key])? {
        KeyTrie::MappableCommand(command) => Some(command.name.clone()),
        _ => None,
    }
}

fn same_trie(a: &KeyTrie, b: &KeyTrie) -> bool {
    let same_command =
        |a: &MappableCommand, b: &MappableCommand| a.name == b.name && a.args == b.args;
    match (a, b) {
        (KeyTrie::MappableCommand(a), KeyTrie::MappableCommand(b)) => same_command(a, b),
        (KeyTrie::Sequence(a), KeyTrie::Sequence(b)) => {
            a.len() == b.len() && a.iter().zip(b.iter()).all(|(a, b)| same_command(a, b))
        }
        (KeyTrie::Node(a), KeyTrie::Node(b)) => {
            a.map.keys.len() == b.map.keys.len()
                && a.map.keys.iter().all(|key| match (a.map.get(*key), b.map.get(*key)) {
                    (Some(a), Some(b)) => same_trie(a, b),
                    _ => false,
                })
        }
        _ => false,
    }
}

fn same_keys(a: &IdMap<Mode, KeyTrie>, b: &IdMap<Mode, KeyTrie>) -> bool {
    a.keys.len() == b.keys.len()
        && a.keys.iter().all(|mode| match (a.get(*mode), b.get(*mode)) {
            (Some(a), Some(b)) => same_trie(a, b),
            _ => false,
        })
}

#[test]
fn parsing_keymaps_config_file() {
    let shift_control_a = KeyEvent { code: KeyCode::Char('a'), modifiers: SHIFT | CONTROL };
    let alt_f12 = KeyEvent { code: KeyCode::F(12), modifiers: ALT };
    let mut sample = empty();
    let bound = || {
        let mut bound = keys(
            Mode::Insert,
            vec![
                (ch('y'), command("move_line_down")),
                (shift_control_a, command("delete_selection")),
            ],
        );
        bound.insert(
            Mode::Normal,
            KeyTrie::Node(Arc::new(visit_map(vec![(alt_f12, command("move_next_word_end"))]))),
        );
        bound
    };
    sample.keys = Some(bound());
    let planned = plan(defaults(), Ok(sample), unread()).unwrap();
    let mut expected = defaults();
    merge_keys(&mut expected, &bound());
    assert!(same_keys(&planned.keys, &expected));
    assert!(!same_keys(&planned.keys, &defaults()));
    assert_eq!(name_of(&planned.keys, Mode::Insert, ch('y')).unwrap(), "move_line_down");
    assert_eq!(
        name_of(&planned.keys, Mode::Insert, shift_control_a).unwrap(),
        "delete_selection"
    );
    assert_eq!(name_of(&planned.keys, Mode::Normal, alt_f12).unwrap(), "move_next_word_end");
    assert_eq!(name_of(&planned.keys, Mode::Normal, ch('i')).unwrap(), "insert_mode");
    assert!(matches!(planned.editor, Section::Default));
    assert!(matches!(planned.plugins, Section::Default));
    assert_eq!(planned.theme, None);
}

#[test]
fn keys_resolve_to_correct_defaults() {
    // From an empty file
    let planned: ConfigPlan<&str, &str> = plan(defaults(), Ok(empty()), unread()).unwrap();
    let default_keys = Config::load(planned, converted()).config.unwrap().keys;
    assert!(same_keys(&default_keys, &defaults()));

    // From no file
    let without_files: Config<&str, &str, &str, &str> =
        Config::of_defaults(defaults(), "editor", "plugins");
    assert!(same_keys(&without_files.keys, &defaults()));
    assert_eq!((without_files.theme, without_files.pkg), (None, None));
}

#[test]
fn local_files_go_over_global_ones() {
    let mut global = empty();
    global.theme = Some("global");
    global.editor = Some("global editor");
    global.plugins = Some("global plugins");
    global.keys = Some(keys(Mode::Normal, vec![(ch('i'), command("global"))]));
    let mut local = empty();
    local.theme = Some("local");
    local.plugins = Some("local plugins");
    local.icons = Some("local icons");
    local.keys = Some(keys(Mode::Normal, vec![(ch('i'), command("local"))]));
    let planned = plan(defaults(), Ok(global), Ok(local)).unwrap();
    assert!(planned.merged);
    assert_eq!(planned.theme, Some("local"));
    assert!(matches!(planned.editor, Section::Value("global editor")));
    assert!(matches!(
        planned.plugins,
        Section::Merged { global: "global plugins", local: "local plugins" }
    ));
    assert!(matches!(planned.icons, Section::Value("local icons")));
    assert!(matches!(planned.pkg, Section::Default));
    assert_eq!(name_of(&planned.keys, Mode::Normal, ch('i')).unwrap(), "local");
    assert!(matches!(merge_section::<u8>(None, None), Section::Default));
}

#[test]
fn bad_files_are_told_first() {
    let bad = |reason: &str| Err(ConfigLoadError::BadConfig(reason.to_string()));
    let error = |global: Result<Raw, ConfigLoadError>, local| {
        plan(defaults(), global, local).unwrap_err().message().to_string()
    };
    assert_eq!(error(bad("global"), bad("local")), "local");
    assert_eq!(error(bad("global"), Ok(empty())), "global");
    assert_eq!(error(bad("global"), unread()), "global");
    assert_eq!(error(Ok(empty()), bad("local")), "local");
    let denied = ConfigLoadError::Error { not_found: false, reason: "denied".to_string() };
    assert_eq!(error(Err(denied), unread()), "denied");
    assert!(ConfigLoadError::default().not_found());
    assert!(!ConfigLoadError::Plugin("x".to_string()).not_found());
}

type Parts = Converted<&'static str, &'static str, &'static str, &'static str>;

fn converted() -> Parts {
    Converted {
        editor: Ok("editor"),
        pkg: Ok(None),
        plugins: Ok("plugins"),
        plugins_valid: Ok(()),
        icons: Ok("icons"),
    }
}

type Outcome = Loaded<&'static str, &'static str, &'static str, &'static str, &'static str>;

fn load(merged: bool, parts: Parts) -> Outcome {
    let planned = ConfigPlan {
        merged,
        theme: Some("theme"),
        keys: defaults(),
        editor: Section::Value("e"),
        pkg: Section::Default,
        plugins: Section::Value("p"),
        icons: Section::Default,
    };
    Config::load(planned, parts)
}

#[test]
fn plugin_config_rejects_unknown_fields() {
    let unknown = || Converted { plugins: Err("unknown field".to_string()), ..converted() };
    let loaded = load(false, unknown());
    assert!(matches!(loaded.config, Err(ConfigLoadError::BadConfig(_))));
    assert_eq!(loaded.icons, Some("icons"));
    assert_eq!(load(true, unknown()).icons, None);
}

#[test]
fn plugin_config_rejects_duplicate_host_names() {
    let duplicate =
        Converted { plugins_valid: Err("duplicate host name".to_string()), ..converted() };
    assert!(matches!(load(false, duplicate).config, Err(ConfigLoadError::Plugin(_))));
}

#[test]
fn sections_are_converted_in_order() {
    let all_bad = || Converted {
        editor: Err("editor".to_string()),
        pkg: Err("pkg".to_string()),
        plugins: Err("plugins".to_string()),
        plugins_valid: Err("valid".to_string()),
        icons: Err("icons".to_string()),
    };
    assert_eq!(load(true, all_bad()).config.unwrap_err().message(), "editor");
    assert_eq!(load(false, all_bad()).config.unwrap_err().message(), "icons");
    let config = load(true, converted()).config.unwrap();
    assert_eq!(config.theme, Some("theme"));
    assert_eq!(config.editor, "editor");
    assert_eq!(config.pkg, None);
}
