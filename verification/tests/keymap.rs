use std::sync::Arc;

use helix_term::collections::IdMap;
use helix_term::keymap::key::{rank, KeyCode, KeyEvent, Mode, ALT, CONTROL, NONE, SHIFT};
use helix_term::keymap::lookup::{KeymapResult, Keymaps};
use helix_term::keymap::modal::{
    is_frontend_result, resolve_keymap_result, to_component_modal_keymaps, to_component_modal_trie,
    to_modal_keymaps, to_modal_trie, KeymapLookup, ModalKeyTrie,
};
use helix_term::keymap::parse::{visit_map, visit_seq, visit_str, BindingError};
use helix_term::keymap::trie::{
    merge_keys, CharPendingBinding, CommandKind, CommandScope, KeyTrie, KeyTrieNode,
    MappableCommand,
};
use helix_term::keymap::vim::{alt, ch, code, ctrl, vim, Bound, NamedFallback, Names};
use helix_term::keymap::vim::{make_normal_table, make_visual_table};

fn engine(name: &str, token: u64, component_region: bool) -> Arc<MappableCommand> {
    Arc::new(MappableCommand {
        kind: CommandKind::Engine { token },
        name: name.to_string(),
        args: String::new(),
        doc: format!("{} doc", name),
        scope: CommandScope::Engine,
        component_region,
    })
}

fn frontend(name: &str) -> Arc<MappableCommand> {
    Arc::new(MappableCommand {
        kind: CommandKind::Frontend,
        name: name.to_string(),
        args: String::new(),
        doc: format!("{} doc", name),
        scope: CommandScope::Frontend,
        component_region: false,
    })
}

fn named_command(name: &str) -> KeyTrie {
    KeyTrie::MappableCommand(engine(name, 1, true))
}

fn node(name: &str, entries: Vec<(KeyEvent, KeyTrie)>) -> KeyTrieNode {
    let mut map = IdMap::new();
    let mut order = Vec::new();
    for (key, trie) in entries {
        map.insert(key, trie);
        order.push(key);
    }
    KeyTrieNode::new(name, map, order)
}

fn menu(name: &str, entries: Vec<(KeyEvent, KeyTrie)>) -> KeyTrie {
    KeyTrie::Node(Arc::new(node(name, entries)))
}

fn one_mode(mode: Mode, trie: KeyTrie) -> IdMap<Mode, KeyTrie> {
    let mut map = IdMap::new();
    map.insert(mode, trie);
    map
}

/// Some bindings of the usual kind.
fn default_keys() -> IdMap<Mode, KeyTrie> {
    let mut map = one_mode(
        Mode::Normal,
        menu(
            "Normal mode",
            vec![
                (ch('i'), named_command("insert_mode")),
                (
                    ch('z'),
                    menu("View", vec![(ch('z'), named_command("align_view_center"))]),
                ),
                (
                    ch('g'),
                    menu(
                        "Goto",
                        vec![
                            (ch('g'), named_command("goto_file_start")),
                            (ch('e'), named_command("goto_last_line")),
                            (ch('k'), named_command("move_line_up")),
                            (ch('w'), KeyTrie::MappableCommand(frontend("goto_word"))),
                        ],
                    ),
                ),
                (
                    ch(' '),
                    menu(
                        "Space",
                        vec![(ch('f'), KeyTrie::MappableCommand(frontend("file_picker")))],
                    ),
                ),
                (
                    ctrl('w'),
                    menu("Window", vec![(ch('v'), named_command("vsplit"))]),
                ),
            ],
        ),
    );
    map.insert(
        Mode::Insert,
        menu("Insert mode", vec![(code(KeyCode::Esc), named_command("normal_mode"))]),
    );
    map
}

fn command_at(trie: &KeyTrie, keys: &[KeyEvent]) -> String {
    match trie.search(keys) {
        Some(KeyTrie::MappableCommand(command)) => command.name.clone(),
        other => panic!("{:?} is not a command: {:?}", keys, other),
    }
}

fn matched(result: KeymapResult) -> String {
    match result {
        KeymapResult::Matched(command) => command.name.clone(),
        other => panic!("not a command: {:?}", other),
    }
}

#[test]
fn merge_partial_keys() {
    let keymap = one_mode(
        Mode::Normal,
        menu(
            "Normal mode",
            vec![
                (ch('i'), named_command("normal_mode")),
                (ch('无'), named_command("insert_mode")),
                (ch('z'), named_command("jump_backward")),
                (
                    ch('g'),
                    menu(
                        "Merge into goto mode",
                        vec![
                            (ch('$'), named_command("goto_line_end")),
                            (ch('g'), named_command("delete_char_forward")),
                        ],
                    ),
                ),
            ],
        ),
    );
    let mut merged_keymap = default_keys();
    merge_keys(&mut merged_keymap, &keymap);

    let mut keymaps = Keymaps::new(helix_keys_again(&merged_keymap));
    assert_eq!(
        matched(keymaps.get(Mode::Normal, ch('i'))),
        "normal_mode",
        "Leaf should replace leaf"
    );
    assert_eq!(
        matched(keymaps.get(Mode::Normal, ch('无'))),
        "insert_mode",
        "New leaf should be present in merged keymap"
    );
    assert_eq!(
        matched(keymaps.get(Mode::Normal, ch('z'))),
        "jump_backward",
        "Leaf should replace node"
    );

    let keymap = merged_keymap.get(Mode::Normal).unwrap();
    assert_eq!(
        command_at(keymap, &[ch('g'), ch('$')]),
        "goto_line_end",
        "Leaf should be present in merged subnode"
    );
    assert_eq!(
        command_at(keymap, &[ch('g'), ch('g')]),
        "delete_char_forward",
        "Leaf should replace old leaf in merged subnode"
    );
    assert_eq!(
        command_at(keymap, &[ch('g'), ch('e')]),
        "goto_last_line",
        "Old leaves in subnode should be present in merged node"
    );
    assert!(merged_keymap.get(Mode::Normal).unwrap().node().unwrap().map.len() > 1);
    assert!(merged_keymap.get(Mode::Insert).unwrap().node().unwrap().map.len() > 0);
}

fn helix_keys_again(map: &IdMap<Mode, KeyTrie>) -> IdMap<Mode, KeyTrie> {
    let mut again = IdMap::new();
    for (i, mode) in map.keys.iter().enumerate() {
        again.insert(*mode, map.values[i].share());
    }
    again
}

#[test]
fn order_should_be_set() {
    let keymap = one_mode(
        Mode::Normal,
        menu(
            "Normal mode",
            vec![(
                ch(' '),
                menu(
                    "",
                    vec![(
                        ch('s'),
                        menu(
                            "",
                            vec![
                                (ch('v'), named_command("vsplit")),
                                (ch('c'), named_command("hsplit")),
                            ],
                        ),
                    )],
                ),
            )],
        ),
    );
    let mut merged_keymap = default_keys();
    merge_keys(&mut merged_keymap, &keymap);
    let keymap = merged_keymap.get(Mode::Normal).unwrap();
    // Make sure mapping works
    assert_eq!(
        command_at(keymap, &[ch(' '), ch('s'), ch('v')]),
        "vsplit",
        "Leaf should be present in merged subnode"
    );
    // Make sure an order was set during merge
    let node = keymap.search(&[ch(' ')]).unwrap();
    assert!(!node.node().unwrap().order.is_empty());
    assert_eq!(node.node().unwrap().order, vec![ch('f'), ch('s')]);
}

#[test]
fn reverse_map() {
    let keymap = menu(
        "Normal mode",
        vec![
            (ch('i'), named_command("insert_mode")),
            (
                ch('g'),
                menu(
                    "Goto",
                    vec![
                        (ch('g'), named_command("goto_file_start")),
                        (ch('e'), named_command("goto_file_end")),
                    ],
                ),
            ),
            (ch('j'), named_command("move_line_down")),
            (ch('k'), named_command("move_line_down")),
        ],
    );
    let reverse_map = keymap.reverse_map();
    assert_eq!(reverse_map.names.len(), 4);
    assert_eq!(reverse_map.get("insert_mode"), Some(&vec![vec![ch('i')]]));
    assert_eq!(reverse_map.get("goto_file_start"), Some(&vec![vec![ch('g'), ch('g')]]));
    assert_eq!(reverse_map.get("goto_file_end"), Some(&vec![vec![ch('g'), ch('e')]]));
    assert_eq!(reverse_map.get("move_line_down"), Some(&vec![vec![ch('j')], vec![ch('k')]]));
    assert_eq!(reverse_map.get("normal_mode"), None);
}

#[test]
fn escaped_keymap() {
    let key = KeyEvent { code: KeyCode::Char('+'), modifiers: NONE };
    let pipe = Arc::new(MappableCommand {
        kind: CommandKind::Typable,
        name: "pipe".to_string(),
        args: "sed -E 's/\\s+$//g'".to_string(),
        doc: "".to_string(),
        scope: CommandScope::Frontend,
        component_region: false,
    });
    let sequence = visit_seq(vec![Ok(engine("select_all", 4, true)), Ok(pipe)]).unwrap();
    let node = visit_map(vec![(key, sequence)]);
    assert_eq!(node.name, "");
    assert_eq!(node.order, vec![key]);
    assert_eq!(node.map.keys, vec![key]);
    match &node.map.values[0] {
        KeyTrie::Sequence(commands) => {
            assert_eq!(commands.len(), 2);
            assert_eq!(commands[0].name, "select_all");
            assert_eq!(commands[1].name, "pipe");
            assert_eq!(commands[1].args, "sed -E 's/\\s+$//g'");
            assert_eq!(commands[1].doc, "");
        }
        other => panic!("not a sequence: {:?}", other),
    }
}

#[test]
fn gw_dispatch_routes_to_frontend() {
    let mut keymaps = Keymaps::new(default_keys());

    // First key: `g`
    let g_result = keymaps.get(Mode::Normal, ch('g'));
    assert!(matches!(g_result, KeymapResult::Pending(_)));
    // `g` subtree is mixed (engine + frontend), so is_frontend_result should be false
    assert!(!is_frontend_result(&g_result));

    // Second key: `w` (with `g` pending in keymap state)
    assert_eq!(keymaps.pending(), &vec![ch('g')]);
    let w_result = keymaps.get(Mode::Normal, ch('w'));
    assert!(matches!(&w_result, KeymapResult::Matched(command) if command.name == "goto_word"));
    // goto_word is a frontend command
    assert!(is_frontend_result(&w_result));
    assert!(keymaps.pending().is_empty());
}

fn modal_search<'a>(trie: &'a ModalKeyTrie, keys: &[KeyEvent]) -> Option<&'a ModalKeyTrie> {
    match keys.split_first() {
        None => Some(trie),
        Some((first, rest)) => match trie {
            ModalKeyTrie::Node(node) => modal_search(node.map.get(*first)?, rest),
            _ => None,
        },
    }
}

#[test]
fn component_modal_keymaps_keep_viewport_safe_commands() {
    let safe = |name: &str, token: u64| KeyTrie::MappableCommand(engine(name, token, true));
    let mut keys = one_mode(
        Mode::Normal,
        menu(
            "Normal mode",
            vec![
                (ch('u'), safe("undo", 1)),
                (code(KeyCode::PageUp), safe("page_up", 2)),
                (ctrl('o'), KeyTrie::MappableCommand(engine("jump_backward", 3, false))),
                (ctrl('s'), safe("save_selection", 4)),
                (ch('G'), safe("goto_line", 5)),
                (ch('g'), menu("Goto", vec![(ch('|'), safe("goto_column", 6))])),
                (ch('%'), safe("match_brackets", 7)),
            ],
        ),
    );
    keys.insert(
        Mode::Insert,
        menu(
            "Insert mode",
            vec![
                (code(KeyCode::Backspace), safe("delete_char_backward", 8)),
                (code(KeyCode::Left), safe("move_char_left", 9)),
            ],
        ),
    );
    let modal = to_component_modal_keymaps(&keys);
    let normal = modal.get(Mode::Normal).expect("normal mode modal keymap");
    let insert = modal.get(Mode::Insert).expect("insert mode modal keymap");

    assert!(modal_search(normal, &[ch('u')]).is_some());
    assert!(modal_search(normal, &[code(KeyCode::PageUp)]).is_some());
    assert!(modal_search(normal, &[ctrl('o')]).is_none());
    assert!(modal_search(normal, &[ctrl('s')]).is_some());
    assert!(modal_search(normal, &[ch('G')]).is_some());
    assert!(modal_search(normal, &[ch('g'), ch('|')]).is_some());
    assert!(modal_search(normal, &[ch('%')]).is_some());
    assert!(modal_search(insert, &[code(KeyCode::Backspace)]).is_some());
    assert!(modal_search(insert, &[code(KeyCode::Left)]).is_some());

    // The engine as a whole keeps the commands that need an editor.
    let all = to_modal_keymaps(&keys);
    assert!(modal_search(all.get(Mode::Normal).unwrap(), &[ctrl('o')]).is_some());
}

fn names_for_vim() -> Names {
    let mut names: Vec<String> = Vec::new();
    let mut fallback_names: Vec<String> = Vec::new();
    for table in [make_normal_table(), make_visual_table()] {
        for (_, bound) in table {
            match bound {
                Bound::Command(name) => names.push(name.to_string()),
                Bound::Menu { fallback, commands, .. } => {
                    for (_, name) in commands {
                        names.push(name.to_string());
                    }
                    if let Some(name) = fallback {
                        fallback_names.push(name.to_string());
                    }
                }
            }
        }
    }
    Names {
        commands: names.iter().map(|name| engine(name, 1, true)).collect(),
        fallbacks: fallback_names
            .iter()
            .enumerate()
            .map(|(i, name)| NamedFallback {
                name: name.clone(),
                binding: Arc::new(CharPendingBinding { id: i as u64, doc: name.clone() }),
            })
            .collect(),
    }
}

#[test]
fn vim_keymap_binds_vim_keys() {
    let keymap = vim(&default_keys(), &names_for_vim()).unwrap();
    let normal = keymap.get(Mode::Normal).unwrap();
    let command = |keys: &[KeyEvent]| command_at(normal, keys);
    assert_eq!(command(&[ch('x')]), "vim_delete_char");
    assert_eq!(command(&[ch('$')]), "goto_line_end");
    assert_eq!(command(&[ch('0')]), "goto_line_start");
    assert_eq!(command(&[ch('V')]), "vim_visual_line");
    assert_eq!(command(&[ch('g'), ch('u')]), "vim_lowercase");
    // Shared menus.
    assert_eq!(command(&[ch(' '), ch('f')]), "file_picker");
    assert_eq!(command(&[ctrl('w'), ch('v')]), "vsplit");
    assert_eq!(command(&[ch('z'), ch('z')]), "align_view_center");

    let select = keymap.get(Mode::Select).unwrap();
    assert_eq!(command_at(select, &[ch('x')]), "delete_selection");
    assert_eq!(command_at(select, &[ch('w')]), "move_next_word_start");
    assert_eq!(command_at(select, &[ch('R')]), "change_selection");
    let insert = keymap.get(Mode::Insert).unwrap();
    assert_eq!(command_at(insert, &[code(KeyCode::Esc)]), "normal_mode");
}

#[test]
fn vim_finds_take_any_character() {
    let keymap = vim(&default_keys(), &names_for_vim()).unwrap();
    let mut keymaps = Keymaps::new(keymap);
    assert!(matches!(keymaps.get(Mode::Normal, ch('t')), KeymapResult::Pending(_)));
    match keymaps.get(Mode::Normal, ch('x')) {
        KeymapResult::Fallback(id, c) => {
            assert_eq!(id, 1);
            assert_eq!(c, 'x');
        }
        other => panic!("{:?}", other),
    }
    assert_eq!(matched(keymaps.get(Mode::Normal, alt('.'))), "repeat_last_motion");
}

#[test]
fn vim_needs_all_its_commands() {
    let mut names = names_for_vim();
    names.commands.retain(|command| command.name != "vim_substitute");
    assert!(vim(&default_keys(), &names).is_none());
    let mut names = names_for_vim();
    names.fallbacks.pop();
    assert!(vim(&default_keys(), &names).is_none());
}

#[test]
fn escape_cancels_pending_keys_and_leaves_sticky_nodes() {
    let mut sticky = node("View", vec![(ch('j'), named_command("scroll_down"))]);
    sticky.is_sticky = true;
    let mut keymaps = Keymaps::new(one_mode(
        Mode::Normal,
        menu(
            "Normal mode",
            vec![
                (ch('Z'), KeyTrie::Node(Arc::new(sticky))),
                (ch('g'), menu("Goto", vec![(ch('g'), named_command("goto_file_start"))])),
            ],
        ),
    ));
    let esc = code(KeyCode::Esc);
    assert!(matches!(keymaps.get(Mode::Normal, ch('Z')), KeymapResult::Pending(_)));
    assert!(keymaps.has_sticky());
    assert_eq!(keymaps.sticky_infobox().unwrap().title, "View");
    assert_eq!(matched(keymaps.get(Mode::Normal, ch('j'))), "scroll_down");
    assert!(keymaps.has_sticky());
    assert!(matches!(keymaps.get(Mode::Normal, esc), KeymapResult::NotFound));
    assert!(!keymaps.has_sticky());
    assert!(keymaps.sticky_infobox().is_none());

    assert!(keymaps.contains_key(Mode::Normal, ch('g')));
    assert!(!keymaps.contains_key(Mode::Normal, ch('q')));
    assert!(matches!(keymaps.get(Mode::Normal, ch('g')), KeymapResult::Pending(_)));
    match keymaps.get(Mode::Normal, esc) {
        KeymapResult::Cancelled(keys) => assert_eq!(keys, vec![ch('g')]),
        other => panic!("{:?}", other),
    }
    assert!(keymaps.pending().is_empty());
    assert!(matches!(keymaps.get(Mode::Normal, ch('g')), KeymapResult::Pending(_)));
    match keymaps.get(Mode::Normal, ch('q')) {
        KeymapResult::Cancelled(keys) => assert_eq!(keys, vec![ch('g'), ch('q')]),
        other => panic!("{:?}", other),
    }
}

#[test]
fn macros_stay_out_of_sequences() {
    let replay = Arc::new(MappableCommand {
        kind: CommandKind::Macro,
        name: "@dd".to_string(),
        args: String::new(),
        doc: String::new(),
        scope: CommandScope::Engine,
        component_region: false,
    });
    let error = visit_seq(vec![Ok(engine("undo", 1, true)), Ok(replay.clone())]).unwrap_err();
    assert!(matches!(error, BindingError::MacroInSequence));
    assert_eq!(error.message(), "macro keybindings may not be used in command sequences");
    let error = visit_seq(vec![Ok(replay.clone()), Err("no such command".to_string())]).unwrap_err();
    assert!(matches!(error, BindingError::Command(_)));
    assert_eq!(error.message(), "no such command");
    assert!(matches!(visit_str(Ok(replay)), Ok(KeyTrie::MappableCommand(_))));
    assert_eq!(visit_str(Err("bad".to_string())).unwrap_err().message(), "bad");
}

#[test]
fn infobox_groups_keys_with_one_meaning() {
    let mut shown = node(
        "Goto",
        vec![
            (ch('l'), named_command("move_right")),
            (ch('b'), named_command("move_left")),
            (ch('n'), named_command("no_op")),
            (ch('a'), named_command("move_right")),
        ],
    );
    shown.fallback = Some(Arc::new(CharPendingBinding { id: 1, doc: "any".to_string() }));
    let info = shown.infobox();
    assert_eq!(info.title, "Goto");
    assert_eq!(info.rows.len(), 3);
    assert_eq!(info.rows[0].keys, Some(vec![ch('b')]));
    assert_eq!(info.rows[0].doc, "move_left doc");
    assert_eq!(info.rows[1].keys, Some(vec![ch('a'), ch('l')]));
    assert_eq!(info.rows[2].keys, None);
    assert_eq!(info.rows[2].doc, "any");
    assert_eq!(info.rows[0].key_text(&vec!["b".to_string()]), "b");
    assert_eq!(info.rows[1].key_text(&vec!["a".to_string(), "l".to_string()]), "a, l");
    assert_eq!(info.rows[2].key_text(&Vec::new()), "...");
}

#[test]
fn engines_are_told_of_their_own_commands_only() {
    let matched = KeymapResult::Matched(engine("undo", 7, true));
    assert!(matches!(resolve_keymap_result(&matched), KeymapLookup::Matched(7)));
    let outside = KeymapResult::Matched(frontend("file_picker"));
    assert!(matches!(resolve_keymap_result(&outside), KeymapLookup::NotFound));
    let both = KeymapResult::MatchedSequence(Arc::new(vec![
        frontend("file_picker"),
        engine("undo", 7, true),
        engine("redo", 8, false),
    ]));
    match resolve_keymap_result(&both) {
        KeymapLookup::MatchedSequence(tokens) => assert_eq!(tokens, vec![7, 8]),
        other => panic!("{:?}", other),
    }
    match resolve_keymap_result(&KeymapResult::Cancelled(vec![ch('g')])) {
        KeymapLookup::Cancelled(keys) => assert_eq!(keys, vec![ch('g')]),
        other => panic!("{:?}", other),
    }
}

#[test]
fn ranks_tell_keys_apart() {
    assert!(rank(ch('a')) < rank(ch('b')));
    assert!(rank(ch('b')) < rank(ctrl('b')));
    assert!(rank(ctrl('b')) < rank(alt('b')));
    assert!(rank(code(KeyCode::F(1))) < rank(code(KeyCode::F(12))));
    assert!(rank(code(KeyCode::Backspace)) < rank(code(KeyCode::Esc)));
    let shifted = KeyEvent { code: KeyCode::Char('a'), modifiers: SHIFT };
    assert_eq!(rank(shifted) - rank(ch('a')), 1);
    assert_eq!(CONTROL | ALT, 6);
}

#[test]
fn sticky_nodes_can_be_cleared() {
    let mut sticky = node("View", vec![(ch('j'), named_command("scroll_down"))]);
    sticky.is_sticky = true;
    let mut keymaps = Keymaps::new(one_mode(
        Mode::Normal,
        menu("Normal mode", vec![(ch('Z'), KeyTrie::Node(Arc::new(sticky)))]),
    ));
    keymaps.get(Mode::Normal, ch('Z'));
    assert!(keymaps.has_sticky());
    keymaps.clear_sticky();
    assert!(!keymaps.has_sticky());
    assert!(matches!(keymaps.get(Mode::Normal, ch('j')), KeymapResult::NotFound));
}

#[test]
fn only_engine_bindings_are_kept_for_the_engine() {
    let trie = menu(
        "Normal mode",
        vec![
            (ch('a'), KeyTrie::MappableCommand(engine("append", 3, true))),
            (ch('b'), KeyTrie::MappableCommand(engine("split_view", 4, false))),
            (ch('c'), KeyTrie::MappableCommand(frontend("command_mode"))),
        ],
    );
    match to_modal_trie(&trie) {
        Some(ModalKeyTrie::Node(node)) => {
            assert!(node.map.get(ch('a')).is_some());
            assert!(node.map.get(ch('b')).is_some());
            assert!(node.map.get(ch('c')).is_none());
        }
        _ => panic!("a node stays a node"),
    }
    match to_component_modal_trie(&trie) {
        Some(ModalKeyTrie::Node(node)) => {
            assert!(node.map.get(ch('a')).is_some());
            assert!(node.map.get(ch('b')).is_none());
            assert!(node.map.get(ch('c')).is_none());
        }
        _ => panic!("a node stays a node"),
    }
    let none = KeyTrie::MappableCommand(frontend("command_mode"));
    assert!(to_modal_trie(&none).is_none());
}
