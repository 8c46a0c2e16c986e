//! The bindings of Vim.
//!
//! Operators wait for a motion or a text object in the engine; the same keys act on the selection
//! in visual mode. Menus that Vim has no use for of its own come from the other keymap.

use std::sync::Arc;

use vstd::prelude::*;

use crate::collections::IdMap;
use crate::keymap::key::{KeyCode, KeyEvent, Mode, ALT, CONTROL, NONE};
use crate::keymap::trie;
use crate::keymap::trie::{CharPendingBinding, KeyTrie, KeyTrieNode, MappableCommand};
use crate::text::same_text;

verus! {

/// A key that types a character.
#[verifier::allow_in_spec]
pub fn ch(c: char) -> KeyEvent
    returns
        (KeyEvent { code: KeyCode::Char(c), modifiers: NONE }),
{
    KeyEvent { code: KeyCode::Char(c), modifiers: NONE }
}

/// A key with the control key held.
#[verifier::allow_in_spec]
pub fn ctrl(c: char) -> KeyEvent
    returns
        (KeyEvent { code: KeyCode::Char(c), modifiers: CONTROL }),
{
    KeyEvent { code: KeyCode::Char(c), modifiers: CONTROL }
}

/// A key with the alt key held.
#[verifier::allow_in_spec]
pub fn alt(c: char) -> KeyEvent
    returns
        (KeyEvent { code: KeyCode::Char(c), modifiers: ALT }),
{
    KeyEvent { code: KeyCode::Char(c), modifiers: ALT }
}

/// A key without modifiers.
#[verifier::allow_in_spec]
pub fn code(code: KeyCode) -> KeyEvent
    returns
        (KeyEvent { code, modifiers: NONE }),
{
    KeyEvent { code, modifiers: NONE }
}

/// What a key is bound to: a command by its name, or a menu.
#[derive(Debug)]
#[allow(inconsistent_fields)]
pub enum Bound {
    Command(&'static str),
    Menu {
        title: &'static str,
        fallback: Option<&'static str>,
        commands: Vec<(KeyEvent, &'static str)>,
    },
}

/// What a [`Bound`] says.
#[allow(inconsistent_fields)]
pub enum BoundView {
    Command(Seq<char>),
    Menu { title: Seq<char>, fallback: Option<Seq<char>>, commands: Seq<(KeyEvent, Seq<char>)> },
}

pub open spec fn named(commands: Seq<(KeyEvent, &'static str)>) -> Seq<(KeyEvent, Seq<char>)> {
    commands.map_values(|entry: (KeyEvent, &'static str)| (entry.0, entry.1@))
}

impl View for Bound {
    type V = BoundView;

    open spec fn view(&self) -> BoundView {
        match *self {
            Bound::Command(name) => BoundView::Command(name@),
            Bound::Menu { title, fallback, commands } => BoundView::Menu {
                title: title@,
                fallback: match fallback {
                    Some(name) => Some(name@),
                    None => None,
                },
                commands: named(commands@),
            },
        }
    }
}

/// A table of bindings, as it is read from the top.
pub open spec fn table_view(table: Seq<(KeyEvent, Bound)>) -> Seq<(KeyEvent, BoundView)> {
    table.map_values(|entry: (KeyEvent, Bound)| (entry.0, entry.1@))
}

pub open spec fn command(name: Seq<char>) -> BoundView {
    BoundView::Command(name)
}

pub open spec fn find_menu(title: Seq<char>, fallback: Seq<char>) -> BoundView {
    BoundView::Menu { title, fallback: Some(fallback), commands: Seq::empty() }
}

fn bind(table: &mut Vec<(KeyEvent, Bound)>, key: KeyEvent, name: &'static str)
    ensures
        table_view(final(table)@) == table_view(old(table)@).push((key, command(name@))),
{
    table.push((key, Bound::Command(name)));
    assert(table_view(table@) =~= table_view(old(table)@).push((key, command(name@))));
}

fn bind_find(
    table: &mut Vec<(KeyEvent, Bound)>,
    key: KeyEvent,
    title: &'static str,
    fallback: &'static str,
)
    ensures
        table_view(final(table)@) == table_view(old(table)@).push(
            (key, find_menu(title@, fallback@)),
        ),
{
    let menu = Bound::Menu { title, fallback: Some(fallback), commands: Vec::new() };
    assert(named(menu->commands@) =~= Seq::<(KeyEvent, Seq<char>)>::empty());
    table.push((key, menu));
    assert(table_view(table@) =~= table_view(old(table)@).push(
        (key, find_menu(title@, fallback@)),
    ));
}

fn add_command(commands: &mut Vec<(KeyEvent, &'static str)>, key: KeyEvent, name: &'static str)
    ensures
        named(final(commands)@) == named(old(commands)@).push((key, name@)),
{
    commands.push((key, name));
    assert(named(commands@) =~= named(old(commands)@).push((key, name@)));
}

/// The menu of places to go to.
pub open spec fn goto_menu() -> Seq<(KeyEvent, Seq<char>)> {
    seq![
        (ch('g'), "goto_file_start"@),
        (ch('e'), "move_prev_word_end"@),
        (ch('E'), "move_prev_long_word_end"@),
        (ch('j'), "move_visual_line_down"@),
        (ch('k'), "move_visual_line_up"@),
        (ch('_'), "goto_line_end"@),
        (ch('d'), "goto_definition"@),
        (ch('D'), "goto_declaration"@),
        (ch('y'), "goto_type_definition"@),
        (ch('r'), "goto_reference"@),
        (ch('i'), "goto_implementation"@),
        (ch('t'), "goto_next_buffer"@),
        (ch('T'), "goto_previous_buffer"@),
        (ch('a'), "goto_last_accessed_file"@),
        (ch('m'), "goto_last_modified_file"@),
        (ch('.'), "goto_last_modification"@),
        (ch('w'), "goto_word"@),
        (ch('f'), "goto_file"@),
        (ch('u'), "vim_lowercase"@),
        (ch('U'), "vim_uppercase"@),
        (ch('~'), "vim_toggle_case"@),
        (ch('J'), "join_selections_space"@),
    ]
}

fn goto_commands() -> (r: Vec<(KeyEvent, &'static str)>)
    ensures
        named(r@) == goto_menu(),
{
    let mut commands: Vec<(KeyEvent, &'static str)> = Vec::new();
    assert(named(commands@) =~= Seq::empty());
    add_command(&mut commands, ch('g'), "goto_file_start");
    add_command(&mut commands, ch('e'), "move_prev_word_end");
    add_command(&mut commands, ch('E'), "move_prev_long_word_end");
    add_command(&mut commands, ch('j'), "move_visual_line_down");
    add_command(&mut commands, ch('k'), "move_visual_line_up");
    add_command(&mut commands, ch('_'), "goto_line_end");
    add_command(&mut commands, ch('d'), "goto_definition");
    add_command(&mut commands, ch('D'), "goto_declaration");
    add_command(&mut commands, ch('y'), "goto_type_definition");
    add_command(&mut commands, ch('r'), "goto_reference");
    add_command(&mut commands, ch('i'), "goto_implementation");
    add_command(&mut commands, ch('t'), "goto_next_buffer");
    add_command(&mut commands, ch('T'), "goto_previous_buffer");
    add_command(&mut commands, ch('a'), "goto_last_accessed_file");
    add_command(&mut commands, ch('m'), "goto_last_modified_file");
    add_command(&mut commands, ch('.'), "goto_last_modification");
    add_command(&mut commands, ch('w'), "goto_word");
    add_command(&mut commands, ch('f'), "goto_file");
    add_command(&mut commands, ch('u'), "vim_lowercase");
    add_command(&mut commands, ch('U'), "vim_uppercase");
    add_command(&mut commands, ch('~'), "vim_toggle_case");
    add_command(&mut commands, ch('J'), "join_selections_space");
    assert(named(commands@) =~= goto_menu());
    commands
}

/// How Vim moves.
pub open spec fn motion_keys() -> Seq<(KeyEvent, BoundView)> {
    seq![
        (ch('h'), command("move_char_left"@)),
        (code(KeyCode::Left), command("move_char_left"@)),
        (code(KeyCode::Backspace), command("move_char_left"@)),
        (ch('j'), command("move_line_down"@)),
        (code(KeyCode::Down), command("move_line_down"@)),
        (ch('k'), command("move_line_up"@)),
        (code(KeyCode::Up), command("move_line_up"@)),
        (ch('l'), command("move_char_right"@)),
        (code(KeyCode::Right), command("move_char_right"@)),
        (ch('w'), command("move_next_word_start"@)),
        (ch('b'), command("move_prev_word_start"@)),
        (ch('e'), command("move_next_word_end"@)),
        (ch('W'), command("move_next_long_word_start"@)),
        (ch('B'), command("move_prev_long_word_start"@)),
        (ch('E'), command("move_next_long_word_end"@)),
        (ch('0'), command("goto_line_start"@)),
        (code(KeyCode::Home), command("goto_line_start"@)),
        (ch('^'), command("goto_first_nonwhitespace"@)),
        (ch('$'), command("goto_line_end"@)),
        (code(KeyCode::End), command("goto_line_end"@)),
        (ch('G'), command("vim_goto_line"@)),
        (ch('H'), command("goto_window_top"@)),
        (ch('M'), command("goto_window_center"@)),
        (ch('L'), command("goto_window_bottom"@)),
        (ch('%'), command("match_brackets"@)),
        (ch('{'), command("goto_prev_paragraph"@)),
        (ch('}'), command("goto_next_paragraph"@)),
    ]
}

fn bind_motion_keys(table: &mut Vec<(KeyEvent, Bound)>)
    ensures
        table_view(final(table)@) == table_view(old(table)@) + motion_keys(),
{
    bind(table, ch('h'), "move_char_left");
    bind(table, code(KeyCode::Left), "move_char_left");
    bind(table, code(KeyCode::Backspace), "move_char_left");
    bind(table, ch('j'), "move_line_down");
    bind(table, code(KeyCode::Down), "move_line_down");
    bind(table, ch('k'), "move_line_up");
    bind(table, code(KeyCode::Up), "move_line_up");
    bind(table, ch('l'), "move_char_right");
    bind(table, code(KeyCode::Right), "move_char_right");
    bind(table, ch('w'), "move_next_word_start");
    bind(table, ch('b'), "move_prev_word_start");
    bind(table, ch('e'), "move_next_word_end");
    bind(table, ch('W'), "move_next_long_word_start");
    bind(table, ch('B'), "move_prev_long_word_start");
    bind(table, ch('E'), "move_next_long_word_end");
    bind(table, ch('0'), "goto_line_start");
    bind(table, code(KeyCode::Home), "goto_line_start");
    bind(table, ch('^'), "goto_first_nonwhitespace");
    bind(table, ch('$'), "goto_line_end");
    bind(table, code(KeyCode::End), "goto_line_end");
    bind(table, ch('G'), "vim_goto_line");
    bind(table, ch('H'), "goto_window_top");
    bind(table, ch('M'), "goto_window_center");
    bind(table, ch('L'), "goto_window_bottom");
    bind(table, ch('%'), "match_brackets");
    bind(table, ch('{'), "goto_prev_paragraph");
    bind(table, ch('}'), "goto_next_paragraph");
    assert(table_view(table@) =~= table_view(old(table)@) + motion_keys());
}

/// How Vim finds characters.
pub open spec fn find_keys() -> Seq<(KeyEvent, BoundView)> {
    seq![
        (ch('f'), find_menu("Find char"@, "find_next_char"@)),
        (ch('t'), find_menu("Till char"@, "find_till_char"@)),
        (ch('F'), find_menu("Find char backward"@, "find_prev_char"@)),
        (ch('T'), find_menu("Till char backward"@, "till_prev_char"@)),
        (ch(';'), command("repeat_last_motion"@)),
        (alt('.'), command("repeat_last_motion"@)),
    ]
}

fn bind_find_keys(table: &mut Vec<(KeyEvent, Bound)>)
    ensures
        table_view(final(table)@) == table_view(old(table)@) + find_keys(),
{
    bind_find(table, ch('f'), "Find char", "find_next_char");
    bind_find(table, ch('t'), "Till char", "find_till_char");
    bind_find(table, ch('F'), "Find char backward", "find_prev_char");
    bind_find(table, ch('T'), "Till char backward", "till_prev_char");
    bind(table, ch(';'), "repeat_last_motion");
    bind(table, alt('.'), "repeat_last_motion");
    assert(table_view(table@) =~= table_view(old(table)@) + find_keys());
}

/// Where Vim goes.
pub open spec fn goto_keys() -> Seq<(KeyEvent, BoundView)> {
    seq![
        (ch('g'), BoundView::Menu { title: "Goto"@, fallback: None, commands: goto_menu() }),
    ]
}

fn bind_goto_keys(table: &mut Vec<(KeyEvent, Bound)>)
    ensures
        table_view(final(table)@) == table_view(old(table)@) + goto_keys(),
{
    let ghost before = table_view(table@);
    let menu = Bound::Menu { title: "Goto", fallback: None, commands: goto_commands() };
    table.push((ch('g'), menu));
    assert(table_view(table@) =~= before.push((ch('g'), menu@)));
    assert(table_view(table@) =~= table_view(old(table)@) + goto_keys());
}

/// How Vim gets to other modes.
pub open spec fn insert_keys() -> Seq<(KeyEvent, BoundView)> {
    seq![
        (ch('i'), command("insert_mode"@)),
        (ch('I'), command("insert_at_line_start"@)),
        (ch('a'), command("append_mode"@)),
        (ch('A'), command("insert_at_line_end"@)),
        (ch('o'), command("open_below"@)),
        (ch('O'), command("open_above"@)),
        (ch('v'), command("vim_visual_char"@)),
        (ch('V'), command("vim_visual_line"@)),
        (ctrl('v'), command("vim_visual_block"@)),
    ]
}

fn bind_insert_keys(table: &mut Vec<(KeyEvent, Bound)>)
    ensures
        table_view(final(table)@) == table_view(old(table)@) + insert_keys(),
{
    bind(table, ch('i'), "insert_mode");
    bind(table, ch('I'), "insert_at_line_start");
    bind(table, ch('a'), "append_mode");
    bind(table, ch('A'), "insert_at_line_end");
    bind(table, ch('o'), "open_below");
    bind(table, ch('O'), "open_above");
    bind(table, ch('v'), "vim_visual_char");
    bind(table, ch('V'), "vim_visual_line");
    bind(table, ctrl('v'), "vim_visual_block");
    assert(table_view(table@) =~= table_view(old(table)@) + insert_keys());
}

/// How Vim edits.
pub open spec fn edit_keys() -> Seq<(KeyEvent, BoundView)> {
    seq![
        (ch('d'), command("delete_selection"@)),
        (ch('c'), command("change_selection"@)),
        (ch('y'), command("yank"@)),
        (ch('>'), command("vim_indent"@)),
        (ch('<'), command("vim_unindent"@)),
        (ch('x'), command("vim_delete_char"@)),
        (code(KeyCode::Delete), command("vim_delete_char"@)),
        (ch('X'), command("vim_delete_char_backward"@)),
        (ch('D'), command("vim_delete_to_line_end"@)),
        (ch('C'), command("vim_change_to_line_end"@)),
        (ch('Y'), command("vim_yank_line"@)),
        (ch('s'), command("vim_substitute"@)),
        (ch('S'), command("vim_substitute_line"@)),
        (ch('r'), command("replace"@)),
        (ch('~'), command("vim_toggle_case_char"@)),
        (ch('J'), command("join_selections"@)),
        (ch('p'), command("paste_after"@)),
        (ch('P'), command("paste_before"@)),
    ]
}

fn bind_edit_keys(table: &mut Vec<(KeyEvent, Bound)>)
    ensures
        table_view(final(table)@) == table_view(old(table)@) + edit_keys(),
{
    bind(table, ch('d'), "delete_selection");
    bind(table, ch('c'), "change_selection");
    bind(table, ch('y'), "yank");
    bind(table, ch('>'), "vim_indent");
    bind(table, ch('<'), "vim_unindent");
    bind(table, ch('x'), "vim_delete_char");
    bind(table, code(KeyCode::Delete), "vim_delete_char");
    bind(table, ch('X'), "vim_delete_char_backward");
    bind(table, ch('D'), "vim_delete_to_line_end");
    bind(table, ch('C'), "vim_change_to_line_end");
    bind(table, ch('Y'), "vim_yank_line");
    bind(table, ch('s'), "vim_substitute");
    bind(table, ch('S'), "vim_substitute_line");
    bind(table, ch('r'), "replace");
    bind(table, ch('~'), "vim_toggle_case_char");
    bind(table, ch('J'), "join_selections");
    bind(table, ch('p'), "paste_after");
    bind(table, ch('P'), "paste_before");
    assert(table_view(table@) =~= table_view(old(table)@) + edit_keys());
}

/// How Vim undoes, searches and takes commands.
pub open spec fn search_keys() -> Seq<(KeyEvent, BoundView)> {
    seq![
        (ch('u'), command("undo"@)),
        (ctrl('r'), command("redo"@)),
        (ch('/'), command("search"@)),
        (ch('?'), command("rsearch"@)),
        (ch('n'), command("search_next"@)),
        (ch('N'), command("search_prev"@)),
        (ch('*'), command("search_selection_detect_word_boundaries"@)),
        (ch(':'), command("command_mode"@)),
        (ch('q'), command("record_macro"@)),
        (ch('@'), command("replay_macro"@)),
    ]
}

fn bind_search_keys(table: &mut Vec<(KeyEvent, Bound)>)
    ensures
        table_view(final(table)@) == table_view(old(table)@) + search_keys(),
{
    bind(table, ch('u'), "undo");
    bind(table, ctrl('r'), "redo");
    bind(table, ch('/'), "search");
    bind(table, ch('?'), "rsearch");
    bind(table, ch('n'), "search_next");
    bind(table, ch('N'), "search_prev");
    bind(table, ch('*'), "search_selection_detect_word_boundaries");
    bind(table, ch(':'), "command_mode");
    bind(table, ch('q'), "record_macro");
    bind(table, ch('@'), "replay_macro");
    assert(table_view(table@) =~= table_view(old(table)@) + search_keys());
}

/// How Vim scrolls and jumps.
pub open spec fn scroll_keys() -> Seq<(KeyEvent, BoundView)> {
    seq![
        (ctrl('d'), command("page_cursor_half_down"@)),
        (ctrl('u'), command("page_cursor_half_up"@)),
        (ctrl('f'), command("page_down"@)),
        (code(KeyCode::PageDown), command("page_down"@)),
        (ctrl('b'), command("page_up"@)),
        (code(KeyCode::PageUp), command("page_up"@)),
        (ctrl('e'), command("scroll_down"@)),
        (ctrl('y'), command("scroll_up"@)),
        (ctrl('o'), command("jump_backward"@)),
        (ctrl('i'), command("jump_forward"@)),
        (code(KeyCode::Tab), command("jump_forward"@)),
        (ctrl('a'), command("increment"@)),
        (ctrl('x'), command("decrement"@)),
        (ch('K'), command("hover"@)),
        (code(KeyCode::Esc), command("normal_mode"@)),
    ]
}

fn bind_scroll_keys(table: &mut Vec<(KeyEvent, Bound)>)
    ensures
        table_view(final(table)@) == table_view(old(table)@) + scroll_keys(),
{
    bind(table, ctrl('d'), "page_cursor_half_down");
    bind(table, ctrl('u'), "page_cursor_half_up");
    bind(table, ctrl('f'), "page_down");
    bind(table, code(KeyCode::PageDown), "page_down");
    bind(table, ctrl('b'), "page_up");
    bind(table, code(KeyCode::PageUp), "page_up");
    bind(table, ctrl('e'), "scroll_down");
    bind(table, ctrl('y'), "scroll_up");
    bind(table, ctrl('o'), "jump_backward");
    bind(table, ctrl('i'), "jump_forward");
    bind(table, code(KeyCode::Tab), "jump_forward");
    bind(table, ctrl('a'), "increment");
    bind(table, ctrl('x'), "decrement");
    bind(table, ch('K'), "hover");
    bind(table, code(KeyCode::Esc), "normal_mode");
    assert(table_view(table@) =~= table_view(old(table)@) + scroll_keys());
}

/// What acts on the selection.
#[verifier::opaque]
pub open spec fn visual_keys() -> Seq<(KeyEvent, BoundView)> {
    seq![
        (ch('d'), command("delete_selection"@)),
        (ch('x'), command("delete_selection"@)),
        (ch('X'), command("delete_selection"@)),
        (ch('D'), command("delete_selection"@)),
        (ch('c'), command("change_selection"@)),
        (ch('s'), command("change_selection"@)),
        (ch('S'), command("change_selection"@)),
        (ch('C'), command("change_selection"@)),
        (ch('R'), command("change_selection"@)),
        (ch('y'), command("yank"@)),
        (ch('Y'), command("yank"@)),
        (ch('>'), command("vim_indent"@)),
        (ch('<'), command("vim_unindent"@)),
        (ch('~'), command("vim_toggle_case"@)),
        (ch('u'), command("vim_lowercase"@)),
        (ch('U'), command("vim_uppercase"@)),
        (ch('J'), command("join_selections"@)),
        (ch('p'), command("replace_with_yanked"@)),
        (ch('P'), command("replace_with_yanked"@)),
        (ch('o'), command("flip_selections"@)),
        (ch('O'), command("flip_selections"@)),
        (ch('I'), command("insert_mode"@)),
        (ch('A'), command("append_mode"@)),
    ]
}

fn bind_visual_keys(table: &mut Vec<(KeyEvent, Bound)>)
    ensures
        table_view(final(table)@) == table_view(old(table)@) + visual_keys(),
{
    proof {
        reveal(visual_keys);
    }
    bind(table, ch('d'), "delete_selection");
    bind(table, ch('x'), "delete_selection");
    bind(table, ch('X'), "delete_selection");
    bind(table, ch('D'), "delete_selection");
    bind(table, ch('c'), "change_selection");
    bind(table, ch('s'), "change_selection");
    bind(table, ch('S'), "change_selection");
    bind(table, ch('C'), "change_selection");
    bind(table, ch('R'), "change_selection");
    bind(table, ch('y'), "yank");
    bind(table, ch('Y'), "yank");
    bind(table, ch('>'), "vim_indent");
    bind(table, ch('<'), "vim_unindent");
    bind(table, ch('~'), "vim_toggle_case");
    bind(table, ch('u'), "vim_lowercase");
    bind(table, ch('U'), "vim_uppercase");
    bind(table, ch('J'), "join_selections");
    bind(table, ch('p'), "replace_with_yanked");
    bind(table, ch('P'), "replace_with_yanked");
    bind(table, ch('o'), "flip_selections");
    bind(table, ch('O'), "flip_selections");
    bind(table, ch('I'), "insert_mode");
    bind(table, ch('A'), "append_mode");
    assert(table_view(table@) =~= table_view(old(table)@) + visual_keys());
}

/// The bindings of normal mode.
#[verifier::opaque]
pub open spec fn normal_table() -> Seq<(KeyEvent, BoundView)> {
    motion_keys() + find_keys() + goto_keys() + insert_keys() + edit_keys() + search_keys()
        + scroll_keys()
}

pub fn make_normal_table() -> (r: Vec<(KeyEvent, Bound)>)
    ensures
        table_view(r@) == normal_table(),
{
    let mut table: Vec<(KeyEvent, Bound)> = Vec::new();
    bind_motion_keys(&mut table);
    assert(table_view(table@) =~= motion_keys());
    bind_find_keys(&mut table);
    bind_goto_keys(&mut table);
    bind_insert_keys(&mut table);
    bind_edit_keys(&mut table);
    bind_search_keys(&mut table);
    bind_scroll_keys(&mut table);
    proof {
        reveal(normal_table);
    }
    table
}

/// The bindings of visual mode that differ from those of normal mode.
pub fn make_visual_table() -> (r: Vec<(KeyEvent, Bound)>)
    ensures
        table_view(r@) == visual_keys(),
{
    let mut table: Vec<(KeyEvent, Bound)> = Vec::new();
    bind_visual_keys(&mut table);
    assert(table_view(table@) =~= visual_keys());
    table
}

/// The command with a name, of those that there are.
pub open spec fn command_named(commands: Seq<Arc<MappableCommand>>, name: Seq<char>) -> Option<
    Arc<MappableCommand>,
>
    decreases commands.len(),
{
    if commands.len() == 0 {
        None
    } else if commands[0].name@ == name {
        Some(commands[0])
    } else {
        command_named(commands.drop_first(), name)
    }
}

fn find_command(commands: &Vec<Arc<MappableCommand>>, name: &str) -> (r: Option<
    Arc<MappableCommand>,
>)
    ensures
        r == command_named(commands@, name@),
{
    let mut i: usize = 0;
    assert(commands@.skip(0) =~= commands@);
    while i < commands.len()
        invariant
            i <= commands@.len(),
            command_named(commands@, name@) == command_named(commands@.skip(i as int), name@),
        decreases commands@.len() - i,
    {
        assert(commands@.skip(i as int).drop_first() =~= commands@.skip(i + 1));
        if same_text(commands[i].name.as_str(), name) {
            return Some(commands[i].clone());
        }
        i += 1;
    }
    None
}

/// A command that takes a character, and its name.
#[derive(Debug)]
pub struct NamedFallback {
    pub name: String,
    pub binding: Arc<CharPendingBinding>,
}

pub open spec fn fallback_named(fallbacks: Seq<NamedFallback>, name: Seq<char>) -> Option<
    Arc<CharPendingBinding>,
>
    decreases fallbacks.len(),
{
    if fallbacks.len() == 0 {
        None
    } else if fallbacks[0].name@ == name {
        Some(fallbacks[0].binding)
    } else {
        fallback_named(fallbacks.drop_first(), name)
    }
}

fn find_fallback(fallbacks: &Vec<NamedFallback>, name: &str) -> (r: Option<Arc<CharPendingBinding>>)
    ensures
        r == fallback_named(fallbacks@, name@),
{
    let mut i: usize = 0;
    assert(fallbacks@.skip(0) =~= fallbacks@);
    while i < fallbacks.len()
        invariant
            i <= fallbacks@.len(),
            fallback_named(fallbacks@, name@) == fallback_named(fallbacks@.skip(i as int), name@),
        decreases fallbacks@.len() - i,
    {
        assert(fallbacks@.skip(i as int).drop_first() =~= fallbacks@.skip(i + 1));
        if same_text(fallbacks[i].name.as_str(), name) {
            return Some(fallbacks[i].binding.clone());
        }
        i += 1;
    }
    None
}

/// What names stand for.
#[derive(Debug)]
pub struct Names {
    pub commands: Vec<Arc<MappableCommand>>,
    pub fallbacks: Vec<NamedFallback>,
}

/// No later entry is for the same key.
pub open spec fn is_last<B>(entries: Seq<(KeyEvent, B)>, i: int) -> bool {
    forall|j: int| i < j < entries.len() ==> (#[trigger] entries[j]).0 != entries[i].0
}

pub open spec fn keys_of<B>(entries: Seq<(KeyEvent, B)>) -> Seq<KeyEvent> {
    entries.map_values(|entry: (KeyEvent, B)| entry.0)
}

/// `node` binds the keys of the entries, in their order, to what the last entry for a key says.
pub open spec fn binds<B>(
    node: KeyTrieNode,
    title: Seq<char>,
    entries: Seq<(KeyEvent, B)>,
    means: spec_fn(KeyTrie, B) -> bool,
) -> bool {
    &&& trie::node_wf(node)
    &&& node.name@ == title
    &&& !node.is_sticky
    &&& node.order@ == keys_of(entries)
    &&& forall|k: KeyEvent| #[trigger]
        node.map@.dom().contains(k) <==> keys_of(entries).contains(k)
    &&& forall|i: int|
        0 <= i < entries.len() && is_last(entries, i) ==> means(
            node.map@[entries[i].0],
            (#[trigger] entries[i]).1,
        )
}

/// `trie` is the command with a name.
pub open spec fn is_command(trie: KeyTrie, name: Seq<char>, names: Names) -> bool {
    match (trie, command_named(names.commands@, name)) {
        (KeyTrie::MappableCommand(command), Some(known)) => command == known,
        _ => false,
    }
}

/// `trie` is what a key is bound to.
pub open spec fn is_bound(trie: KeyTrie, bound: BoundView, names: Names) -> bool {
    match bound {
        BoundView::Command(name) => is_command(trie, name, names),
        BoundView::Menu { title, fallback, commands } => match trie {
            KeyTrie::Node(node) => {
                &&& binds(
                    *node,
                    title,
                    commands,
                    |t: KeyTrie, name: Seq<char>| is_command(t, name, names),
                )
                &&& node.fallback == match fallback {
                    Some(name) => fallback_named(names.fallbacks@, name),
                    None => None,
                }
                &&& fallback is Some ==> node.fallback is Some
            },
            _ => false,
        },
    }
}

/// All names of a table are known.
pub open spec fn commands_known(commands: Seq<(KeyEvent, Seq<char>)>, names: Names) -> bool {
    forall|i: int|
        0 <= i < commands.len() ==> command_named(
            names.commands@,
            (#[trigger] commands[i]).1,
        ) is Some
}

pub open spec fn bound_known(bound: BoundView, names: Names) -> bool {
    match bound {
        BoundView::Command(name) => command_named(names.commands@, name) is Some,
        BoundView::Menu { fallback, commands, .. } => {
            &&& commands_known(commands, names)
            &&& match fallback {
                Some(name) => fallback_named(names.fallbacks@, name) is Some,
                None => true,
            }
        },
    }
}

pub open spec fn table_known(table: Seq<(KeyEvent, BoundView)>, names: Names) -> bool {
    forall|i: int| 0 <= i < table.len() ==> bound_known((#[trigger] table[i]).1, names)
}

/// A node that is being filled.
struct Filling {
    map: IdMap<KeyEvent, KeyTrie>,
    order: Vec<KeyEvent>,
}

/// What was filled in so far.
spec fn filled<B>(
    filling: Filling,
    entries: Seq<(KeyEvent, B)>,
    means: spec_fn(KeyTrie, B) -> bool,
) -> bool {
    &&& filling.map.wf()
    &&& forall|j: int|
        0 <= j < filling.map.values@.len() ==> (#[trigger] filling.map.values@[j]).wf()
    &&& filling.order@ == keys_of(entries)
    &&& forall|k: KeyEvent| #[trigger]
        filling.map@.dom().contains(k) <==> keys_of(entries).contains(k)
    &&& forall|i: int|
        0 <= i < entries.len() && is_last(entries, i) ==> means(
            filling.map@[entries[i].0],
            (#[trigger] entries[i]).1,
        )
}

fn start_filling<B>(Ghost(means): Ghost<spec_fn(KeyTrie, B) -> bool>) -> (r: Filling)
    ensures
        filled(r, Seq::<(KeyEvent, B)>::empty(), means),
{
    let r = Filling { map: IdMap::new(), order: Vec::new() };
    assert(keys_of(Seq::<(KeyEvent, B)>::empty()) =~= Seq::empty());
    r
}

fn fill<B>(
    filling: &mut Filling,
    key: KeyEvent,
    trie: KeyTrie,
    Ghost(entries): Ghost<Seq<(KeyEvent, B)>>,
    Ghost(meant): Ghost<B>,
    Ghost(means): Ghost<spec_fn(KeyTrie, B) -> bool>,
)
    requires
        filled(*old(filling), entries, means),
        trie.wf(),
        means(trie, meant),
    ensures
        filled(*final(filling), entries.push((key, meant)), means),
{
    let ghost before = filling.map;
    let ghost more = entries.push((key, meant));
    filling.map.insert(key, trie);
    filling.order.push(key);
    proof {
        assert(keys_of(more) =~= keys_of(entries).push(key));
        assert forall|k: KeyEvent| #[trigger] filling.map@.dom().contains(k) <==> keys_of(
            more,
        ).contains(k) by {
            if keys_of(entries).contains(k) {
                assert(keys_of(more)[keys_of(entries).index_of(k)] == k);
            }
            assert(keys_of(more)[entries.len() as int] == key);
            if keys_of(more).contains(k) && k != key {
                assert(keys_of(entries)[keys_of(more).index_of(k)] == k);
            }
        }
        assert forall|j: int| 0 <= j < filling.map.values@.len() implies (
        #[trigger] filling.map.values@[j]).wf() by {
            let k = filling.map.keys@[j];
            assert(filling.map.keys@.contains(k));
            assert(filling.map.keys@.index_of(k) == j);
            assert(filling.map@[k] == filling.map.values@[j]);
            if k != key {
                assert(filling.map@.dom().contains(k));
                assert(before@.dom().contains(k));
                assert(before.values@[before.keys@.index_of(k)].wf());
            }
        }
        assert forall|i: int| 0 <= i < more.len() && is_last(more, i) implies means(
            filling.map@[more[i].0],
            (#[trigger] more[i]).1,
        ) by {
            if i < entries.len() {
                assert(more[entries.len() as int].0 != more[i].0);
                assert forall|j: int| i < j < entries.len() implies (#[trigger] entries[j]).0
                    != entries[i].0 by {
                    assert(more[j].0 != more[i].0);
                }
                assert(is_last(entries, i));
                assert(entries[i] == more[i]);
                assert(means(before@[entries[i].0], entries[i].1));
            }
        }
    }
}

fn build_menu(
    title: &'static str,
    fallback: Option<Arc<CharPendingBinding>>,
    commands: &Vec<(KeyEvent, &'static str)>,
    names: &Names,
) -> (r: Option<KeyTrieNode>)
    ensures
        match r {
            Some(node) => {
                &&& commands_known(named(commands@), *names)
                &&& binds(
                    node,
                    title@,
                    named(commands@),
                    |t: KeyTrie, name: Seq<char>| is_command(t, name, *names),
                )
                &&& node.fallback == fallback
            },
            None => !commands_known(named(commands@), *names),
        },
{
    let ghost entries = named(commands@);
    let ghost means = |t: KeyTrie, name: Seq<char>| is_command(t, name, *names);
    let mut filling = start_filling::<Seq<char>>(Ghost(means));
    let mut i: usize = 0;
    assert(entries.take(0) =~= Seq::empty());
    while i < commands.len()
        invariant
            i <= commands@.len(),
            entries == named(commands@),
            means == (|t: KeyTrie, name: Seq<char>| is_command(t, name, *names)),
            filled(filling, entries.take(i as int), means),
            forall|j: int|
                0 <= j < i ==> command_named(names.commands@, (#[trigger] entries[j]).1) is Some,
        decreases commands@.len() - i,
    {
        let (key, name) = commands[i];
        assert(entries[i as int] == (key, name@));
        match find_command(&names.commands, name) {
            Some(command) => {
                let leaf = KeyTrie::MappableCommand(command);
                fill::<Seq<char>>(
                    &mut filling,
                    key,
                    leaf,
                    Ghost(entries.take(i as int)),
                    Ghost(name@),
                    Ghost(means),
                );
                assert(entries.take(i + 1) =~= entries.take(i as int).push((key, name@)));
            },
            None => {
                return None;
            },
        }
        i += 1;
    }
    assert(entries.take(i as int) =~= entries);
    Some(
        KeyTrieNode {
            name: title.to_owned(),
            map: filling.map,
            order: filling.order,
            is_sticky: false,
            fallback,
        },
    )
}

fn build_bound(bound: &Bound, names: &Names) -> (r: Option<KeyTrie>)
    ensures
        match r {
            Some(trie) => bound_known(bound@, *names) && is_bound(trie, bound@, *names)
                && trie.wf(),
            None => !bound_known(bound@, *names),
        },
{
    match bound {
        Bound::Command(name) => match find_command(&names.commands, name) {
            Some(command) => Some(KeyTrie::MappableCommand(command)),
            None => None,
        },
        Bound::Menu { title, fallback, commands } => {
            let taken = match fallback {
                Some(name) => match find_fallback(&names.fallbacks, name) {
                    Some(binding) => Some(binding),
                    None => {
                        return None;
                    },
                },
                None => None,
            };
            match build_menu(title, taken, commands, names) {
                Some(node) => Some(KeyTrie::Node(Arc::new(node))),
                None => None,
            }
        },
    }
}

/// `node` is a table of bindings.
pub open spec fn is_table(
    node: KeyTrieNode,
    title: Seq<char>,
    table: Seq<(KeyEvent, BoundView)>,
    names: Names,
) -> bool {
    &&& binds(node, title, table, |t: KeyTrie, bound: BoundView| is_bound(t, bound, names))
    &&& node.fallback is None
}

/// Makes a node of a table of bindings, if all its names are known.
pub fn build(title: &'static str, table: &Vec<(KeyEvent, Bound)>, names: &Names) -> (r: Option<
    KeyTrieNode,
>)
    ensures
        match r {
            Some(node) => table_known(table_view(table@), *names) && is_table(
                node,
                title@,
                table_view(table@),
                *names,
            ),
            None => !table_known(table_view(table@), *names),
        },
{
    let ghost entries = table_view(table@);
    let ghost means = |t: KeyTrie, bound: BoundView| is_bound(t, bound, *names);
    let mut filling = start_filling::<BoundView>(Ghost(means));
    let mut i: usize = 0;
    assert(entries.take(0) =~= Seq::empty());
    while i < table.len()
        invariant
            i <= table@.len(),
            entries == table_view(table@),
            means == (|t: KeyTrie, bound: BoundView| is_bound(t, bound, *names)),
            filled(filling, entries.take(i as int), means),
            forall|j: int| 0 <= j < i ==> bound_known((#[trigger] entries[j]).1, *names),
        decreases table@.len() - i,
    {
        let key = table[i].0;
        assert(entries[i as int] == (key, table@[i as int].1@));
        match build_bound(&table[i].1, names) {
            Some(bound) => {
                fill::<BoundView>(
                    &mut filling,
                    key,
                    bound,
                    Ghost(entries.take(i as int)),
                    Ghost(table@[i as int].1@),
                    Ghost(means),
                );
                assert(entries.take(i + 1) =~= entries.take(i as int).push(entries[i as int]));
            },
            None => {
                return None;
            },
        }
        i += 1;
    }
    assert(entries.take(i as int) =~= entries);
    Some(
        KeyTrieNode {
            name: title.to_owned(),
            map: filling.map,
            order: filling.order,
            is_sticky: false,
            fallback: None,
        },
    )
}

/// Keys whose menus are shared with the other keymap.
pub open spec fn shared_menus() -> Seq<KeyEvent> {
    seq![ch(' '), ctrl('w'), ch('z'), ch('Z'), ch('['), ch(']'), ch('m')]
}

fn make_shared_menus() -> (r: Vec<KeyEvent>)
    ensures
        r@ == shared_menus(),
{
    let mut keys: Vec<KeyEvent> = Vec::new();
    keys.push(ch(' '));
    keys.push(ctrl('w'));
    keys.push(ch('z'));
    keys.push(ch('Z'));
    keys.push(ch('['));
    keys.push(ch(']'));
    keys.push(ch('m'));
    assert(keys@ =~= shared_menus());
    keys
}

/// What is shared: the bindings of the other keymap for the keys of the menus, where it has any.
pub open spec fn shared_entries(
    keys: Seq<KeyEvent>,
    helix_normal: KeyTrieNode,
) -> Seq<(KeyEvent, KeyTrie)>
    decreases keys.len(),
{
    if keys.len() == 0 {
        Seq::empty()
    } else {
        let rest = shared_entries(keys.drop_last(), helix_normal);
        match trie::child(&helix_normal, keys.last()) {
            Some(menu) => rest.push((keys.last(), menu)),
            None => rest,
        }
    }
}

pub open spec fn is_shared(node: KeyTrieNode, helix_normal: KeyTrieNode) -> bool {
    &&& binds(
        node,
        ""@,
        shared_entries(shared_menus(), helix_normal),
        |t: KeyTrie, menu: KeyTrie| t == menu,
    )
    &&& node.fallback is None
}

fn build_shared(helix_normal: &KeyTrieNode) -> (r: KeyTrieNode)
    requires
        trie::node_wf(*helix_normal),
    ensures
        is_shared(r, *helix_normal),
{
    let keys = make_shared_menus();
    let ghost means = |t: KeyTrie, menu: KeyTrie| t == menu;
    let mut filling = start_filling::<KeyTrie>(Ghost(means));
    let mut i: usize = 0;
    assert(keys@.take(0) =~= Seq::empty());
    while i < keys.len()
        invariant
            i <= keys@.len(),
            trie::node_wf(*helix_normal),
            means == (|t: KeyTrie, menu: KeyTrie| t == menu),
            filled(filling, shared_entries(keys@.take(i as int), *helix_normal), means),
        decreases keys@.len() - i,
    {
        let key = keys[i];
        assert(keys@.take(i + 1).drop_last() =~= keys@.take(i as int));
        if let Some(menu) = helix_normal.map.get(key) {
            proof {
                trie::lemma_child_wf(helix_normal, key);
            }
            fill::<KeyTrie>(
                &mut filling,
                key,
                menu.share(),
                Ghost(shared_entries(keys@.take(i as int), *helix_normal)),
                Ghost(*menu),
                Ghost(means),
            );
        }
        i += 1;
    }
    assert(keys@.take(i as int) =~= shared_menus());
    KeyTrieNode {
        name: "".to_owned(),
        map: filling.map,
        order: filling.order,
        is_sticky: false,
        fallback: None,
    }
}

/// Copies the menus that are shared into the bindings of normal mode.
pub fn share_menus(normal: &KeyTrieNode, helix_normal: &KeyTrieNode) -> (r: KeyTrieNode)
    requires
        trie::node_wf(*normal),
        trie::node_wf(*helix_normal),
    ensures
        trie::node_wf(r),
        exists|shared: KeyTrieNode|
            is_shared(shared, *helix_normal) && #[trigger] trie::is_merge(r, *normal, shared),
{
    let shared = build_shared(helix_normal);
    let merged = normal.merged(&shared);
    assert(is_shared(shared, *helix_normal) && trie::is_merge(merged, *normal, shared));
    merged
}

/// `normal` and `select` are the bindings of Vim's modes.
pub open spec fn is_vim(
    normal: KeyTrieNode,
    select: KeyTrieNode,
    helix_normal: KeyTrieNode,
    names: Names,
    own: KeyTrieNode,
    shared: KeyTrieNode,
    visual: KeyTrieNode,
) -> bool {
    &&& is_table(own, "Normal mode"@, normal_table(), names)
    &&& is_shared(shared, helix_normal)
    &&& trie::is_merge(normal, own, shared)
    &&& is_table(visual, "Visual mode"@, visual_keys(), names)
    &&& trie::is_merge(select, normal, visual)
}

/// The bindings of Vim: its own tables, the menus shared with the other keymap, and the insert
/// mode of the other keymap. There are none if a name in the tables is not known.
pub fn vim(helix: &IdMap<Mode, KeyTrie>, names: &Names) -> (r: Option<IdMap<Mode, KeyTrie>>)
    requires
        helix.wf(),
        helix@.dom().contains(Mode::Normal),
        helix@[Mode::Normal] is Node,
        helix@[Mode::Normal].wf(),
        helix@.dom().contains(Mode::Insert),
    ensures
        match r {
            Some(map) => {
                &&& table_known(normal_table(), *names)
                &&& table_known(visual_keys(), *names)
                &&& map.wf()
                &&& map.order() == seq![Mode::Normal, Mode::Select, Mode::Insert]
                &&& map@[Mode::Insert] == helix@[Mode::Insert]
                &&& map@[Mode::Normal] is Node
                &&& map@[Mode::Normal].wf()
                &&& map@[Mode::Select] is Node
                &&& map@[Mode::Select].wf()
                &&& exists|own: KeyTrieNode, shared: KeyTrieNode, visual: KeyTrieNode| #[trigger]
                    is_vim(
                        *map@[Mode::Normal]->Node_0,
                        *map@[Mode::Select]->Node_0,
                        *helix@[Mode::Normal]->Node_0,
                        *names,
                        own,
                        shared,
                        visual,
                    )
            },
            None => !table_known(normal_table(), *names) || !table_known(visual_keys(), *names),
        },
{
    let own = match build("Normal mode", &make_normal_table(), names) {
        Some(node) => node,
        None => {
            return None;
        },
    };
    let visual = match build("Visual mode", &make_visual_table(), names) {
        Some(node) => node,
        None => {
            return None;
        },
    };
    let helix_normal = match helix.get(Mode::Normal) {
        Some(KeyTrie::Node(node)) => node,
        _ => {
            return None;
        },
    };
    let insert = match helix.get(Mode::Insert) {
        Some(keys) => keys.share(),
        None => {
            return None;
        },
    };
    let normal = share_menus(&own, helix_normal);
    let select = normal.merged(&visual);
    let ghost shared = choose|shared: KeyTrieNode|
        is_shared(shared, **helix_normal) && #[trigger] trie::is_merge(normal, own, shared);
    assert(is_vim(normal, select, **helix_normal, *names, own, shared, visual));
    let mut map: IdMap<Mode, KeyTrie> = IdMap::new();
    map.insert(Mode::Normal, KeyTrie::Node(Arc::new(normal)));
    map.insert(Mode::Select, KeyTrie::Node(Arc::new(select)));
    map.insert(Mode::Insert, insert);
    assert(map.order() =~= seq![Mode::Normal, Mode::Select, Mode::Insert]);
    Some(map)
}

/// A key that a table binds to a command runs that command in normal mode, unless it opens one of
/// the shared menus.
pub proof fn law_vim_keys_run_their_commands(
    normal: Arc<KeyTrieNode>,
    select: KeyTrieNode,
    helix_normal: KeyTrieNode,
    names: Names,
    own: KeyTrieNode,
    shared: KeyTrieNode,
    visual: KeyTrieNode,
    i: int,
)
    requires
        is_vim(*normal, select, helix_normal, names, own, shared, visual),
        0 <= i < normal_table().len(),
        is_last(normal_table(), i),
        normal_table()[i].1 is Command,
        !shared_menus().contains(normal_table()[i].0),
    ensures
        match trie::found(KeyTrie::Node(normal), seq![normal_table()[i].0]) {
            Some(trie) => is_command(trie, normal_table()[i].1->Command_0, names),
            None => false,
        },
{
    let key = normal_table()[i].0;
    lemma_shared_keys(shared_menus(), helix_normal, key);
    assert(keys_of(normal_table())[i] == key);
    assert(own.map@.dom().contains(key));
    assert(!shared.map@.dom().contains(key));
    assert(normal.map@.dom().contains(key));
    let keys = seq![key];
    assert(keys.skip(1) =~= Seq::empty());
    assert(trie::found(normal.map@[key], keys.skip(1)) == Some(normal.map@[key]));
}

proof fn lemma_shared_keys(keys: Seq<KeyEvent>, helix_normal: KeyTrieNode, key: KeyEvent)
    ensures
        keys_of(shared_entries(keys, helix_normal)).contains(key) <==> keys.contains(key)
            && helix_normal.map@.dom().contains(key),
        forall|i: int|
            0 <= i < shared_entries(keys, helix_normal).len() ==> (#[trigger] shared_entries(
                keys,
                helix_normal,
            )[i]).1 == helix_normal.map@[shared_entries(keys, helix_normal)[i].0],
    decreases keys.len(),
{
    let entries = shared_entries(keys, helix_normal);
    if keys.len() > 0 {
        let rest = shared_entries(keys.drop_last(), helix_normal);
        lemma_shared_keys(keys.drop_last(), helix_normal, key);
        assert(keys =~= keys.drop_last().push(keys.last()));
        if keys.contains(key) && key != keys.last() {
            assert(keys.drop_last()[keys.index_of(key)] == key);
        }
        if keys.drop_last().contains(key) {
            assert(keys[keys.drop_last().index_of(key)] == key);
        }
        match trie::child(&helix_normal, keys.last()) {
            Some(menu) => {
                assert(keys_of(entries) =~= keys_of(rest).push(keys.last()));
                if keys_of(rest).contains(key) {
                    assert(keys_of(entries)[keys_of(rest).index_of(key)] == key);
                }
                assert(keys_of(entries)[rest.len() as int] == keys.last());
                if keys_of(entries).contains(key) && key != keys.last() {
                    assert(keys_of(rest)[keys_of(entries).index_of(key)] == key);
                }
            },
            None => {},
        }
    } else {
        assert(keys_of(entries) =~= Seq::empty());
    }
}

/// A shared menu that Vim does not bind itself is that of the other keymap.
pub proof fn law_shared_menus_are_the_others(
    normal: KeyTrieNode,
    select: KeyTrieNode,
    helix_normal: KeyTrieNode,
    names: Names,
    own: KeyTrieNode,
    shared: KeyTrieNode,
    visual: KeyTrieNode,
    key: KeyEvent,
)
    requires
        is_vim(normal, select, helix_normal, names, own, shared, visual),
        shared_menus().contains(key),
        !keys_of(normal_table()).contains(key),
        helix_normal.map@.dom().contains(key),
    ensures
        normal.map@.dom().contains(key),
        normal.map@[key] == helix_normal.map@[key],
{
    let entries = shared_entries(shared_menus(), helix_normal);
    lemma_shared_keys(shared_menus(), helix_normal, key);
    assert(!own.map@.dom().contains(key));
    assert(shared.map@.dom().contains(key));
    let i = lemma_last_entry(entries, key);
    assert(shared.map@[key] == entries[i].1);
    let j = shared.map.keys@.index_of(key);
    assert(shared.map.values@[j] == shared.map@[key]);
    assert(trie::child_is_merge(
        normal.map@[shared.map.keys@[j]],
        trie::child(&own, shared.map.keys@[j]),
        shared.map.values@[j],
    ));
}

proof fn lemma_last_entry<B>(entries: Seq<(KeyEvent, B)>, key: KeyEvent) -> (i: int)
    requires
        keys_of(entries).contains(key),
    ensures
        0 <= i < entries.len(),
        entries[i].0 == key,
        is_last(entries, i),
    decreases entries.len(),
{
    if entries.last().0 == key {
        entries.len() - 1
    } else {
        let shorter = entries.drop_last();
        let k = keys_of(entries).index_of(key);
        assert(keys_of(shorter)[k] == key);
        let i = lemma_last_entry(shorter, key);
        assert forall|j: int| i < j < entries.len() implies (#[trigger] entries[j]).0
            != entries[i].0 by {
            if j < shorter.len() {
                assert(shorter[j].0 != shorter[i].0);
            }
        }
        i
    }
}

/// A command is found by its name: the first that has it.
pub proof fn law_commands_are_found_by_name(commands: Seq<Arc<MappableCommand>>, name: Seq<char>)
    ensures
        match command_named(commands, name) {
            Some(command) => exists|i: int|
                {
                    &&& 0 <= i < commands.len()
                    &&& #[trigger] commands[i] == command
                    &&& command.name@ == name
                    &&& forall|j: int| 0 <= j < i ==> (#[trigger] commands[j]).name@ != name
                },
            None => forall|i: int|
                0 <= i < commands.len() ==> (#[trigger] commands[i]).name@ != name,
        },
    decreases commands.len(),
{
    if commands.len() > 0 {
        if commands[0].name@ == name {
            assert(commands[0] == command_named(commands, name)->0);
        } else {
            let rest = commands.drop_first();
            law_commands_are_found_by_name(rest, name);
            match command_named(rest, name) {
                Some(command) => {
                    let i = choose|i: int|
                        {
                            &&& 0 <= i < rest.len()
                            &&& #[trigger] rest[i] == command
                            &&& command.name@ == name
                            &&& forall|j: int| 0 <= j < i ==> (#[trigger] rest[j]).name@ != name
                        };
                    assert(commands[i + 1] == command);
                    assert forall|j: int| 0 <= j < i + 1 implies (#[trigger] commands[j]).name@
                        != name by {
                        if j > 0 {
                            assert(rest[j - 1] == commands[j]);
                        }
                    }
                },
                None => {
                    assert forall|i: int| 0 <= i < commands.len() implies (
                    #[trigger] commands[i]).name@ != name by {
                        if i > 0 {
                            assert(rest[i - 1] == commands[i]);
                        }
                    }
                },
            }
        }
    }
}

/// Menus that are there are shared, in order, each under its own key.
pub proof fn law_menus_are_shared_in_order(
    keys: Seq<KeyEvent>,
    key: KeyEvent,
    helix_normal: KeyTrieNode,
)
    ensures
        shared_entries(Seq::<KeyEvent>::empty(), helix_normal).len() == 0,
        helix_normal.map@.dom().contains(key) ==> shared_entries(keys.push(key), helix_normal)
            == shared_entries(keys, helix_normal).push((key, helix_normal.map@[key])),
        !helix_normal.map@.dom().contains(key) ==> shared_entries(keys.push(key), helix_normal)
            == shared_entries(keys, helix_normal),
{
    assert(keys.push(key).drop_last() =~= keys);
}

/// Under a name the first that bears it is found.
pub proof fn law_the_first_of_a_name_is_found(
    fallbacks: Seq<NamedFallback>,
    name: Seq<char>,
    i: int,
)
    requires
        forall|j: int| 0 <= j < i && j < fallbacks.len() ==> (#[trigger] fallbacks[j]).name@ != name,
    ensures
        0 <= i < fallbacks.len() && fallbacks[i].name@ == name ==> fallback_named(fallbacks, name)
            == Some(fallbacks[i].binding),
        i >= fallbacks.len() ==> fallback_named(fallbacks, name) is None,
    decreases fallbacks.len(),
{
    if fallbacks.len() > 0 && i > 0 {
        let rest = fallbacks.drop_first();
        assert(fallbacks[0].name@ != name);
        assert forall|j: int| 0 <= j < i - 1 && j < rest.len() implies (#[trigger] rest[j]).name@
            != name by {
            assert(rest[j] == fallbacks[j + 1]);
        }
        law_the_first_of_a_name_is_found(rest, name, i - 1);
    }
}

} // verus!
