//! The part of a keymap that the editing engine can run.

use std::sync::Arc;

use vstd::prelude::*;

use crate::collections::{copy_ids, IdMap};
use crate::keymap::infobox::Info;
use crate::keymap::key::{KeyEvent, Mode};
use crate::keymap::lookup::KeymapResult;
use crate::keymap::trie::{
    share_fallback, CharPendingBinding, CommandKind, CommandScope, KeyTrie, KeyTrieNode, MappableCommand,
};

verus! {

/// A command of the editing engine.
#[derive(Debug)]
pub struct ModalCommandBinding {
    pub token: u64,
    pub doc: String,
}

#[derive(Debug)]
pub struct ModalKeyTrieNode {
    pub name: String,
    pub map: IdMap<KeyEvent, ModalKeyTrie>,
    pub order: Vec<KeyEvent>,
    pub is_sticky: bool,
    pub fallback: Option<Arc<CharPendingBinding>>,
}

/// A trie that binds keys to commands of the editing engine alone.
#[derive(Debug)]
pub enum ModalKeyTrie {
    Command(ModalCommandBinding),
    Sequence(Vec<ModalCommandBinding>),
    Node(Box<ModalKeyTrieNode>),
}

/// The number under which the editing engine knows a command.
pub open spec fn engine_token(command: MappableCommand) -> Option<u64> {
    match command.kind {
        CommandKind::Engine { token } => Some(token),
        _ => None,
    }
}

/// A command is kept if it belongs to the editing engine and, in a component, works there.
pub open spec fn kept(command: MappableCommand, component: bool) -> bool {
    engine_token(command) is Some && (component ==> command.component_region)
}

pub open spec fn binds(binding: ModalCommandBinding, command: MappableCommand) -> bool {
    Some(binding.token) == engine_token(command) && binding.doc == command.doc
}

/// The commands of a sequence that are kept.
pub open spec fn kept_commands(commands: Seq<Arc<MappableCommand>>, component: bool) -> Seq<
    Arc<MappableCommand>,
>
    decreases commands.len(),
{
    if commands.len() == 0 {
        seq![]
    } else {
        let rest = kept_commands(commands.drop_last(), component);
        if kept(*commands.last(), component) {
            rest.push(commands.last())
        } else {
            rest
        }
    }
}

pub open spec fn modal_child(node: &ModalKeyTrieNode, key: KeyEvent) -> Option<ModalKeyTrie> {
    if node.map@.dom().contains(key) {
        Some(node.map@[key])
    } else {
        None
    }
}

/// `modal` is the part of `trie` whose commands are kept; nothing, where none are.
pub open spec fn is_modal(modal: Option<ModalKeyTrie>, trie: KeyTrie, component: bool) -> bool
    decreases trie,
{
    match trie {
        KeyTrie::MappableCommand(command) => match modal {
            Some(ModalKeyTrie::Command(binding)) => kept(*command, component) && binds(
                binding,
                *command,
            ),
            None => !kept(*command, component),
            _ => false,
        },
        KeyTrie::Sequence(commands) => {
            let keep = kept_commands(commands@, component);
            match modal {
                Some(ModalKeyTrie::Sequence(bindings)) => {
                    &&& keep.len() > 0
                    &&& bindings@.len() == keep.len()
                    &&& forall|i: int|
                        0 <= i < keep.len() ==> binds(#[trigger] bindings@[i], *keep[i])
                },
                None => keep.len() == 0,
                _ => false,
            }
        },
        KeyTrie::Node(node) => match modal {
            Some(ModalKeyTrie::Node(m)) => {
                &&& node.fallback is Some || m.map.order().len() > 0
                &&& m.name == node.name
                &&& m.order@ == node.order@
                &&& m.is_sticky == node.is_sticky
                &&& m.fallback == node.fallback
                &&& m.map.wf()
                &&& forall|k: KeyEvent| #[trigger]
                    m.map@.dom().contains(k) ==> node.map@.dom().contains(k)
                &&& forall|i: int|
                    0 <= i < node.map.values@.len() ==> is_modal(
                        modal_child(&*m, node.map.keys@[i]),
                        #[trigger] node.map.values@[i],
                        component,
                    )
            },
            None => {
                &&& node.fallback is None
                &&& forall|i: int|
                    0 <= i < node.map.values@.len() ==> is_modal(
                        None,
                        #[trigger] node.map.values@[i],
                        component,
                    )
            },
            _ => false,
        },
    }
}

fn keeps(command: &MappableCommand, component: bool) -> (r: Option<u64>)
    ensures
        r == if kept(*command, component) {
            engine_token(*command)
        } else {
            None
        },
{
    match command.kind {
        CommandKind::Engine { token } => if !component || command.component_region {
            Some(token)
        } else {
            None
        },
        _ => None,
    }
}

/// The part of the trie that the editing engine can run; in a component, the part that works
/// there.
fn convert(trie: &KeyTrie, component: bool) -> (r: Option<ModalKeyTrie>)
    requires
        trie.wf(),
    ensures
        is_modal(r, *trie, component),
    decreases *trie,
{
    match trie {
        KeyTrie::MappableCommand(command) => match keeps(command, component) {
            Some(token) => Some(
                ModalKeyTrie::Command(ModalCommandBinding { token, doc: command.doc.clone() }),
            ),
            None => None,
        },
        KeyTrie::Sequence(commands) => {
            let mut bindings: Vec<ModalCommandBinding> = Vec::new();
            let mut i: usize = 0;
            assert(commands@.take(0) =~= seq![]);
            while i < commands.len()
                invariant
                    i <= commands@.len(),
                    bindings@.len() == kept_commands(commands@.take(i as int), component).len(),
                    forall|j: int|
                        0 <= j < bindings@.len() ==> binds(
                            #[trigger] bindings@[j],
                            *kept_commands(commands@.take(i as int), component)[j],
                        ),
                decreases commands@.len() - i,
            {
                assert(commands@.take(i + 1).drop_last() =~= commands@.take(i as int));
                let command = &commands[i];
                if let Some(token) = keeps(command, component) {
                    bindings.push(ModalCommandBinding { token, doc: command.doc.clone() });
                }
                i += 1;
            }
            assert(commands@.take(i as int) =~= commands@);
            if bindings.len() == 0 {
                None
            } else {
                Some(ModalKeyTrie::Sequence(bindings))
            }
        },
        KeyTrie::Node(node) => {
            let mut map: IdMap<KeyEvent, ModalKeyTrie> = IdMap::new();
            let mut i: usize = 0;
            while i < node.map.keys.len()
                invariant
                    i <= node.map.keys@.len(),
                    *trie == KeyTrie::Node(*node),
                    trie.wf(),
                    crate::keymap::trie::node_wf(**node),
                    map.wf(),
                    forall|k: KeyEvent| #[trigger]
                        map@.dom().contains(k) ==> node.map.keys@.take(i as int).contains(k),
                    forall|j: int|
                        0 <= j < i ==> is_modal(
                            if map@.dom().contains(node.map.keys@[j]) {
                                Some(map@[node.map.keys@[j]])
                            } else {
                                None
                            },
                            #[trigger] node.map.values@[j],
                            component,
                        ),
                decreases node.map.keys@.len() - i,
            {
                let key = node.map.keys[i];
                let ghost before = map@;
                let ghost seen = node.map.keys@.take(i as int);
                proof {
                    assert(node.map.values@[i as int].wf());
                    assert(decreases_to!(*trie => node.map.values@[i as int]));
                }
                let converted = convert(&node.map.values[i], component);
                if let Some(modal) = converted {
                    map.insert(key, modal);
                }
                i += 1;
                proof {
                    let now_seen = node.map.keys@.take(i as int);
                    assert forall|k: KeyEvent| #[trigger]
                        map@.dom().contains(k) implies now_seen.contains(k) by {
                        if k == key {
                            assert(now_seen[i - 1] == key);
                        } else {
                            assert(before.dom().contains(k));
                            assert(now_seen[seen.index_of(k)] == k);
                        }
                    }
                    assert(!before.dom().contains(key)) by {
                        if before.dom().contains(key) {
                            let j = seen.index_of(key);
                            assert(seen.contains(key));
                            assert(node.map.keys@[j] == node.map.keys@[i - 1]);
                        }
                    }
                    assert forall|j: int| 0 <= j < i implies is_modal(
                        if map@.dom().contains(node.map.keys@[j]) {
                            Some(map@[node.map.keys@[j]])
                        } else {
                            None
                        },
                        #[trigger] node.map.values@[j],
                        component,
                    ) by {
                        if j < i - 1 {
                            assert(node.map.keys@[j] != key);
                        }
                    }
                }
            }
            assert(node.map.keys@.take(i as int) =~= node.map.keys@);
            if map.len() == 0 && node.fallback.is_none() {
                proof {
                    assert forall|j: int| 0 <= j < node.map.values@.len() implies is_modal(
                        None,
                        #[trigger] node.map.values@[j],
                        component,
                    ) by {
                        if map@.dom().contains(node.map.keys@[j]) {
                            assert(map.keys@.contains(node.map.keys@[j]));
                        }
                    }
                }
                return None;
            }
            let m = ModalKeyTrieNode {
                name: node.name.clone(),
                map,
                order: copy_ids(&node.order),
                is_sticky: node.is_sticky,
                fallback: share_fallback(&node.fallback),
            };
            proof {
                assert forall|j: int| 0 <= j < node.map.values@.len() implies is_modal(
                    modal_child(&m, node.map.keys@[j]),
                    #[trigger] node.map.values@[j],
                    component,
                ) by {}
            }
            Some(ModalKeyTrie::Node(Box::new(m)))
        },
    }
}

/// The part of a trie that works in a text field inside a component.
pub fn to_component_modal_trie(trie: &KeyTrie) -> (r: Option<ModalKeyTrie>)
    requires
        trie.wf(),
    ensures
        is_modal(r, *trie, true),
{
    convert(trie, true)
}

/// The part of a trie that the editing engine can run.
pub fn to_modal_trie(trie: &KeyTrie) -> (r: Option<ModalKeyTrie>)
    requires
        trie.wf(),
    ensures
        is_modal(r, *trie, false),
{
    convert(trie, false)
}

/// `modal` holds what is kept of the bindings of each mode, and no mode of which nothing is kept.
pub open spec fn is_modal_map(
    modal: Map<Mode, ModalKeyTrie>,
    map: Map<Mode, KeyTrie>,
    component: bool,
) -> bool {
    &&& forall|m: Mode| #[trigger] modal.dom().contains(m) ==> map.dom().contains(m)
    &&& forall|m: Mode| #[trigger]
        map.dom().contains(m) ==> is_modal(
            if modal.dom().contains(m) {
                Some(modal[m])
            } else {
                None
            },
            map[m],
            component,
        )
}

fn convert_map(map: &IdMap<Mode, KeyTrie>, component: bool) -> (r: IdMap<Mode, ModalKeyTrie>)
    requires
        map.wf(),
        forall|m: Mode| #[trigger] map@.dom().contains(m) ==> map@[m].wf(),
    ensures
        r.wf(),
        is_modal_map(r@, map@, component),
{
    let mut out: IdMap<Mode, ModalKeyTrie> = IdMap::new();
    let mut i: usize = 0;
    while i < map.keys.len()
        invariant
            i <= map.keys@.len(),
            map.wf(),
            forall|m: Mode| #[trigger] map@.dom().contains(m) ==> map@[m].wf(),
            out.wf(),
            forall|m: Mode| #[trigger]
                out@.dom().contains(m) ==> map.keys@.take(i as int).contains(m),
            forall|j: int|
                0 <= j < i ==> is_modal(
                    if out@.dom().contains(#[trigger] map.keys@[j]) {
                        Some(out@[map.keys@[j]])
                    } else {
                        None
                    },
                    map@[map.keys@[j]],
                    component,
                ),
        decreases map.keys@.len() - i,
    {
        let mode = map.keys[i];
        let ghost before = out@;
        let ghost seen = map.keys@.take(i as int);
        proof {
            assert(map.keys@.contains(mode));
            assert(map.keys@.index_of(mode) == i);
            assert(map@.dom().contains(mode));
        }
        if let Some(trie) = convert(&map.values[i], component) {
            out.insert(mode, trie);
        }
        i += 1;
        proof {
            let now_seen = map.keys@.take(i as int);
            assert forall|m: Mode| #[trigger] out@.dom().contains(m) implies now_seen.contains(
                m,
            ) by {
                if m == mode {
                    assert(now_seen[i - 1] == mode);
                } else {
                    assert(before.dom().contains(m));
                    assert(now_seen[seen.index_of(m)] == m);
                }
            }
            assert(!before.dom().contains(mode)) by {
                if before.dom().contains(mode) {
                    assert(seen.contains(mode));
                    assert(map.keys@[seen.index_of(mode)] == map.keys@[i - 1]);
                }
            }
            assert forall|j: int| 0 <= j < i implies is_modal(
                if out@.dom().contains(#[trigger] map.keys@[j]) {
                    Some(out@[map.keys@[j]])
                } else {
                    None
                },
                map@[map.keys@[j]],
                component,
            ) by {
                if j < i - 1 {
                    assert(map.keys@[j] != mode);
                }
            }
        }
    }
    proof {
        assert(map.keys@.take(i as int) =~= map.keys@);
        assert forall|m: Mode| #[trigger] map@.dom().contains(m) implies is_modal(
            if out@.dom().contains(m) {
                Some(out@[m])
            } else {
                None
            },
            map@[m],
            component,
        ) by {
            let j = map.keys@.index_of(m);
            assert(map.keys@[j] == m);
        }
    }
    out
}

pub fn to_component_modal_keymaps(map: &IdMap<Mode, KeyTrie>) -> (r: IdMap<Mode, ModalKeyTrie>)
    requires
        map.wf(),
        forall|m: Mode| #[trigger] map@.dom().contains(m) ==> map@[m].wf(),
    ensures
        r.wf(),
        is_modal_map(r@, map@, true),
{
    convert_map(map, true)
}

pub fn to_modal_keymaps(map: &IdMap<Mode, KeyTrie>) -> (r: IdMap<Mode, ModalKeyTrie>)
    requires
        map.wf(),
        forall|m: Mode| #[trigger] map@.dom().contains(m) ==> map@[m].wf(),
    ensures
        r.wf(),
        is_modal_map(r@, map@, false),
{
    convert_map(map, false)
}

/// What the keys lead to in a modal trie.
pub open spec fn modal_found(trie: ModalKeyTrie, keys: Seq<KeyEvent>) -> Option<ModalKeyTrie>
    decreases keys.len(),
{
    if keys.len() == 0 {
        Some(trie)
    } else {
        match trie {
            ModalKeyTrie::Node(node) => match modal_child(&*node, keys[0]) {
                Some(next) => modal_found(next, keys.skip(1)),
                None => None,
            },
            _ => None,
        }
    }
}

/// Keys that lead to a command lead to the same command in the part that is kept, if it is kept,
/// and to nothing if it is not.
pub proof fn law_modal_keymap_finds_exactly_what_is_kept(
    modal: Option<ModalKeyTrie>,
    trie: KeyTrie,
    component: bool,
    keys: Seq<KeyEvent>,
    command: Arc<MappableCommand>,
)
    requires
        is_modal(modal, trie, component),
        trie.wf(),
        crate::keymap::trie::found(trie, keys) == Some(KeyTrie::MappableCommand(command)),
    ensures
        ({
            let led = match modal {
                Some(m) => modal_found(m, keys),
                None => None,
            };
            match led {
                Some(ModalKeyTrie::Command(binding)) => kept(*command, component) && binds(
                    binding,
                    *command,
                ),
                None => !kept(*command, component),
                _ => false,
            }
        }),
    decreases keys.len(),
{
    if keys.len() > 0 {
        match trie {
            KeyTrie::Node(node) => {
                let k = keys[0];
                let i = node.map.keys@.index_of(k);
                assert(node.map.keys@[i] == k);
                assert(node.map.values@[i].wf());
                let next = match modal {
                    Some(ModalKeyTrie::Node(m)) => modal_child(&*m, k),
                    _ => None,
                };
                assert(is_modal(next, node.map.values@[i], component));
                law_modal_keymap_finds_exactly_what_is_kept(
                    next,
                    node.map@[k],
                    component,
                    keys.skip(1),
                    command,
                );
            },
            _ => {},
        }
    }
}

/// Whether everything the trie leads to is carried out by the front end.
pub open spec fn all_frontend(trie: KeyTrie) -> bool
    decreases trie,
{
    match trie {
        KeyTrie::MappableCommand(command) => command.scope == CommandScope::Frontend,
        KeyTrie::Sequence(commands) => forall|i: int|
            0 <= i < commands@.len() ==> (#[trigger] commands@[i]).scope == CommandScope::Frontend,
        KeyTrie::Node(node) => {
            &&& forall|i: int|
                0 <= i < node.map.values@.len() ==> all_frontend(#[trigger] node.map.values@[i])
            &&& node.fallback is None
        },
    }
}

pub fn is_frontend_command(command: &MappableCommand) -> (r: bool)
    ensures
        r == (command.scope == CommandScope::Frontend),
{
    command.scope == CommandScope::Frontend
}

fn all_frontend_commands(commands: &Vec<Arc<MappableCommand>>) -> (r: bool)
    ensures
        r == (forall|i: int|
            0 <= i < commands@.len() ==> (#[trigger] commands@[i]).scope == CommandScope::Frontend),
{
    let mut i: usize = 0;
    while i < commands.len()
        invariant
            i <= commands@.len(),
            forall|j: int|
                0 <= j < i ==> (#[trigger] commands@[j]).scope == CommandScope::Frontend,
        decreases commands@.len() - i,
    {
        if !is_frontend_command(&commands[i]) {
            assert(commands@[i as int].scope != CommandScope::Frontend);
            return false;
        }
        i += 1;
    }
    true
}

pub fn keytrie_is_frontend(trie: &KeyTrie) -> (r: bool)
    ensures
        r == all_frontend(*trie),
    decreases *trie,
{
    match trie {
        KeyTrie::MappableCommand(command) => is_frontend_command(command),
        KeyTrie::Sequence(commands) => all_frontend_commands(commands),
        KeyTrie::Node(node) => {
            let mut i: usize = 0;
            while i < node.map.values.len()
                invariant
                    i <= node.map.values@.len(),
                    *trie == KeyTrie::Node(*node),
                    forall|j: int|
                        0 <= j < i ==> all_frontend(#[trigger] node.map.values@[j]),
                decreases node.map.values@.len() - i,
            {
                proof {
                    let value = node.map.values@[i as int];
                    assert(decreases_to!(*trie => trie->Node_0));
                    assert(decreases_to!(**node => value));
                }
                if !keytrie_is_frontend(&node.map.values[i]) {
                    assert(!all_frontend(node.map.values@[i as int]));
                    return false;
                }
                i += 1;
            }
            node.fallback.is_none()
        },
    }
}

/// Whether a result is for the front end alone.
pub fn is_frontend_result(result: &KeymapResult) -> (r: bool)
    ensures
        r == match *result {
            KeymapResult::Pending(node) => all_frontend(KeyTrie::Node(node)),
            KeymapResult::Matched(command) => command.scope == CommandScope::Frontend,
            KeymapResult::MatchedSequence(commands) => all_frontend(KeyTrie::Sequence(commands)),
            KeymapResult::NotFound | KeymapResult::Cancelled(_) | KeymapResult::Fallback(_, _) =>
                false,
        },
{
    match result {
        KeymapResult::Pending(node) => keytrie_is_frontend(&KeyTrie::Node(node.clone())),
        KeymapResult::Matched(command) => is_frontend_command(command),
        KeymapResult::MatchedSequence(commands) => all_frontend_commands(commands),
        KeymapResult::NotFound | KeymapResult::Cancelled(_) | KeymapResult::Fallback(_, _) => false,
    }
}

/// What the editing engine is told of a key.
#[derive(Debug)]
pub enum KeymapLookup {
    Matched(u64),
    MatchedSequence(Vec<u64>),
    Pending(Info),
    NotFound,
    Cancelled(Vec<KeyEvent>),
    Fallback(u64, char),
}

/// The numbers of those commands that the editing engine knows.
pub open spec fn engine_tokens(commands: Seq<Arc<MappableCommand>>) -> Seq<u64>
    decreases commands.len(),
{
    if commands.len() == 0 {
        seq![]
    } else {
        let rest = engine_tokens(commands.drop_last());
        match engine_token(*commands.last()) {
            Some(token) => rest.push(token),
            None => rest,
        }
    }
}

/// Convert a result of the front end into one for the editing engine. Commands that the engine
/// does not know are not found there.
pub fn resolve_keymap_result(result: &KeymapResult) -> (r: KeymapLookup)
    requires
        match *result {
            KeymapResult::Pending(node) => crate::keymap::infobox::showable(&*node),
            _ => true,
        },
    ensures
        match *result {
            KeymapResult::Matched(command) => match engine_token(*command) {
                Some(token) => r == KeymapLookup::Matched(token),
                None => r == KeymapLookup::NotFound,
            },
            KeymapResult::MatchedSequence(commands) => if engine_tokens(commands@).len() == 0 {
                r == KeymapLookup::NotFound
            } else {
                r matches KeymapLookup::MatchedSequence(tokens) && tokens@ == engine_tokens(
                    commands@,
                )
            },
            KeymapResult::Pending(node) => r matches KeymapLookup::Pending(info)
                && crate::keymap::infobox::shows(info, &*node),
            KeymapResult::NotFound => r == KeymapLookup::NotFound,
            KeymapResult::Cancelled(keys) => r matches KeymapLookup::Cancelled(k) && k@ == keys@,
            KeymapResult::Fallback(id, ch) => r == KeymapLookup::Fallback(id, ch),
        },
{
    match result {
        KeymapResult::Matched(command) => match keeps(command, false) {
            Some(token) => KeymapLookup::Matched(token),
            None => KeymapLookup::NotFound,
        },
        KeymapResult::MatchedSequence(commands) => {
            let mut tokens: Vec<u64> = Vec::new();
            let mut i: usize = 0;
            assert(commands@.take(0) =~= seq![]);
            assert(tokens@ =~= seq![]);
            while i < commands.len()
                invariant
                    i <= commands@.len(),
                    tokens@ == engine_tokens(commands@.take(i as int)),
                decreases commands@.len() - i,
            {
                assert(commands@.take(i + 1).drop_last() =~= commands@.take(i as int));
                if let Some(token) = keeps(&commands[i], false) {
                    tokens.push(token);
                }
                i += 1;
            }
            assert(commands@.take(i as int) =~= commands@);
            if tokens.len() == 0 {
                KeymapLookup::NotFound
            } else {
                KeymapLookup::MatchedSequence(tokens)
            }
        },
        KeymapResult::Pending(node) => KeymapLookup::Pending(node.infobox()),
        KeymapResult::NotFound => KeymapLookup::NotFound,
        KeymapResult::Cancelled(keys) => KeymapLookup::Cancelled(copy_ids(keys)),
        KeymapResult::Fallback(id, ch) => KeymapLookup::Fallback(*id, *ch),
    }
}

/// Below a node the keys of engine commands that may run lead to their tokens; keys of other
/// commands lead nowhere.
pub proof fn law_engine_commands_stay_below_their_keys(
    m: Box<ModalKeyTrieNode>,
    node: Arc<KeyTrieNode>,
    component: bool,
    key: KeyEvent,
    command: Arc<MappableCommand>,
)
    requires
        is_modal(Some(ModalKeyTrie::Node(m)), KeyTrie::Node(node), component),
        node.map.wf(),
        node.map@.dom().contains(key),
        node.map@[key] == KeyTrie::MappableCommand(command),
    ensures
        ({
            let runs = command.kind is Engine && (component ==> command.component_region);
            &&& m.map@.dom().contains(key) <==> runs
            &&& runs ==> (m.map@[key] matches ModalKeyTrie::Command(binding) && command.kind
                == (CommandKind::Engine { token: binding.token }) && binding.doc == command.doc)
        }),
        m.name == node.name,
        m.is_sticky == node.is_sticky,
        m.fallback == node.fallback,
{
    let at = node.map.keys@.index_of(key);
    assert(node.map.values@[at] == node.map@[key]);
    assert(is_modal(modal_child(&*m, node.map.keys@[at]), node.map.values@[at], component));
}

/// Of several commands the tokens of the engine's are left, in order.
pub proof fn law_tokens_of_a_sequence_stay_in_order(
    commands: Seq<Arc<MappableCommand>>,
    command: Arc<MappableCommand>,
)
    ensures
        engine_tokens(Seq::<Arc<MappableCommand>>::empty()).len() == 0,
        command.kind matches CommandKind::Engine { token } ==> engine_tokens(commands.push(command))
            == engine_tokens(commands).push(token),
        !(command.kind is Engine) ==> engine_tokens(commands.push(command)) == engine_tokens(
            commands,
        ),
        command.kind is Engine ==> kept_commands(commands.push(command), false) == kept_commands(
            commands,
            false,
        ).push(command),
        !(command.kind is Engine) ==> kept_commands(commands.push(command), false)
            == kept_commands(commands, false),
        command.kind is Engine && command.component_region ==> kept_commands(
            commands.push(command),
            true,
        ) == kept_commands(commands, true).push(command),
        !(command.kind is Engine && command.component_region) ==> kept_commands(
            commands.push(command),
            true,
        ) == kept_commands(commands, true),
{
    assert(commands.push(command).drop_last() =~= commands);
}

/// A binding is the front end's exactly if every command that it leads to is; one that waits for
/// any character is not.
pub proof fn law_frontend_bindings_lead_to_the_frontend_alone(node: Arc<KeyTrieNode>, i: int)
    requires
        all_frontend(KeyTrie::Node(node)),
        0 <= i < node.map.values@.len(),
    ensures
        node.fallback is None,
        all_frontend(node.map.values@[i]),
        node.map.values@[i] matches KeyTrie::MappableCommand(command) ==> command.scope
            == CommandScope::Frontend,
{
}

/// Every mode that leads anywhere in the engine is there, and no other.
pub proof fn law_modes_are_kept(
    modal: Map<Mode, ModalKeyTrie>,
    map: Map<Mode, KeyTrie>,
    component: bool,
    mode: Mode,
)
    requires
        is_modal_map(modal, map, component),
    ensures
        modal.dom().contains(mode) ==> map.dom().contains(mode) && is_modal(
            Some(modal[mode]),
            map[mode],
            component,
        ),
        map.dom().contains(mode) && (map[mode] matches KeyTrie::Node(node) && node.fallback is Some)
            ==> modal.dom().contains(mode),
{
}

/// A binding keeps the words of its command, and two commands that it stands for do the same.
pub proof fn law_bindings_keep_their_words(
    binding: ModalCommandBinding,
    a: MappableCommand,
    b: MappableCommand,
)
    requires
        binds(binding, a),
    ensures
        binding.doc == a.doc,
        engine_token(a) == Some(binding.token),
        binds(binding, b) ==> engine_token(b) == engine_token(a) && b.doc == a.doc,
{
}

} // verus!
