//! Looking keys up, one at a time.

use std::sync::Arc;

use vstd::prelude::*;

use crate::keymap::trie;
use crate::keymap::key;
use crate::collections::IdMap;
use crate::keymap::key::{KeyEvent, Mode};
use crate::keymap::trie::{KeyTrie, KeyTrieNode, MappableCommand};

verus! {

/// What a key leads to.
#[derive(Debug)]
pub enum KeymapResult {
    /// Needs more keys to execute a command. Contains valid keys for the next keystroke.
    Pending(Arc<KeyTrieNode>),
    Matched(Arc<MappableCommand>),
    /// Matched a sequence of commands to execute.
    MatchedSequence(Arc<Vec<Arc<MappableCommand>>>),
    /// The key was not found in the root keymap.
    NotFound,
    /// The key is invalid in combination with previous keys. Contains the keys leading up to and
    /// including the invalid key.
    Cancelled(Vec<KeyEvent>),
    /// The node takes any character.
    Fallback(u64, char),
}

/// What a [`KeymapResult`] says.
pub enum ResultView {
    Pending(Arc<KeyTrieNode>),
    Matched(Arc<MappableCommand>),
    MatchedSequence(Arc<Vec<Arc<MappableCommand>>>),
    NotFound,
    Cancelled(Seq<KeyEvent>),
    Fallback(u64, char),
}

impl View for KeymapResult {
    type V = ResultView;

    open spec fn view(&self) -> ResultView {
        match *self {
            KeymapResult::Pending(node) => ResultView::Pending(node),
            KeymapResult::Matched(command) => ResultView::Matched(command),
            KeymapResult::MatchedSequence(commands) => ResultView::MatchedSequence(commands),
            KeymapResult::NotFound => ResultView::NotFound,
            KeymapResult::Cancelled(keys) => ResultView::Cancelled(keys@),
            KeymapResult::Fallback(id, ch) => ResultView::Fallback(id, ch),
        }
    }
}

/// The keys typed so far and the sticky node in use.
pub struct Progress {
    pub state: Seq<KeyEvent>,
    pub sticky: Option<Arc<KeyTrieNode>>,
}

/// What one more key leads to, and what is pending after it. Escape cancels pending keys; with
/// none pending it leaves the sticky node. Keys are looked up in the sticky node where one is in
/// use. A key whose first key is bound to a command outright runs the command.
pub open spec fn looked_up(keymap: KeyTrie, progress: Progress, key: KeyEvent) -> (
    ResultView,
    Progress,
) {
    if key == key::escape() && progress.state.len() > 0 {
        (
            ResultView::Cancelled(progress.state),
            Progress { state: seq![], sticky: progress.sticky },
        )
    } else {
        let sticky = if key == key::escape() {
            None
        } else {
            progress.sticky
        };
        let root = match sticky {
            Some(node) => KeyTrie::Node(node),
            None => keymap,
        };
        let keys = progress.state.push(key);
        match trie::found(root, seq![keys[0]]) {
            None => (ResultView::NotFound, Progress { state: progress.state, sticky }),
            Some(KeyTrie::MappableCommand(command)) => (
                ResultView::Matched(command),
                Progress { state: progress.state, sticky },
            ),
            Some(KeyTrie::Sequence(commands)) => (
                ResultView::MatchedSequence(commands),
                Progress { state: progress.state, sticky },
            ),
            Some(KeyTrie::Node(first)) => match trie::found(KeyTrie::Node(first), keys.skip(1)) {
                Some(KeyTrie::Node(node)) => (
                    ResultView::Pending(node),
                    if node.is_sticky {
                        Progress { state: seq![], sticky: Some(node) }
                    } else {
                        Progress { state: keys, sticky }
                    },
                ),
                Some(KeyTrie::MappableCommand(command)) => (
                    ResultView::Matched(command),
                    Progress { state: seq![], sticky },
                ),
                Some(KeyTrie::Sequence(commands)) => (
                    ResultView::MatchedSequence(commands),
                    Progress { state: seq![], sticky },
                ),
                None => (
                    match (key.typed(), trie::found_fallback(KeyTrie::Node(first), keys.skip(1))) {
                        (Some(ch), Some(fallback)) => ResultView::Fallback(fallback.id, ch),
                        _ => ResultView::Cancelled(keys),
                    },
                    Progress { state: seq![], sticky },
                ),
            },
        }
    }
}

pub open spec fn sticky_wf(sticky: Option<Arc<KeyTrieNode>>) -> bool {
    match sticky {
        Some(node) => trie::node_wf(*node),
        None => true,
    }
}

/// Looks one more key up.
pub fn lookup_keymap(
    keymap: &KeyTrie,
    state: &mut Vec<KeyEvent>,
    sticky: &mut Option<Arc<KeyTrieNode>>,
    key: KeyEvent,
) -> (r: KeymapResult)
    requires
        keymap.wf(),
        sticky_wf(*old(sticky)),
    ensures
        sticky_wf(*final(sticky)),
        (r@, (Progress { state: final(state)@, sticky: *final(sticky) })) == looked_up(
            *keymap,
            (Progress { state: old(state)@, sticky: *old(sticky) }),
            key,
        ),
{
    let ghost before = state@;
    if key.is_escape() {
        if state.len() > 0 {
            let mut keys: Vec<KeyEvent> = Vec::new();
            std::mem::swap(&mut keys, state);
            assert(state@ =~= seq![]);
            return KeymapResult::Cancelled(keys);
        }
        *sticky = None;
    }
    let first = if state.len() > 0 {
        state[0]
    } else {
        key
    };
    let root = match &*sticky {
        Some(node) => KeyTrie::Node(node.clone()),
        None => keymap.share(),
    };
    let path = vec![first];
    assert(path@ =~= seq![before.push(key)[0]]);
    let trie = match root.search(path.as_slice()) {
        Some(KeyTrie::MappableCommand(command)) => {
            return KeymapResult::Matched(command.clone());
        },
        Some(KeyTrie::Sequence(commands)) => {
            return KeymapResult::MatchedSequence(commands.clone());
        },
        None => {
            return KeymapResult::NotFound;
        },
        Some(trie) => trie.share(),
    };
    state.push(key);
    let rest = tail(state);
    match trie.search(rest.as_slice()) {
        Some(KeyTrie::Node(node)) => {
            if node.is_sticky {
                state.clear();
                *sticky = Some(node.clone());
            }
            KeymapResult::Pending(node.clone())
        },
        Some(KeyTrie::MappableCommand(command)) => {
            state.clear();
            KeymapResult::Matched(command.clone())
        },
        Some(KeyTrie::Sequence(commands)) => {
            state.clear();
            KeymapResult::MatchedSequence(commands.clone())
        },
        None => {
            if let Some(ch) = key.char() {
                if let Some(fallback) = trie.search_fallback(rest.as_slice()) {
                    state.clear();
                    return KeymapResult::Fallback(fallback.id, ch);
                }
            }
            let mut keys: Vec<KeyEvent> = Vec::new();
            std::mem::swap(&mut keys, state);
            assert(state@ =~= seq![]);
            KeymapResult::Cancelled(keys)
        },
    }
}

/// All keys but the first.
fn tail(keys: &Vec<KeyEvent>) -> (r: Vec<KeyEvent>)
    requires
        keys@.len() > 0,
    ensures
        r@ == keys@.skip(1),
{
    let mut out: Vec<KeyEvent> = Vec::new();
    let mut i: usize = 1;
    while i < keys.len()
        invariant
            1 <= i <= keys@.len(),
            out@ == keys@.subrange(1, i as int),
        decreases keys@.len() - i,
    {
        out.push(keys[i]);
        i += 1;
        assert(keys@.subrange(1, i as int) =~= keys@.subrange(1, i - 1).push(keys@[i - 1]));
    }
    assert(keys@.subrange(1, i as int) =~= keys@.skip(1));
    out
}

/// The bindings of every mode, and what is pending.
pub struct Keymaps {
    pub map: IdMap<Mode, KeyTrie>,
    /// The keys that wait for the next key. They are relative to a sticky node if one is in use.
    pub state: Vec<KeyEvent>,
    pub sticky: Option<Arc<KeyTrieNode>>,
}

impl Keymaps {
    pub open spec fn wf(&self) -> bool {
        &&& self.map.wf()
        &&& forall|m: Mode| #[trigger] self.map@.dom().contains(m) ==> self.map@[m].wf()
        &&& sticky_wf(self.sticky)
    }

    pub open spec fn progress(&self) -> Progress {
        Progress { state: self.state@, sticky: self.sticky }
    }

    pub fn new(map: IdMap<Mode, KeyTrie>) -> (r: Self)
        requires
            map.wf(),
            forall|m: Mode| #[trigger] map@.dom().contains(m) ==> map@[m].wf(),
        ensures
            r.wf(),
            r.map == map,
            r.progress() == (Progress { state: Seq::<KeyEvent>::empty(), sticky: None }),
    {
        Keymaps { map, state: Vec::new(), sticky: None }
    }

    /// The keys waiting to be disambiguated.
    pub fn pending(&self) -> (r: &Vec<KeyEvent>)
        ensures
            r@ == self.progress().state,
    {
        &self.state
    }

    /// Whether the pending keys lead to a node with a binding for the key.
    pub fn contains_key(&self, mode: Mode, key: KeyEvent) -> (r: bool)
        requires
            self.wf(),
            self.map@.dom().contains(mode),
        ensures
            r == match trie::found(self.map@[mode], self.state@) {
                Some(KeyTrie::Node(node)) => trie::child(&*node, key) is Some,
                _ => false,
            },
    {
        match self.map.get(mode) {
            Some(keymap) => match keymap.search(self.state.as_slice()) {
                Some(KeyTrie::Node(node)) => node.map.contains_key(key),
                _ => false,
            },
            None => false,
        }
    }

    /// Look `key` up to find a command to execute. The escape key cancels pending keys. If there
    /// are none but a sticky node is in use, it is left.
    pub fn get(&mut self, mode: Mode, key: KeyEvent) -> (r: KeymapResult)
        requires
            old(self).wf(),
            old(self).map@.dom().contains(mode),
        ensures
            final(self).wf(),
            final(self).map == old(self).map,
            (r@, final(self).progress()) == looked_up(
                old(self).map@[mode],
                old(self).progress(),
                key,
            ),
    {
        match self.map.get(mode) {
            Some(keymap) => lookup_keymap(keymap, &mut self.state, &mut self.sticky, key),
            None => KeymapResult::NotFound,
        }
    }

    pub fn has_sticky(&self) -> (r: bool)
        ensures
            r == (self.sticky is Some),
    {
        self.sticky.is_some()
    }

    pub fn clear_sticky(&mut self)
        ensures
            final(self).sticky is None,
            final(self).map == old(self).map,
            final(self).state == old(self).state,
    {
        self.sticky = None;
    }
}

/// Escape always ends a pending sequence of keys: nothing is pending after it, and the sticky
/// node, which it leaves only where no keys were pending, can be left by pressing it again.
pub proof fn law_escape_cancels(keymap: KeyTrie, progress: Progress)
    requires
        progress.state.len() > 0,
    ensures
        ({
            let (result, after) = looked_up(keymap, progress, key::escape());
            &&& result == ResultView::Cancelled(progress.state)
            &&& after.state.len() == 0
            &&& after.sticky == progress.sticky
            &&& match trie::found(keymap, seq![key::escape()]) {
                None => looked_up(keymap, after, key::escape()).1.sticky is None,
                _ => true,
            }
        }),
{
    let (_, after) = looked_up(keymap, progress, key::escape());
    assert(after.state.push(key::escape()) =~= seq![key::escape()]);
}

/// A key never leaves more pending than was pending before it, plus itself, and what is pending
/// after it is either nothing, the same, or the same with the key.
pub proof fn law_pending_keys_grow_one_at_a_time(keymap: KeyTrie, progress: Progress, key: KeyEvent)
    ensures
        ({
            let after = looked_up(keymap, progress, key).1;
            after.state.len() == 0 || after.state == progress.state || after.state
                == progress.state.push(key)
        }),
{
}

/// What the last of several keys leads to, when they are typed one after the other, and what is
/// pending then.
pub open spec fn typed_all(keymap: KeyTrie, progress: Progress, keys: Seq<KeyEvent>) -> (
    ResultView,
    Progress,
)
    decreases keys.len(),
{
    if keys.len() <= 1 {
        looked_up(keymap, progress, keys[0])
    } else {
        looked_up(keymap, typed_all(keymap, progress, keys.drop_last()).1, keys.last())
    }
}

/// Where keys are looked up: in the sticky node, if one is in use.
pub open spec fn lookup_root(keymap: KeyTrie, sticky: Option<Arc<KeyTrieNode>>) -> KeyTrie {
    match sticky {
        Some(node) => KeyTrie::Node(node),
        None => keymap,
    }
}

/// Typing the keys of a path, with nothing pending before, leads to what is at its end: a command
/// or a sequence of commands is matched and nothing is pending any more; at a node all keys that
/// were typed are pending, unless it is sticky: then it is in use, and none are. On the way there
/// is no escape and no sticky node.
pub proof fn law_paths_are_typed_to_their_end(
    keymap: KeyTrie,
    sticky: Option<Arc<KeyTrieNode>>,
    keys: Seq<KeyEvent>,
    end: KeyTrie,
)
    requires
        keys.len() > 0,
        forall|i: int| 0 <= i < keys.len() ==> #[trigger] keys[i] != key::escape(),
        forall|i: int|
            0 < i < keys.len() ==> (#[trigger] trie::found(
                lookup_root(keymap, sticky),
                keys.take(i),
            ) matches Some(KeyTrie::Node(node)) && !node.is_sticky),
        trie::found(lookup_root(keymap, sticky), keys) == Some(end),
    ensures
        ({
            let (result, after) = typed_all(keymap, Progress { state: seq![], sticky }, keys);
            match end {
                KeyTrie::MappableCommand(command) => {
                    &&& result == ResultView::Matched(command)
                    &&& after == (Progress { state: seq![], sticky })
                },
                KeyTrie::Sequence(commands) => {
                    &&& result == ResultView::MatchedSequence(commands)
                    &&& after == (Progress { state: seq![], sticky })
                },
                KeyTrie::Node(node) => {
                    &&& result == ResultView::Pending(node)
                    &&& after == if node.is_sticky {
                        Progress { state: seq![], sticky: Some(node) }
                    } else {
                        Progress { state: keys, sticky }
                    }
                },
            }
        }),
    decreases keys.len(),
{
    let root = lookup_root(keymap, sticky);
    let start = Progress { state: seq![], sticky };
    let before = keys.drop_last();
    let last = keys.last();
    assert(keys[keys.len() - 1] == last);
    let progress = if keys.len() == 1 {
        start
    } else {
        assert(before =~= keys.take(keys.len() - 1));
        let between = trie::found(root, keys.take(keys.len() - 1))->0;
        assert forall|i: int| 0 < i < before.len() implies (#[trigger] trie::found(
            root,
            before.take(i),
        ) matches Some(KeyTrie::Node(node)) && !node.is_sticky) by {
            assert(before.take(i) =~= keys.take(i));
            assert(trie::found(root, keys.take(i)) is Some);
        }
        assert forall|i: int| 0 <= i < before.len() implies #[trigger] before[i]
            != key::escape() by {
            assert(before[i] == keys[i]);
        }
        law_paths_are_typed_to_their_end(keymap, sticky, before, between);
        typed_all(keymap, start, before).1
    };
    assert(progress.state =~= before);
    assert(progress.state.push(last) =~= keys);
    trie::law_keys_lead_on(root, seq![keys[0]], keys.skip(1));
    assert(seq![keys[0]] + keys.skip(1) =~= keys);
    if keys.len() == 1 {
        assert(seq![keys[0]] =~= keys);
        assert(keys.skip(1) =~= seq![]);
    } else {
        assert(keys.take(1) =~= seq![keys[0]]);
        assert(trie::found(root, keys.take(1)) is Some);
    }
    assert(seq![keys[0]] =~= seq![progress.state.push(last)[0]]);
}

/// A key that does not go with the keys typed before it ends them: it is told with all of them, or
/// falls back where the node that they lead to takes any character, and nothing is pending.
pub proof fn law_keys_that_do_not_go_together_are_told(
    keymap: KeyTrie,
    sticky: Option<Arc<KeyTrieNode>>,
    keys: Seq<KeyEvent>,
    node: Arc<KeyTrieNode>,
    key: KeyEvent,
)
    requires
        keys.len() > 0,
        key != key::escape(),
        trie::found(lookup_root(keymap, sticky), keys) == Some(KeyTrie::Node(node)),
        !node.map@.dom().contains(key),
    ensures
        ({
            let (result, after) = looked_up(keymap, Progress { state: keys, sticky }, key);
            &&& after == (Progress { state: seq![], sticky })
            &&& result == match (key.typed(), node.fallback) {
                (Some(ch), Some(fallback)) => ResultView::Fallback(fallback.id, ch),
                _ => ResultView::Cancelled(keys.push(key)),
            }
        }),
{
    let root = lookup_root(keymap, sticky);
    let all = keys.push(key);
    assert(seq![keys[0]] + keys.skip(1) =~= keys);
    trie::law_keys_lead_on(root, seq![keys[0]], keys.skip(1));
    let first = trie::found(root, seq![keys[0]])->0;
    assert(all.skip(1) =~= keys.skip(1).push(key));
    assert(seq![all[0]] =~= seq![keys[0]]);
    if let KeyTrie::Node(_) = first {
    } else if keys.skip(1).len() > 0 {
        trie::law_leaves_have_nothing_below(first, keys.skip(1));
    }
    trie::law_fallbacks_are_for_the_last_key(first, node, keys.skip(1), key);
}

/// A first key that is bound to nothing changes nothing.
pub proof fn law_unknown_first_keys_change_nothing(
    keymap: KeyTrie,
    sticky: Option<Arc<KeyTrieNode>>,
    key: KeyEvent,
)
    requires
        key != key::escape(),
        trie::found(lookup_root(keymap, sticky), seq![key]) is None,
    ensures
        looked_up(keymap, Progress { state: seq![], sticky }, key) == (
            ResultView::NotFound,
            (Progress { state: seq![], sticky }),
        ),
{
    assert(Seq::<KeyEvent>::empty().push(key) =~= seq![key]);
}

/// A sticky node stays in use, whatever is typed, until escape is pressed with nothing pending or
/// another sticky node is reached.
pub proof fn law_sticky_nodes_stay(keymap: KeyTrie, progress: Progress, key: KeyEvent)
    requires
        key != key::escape() || progress.state.len() > 0,
    ensures
        ({
            let (result, after) = looked_up(keymap, progress, key);
            after.sticky == progress.sticky || (result matches ResultView::Pending(node)
                && node.is_sticky && after.sticky == Some(node))
        }),
{
}

} // verus!
