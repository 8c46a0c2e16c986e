//! Bindings as they are written in a configuration.

use std::sync::Arc;

use vstd::prelude::*;

use crate::collections::IdMap;
use crate::keymap::key::KeyEvent;
use crate::keymap::trie;
use crate::keymap::trie::{CommandKind, KeyTrie, KeyTrieNode, MappableCommand};

verus! {

/// Why the first text that names no command does not.
pub open spec fn first_error(commands: Seq<Result<Arc<MappableCommand>, String>>) -> Option<String>
    decreases commands.len(),
{
    if commands.len() == 0 {
        None
    } else {
        match commands[0] {
            Ok(_) => first_error(commands.drop_first()),
            Err(reason) => Some(reason),
        }
    }
}

pub open spec fn has_macro(commands: Seq<Result<Arc<MappableCommand>, String>>) -> bool {
    exists|i: int|
        0 <= i < commands.len() && match #[trigger] commands[i] {
            Ok(command) => command.kind is Macro,
            Err(_) => false,
        }
}

/// Why a binding is refused.
#[derive(Debug)]
pub enum BindingError {
    /// A text names no command.
    Command(String),
    /// Keys to type again stand among commands.
    MacroInSequence,
}

impl BindingError {
    pub open spec fn spec_message(self) -> Seq<char> {
        match self {
            BindingError::Command(reason) => reason@,
            BindingError::MacroInSequence =>
                "macro keybindings may not be used in command sequences"@,
        }
    }

    pub fn message(&self) -> (r: &str)
        ensures
            r@ == self.spec_message(),
    {
        match self {
            BindingError::Command(reason) => reason.as_str(),
            BindingError::MacroInSequence =>
                "macro keybindings may not be used in command sequences",
        }
    }
}

/// A binding to one command.
pub fn visit_str(command: Result<Arc<MappableCommand>, String>) -> (r: Result<
    KeyTrie,
    BindingError,
>)
    ensures
        match (r, command) {
            (Ok(trie), Ok(command)) => trie == KeyTrie::MappableCommand(command),
            (Err(error), Err(reason)) => error == BindingError::Command(reason),
            _ => false,
        },
{
    match command {
        Ok(command) => Ok(KeyTrie::MappableCommand(command)),
        Err(reason) => Err(BindingError::Command(reason)),
    }
}

/// A binding to several commands. Every text has to name a command, and none may stand for keys
/// to type again.
pub fn visit_seq(texts: Vec<Result<Arc<MappableCommand>, String>>) -> (r: Result<
    KeyTrie,
    BindingError,
>)
    ensures
        match r {
            Ok(KeyTrie::Sequence(commands)) => {
                &&& first_error(texts@) is None
                &&& !has_macro(texts@)
                &&& commands@.len() == texts@.len()
                &&& forall|i: int|
                    0 <= i < texts@.len() ==> texts@[i] == Ok::<Arc<MappableCommand>, String>(
                        #[trigger] commands@[i],
                    )
            },
            Ok(_) => false,
            Err(BindingError::Command(reason)) => first_error(texts@) == Some(reason),
            Err(BindingError::MacroInSequence) => first_error(texts@) is None && has_macro(texts@),
        },
{
    let ghost all = texts@;
    let mut commands: Vec<Arc<MappableCommand>> = Vec::new();
    assert(all.skip(0) =~= all);
    for text in it: texts
        invariant
            it.seq() == all,
            commands@.len() == it.index(),
            first_error(all.skip(it.index())) == first_error(all),
            forall|j: int|
                0 <= j < it.index() ==> all[j] == Ok::<Arc<MappableCommand>, String>(
                    #[trigger] commands@[j],
                ),
    {
        assert(all.skip(it.index()).drop_first() =~= all.skip(it.index() + 1));
        match text {
            Ok(command) => {
                commands.push(command);
            },
            Err(reason) => {
                return Err(BindingError::Command(reason));
            },
        }
    }
    assert(all.skip(all.len() as int) =~= Seq::empty());
    let mut i: usize = 0;
    while i < commands.len()
        invariant
            i <= commands@.len(),
            commands@.len() == all.len(),
            all == texts@,
            first_error(all) is None,
            forall|j: int|
                0 <= j < all.len() ==> all[j] == Ok::<Arc<MappableCommand>, String>(
                    #[trigger] commands@[j],
                ),
            forall|j: int| 0 <= j < i ==> !((#[trigger] commands@[j]).kind is Macro),
        decreases commands@.len() - i,
    {
        if let CommandKind::Macro = commands[i].kind {
            assert(all[i as int] == Ok::<Arc<MappableCommand>, String>(commands@[i as int]));
            return Err(BindingError::MacroInSequence);
        }
        i += 1;
    }
    proof {
        assert forall|j: int| 0 <= j < all.len() implies !match #[trigger] all[j] {
            Ok(command) => command.kind is Macro,
            Err(_) => false,
        } by {
            assert(all[j] == Ok::<Arc<MappableCommand>, String>(commands@[j]));
        }
    }
    Ok(KeyTrie::Sequence(Arc::new(commands)))
}

/// The bindings of a table, of which a later one replaces an earlier one for the same key.
pub open spec fn mapped(entries: Seq<(KeyEvent, KeyTrie)>) -> Map<KeyEvent, KeyTrie>
    decreases entries.len(),
{
    if entries.len() == 0 {
        Map::empty()
    } else {
        mapped(entries.drop_last()).insert(entries.last().0, entries.last().1)
    }
}

/// A table of bindings. They are shown in the order in which they are written.
pub fn visit_map(entries: Vec<(KeyEvent, KeyTrie)>) -> (r: KeyTrieNode)
    ensures
        r.map.wf(),
        r.map@ == mapped(entries@),
        r.order@ == entries@.map_values(|entry: (KeyEvent, KeyTrie)| entry.0),
        r.name@ == ""@,
        !r.is_sticky,
        r.fallback is None,
        (forall|i: int| 0 <= i < entries@.len() ==> (#[trigger] entries@[i]).1.wf())
            ==> trie::node_wf(r),
{
    let ghost all = entries@;
    let ghost keys = all.map_values(|entry: (KeyEvent, KeyTrie)| entry.0);
    let mut map: IdMap<KeyEvent, KeyTrie> = IdMap::new();
    let mut order: Vec<KeyEvent> = Vec::new();
    assert(all.take(0) =~= Seq::empty());
    for (key, value) in it: entries
        invariant
            it.seq() == all,
            keys == all.map_values(|entry: (KeyEvent, KeyTrie)| entry.0),
            map.wf(),
            map@ == mapped(all.take(it.index())),
            order@ == keys.take(it.index()),
            (forall|i: int| 0 <= i < all.len() ==> (#[trigger] all[i]).1.wf()) ==> (forall|j: int|
                0 <= j < map.values@.len() ==> (#[trigger] map.values@[j]).wf()),
    {
        let ghost before = map;
        assert(all.take(it.index() + 1).drop_last() =~= all.take(it.index()));
        assert(all[it.index()] == (key, value));
        map.insert(key, value);
        order.push(key);
        assert(order@ =~= keys.take(it.index() + 1));
        proof {
            if forall|i: int| 0 <= i < all.len() ==> (#[trigger] all[i]).1.wf() {
                assert forall|j: int| 0 <= j < map.values@.len() implies (
                #[trigger] map.values@[j]).wf() by {
                    let k = map.keys@[j];
                    assert(map.keys@.contains(k));
                    assert(map.keys@.index_of(k) == j);
                    assert(map@[k] == map.values@[j]);
                    if k != key {
                        assert(map@.dom().contains(k));
                        assert(before@.dom().contains(k));
                        assert(before.values@[before.keys@.index_of(k)].wf());
                    }
                }
            }
        }
    }
    assert(all.take(all.len() as int) =~= all);
    assert(keys.take(all.len() as int) =~= keys);
    KeyTrieNode::new("", map, order)
}

/// Of several commands that cannot be read the first is told.
pub proof fn law_the_first_failure_is_told(commands: Seq<Result<Arc<MappableCommand>, String>>)
    ensures
        match first_error(commands) {
            Some(reason) => exists|i: int|
                {
                    &&& 0 <= i < commands.len()
                    &&& #[trigger] commands[i] == Err::<Arc<MappableCommand>, String>(reason)
                    &&& forall|j: int| 0 <= j < i ==> #[trigger] commands[j] is Ok
                },
            None => forall|i: int| 0 <= i < commands.len() ==> #[trigger] commands[i] is Ok,
        },
    decreases commands.len(),
{
    if commands.len() > 0 {
        if commands[0] is Err {
            assert(commands[0] == Err::<Arc<MappableCommand>, String>(first_error(commands)->0));
        } else {
            let rest = commands.drop_first();
            law_the_first_failure_is_told(rest);
            match first_error(rest) {
                Some(reason) => {
                    let i = choose|i: int|
                        {
                            &&& 0 <= i < rest.len()
                            &&& #[trigger] rest[i] == Err::<Arc<MappableCommand>, String>(reason)
                            &&& forall|j: int| 0 <= j < i ==> #[trigger] rest[j] is Ok
                        };
                    assert(commands[i + 1] == rest[i]);
                    assert forall|j: int| 0 <= j < i + 1 implies #[trigger] commands[j] is Ok by {
                        if j > 0 {
                            assert(rest[j - 1] == commands[j]);
                        }
                    }
                },
                None => {
                    assert forall|i: int| 0 <= i < commands.len() implies #[trigger] commands[i]
                        is Ok by {
                        if i > 0 {
                            assert(rest[i - 1] == commands[i]);
                        }
                    }
                },
            }
        }
    }
}

/// A key leads where the last entry for it says, and no key leads anywhere without one.
pub proof fn law_the_last_entry_for_a_key_counts(entries: Seq<(KeyEvent, KeyTrie)>, i: int, key: KeyEvent)
    requires
        0 <= i < entries.len(),
        forall|j: int| i < j < entries.len() ==> (#[trigger] entries[j]).0 != entries[i].0,
    ensures
        mapped(entries).contains_pair(entries[i].0, entries[i].1),
        mapped(entries).dom().contains(key) ==> exists|j: int|
            0 <= j < entries.len() && (#[trigger] entries[j]).0 == key,
    decreases entries.len(),
{
    let front = entries.drop_last();
    assert(entries[entries.len() - 1] == entries.last());
    lemma_mapped_keys(entries, key);
    if i < front.len() {
        assert(entries[entries.len() - 1].0 != entries[i].0);
        assert forall|j: int| i < j < front.len() implies (#[trigger] front[j]).0
            != front[i].0 by {
            assert(front[j] == entries[j]);
        }
        law_the_last_entry_for_a_key_counts(front, i, key);
    }
}

proof fn lemma_mapped_keys(entries: Seq<(KeyEvent, KeyTrie)>, key: KeyEvent)
    ensures
        mapped(entries).dom().contains(key) ==> exists|j: int|
            0 <= j < entries.len() && (#[trigger] entries[j]).0 == key,
    decreases entries.len(),
{
    if entries.len() > 0 && mapped(entries).dom().contains(key) {
        let front = entries.drop_last();
        if entries.last().0 == key {
            assert(entries[entries.len() - 1].0 == key);
        } else {
            lemma_mapped_keys(front, key);
            let j = choose|j: int| 0 <= j < front.len() && (#[trigger] front[j]).0 == key;
            assert(entries[j] == front[j]);
        }
    }
}

} // verus!
