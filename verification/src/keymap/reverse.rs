//! From commands back to the keys that run them.

use std::sync::Arc;

use vstd::prelude::*;

use crate::collections::copy_ids;
use crate::keymap::key::KeyEvent;
use crate::keymap::trie;
use crate::keymap::trie::{CommandKind, KeyTrie, KeyTrieNode, MappableCommand};
use crate::text::same_text;

verus! {

/// What is bound in a trie that the keys of `prefix` lead to: keys and the name of the command,
/// for every command that has a name of its own.
pub open spec fn bindings(trie: KeyTrie, prefix: Seq<KeyEvent>) -> Seq<(Seq<KeyEvent>, Seq<char>)>
    decreases trie, 0nat,
{
    match trie {
        KeyTrie::MappableCommand(command) => if command.kind == CommandKind::Macro
            || command.name@ == "no_op"@ {
            seq![]
        } else {
            seq![(prefix, command.name@)]
        },
        KeyTrie::Sequence(_) => seq![],
        KeyTrie::Node(node) => node_bindings(&*node, prefix, node.map.values@.len()),
    }
}

/// What is bound under the first `n` keys of a node.
pub open spec fn node_bindings(node: &KeyTrieNode, prefix: Seq<KeyEvent>, n: nat) -> Seq<
    (Seq<KeyEvent>, Seq<char>),
>
    decreases *node, n,
{
    if n == 0 || n > node.map.values@.len() {
        seq![]
    } else {
        node_bindings(node, prefix, (n - 1) as nat) + bindings(
            node.map.values@[n - 1],
            prefix.push(node.map.keys@[n - 1]),
        )
    }
}

pub open spec fn paths_of(map: Map<Seq<char>, Seq<Seq<KeyEvent>>>, name: Seq<char>) -> Seq<
    Seq<KeyEvent>,
> {
    if map.dom().contains(name) {
        map[name]
    } else {
        seq![]
    }
}

/// The map with each of the bindings filed under its name, in turn.
pub open spec fn filed(
    map: Map<Seq<char>, Seq<Seq<KeyEvent>>>,
    found: Seq<(Seq<KeyEvent>, Seq<char>)>,
) -> Map<Seq<char>, Seq<Seq<KeyEvent>>>
    decreases found.len(),
{
    if found.len() == 0 {
        map
    } else {
        let rest = filed(map, found.drop_last());
        let (keys, name) = found.last();
        rest.insert(name, paths_of(rest, name).push(keys))
    }
}

proof fn lemma_filed_concat(
    map: Map<Seq<char>, Seq<Seq<KeyEvent>>>,
    a: Seq<(Seq<KeyEvent>, Seq<char>)>,
    b: Seq<(Seq<KeyEvent>, Seq<char>)>,
)
    ensures
        filed(map, a + b) == filed(filed(map, a), b),
    decreases b.len(),
{
    if b.len() == 0 {
        assert(a + b =~= a);
    } else {
        lemma_filed_concat(map, a, b.drop_last());
        assert((a + b).drop_last() =~= a + b.drop_last());
    }
}

pub open spec fn path_views(paths: Seq<Vec<KeyEvent>>) -> Seq<Seq<KeyEvent>> {
    paths.map_values(|p: Vec<KeyEvent>| p@)
}

/// A map of command names to the keys that execute the command.
pub struct ReverseKeymap {
    pub names: Vec<String>,
    pub paths: Vec<Vec<Vec<KeyEvent>>>,
}

impl ReverseKeymap {
    pub open spec fn name_views(&self) -> Seq<Seq<char>> {
        self.names@.map_values(|s: String| s@)
    }

    pub open spec fn wf(&self) -> bool {
        &&& self.name_views().no_duplicates()
        &&& self.names@.len() == self.paths@.len()
    }
}

impl View for ReverseKeymap {
    type V = Map<Seq<char>, Seq<Seq<KeyEvent>>>;

    open spec fn view(&self) -> Map<Seq<char>, Seq<Seq<KeyEvent>>> {
        Map::new(
            |n: Seq<char>| self.name_views().contains(n),
            |n: Seq<char>| path_views(self.paths@[self.name_views().index_of(n)]@),
        )
    }
}

impl ReverseKeymap {
    pub fn new() -> (r: Self)
        ensures
            r.wf(),
            r@ == Map::<Seq<char>, Seq<Seq<KeyEvent>>>::empty(),
    {
        let r = ReverseKeymap { names: Vec::new(), paths: Vec::new() };
        assert(r.name_views() =~= seq![]);
        assert(r@ =~= Map::<Seq<char>, Seq<Seq<KeyEvent>>>::empty());
        r
    }

    fn position(&self, name: &str) -> (r: Option<usize>)
        requires
            self.wf(),
        ensures
            match r {
                Some(i) => i < self.names@.len() && self.names@[i as int]@ == name@
                    && self.name_views().index_of(name@) == i && self.name_views().contains(name@),
                None => !self.name_views().contains(name@),
            },
    {
        let mut i: usize = 0;
        while i < self.names.len()
            invariant
                self.wf(),
                i <= self.names@.len(),
                forall|j: int| 0 <= j < i ==> (#[trigger] self.names@[j])@ != name@,
            decreases self.names@.len() - i,
        {
            if same_text(self.names[i].as_str(), name) {
                proof {
                    assert(self.name_views()[i as int] == name@);
                    let j = self.name_views().index_of(name@);
                    assert(self.name_views()[j] == name@);
                }
                return Some(i);
            }
            i += 1;
        }
        proof {
            if self.name_views().contains(name@) {
                let j = self.name_views().index_of(name@);
                assert(self.name_views()[j] == self.names@[j]@);
            }
        }
        None
    }

    /// The keys that run a command.
    pub fn get(&self, name: &str) -> (r: Option<&Vec<Vec<KeyEvent>>>)
        requires
            self.wf(),
        ensures
            match r {
                Some(paths) => self@.dom().contains(name@) && path_views(paths@) == self@[name@],
                None => !self@.dom().contains(name@),
            },
    {
        match self.position(name) {
            Some(i) => Some(&self.paths[i]),
            None => None,
        }
    }

    /// Files keys under the name of a command.
    fn file(&mut self, name: &str, keys: &Vec<KeyEvent>)
        requires
            old(self).wf(),
        ensures
            final(self).wf(),
            final(self)@ == old(self)@.insert(name@, paths_of(old(self)@, name@).push(keys@)),
    {
        let path = copy_ids(keys);
        let ghost before = *self;
        match self.position(name) {
            Some(i) => {
                self.paths[i].push(path);
                proof {
                    assert(self.name_views() == before.name_views());
                    assert(path_views(self.paths@[i as int]@) =~= path_views(
                        before.paths@[i as int]@,
                    ).push(keys@));
                    assert forall|n: Seq<char>| self.name_views().contains(n) && n != name@ implies path_views(
                        self.paths@[self.name_views().index_of(n)]@,
                    ) == path_views(before.paths@[before.name_views().index_of(n)]@) by {
                        let j = self.name_views().index_of(n);
                        assert(self.name_views()[j] == n);
                        assert(j != i);
                    }
                    assert(self@ =~= before@.insert(name@, paths_of(before@, name@).push(keys@)));
                }
            },
            None => {
                let mut paths: Vec<Vec<KeyEvent>> = Vec::new();
                paths.push(path);
                self.names.push(name.to_owned());
                self.paths.push(paths);
                proof {
                    assert(self.name_views() =~= before.name_views().push(name@));
                    let old_names = before.name_views();
                    let new_names = self.name_views();
                    let at = old_names.len() as int;
                    assert(new_names[at] == name@);
                    assert(path_views(paths@) =~= seq![keys@]);
                    assert(Seq::<Seq<KeyEvent>>::empty().push(keys@) =~= seq![keys@]);
                    assert(new_names.no_duplicates()) by {
                        assert forall|i: int, j: int| 0 <= i < new_names.len() && 0 <= j
                            < new_names.len() && i != j implies new_names[i] != new_names[j] by {
                            if i < at {
                                assert(old_names.contains(old_names[i]));
                            }
                            if j < at {
                                assert(old_names.contains(old_names[j]));
                            }
                        }
                    }
                    assert forall|n: Seq<char>| #[trigger] new_names.contains(n) <==> (
                    old_names.contains(n) || n == name@) by {
                        if old_names.contains(n) {
                            assert(new_names[old_names.index_of(n)] == n);
                        }
                        if new_names.contains(n) {
                            let j = new_names.index_of(n);
                            if j < at {
                                assert(old_names[j] == n);
                            }
                        }
                    }
                    assert forall|n: Seq<char>| old_names.contains(n) implies path_views(
                        self.paths@[new_names.index_of(n)]@,
                    ) == path_views(before.paths@[old_names.index_of(n)]@) by {
                        let j = old_names.index_of(n);
                        assert(new_names[j] == n);
                        assert(new_names.index_of(n) == j);
                    }
                    assert(new_names.index_of(name@) == at);
                    assert(self@ =~= before@.insert(name@, paths_of(before@, name@).push(keys@)));
                }
            },
        }
    }
}

fn map_node(map: &mut ReverseKeymap, trie: &KeyTrie, keys: &mut Vec<KeyEvent>)
    requires
        old(map).wf(),
        trie.wf(),
    ensures
        final(map).wf(),
        final(map)@ == filed(old(map)@, bindings(*trie, old(keys)@)),
        final(keys)@ == old(keys)@,
    decreases *trie,
{
    match trie {
        KeyTrie::MappableCommand(command) => {
            let is_macro = match command.kind {
                CommandKind::Macro => true,
                _ => false,
            };
            if !is_macro && !same_text(command.name.as_str(), "no_op") {
                let ghost start = map@;
                map.file(command.name.as_str(), keys);
                proof {
                    let one = seq![(keys@, command.name@)];
                    assert(one.drop_last() =~= seq![]);
                    assert(filed(start, one.drop_last()) == start);
                }
            }
        },
        KeyTrie::Sequence(_) => {},
        KeyTrie::Node(node) => {
            let ghost start = map@;
            let ghost prefix = keys@;
            let mut i: usize = 0;
            while i < node.map.keys.len()
                invariant
                    i <= node.map.keys@.len(),
                    *trie == KeyTrie::Node(*node),
                    trie.wf(),
                    crate::keymap::trie::node_wf(**node),
                    map.wf(),
                    keys@ == prefix,
                    map@ == filed(start, node_bindings(&**node, prefix, i as nat)),
                decreases node.map.keys@.len() - i,
            {
                proof {
                    assert(node.map.values@[i as int].wf());
                    assert(decreases_to!(*trie => node.map.values@[i as int]));
                    lemma_filed_concat(
                        start,
                        node_bindings(&**node, prefix, i as nat),
                        bindings(node.map.values@[i as int], prefix.push(node.map.keys@[i as int])),
                    );
                }
                keys.push(node.map.keys[i]);
                map_node(map, &node.map.values[i], keys);
                keys.pop();
                i += 1;
                assert(keys@ =~= prefix);
            }
        },
    }
}

impl KeyTrie {
    /// The keys that run each command, by the command's name.
    pub fn reverse_map(&self) -> (r: ReverseKeymap)
        requires
            self.wf(),
        ensures
            r.wf(),
            r@ == filed(Map::empty(), bindings(*self, seq![])),
    {
        let mut map = ReverseKeymap::new();
        let mut keys: Vec<KeyEvent> = Vec::new();
        assert(keys@ =~= seq![]);
        map_node(&mut map, self, &mut keys);
        map
    }
}

/// Keys that are listed for a command lead to it.
pub proof fn law_listed_keys_lead_to_their_command(trie: KeyTrie, prefix: Seq<KeyEvent>, i: int)
    requires
        trie.wf(),
        0 <= i < bindings(trie, prefix).len(),
    ensures
        ({
            let (keys, name) = bindings(trie, prefix)[i];
            &&& keys.len() >= prefix.len()
            &&& keys.take(prefix.len() as int) == prefix
            &&& name != "no_op"@
            &&& trie::found(trie, keys.skip(prefix.len() as int)) matches Some(
                KeyTrie::MappableCommand(command),
            ) && command.name@ == name && command.kind != CommandKind::Macro
        }),
    decreases trie, 0nat,
{
    match trie {
        KeyTrie::MappableCommand(command) => {
            assert(prefix.take(prefix.len() as int) =~= prefix);
            assert(prefix.skip(prefix.len() as int).len() == 0);
        },
        KeyTrie::Sequence(_) => {},
        KeyTrie::Node(node) => {
            lemma_listed_below(node, prefix, node.map.values@.len(), i);
        },
    }
}

proof fn lemma_listed_below(node: Arc<KeyTrieNode>, prefix: Seq<KeyEvent>, n: nat, i: int)
    requires
        trie::node_wf(*node),
        n <= node.map.values@.len(),
        0 <= i < node_bindings(&*node, prefix, n).len(),
    ensures
        ({
            let (keys, name) = node_bindings(&*node, prefix, n)[i];
            &&& keys.len() >= prefix.len()
            &&& keys.take(prefix.len() as int) == prefix
            &&& name != "no_op"@
            &&& trie::found(KeyTrie::Node(node), keys.skip(prefix.len() as int)) matches Some(
                KeyTrie::MappableCommand(command),
            ) && command.name@ == name && command.kind != CommandKind::Macro
        }),
    decreases *node, n,
{
    let front = node_bindings(&*node, prefix, (n - 1) as nat);
    if i < front.len() {
        lemma_listed_below(node, prefix, (n - 1) as nat, i);
    } else {
        let key = node.map.keys@[n - 1];
        let below = node.map.values@[n - 1];
        let longer = prefix.push(key);
        law_listed_keys_lead_to_their_command(below, longer, i - front.len());
        let (keys, name) = bindings(below, longer)[i - front.len()];
        assert(node_bindings(&*node, prefix, n)[i] == (keys, name));
        let rest = keys.skip(prefix.len() as int);
        assert(keys.take(longer.len() as int)[prefix.len() as int] == key);
        assert(keys.take(prefix.len() as int) =~= prefix) by {
            assert forall|j: int| 0 <= j < prefix.len() implies keys[j] == prefix[j] by {
                assert(keys.take(longer.len() as int)[j] == longer[j]);
            }
        }
        assert(rest[0] == key);
        assert(rest.skip(1) =~= keys.skip(longer.len() as int));
        assert(node.map.keys@.contains(key));
        assert(node.map.keys@.index_of(key) == n - 1);
        assert(node.map@[key] == below);
    }
}

/// Every command that keys lead to is listed with them, unless it is a macro or does nothing.
pub proof fn law_commands_are_listed_with_their_keys(
    trie: KeyTrie,
    prefix: Seq<KeyEvent>,
    keys: Seq<KeyEvent>,
    command: Arc<MappableCommand>,
)
    requires
        trie.wf(),
        trie::found(trie, keys) == Some(KeyTrie::MappableCommand(command)),
        command.kind != CommandKind::Macro,
        command.name@ != "no_op"@,
    ensures
        bindings(trie, prefix).contains((prefix + keys, command.name@)),
    decreases keys.len(),
{
    if keys.len() == 0 {
        assert(prefix + keys =~= prefix);
        assert(bindings(trie, prefix)[0] == (prefix, command.name@));
    } else {
        let node = trie->Node_0;
        let at = node.map.keys@.index_of(keys[0]);
        let below = node.map.values@[at];
        assert(node.map@[keys[0]] == below);
        let longer = prefix.push(keys[0]);
        law_commands_are_listed_with_their_keys(below, longer, keys.skip(1), command);
        assert(longer + keys.skip(1) =~= prefix + keys);
        lemma_below_is_listed(
            &*node,
            prefix,
            node.map.values@.len(),
            at,
            (prefix + keys, command.name@),
        );
    }
}

proof fn lemma_below_is_listed(
    node: &KeyTrieNode,
    prefix: Seq<KeyEvent>,
    n: nat,
    at: int,
    binding: (Seq<KeyEvent>, Seq<char>),
)
    requires
        0 <= at < n <= node.map.values@.len(),
        bindings(node.map.values@[at], prefix.push(node.map.keys@[at])).contains(binding),
    ensures
        node_bindings(node, prefix, n).contains(binding),
    decreases n,
{
    let front = node_bindings(node, prefix, (n - 1) as nat);
    let last = bindings(node.map.values@[n - 1], prefix.push(node.map.keys@[n - 1]));
    let all = node_bindings(node, prefix, n);
    if at == n - 1 {
        let i = last.index_of(binding);
        assert(all[front.len() + i] == binding);
    } else {
        lemma_below_is_listed(node, prefix, (n - 1) as nat, at, binding);
        let i = front.index_of(binding);
        assert(all[i] == binding);
    }
}

/// Each binding is filed under the name of its command, behind those found before it; other names
/// keep what they have.
pub proof fn law_bindings_are_filed_by_name(
    map: Map<Seq<char>, Seq<Seq<KeyEvent>>>,
    found: Seq<(Seq<KeyEvent>, Seq<char>)>,
    keys: Seq<KeyEvent>,
    name: Seq<char>,
    other: Seq<char>,
)
    requires
        other != name,
    ensures
        filed(map, Seq::<(Seq<KeyEvent>, Seq<char>)>::empty()) == map,
        ({
            let before = filed(map, found);
            let after = filed(map, found.push((keys, name)));
            &&& after.dom().contains(name)
            &&& before.dom().contains(name) ==> after[name] == before[name].push(keys)
            &&& !before.dom().contains(name) ==> after[name] == seq![keys]
            &&& after.dom().contains(other) == before.dom().contains(other)
            &&& after.dom().contains(other) ==> after[other] == before[other]
        }),
{
    assert(found.push((keys, name)).drop_last() =~= found);
}

} // verus!
