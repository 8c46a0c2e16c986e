//! Tries of key bindings.

use std::sync::Arc;

use vstd::prelude::*;

use crate::collections;
use crate::collections::IdMap;
use crate::keymap::key::{KeyEvent, Mode};

verus! {

/// Who carries a command out.
#[derive(Debug, Clone, Copy, PartialEq, Eq, Structural)]
pub enum CommandScope {
    Engine,
    Frontend,
}

/// What sort of command a binding names.
#[derive(Debug, Clone, Copy, PartialEq, Eq, Structural)]
pub enum CommandKind {
    /// A command of the editing engine, known there under a number.
    Engine { token: u64 },
    Frontend,
    /// A command of the command line.
    Typable,
    /// Keys that are typed again.
    Macro,
}

/// A command that keys can be bound to.
#[derive(Debug)]
pub struct MappableCommand {
    pub kind: CommandKind,
    pub name: String,
    pub args: String,
    pub doc: String,
    pub scope: CommandScope,
    /// Whether the command works in a text field inside a component.
    pub component_region: bool,
}

/// What a node does with a character that it has no binding for.
#[derive(Debug)]
pub struct CharPendingBinding {
    pub id: u64,
    pub doc: String,
}

/// Bindings that share a prefix.
#[derive(Debug)]
pub struct KeyTrieNode {
    /// A label for keys coming under this node, like "Goto mode".
    pub name: String,
    pub map: IdMap<KeyEvent, KeyTrie>,
    /// The order in which the bindings are shown.
    pub order: Vec<KeyEvent>,
    pub is_sticky: bool,
    pub fallback: Option<Arc<CharPendingBinding>>,
}

/// What a sequence of keys leads to. Parts of tries are shared, not copied.
#[derive(Debug)]
pub enum KeyTrie {
    MappableCommand(Arc<MappableCommand>),
    Sequence(Arc<Vec<Arc<MappableCommand>>>),
    Node(Arc<KeyTrieNode>),
}

impl KeyTrie {
    pub open spec fn wf(self) -> bool
        decreases self,
    {
        match self {
            KeyTrie::Node(node) => node_wf(*node),
            _ => true,
        }
    }

    /// The same trie, shared.
    pub fn share(&self) -> (r: KeyTrie)
        ensures
            r == *self,
    {
        match self {
            KeyTrie::MappableCommand(c) => KeyTrie::MappableCommand(c.clone()),
            KeyTrie::Sequence(c) => KeyTrie::Sequence(c.clone()),
            KeyTrie::Node(n) => KeyTrie::Node(n.clone()),
        }
    }
}

/// In every node of the trie each key has one binding.
pub open spec fn node_wf(node: KeyTrieNode) -> bool
    decreases node,
{
    &&& node.map.wf()
    &&& forall|i: int| 0 <= i < node.map.values@.len() ==> (#[trigger] node.map.values@[i]).wf()
}

/// What the keys lead to from the trie.
pub open spec fn found(trie: KeyTrie, keys: Seq<KeyEvent>) -> Option<KeyTrie>
    decreases keys.len(),
{
    if keys.len() == 0 {
        Some(trie)
    } else {
        match trie {
            KeyTrie::Node(node) => if node.map@.dom().contains(keys[0]) {
                found(node.map@[keys[0]], keys.skip(1))
            } else {
                None
            },
            _ => None,
        }
    }
}

/// What a node has under a key.
pub open spec fn child(node: &KeyTrieNode, key: KeyEvent) -> Option<KeyTrie> {
    if node.map@.dom().contains(key) {
        Some(node.map@[key])
    } else {
        None
    }
}

/// What the last key falls back to, where the keys before it lead to a node without a binding
/// for it.
pub open spec fn found_fallback(trie: KeyTrie, keys: Seq<KeyEvent>) -> Option<Arc<CharPendingBinding>>
    decreases keys.len(),
{
    if keys.len() == 0 {
        None
    } else {
        match trie {
            KeyTrie::Node(node) => match child(&*node, keys[0]) {
                Some(next) => found_fallback(next, keys.skip(1)),
                None => if keys.len() == 1 {
                    node.fallback
                } else {
                    None
                },
            },
            _ => None,
        }
    }
}

pub proof fn lemma_child_wf(node: &KeyTrieNode, key: KeyEvent)
    requires
        node_wf(*node),
        node.map@.dom().contains(key),
    ensures
        node.map@[key].wf(),
{
    let i = node.map.keys@.index_of(key);
    assert(node.map.values@[i].wf());
}

impl KeyTrie {
    /// The node, where this is one.
    pub fn node(&self) -> (r: Option<&Arc<KeyTrieNode>>)
        ensures
            match r {
                Some(n) => *self == KeyTrie::Node(*n),
                None => !(self is Node),
            },
    {
        match self {
            KeyTrie::Node(node) => Some(node),
            KeyTrie::MappableCommand(_) | KeyTrie::Sequence(_) => None,
        }
    }

    /// Follows the keys from this trie.
    pub fn search(&self, keys: &[KeyEvent]) -> (r: Option<&KeyTrie>)
        requires
            self.wf(),
        ensures
            match r {
                Some(t) => found(*self, keys@) == Some(*t) && t.wf(),
                None => found(*self, keys@) is None,
            },
    {
        let mut trie = self;
        let mut i: usize = 0;
        assert(keys@.skip(0) =~= keys@);
        while i < keys.len()
            invariant
                i <= keys@.len(),
                trie.wf(),
                found(*self, keys@) == found(*trie, keys@.skip(i as int)),
            decreases keys@.len() - i,
        {
            assert(keys@.skip(i as int)[0] == keys@[i as int]);
            assert(keys@.skip(i as int).skip(1) =~= keys@.skip(i + 1));
            match trie {
                KeyTrie::Node(node) => {
                    match node.map.get(keys[i]) {
                        Some(next) => {
                            proof {
                                lemma_child_wf(&**node, keys@[i as int]);
                            }
                            trie = next;
                        },
                        None => {
                            return None;
                        },
                    }
                },
                KeyTrie::MappableCommand(_) | KeyTrie::Sequence(_) => {
                    return None;
                },
            }
            i += 1;
        }
        Some(trie)
    }

    /// Follows the keys and gives the fallback of the node at which the last one has no binding.
    pub fn search_fallback(&self, keys: &[KeyEvent]) -> (r: Option<Arc<CharPendingBinding>>)
        requires
            self.wf(),
        ensures
            r == found_fallback(*self, keys@),
    {
        let mut trie = self;
        let mut i: usize = 0;
        assert(keys@.skip(0) =~= keys@);
        while i < keys.len()
            invariant
                i <= keys@.len(),
                trie.wf(),
                found_fallback(*self, keys@) == found_fallback(*trie, keys@.skip(i as int)),
            decreases keys@.len() - i,
        {
            assert(keys@.skip(i as int)[0] == keys@[i as int]);
            assert(keys@.skip(i as int).skip(1) =~= keys@.skip(i + 1));
            match trie {
                KeyTrie::Node(node) => {
                    match node.map.get(keys[i]) {
                        Some(next) => {
                            proof {
                                lemma_child_wf(&**node, keys@[i as int]);
                            }
                            trie = next;
                        },
                        None => {
                            if i + 1 == keys.len() {
                                return share_fallback(&node.fallback);
                            }
                            return None;
                        },
                    }
                },
                KeyTrie::MappableCommand(_) | KeyTrie::Sequence(_) => {
                    return None;
                },
            }
            i += 1;
        }
        None
    }
}

pub fn share_fallback(fallback: &Option<Arc<CharPendingBinding>>) -> (r: Option<
    Arc<CharPendingBinding>,
>)
    ensures
        r == *fallback,
{
    match fallback {
        Some(f) => Some(f.clone()),
        None => None,
    }
}

/// `merged` is what becomes of the child `base` (if there is one) when `over` is merged in: two
/// nodes merge, and else `over` takes the place.
pub open spec fn child_is_merge(merged: KeyTrie, base: Option<KeyTrie>, over: KeyTrie) -> bool
    decreases over,
{
    match (base, over) {
        (Some(KeyTrie::Node(a)), KeyTrie::Node(b)) => match merged {
            KeyTrie::Node(m) => is_merge(*m, *a, *b),
            _ => false,
        },
        _ => merged == over,
    }
}

/// `m` is `a` with `b` merged in: its label and ways are those of `a`; a key that `b` does not
/// bind keeps its binding; a key that `b` binds gets the binding of `b`, or the merge where both
/// have a node; and every key has a place in the order.
pub open spec fn is_merge(m: KeyTrieNode, a: KeyTrieNode, b: KeyTrieNode) -> bool
    decreases b,
{
    &&& m.name == a.name
    &&& m.is_sticky == a.is_sticky
    &&& m.fallback == a.fallback
    &&& m.map.wf()
    &&& forall|k: KeyEvent| #[trigger]
        m.map@.dom().contains(k) <==> a.map@.dom().contains(k) || b.map@.dom().contains(k)
    &&& forall|k: KeyEvent| #[trigger]
        a.map@.dom().contains(k) && !b.map@.dom().contains(k) ==> m.map@[k] == a.map@[k]
    &&& forall|i: int|
        0 <= i < b.map.values@.len() ==> child_is_merge(
            m.map@[b.map.keys@[i]],
            child(&a, b.map.keys@[i]),
            #[trigger] b.map.values@[i],
        )
    &&& m.order@ == collections::inserted_all(a.order@, m.map.order())
}

impl KeyTrieNode {
    /// A node with the given bindings.
    pub fn new(name: &str, map: IdMap<KeyEvent, KeyTrie>, order: Vec<KeyEvent>) -> (r: Self)
        ensures
            r.name@ == name@,
            r.map == map,
            r.order == order,
            !r.is_sticky,
            r.fallback is None,
    {
        KeyTrieNode { name: name.to_owned(), map, order, is_sticky: false, fallback: None }
    }

    /// A node without bindings.
    pub fn empty() -> (r: Self)
        ensures
            node_wf(r),
            r.name@ == Seq::<char>::empty(),
            r.map@ == Map::<KeyEvent, KeyTrie>::empty(),
            r.map.values@.len() == 0,
            r.order@ == Seq::<KeyEvent>::empty(),
            !r.is_sticky,
            r.fallback is None,
    {
        let r = KeyTrieNode {
            name: String::new(),
            map: IdMap::new(),
            order: Vec::new(),
            is_sticky: false,
            fallback: None,
        };
        r
    }

    /// `self` with `other` merged in.
    pub fn merged(&self, other: &KeyTrieNode) -> (m: KeyTrieNode)
        requires
            node_wf(*self),
            node_wf(*other),
        ensures
            is_merge(m, *self, *other),
            node_wf(m),
        decreases *other,
    {
        let ghost a = *self;
        let ghost b = *other;
        let mut map: IdMap<KeyEvent, KeyTrie> = share_map(&self.map);
        let mut i: usize = 0;
        while i < other.map.keys.len()
            invariant
                i <= other.map.keys@.len(),
                a == *self,
                b == *other,
                node_wf(a),
                node_wf(b),
                map.wf(),
                forall|j: int| 0 <= j < map.values@.len() ==> (#[trigger] map.values@[j]).wf(),
                forall|k: KeyEvent| #[trigger]
                    map@.dom().contains(k) <==> a.map@.dom().contains(k) || b.map.keys@.take(
                        i as int,
                    ).contains(k),
                forall|k: KeyEvent| #[trigger]
                    a.map@.dom().contains(k) && !b.map.keys@.take(i as int).contains(k) ==> map@[k]
                        == a.map@[k],
                forall|j: int|
                    0 <= j < i ==> child_is_merge(
                        map@[b.map.keys@[j]],
                        child(&a, b.map.keys@[j]),
                        #[trigger] b.map.values@[j],
                    ),
            decreases other.map.keys@.len() - i,
        {
            let key = other.map.keys[i];
            let over = &other.map.values[i];
            let ghost before = map@;
            let ghost values_before = map.values@;
            let ghost keys_before = map.keys@;
            let ghost seen = b.map.keys@.take(i as int);
            proof {
                assert(b.map.values@[i as int].wf());
                assert(decreases_to!(b => b.map.values@[i as int]));
            }
            let base = self.map.get(key);
            let new = match (base, over) {
                (Some(KeyTrie::Node(x)), KeyTrie::Node(y)) => {
                    proof {
                        lemma_child_wf(self, key);
                        assert(decreases_to!(b.map.values@[i as int] => **y));
                    }
                    KeyTrie::Node(Arc::new(x.merged(y)))
                },
                _ => over.share(),
            };
            assert(child_is_merge(new, child(&a, key), *over));
            assert(new.wf());
            map.insert(key, new);
            i += 1;
            proof {
                let now_seen = b.map.keys@.take(i as int);
                assert(now_seen =~= seen.push(key));
                assert forall|k: KeyEvent| #[trigger] now_seen.contains(k) <==> (seen.contains(k)
                    || k == key) by {
                    if seen.contains(k) {
                        assert(now_seen[seen.index_of(k)] == k);
                    }
                    if now_seen.contains(k) {
                        let j = now_seen.index_of(k);
                        if j < seen.len() {
                            assert(seen[j] == k);
                        }
                    }
                    assert(now_seen[seen.len() as int] == key);
                }
                assert forall|j: int| 0 <= j < i implies child_is_merge(
                    map@[b.map.keys@[j]],
                    child(&a, b.map.keys@[j]),
                    #[trigger] b.map.values@[j],
                ) by {
                    if j < i - 1 {
                        assert(b.map.keys@[j] != key);
                    }
                }
                assert forall|j: int| 0 <= j < map.values@.len() implies (
                #[trigger] map.values@[j]).wf() by {
                    let k = map.keys@[j];
                    assert(map.keys@.contains(k));
                    assert(map.keys@.index_of(k) == j);
                    assert(map@[k] == map.values@[j]);
                    if k != key {
                        assert(map@.dom().contains(k));
                        assert(before.dom().contains(k));
                        let o = keys_before.index_of(k);
                        assert(values_before[o].wf());
                    }
                }
            }
        }
        proof {
            assert(b.map.keys@.take(i as int) =~= b.map.keys@);
        }
        let mut order: Vec<KeyEvent> = crate::collections::copy_ids(&self.order);
        crate::collections::insert_ids(&mut order, &map.keys);
        let m = KeyTrieNode {
            name: self.name.clone(),
            map,
            order,
            is_sticky: self.is_sticky,
            fallback: share_fallback(&self.fallback),
        };
        assert forall|k: KeyEvent| #[trigger]
            m.map@.dom().contains(k) <==> a.map@.dom().contains(k) || b.map@.dom().contains(k) by {
            assert(b.map@.dom().contains(k) <==> b.map.keys@.contains(k));
        }
        m
    }

    /// Merge another node in. Leaves and subnodes from the other node replace corresponding keys,
    /// except where both have subnodes for the same key: those are merged.
    pub fn merge(&mut self, other: KeyTrieNode)
        requires
            node_wf(*old(self)),
            node_wf(other),
        ensures
            is_merge(*final(self), *old(self), other),
            node_wf(*final(self)),
    {
        let m = self.merged(&other);
        *self = m;
    }
}

/// The same bindings, shared.
pub fn share_map(map: &IdMap<KeyEvent, KeyTrie>) -> (r: IdMap<KeyEvent, KeyTrie>)
    requires
        map.wf(),
    ensures
        r.wf(),
        r@ == map@,
        r.order() == map.order(),
        r.values@ == map.values@,
{
    let keys = crate::collections::copy_ids(&map.keys);
    let mut values: Vec<KeyTrie> = Vec::new();
    let mut i: usize = 0;
    while i < map.values.len()
        invariant
            i <= map.values@.len(),
            values@ == map.values@.take(i as int),
        decreases map.values@.len() - i,
    {
        values.push(map.values[i].share());
        i += 1;
        assert(map.values@.take(i as int) =~= map.values@.take(i - 1).push(map.values@[i - 1]));
    }
    assert(map.values@.take(i as int) =~= map.values@);
    let r = IdMap { keys, values };
    assert(r@ =~= map@);
    r
}

/// Whether the node says nothing about the keys: somewhere along them it has no binding, and no
/// leaf before that.
pub open spec fn silent(node: KeyTrieNode, keys: Seq<KeyEvent>) -> bool
    decreases keys.len(),
{
    keys.len() > 0 && match child(&node, keys[0]) {
        None => true,
        Some(KeyTrie::Node(next)) => silent(*next, keys.skip(1)),
        Some(_) => false,
    }
}

pub open spec fn is_leaf(trie: Option<KeyTrie>) -> bool {
    match trie {
        Some(KeyTrie::MappableCommand(_)) | Some(KeyTrie::Sequence(_)) => true,
        _ => false,
    }
}

proof fn lemma_merge_child(m: Arc<KeyTrieNode>, a: Arc<KeyTrieNode>, b: Arc<KeyTrieNode>, key: KeyEvent)
    requires
        is_merge(*m, *a, *b),
        b.map.wf(),
        b.map@.dom().contains(key),
    ensures
        m.map@.dom().contains(key),
        child_is_merge(m.map@[key], child(&*a, key), b.map@[key]),
{
    let i = b.map.keys@.index_of(key);
    assert(b.map.keys@[i] == key);
    assert(child_is_merge(m.map@[b.map.keys@[i]], child(&*a, b.map.keys@[i]), b.map.values@[i]));
}

/// A leaf of what is merged in is found under the same keys after the merge.
pub proof fn law_merge_finds_the_new_leaves(
    m: Arc<KeyTrieNode>,
    a: Arc<KeyTrieNode>,
    b: Arc<KeyTrieNode>,
    keys: Seq<KeyEvent>,
)
    requires
        is_merge(*m, *a, *b),
        node_wf(*b),
        is_leaf(found(KeyTrie::Node(b), keys)),
    ensures
        found(KeyTrie::Node(m), keys) == found(KeyTrie::Node(b), keys),
    decreases keys.len(),
{
    if keys.len() > 0 {
        let k = keys[0];
        lemma_merge_child(m, a, b, k);
        lemma_child_wf(&*b, k);
        match (child(&*a, k), b.map@[k]) {
            (Some(KeyTrie::Node(x)), KeyTrie::Node(y)) => {
                match m.map@[k] {
                    KeyTrie::Node(z) => {
                        law_merge_finds_the_new_leaves(z, x, y, keys.skip(1));
                    },
                    _ => {},
                }
            },
            _ => {},
        }
    }
}

/// Where what is merged in says nothing about the keys, they lead where they led before.
pub proof fn law_merge_keeps_what_it_does_not_mention(
    m: Arc<KeyTrieNode>,
    a: Arc<KeyTrieNode>,
    b: Arc<KeyTrieNode>,
    keys: Seq<KeyEvent>,
)
    requires
        is_merge(*m, *a, *b),
        node_wf(*b),
        silent(*b, keys),
    ensures
        found(KeyTrie::Node(m), keys) == found(KeyTrie::Node(a), keys),
    decreases keys.len(),
{
    let k = keys[0];
    if b.map@.dom().contains(k) {
        lemma_merge_child(m, a, b, k);
        lemma_child_wf(&*b, k);
        match (child(&*a, k), b.map@[k]) {
            (Some(KeyTrie::Node(x)), KeyTrie::Node(y)) => {
                match m.map@[k] {
                    KeyTrie::Node(z) => {
                        law_merge_keeps_what_it_does_not_mention(z, x, y, keys.skip(1));
                    },
                    _ => {},
                }
            },
            (_, KeyTrie::Node(y)) => {
                lemma_silent_finds_nothing(y, keys.skip(1));
            },
            _ => {},
        }
    }
}

proof fn lemma_silent_finds_nothing(node: Arc<KeyTrieNode>, keys: Seq<KeyEvent>)
    requires
        silent(*node, keys),
    ensures
        found(KeyTrie::Node(node), keys) is None,
    decreases keys.len(),
{
    match child(&*node, keys[0]) {
        Some(KeyTrie::Node(next)) => {
            lemma_silent_finds_nothing(next, keys.skip(1));
        },
        _ => {},
    }
}

/// `m` is `a` with `b` merged in, for tries that are nodes.
pub open spec fn trie_is_merge(m: KeyTrie, a: KeyTrie, b: KeyTrie) -> bool {
    match (m, a, b) {
        (KeyTrie::Node(m), KeyTrie::Node(a), KeyTrie::Node(b)) => is_merge(*m, *a, *b),
        _ => false,
    }
}

impl KeyTrie {
    /// Merge another trie in; both are nodes.
    pub fn merge_nodes(&mut self, other: &KeyTrie)
        requires
            old(self).wf(),
            other.wf(),
            *old(self) is Node,
            *other is Node,
        ensures
            final(self).wf(),
            trie_is_merge(*final(self), *old(self), *other),
    {
        let merged = match (&*self, other) {
            (KeyTrie::Node(a), KeyTrie::Node(b)) => Some(a.merged(b)),
            _ => None,
        };
        if let Some(m) = merged {
            *self = KeyTrie::Node(Arc::new(m));
        }
    }
}

/// The bindings of every mode, with those of `delta` for the same mode merged in.
pub fn merge_keys(dst: &mut IdMap<Mode, KeyTrie>, delta: &IdMap<Mode, KeyTrie>)
    requires
        old(dst).wf(),
        delta.wf(),
        forall|m: Mode| #[trigger]
            old(dst)@.dom().contains(m) ==> old(dst)@[m].wf() && old(dst)@[m] is Node,
        forall|m: Mode| #[trigger]
            delta@.dom().contains(m) ==> delta@[m].wf() && delta@[m] is Node,
    ensures
        final(dst).wf(),
        final(dst).order() == old(dst).order(),
        final(dst)@.dom() == old(dst)@.dom(),
        forall|m: Mode| #[trigger]
            old(dst)@.dom().contains(m) ==> final(dst)@[m].wf() && final(dst)@[m] is Node,
        forall|m: Mode| #[trigger]
            old(dst)@.dom().contains(m) && delta@.dom().contains(m) ==> trie_is_merge(
                final(dst)@[m],
                old(dst)@[m],
                delta@[m],
            ),
        forall|m: Mode| #[trigger]
            old(dst)@.dom().contains(m) && !delta@.dom().contains(m) ==> exists|nothing: KeyTrie|
                is_empty_node(nothing) && #[trigger] trie_is_merge(
                    final(dst)@[m],
                    old(dst)@[m],
                    nothing,
                ),
{
    let ghost start = dst@;
    let mut i: usize = 0;
    while i < dst.keys.len()
        invariant
            i <= dst.keys@.len(),
            dst.wf(),
            delta.wf(),
            dst.order() == old(dst).order(),
            start == old(dst)@,
            dst@.dom() == start.dom(),
            forall|m: Mode| #[trigger]
                start.dom().contains(m) ==> dst@[m].wf() && dst@[m] is Node,
            forall|m: Mode| #[trigger]
                delta@.dom().contains(m) ==> delta@[m].wf() && delta@[m] is Node,
            forall|j: int| i <= j < dst.order().len() ==> dst@[#[trigger] dst.order()[j]]
                == start[dst.order()[j]],
            forall|j: int|
                0 <= j < i && delta@.dom().contains(#[trigger] dst.order()[j]) ==> trie_is_merge(
                    dst@[dst.order()[j]],
                    start[dst.order()[j]],
                    delta@[dst.order()[j]],
                ),
            forall|j: int|
                0 <= j < i && !delta@.dom().contains(#[trigger] dst.order()[j]) ==> exists|
                    nothing: KeyTrie,
                |
                    is_empty_node(nothing) && #[trigger] trie_is_merge(
                        dst@[dst.order()[j]],
                        start[dst.order()[j]],
                        nothing,
                    ),
        decreases dst.keys@.len() - i,
    {
        let mode = dst.keys[i];
        let ghost before = dst@;
        let ghost order = dst.order();
        proof {
            assert(order.contains(mode));
            assert(start.dom().contains(mode));
            assert(before[order[i as int]] == start[order[i as int]]);
        }
        let nothing = KeyTrie::Node(Arc::new(KeyTrieNode::empty()));
        let over = match delta.get(mode) {
            Some(keys) => keys.share(),
            None => nothing,
        };
        if let Some(keys) = dst.get_mut(mode) {
            keys.merge_nodes(&over);
        }
        i += 1;
        proof {
            assert(dst@ == before.insert(mode, dst@[mode]));
            assert(dst@.dom() =~= start.dom());
            assert(trie_is_merge(dst@[mode], start[mode], over));
            assert(order[i - 1] == mode);
            assert forall|j: int| 0 <= j < order.len() && j != i - 1 implies dst@[#[trigger] order[j]]
                == before[order[j]] by {
                assert(order[j] != mode);
            }
        }
    }
    proof {
        assert forall|m: Mode| #[trigger] start.dom().contains(m) implies exists|j: int|
            0 <= j < dst.order().len() && #[trigger] dst.order()[j] == m by {
            let j = dst.order().index_of(m);
            assert(dst.order()[j] == m);
        }
    }
}

/// A node without bindings.
pub open spec fn is_empty_node(trie: KeyTrie) -> bool {
    match trie {
        KeyTrie::Node(node) => node.map@.dom() == Set::<KeyEvent>::empty() && node.map.values@.len()
            == 0,
        _ => false,
    }
}

/// A single key leads to what the node has under it.
pub proof fn law_one_key_leads_to_the_child(node: Arc<KeyTrieNode>, key: KeyEvent)
    ensures
        found(KeyTrie::Node(node), seq![key]) == if node.map@.dom().contains(key) {
            Some(node.map@[key])
        } else {
            None
        },
        found(KeyTrie::Node(node), seq![]) == Some(KeyTrie::Node(node)),
{
    reveal_with_fuel(found, 2);
    assert(seq![key].skip(1) =~= seq![]);
}

/// Keys lead on from where the keys before them have led; behind a command nothing follows.
pub proof fn law_keys_lead_on(trie: KeyTrie, first: Seq<KeyEvent>, then: Seq<KeyEvent>)
    ensures
        found(trie, first + then) == match found(trie, first) {
            Some(between) => found(between, then),
            None => None,
        },
    decreases first.len(),
{
    if first.len() == 0 {
        assert(first + then =~= then);
    } else {
        assert((first + then).skip(1) =~= first.skip(1) + then);
        if let KeyTrie::Node(node) = trie {
            if node.map@.dom().contains(first[0]) {
                law_keys_lead_on(node.map@[first[0]], first.skip(1), then);
            }
        }
    }
}

/// Nothing is found behind a command or a sequence of commands.
pub proof fn law_leaves_have_nothing_below(trie: KeyTrie, keys: Seq<KeyEvent>)
    requires
        !(trie is Node),
        keys.len() > 0,
    ensures
        found(trie, keys) is None,
        found_fallback(trie, keys) is None,
{
}

/// What falls back is the last key, at the node to which the keys before it lead, if that has no
/// binding for it.
pub proof fn law_fallbacks_are_for_the_last_key(
    trie: KeyTrie,
    node: Arc<KeyTrieNode>,
    keys: Seq<KeyEvent>,
    key: KeyEvent,
)
    requires
        found(trie, keys) == Some(KeyTrie::Node(node)),
    ensures
        found_fallback(trie, keys.push(key)) == if node.map@.dom().contains(key) {
            None
        } else {
            node.fallback
        },
        found(trie, keys.push(key)) == child(&*node, key),
    decreases keys.len(),
{
    assert(keys.push(key) =~= keys + seq![key]);
    law_keys_lead_on(trie, keys, seq![key]);
    law_one_key_leads_to_the_child(node, key);
    reveal_with_fuel(found_fallback, 2);
    if keys.len() == 0 {
        assert(keys.push(key).skip(1) =~= seq![]);
    } else {
        assert(keys.push(key).skip(1) =~= keys.skip(1).push(key));
        if let KeyTrie::Node(first) = trie {
            law_fallbacks_are_for_the_last_key(first.map@[keys[0]], node, keys.skip(1), key);
        }
    }
}

/// Merging a node in that has nothing changes no binding.
pub proof fn law_merging_nothing_changes_nothing(
    m: Arc<KeyTrieNode>,
    a: Arc<KeyTrieNode>,
    nothing: Arc<KeyTrieNode>,
    keys: Seq<KeyEvent>,
)
    requires
        is_merge(*m, *a, *nothing),
        is_empty_node(KeyTrie::Node(nothing)),
        node_wf(*nothing),
        keys.len() > 0,
    ensures
        found(KeyTrie::Node(m), keys) == found(KeyTrie::Node(a), keys),
{
    law_merge_keeps_what_it_does_not_mention(m, a, nothing, keys);
}

/// Where both have a node under the same keys, that of what is merged in is merged into the
/// other: it keeps its label, its stickiness and its fallback, and has the keys of both.
pub proof fn law_merge_joins_nodes(
    m: Arc<KeyTrieNode>,
    a: Arc<KeyTrieNode>,
    b: Arc<KeyTrieNode>,
    keys: Seq<KeyEvent>,
    x: Arc<KeyTrieNode>,
    y: Arc<KeyTrieNode>,
)
    requires
        is_merge(*m, *a, *b),
        node_wf(*b),
        found(KeyTrie::Node(a), keys) == Some(KeyTrie::Node(x)),
        found(KeyTrie::Node(b), keys) == Some(KeyTrie::Node(y)),
    ensures
        found(KeyTrie::Node(m), keys) matches Some(KeyTrie::Node(z)) && {
            &&& z.name == x.name
            &&& z.is_sticky == x.is_sticky
            &&& z.fallback == x.fallback
            &&& forall|k: KeyEvent| #[trigger]
                z.map@.dom().contains(k) <==> x.map@.dom().contains(k) || y.map@.dom().contains(k)
        },
    decreases keys.len(),
{
    if keys.len() > 0 {
        let k = keys[0];
        lemma_merge_child(m, a, b, k);
        lemma_child_wf(&*b, k);
        match (a.map@[k], b.map@[k], m.map@[k]) {
            (KeyTrie::Node(p), KeyTrie::Node(q), KeyTrie::Node(r)) => {
                law_merge_joins_nodes(r, p, q, keys.skip(1), x, y);
            },
            _ => {
                reveal_with_fuel(found, 2);
            },
        }
    }
}

/// An empty node leads nowhere.
pub proof fn law_empty_nodes_lead_nowhere(trie: KeyTrie, node: Arc<KeyTrieNode>, key: KeyEvent)
    ensures
        is_empty_node(trie) && trie == KeyTrie::Node(node) ==> !node.map@.dom().contains(key),
        is_empty_node(trie) ==> trie is Node,
{
}

} // verus!
