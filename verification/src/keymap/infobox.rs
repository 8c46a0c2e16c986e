//! What is shown of the keys that can come next.

use vstd::prelude::*;

use crate::keymap::key;
use crate::keymap::key::{rank, KeyEvent};
use crate::keymap::lookup::Keymaps;
use crate::keymap::trie::{KeyTrie, KeyTrieNode};
use crate::text;
use crate::text::same_text;

verus! {

/// One row: the keys that do a thing, and what it is.
#[derive(Debug)]
pub struct InfoRow {
    /// The keys, or nothing for any other character.
    pub keys: Option<Vec<KeyEvent>>,
    pub doc: String,
}

/// The names of keys, with commas between them.
pub open spec fn listed(names: Seq<Seq<char>>) -> Seq<char>
    decreases names.len(),
{
    if names.len() == 0 {
        seq![]
    } else if names.len() == 1 {
        names[0]
    } else {
        listed(names.drop_last()) + ", "@ + names.last()
    }
}

impl InfoRow {
    /// What stands in front of a row: the names of its keys, which are given in their order, or
    /// dots for any other character.
    pub fn key_text(&self, names: &Vec<String>) -> (r: String)
        requires
            self.keys matches Some(keys) ==> names@.len() == keys@.len(),
        ensures
            r@ == if self.keys is Some {
                listed(text::texts(names@))
            } else {
                "..."@
            },
    {
        if self.keys.is_none() {
            return "...".to_owned();
        }
        let mut out = String::new();
        let mut i: usize = 0;
        let ghost all = text::texts(names@);
        assert(out@ =~= listed(all.take(0)));
        while i < names.len()
            invariant
                i <= names@.len(),
                all == text::texts(names@),
                out@ == listed(all.take(i as int)),
            decreases names@.len() - i,
        {
            let ghost before = out@;
            assert(all.take(i + 1).drop_last() =~= all.take(i as int));
            assert(all.take(i + 1).last() == names@[i as int]@);
            if i > 0 {
                out.append(", ");
            }
            out.append(names[i].as_str());
            proof {
                if i > 0 {
                    assert(out@ =~= before + ", "@ + names@[i as int]@);
                } else {
                    assert(out@ =~= names@[0]@);
                }
            }
            i += 1;
        }
        assert(all.take(i as int) =~= all);
        out
    }
}

/// A titled list of what keys do.
#[derive(Debug)]
pub struct Info {
    pub title: String,
    pub rows: Vec<InfoRow>,
}

/// What is said of a binding; nothing, where it does nothing.
pub open spec fn description(trie: KeyTrie) -> Option<Seq<char>> {
    match trie {
        KeyTrie::MappableCommand(command) => if command.name@ == "no_op"@ {
            None
        } else {
            Some(command.doc@)
        },
        KeyTrie::Node(node) => Some(node.name@),
        KeyTrie::Sequence(_) => Some("[Multiple commands]"@),
    }
}

/// What is said of a key of the node.
pub open spec fn described(node: &KeyTrieNode, key: KeyEvent) -> Option<Seq<char>> {
    if node.map@.dom().contains(key) {
        description(node.map@[key])
    } else {
        None
    }
}

/// The key comes first of all keys of which the same is said.
pub open spec fn leads(node: &KeyTrieNode, key: KeyEvent) -> bool {
    &&& described(node, key) is Some
    &&& forall|other: KeyEvent| #[trigger]
        described(node, other) == described(node, key) ==> key::key_rank(key) <= key::key_rank(
            other,
        )
}

/// The keys of `order` that lead, each where it first stands.
pub open spec fn leaders(node: &KeyTrieNode, order: Seq<KeyEvent>) -> Seq<KeyEvent>
    decreases order.len(),
{
    if order.len() == 0 {
        seq![]
    } else {
        let rest = leaders(node, order.drop_last());
        if leads(node, order.last()) && !order.drop_last().contains(order.last()) {
            rest.push(order.last())
        } else {
            rest
        }
    }
}

/// `keys` are exactly the keys of which the same is said as of `key`, in ascending order.
pub open spec fn is_group(keys: Seq<KeyEvent>, node: &KeyTrieNode, key: KeyEvent) -> bool {
    &&& forall|i: int, j: int|
        0 <= i < j < keys.len() ==> key::key_rank(#[trigger] keys[i]) < key::key_rank(
            #[trigger] keys[j],
        )
    &&& forall|k: KeyEvent| #[trigger]
        keys.contains(k) <==> described(node, k) == described(node, key)
}

/// Every binding has a place in the order.
pub open spec fn showable(node: &KeyTrieNode) -> bool {
    &&& node.map.wf()
    &&& forall|k: KeyEvent| #[trigger] node.map@.dom().contains(k) ==> node.order@.contains(k)
}

/// One row for each thing that keys do, where the first of its keys stands in the order; then
/// one for any other character, where the node takes that.
pub open spec fn shows(info: Info, node: &KeyTrieNode) -> bool {
    let lead = leaders(node, node.order@);
    &&& info.title@ == node.name@
    &&& info.rows@.len() == lead.len() + (if node.fallback is Some {
        1int
    } else {
        0int
    })
    &&& forall|i: int|
        0 <= i < lead.len() ==> row_shows(#[trigger] info.rows@[i], node, lead[i])
    &&& node.fallback matches Some(fallback) ==> {
        let last = info.rows@[lead.len() as int];
        last.keys is None && last.doc@ == fallback.doc@
    }
}

pub open spec fn row_shows(row: InfoRow, node: &KeyTrieNode, key: KeyEvent) -> bool {
    &&& row.keys matches Some(keys) && is_group(keys@, node, key)
    &&& described(node, key) == Some(row.doc@)
}

fn describe(trie: &KeyTrie) -> (r: Option<String>)
    ensures
        match r {
            Some(text) => description(*trie) == Some(text@),
            None => description(*trie) is None,
        },
{
    match trie {
        KeyTrie::MappableCommand(command) => if same_text(command.name.as_str(), "no_op") {
            None
        } else {
            Some(command.doc.clone())
        },
        KeyTrie::Node(node) => Some(node.name.clone()),
        KeyTrie::Sequence(_) => Some("[Multiple commands]".to_owned()),
    }
}

/// Puts a key into a list of ascending keys.
fn insert_sorted(keys: &mut Vec<KeyEvent>, key: KeyEvent)
    requires
        forall|i: int, j: int|
            0 <= i < j < old(keys)@.len() ==> key::key_rank(#[trigger] old(keys)@[i])
                < key::key_rank(#[trigger] old(keys)@[j]),
        !old(keys)@.contains(key),
    ensures
        forall|i: int, j: int|
            0 <= i < j < final(keys)@.len() ==> key::key_rank(#[trigger] final(keys)@[i])
                < key::key_rank(#[trigger] final(keys)@[j]),
        forall|k: KeyEvent| #[trigger]
            final(keys)@.contains(k) <==> old(keys)@.contains(k) || k == key,
{
    let ghost before = keys@;
    let mut at: usize = 0;
    while at < keys.len() && rank(keys[at]) < rank(key)
        invariant
            at <= keys@.len(),
            keys@ == before,
            forall|i: int| 0 <= i < at ==> key::key_rank(#[trigger] keys@[i]) < key::key_rank(key),
        decreases keys@.len() - at,
    {
        at += 1;
    }
    proof {
        if at < keys@.len() {
            if key::key_rank(keys@[at as int]) == key::key_rank(key) {
                key::law_rank_tells_keys_apart(keys@[at as int], key);
                assert(before.contains(key));
            }
        }
    }
    keys.insert(at, key);
    proof {
        assert forall|k: KeyEvent| #[trigger] keys@.contains(k) <==> before.contains(k) || k
            == key by {
            if before.contains(k) {
                let i = before.index_of(k);
                if i < at {
                    assert(keys@[i] == k);
                } else {
                    assert(keys@[i + 1] == k);
                }
            }
            assert(keys@[at as int] == key);
            if keys@.contains(k) {
                let i = keys@.index_of(k);
                if i < at {
                    assert(before[i] == k);
                } else if i > at {
                    assert(before[i - 1] == k);
                }
            }
        }
        assert forall|i: int, j: int| 0 <= i < j < keys@.len() implies key::key_rank(
            #[trigger] keys@[i],
        ) < key::key_rank(#[trigger] keys@[j]) by {
            let oi = if i < at {
                i
            } else {
                i - 1
            };
            let oj = if j < at {
                j
            } else {
                j - 1
            };
            if i != at {
                assert(keys@[i] == before[oi]);
            }
            if j != at {
                assert(keys@[j] == before[oj]);
            }
            if i == at {
                assert(key::key_rank(key) < key::key_rank(before[at as int]));
                if oj > at {
                    assert(key::key_rank(before[at as int]) < key::key_rank(before[oj]));
                }
            }
        }
    }
}

/// The keys of which the same is said, in ascending order.
fn group(node: &KeyTrieNode, key: KeyEvent, doc: &String) -> (r: Vec<KeyEvent>)
    requires
        node.map.wf(),
        described(node, key) == Some(doc@),
    ensures
        is_group(r@, node, key),
{
    let mut keys: Vec<KeyEvent> = Vec::new();
    let mut i: usize = 0;
    while i < node.map.keys.len()
        invariant
            i <= node.map.keys@.len(),
            node.map.wf(),
            described(node, key) == Some(doc@),
            forall|x: int, y: int|
                0 <= x < y < keys@.len() ==> key::key_rank(#[trigger] keys@[x]) < key::key_rank(
                    #[trigger] keys@[y],
                ),
            forall|k: KeyEvent| #[trigger]
                keys@.contains(k) <==> node.map.keys@.take(i as int).contains(k) && described(
                    node,
                    k,
                ) == Some(doc@),
        decreases node.map.keys@.len() - i,
    {
        let k = node.map.keys[i];
        let ghost before = keys@;
        let ghost seen = node.map.keys@.take(i as int);
        proof {
            assert(node.map.keys@.contains(k));
            assert(node.map.keys@.index_of(k) == i);
            assert(!seen.contains(k)) by {
                if seen.contains(k) {
                    assert(node.map.keys@[seen.index_of(k)] == node.map.keys@[i as int]);
                }
            }
        }
        let text = describe(&node.map.values[i]);
        if let Some(text) = text {
            if same_text(text.as_str(), doc.as_str()) {
                insert_sorted(&mut keys, k);
            }
        }
        i += 1;
        proof {
            let now_seen = node.map.keys@.take(i as int);
            assert forall|x: KeyEvent| #[trigger] keys@.contains(x) <==> now_seen.contains(x)
                && described(node, x) == Some(doc@) by {
                assert(now_seen.contains(x) <==> (seen.contains(x) || x == k)) by {
                    if seen.contains(x) {
                        assert(now_seen[seen.index_of(x)] == x);
                    }
                    if now_seen.contains(x) {
                        let j = now_seen.index_of(x);
                        if j < seen.len() {
                            assert(seen[j] == x);
                        }
                    }
                    assert(now_seen[seen.len() as int] == k);
                }
                assert(before.contains(x) <==> seen.contains(x) && described(node, x) == Some(
                    doc@,
                ));
            }
        }
    }
    proof {
        assert(node.map.keys@.take(i as int) =~= node.map.keys@);
    }
    keys
}

impl KeyTrieNode {
    /// The rows to show for the node.
    pub fn infobox(&self) -> (r: Info)
        requires
            showable(self),
        ensures
            shows(r, self),
    {
        let mut rows: Vec<InfoRow> = Vec::new();
        let mut i: usize = 0;
        assert(self.order@.take(0) =~= seq![]);
        while i < self.order.len()
            invariant
                i <= self.order@.len(),
                showable(self),
                rows@.len() == leaders(self, self.order@.take(i as int)).len(),
                forall|j: int|
                    0 <= j < rows@.len() ==> row_shows(
                        #[trigger] rows@[j],
                        self,
                        leaders(self, self.order@.take(i as int))[j],
                    ),
            decreases self.order@.len() - i,
        {
            let k = self.order[i];
            let ghost done = self.order@.take(i as int);
            assert(self.order@.take(i + 1).drop_last() =~= done);
            let doc = match self.map.get(k) {
                Some(trie) => describe(trie),
                None => None,
            };
            if let Some(doc) = doc {
                let keys = group(self, k, &doc);
                proof {
                    assert(keys@.contains(k));
                }
                let first = keys[0];
                let leading = first == k;
                proof {
                    let at = keys@.index_of(k);
                    if leading {
                        assert forall|other: KeyEvent| #[trigger]
                            described(self, other) == described(self, k) implies key::key_rank(k)
                            <= key::key_rank(other) by {
                            assert(keys@.contains(other));
                            let o = keys@.index_of(other);
                            if o > 0 {
                                assert(key::key_rank(keys@[0]) < key::key_rank(keys@[o]));
                            }
                        }
                    } else {
                        assert(keys@[at] == k);
                        assert(key::key_rank(keys@[0]) < key::key_rank(keys@[at]));
                        assert(keys@.contains(first));
                        assert(described(self, first) == described(self, k));
                    }
                    assert(leading == leads(self, k));
                }
                if leading && !seen_before(&self.order, i) {
                    rows.push(InfoRow { keys: Some(keys), doc });
                }
            }
            i += 1;
        }
        assert(self.order@.take(i as int) =~= self.order@);
        if let Some(fallback) = &self.fallback {
            rows.push(InfoRow { keys: None, doc: fallback.doc.clone() });
        }
        Info { title: self.name.clone(), rows }
    }
}

/// Whether the key at `at` stands further in front too.
fn seen_before(order: &Vec<KeyEvent>, at: usize) -> (r: bool)
    requires
        at < order@.len(),
    ensures
        r == order@.take(at as int).contains(order@[at as int]),
{
    let mut i: usize = 0;
    while i < at
        invariant
            i <= at < order@.len(),
            forall|j: int| 0 <= j < i ==> order@[j] != order@[at as int],
        decreases at - i,
    {
        if order[i] == order[at] {
            assert(order@.take(at as int)[i as int] == order@[at as int]);
            return true;
        }
        i += 1;
    }
    false
}

/// Every binding that does something is shown, in a row that says what it does.
pub proof fn law_infobox_shows_every_binding(info: Info, node: &KeyTrieNode, key: KeyEvent)
    requires
        showable(node),
        shows(info, node),
        described(node, key) is Some,
    ensures
        exists|i: int|
            0 <= i < info.rows@.len() && #[trigger] row_has(info.rows@[i], key, described(
                node,
                key,
            )->0),
{
    let first = lemma_group_has_a_leader(node, key, node.map.keys@);
    assert(node.order@.contains(first));
    lemma_leaders_complete(node, node.order@, first);
    let lead = leaders(node, node.order@);
    let i = lead.index_of(first);
    assert(row_shows(info.rows@[i], node, lead[i]));
    assert(row_has(info.rows@[i], key, described(node, key)->0));
}

pub open spec fn row_has(row: InfoRow, key: KeyEvent, doc: Seq<char>) -> bool {
    row.doc@ == doc && match row.keys {
        Some(keys) => keys@.contains(key),
        None => false,
    }
}

proof fn lemma_leaders_complete(node: &KeyTrieNode, order: Seq<KeyEvent>, key: KeyEvent)
    requires
        leads(node, key),
        order.contains(key),
    ensures
        leaders(node, order).contains(key),
    decreases order.len(),
{
    let d = order.drop_last();
    if d.contains(key) {
        lemma_leaders_complete(node, d, key);
        let rest = leaders(node, d);
        let i = rest.index_of(key);
        assert(leaders(node, order)[i] == key);
    } else {
        let i = order.index_of(key);
        if i < d.len() {
            assert(d[i] == key);
        }
        assert(order.last() == key);
        let l = leaders(node, order);
        assert(l[l.len() - 1] == key);
    }
}

/// Among the keys of which the same is said there is a first.
proof fn lemma_group_has_a_leader(node: &KeyTrieNode, key: KeyEvent, keys: Seq<KeyEvent>) -> (first:
    KeyEvent)
    requires
        described(node, key) is Some,
        node.map.wf(),
        keys == node.map.keys@,
    ensures
        leads(node, first),
        described(node, first) == described(node, key),
        node.map@.dom().contains(first),
{
    lemma_least(node, key, keys.len() as int)
}

proof fn lemma_least(node: &KeyTrieNode, key: KeyEvent, n: int) -> (first: KeyEvent)
    requires
        described(node, key) is Some,
        node.map.wf(),
        0 <= n <= node.map.keys@.len(),
    ensures
        described(node, first) == described(node, key),
        node.map@.dom().contains(first),
        key::key_rank(first) <= key::key_rank(key),
        forall|i: int|
            0 <= i < n && described(node, #[trigger] node.map.keys@[i]) == described(node, key)
                ==> key::key_rank(first) <= key::key_rank(node.map.keys@[i]),
        n == node.map.keys@.len() ==> leads(node, first),
    decreases n,
{
    let first = if n == 0 {
        key
    } else {
        let rest = lemma_least(node, key, n - 1);
        let last = node.map.keys@[n - 1];
        assert(node.map.keys@.contains(last));
        if described(node, last) == described(node, key) && key::key_rank(last) < key::key_rank(
            rest,
        ) {
            last
        } else {
            rest
        }
    };
    if n == node.map.keys@.len() {
        assert forall|other: KeyEvent| #[trigger]
            described(node, other) == described(node, first) implies key::key_rank(first)
            <= key::key_rank(other) by {
            let i = node.map.keys@.index_of(other);
            assert(node.map.keys@[i] == other);
        }
    }
    first
}

impl Keymaps {
    /// The rows to show for the sticky node, if one is in use.
    pub fn sticky_infobox(&self) -> (r: Option<Info>)
        requires
            match self.sticky {
                Some(node) => showable(&*node),
                None => true,
            },
        ensures
            match (r, self.sticky) {
                (Some(info), Some(node)) => shows(info, &*node),
                (None, None) => true,
                _ => false,
            },
    {
        match &self.sticky {
            Some(node) => Some(node.infobox()),
            None => None,
        }
    }
}

/// Keys that lead a row stand in the order of the node, each once; keys that do nothing lead none.
pub proof fn law_rows_follow_the_order_of_the_keys(
    node: &KeyTrieNode,
    order: Seq<KeyEvent>,
    key: KeyEvent,
)
    ensures
        leaders(node, Seq::<KeyEvent>::empty()).len() == 0,
        leads(node, key) && !order.contains(key) ==> leaders(node, order.push(key)) == leaders(
            node,
            order,
        ).push(key),
        !leads(node, key) || order.contains(key) ==> leaders(node, order.push(key)) == leaders(
            node,
            order,
        ),
        !node.map@.dom().contains(key) ==> !leads(node, key),
        (node.map@.dom().contains(key) && (node.map@[key] matches KeyTrie::MappableCommand(command)
            && command.name@ == "no_op"@)) ==> !leads(node, key),
{
    assert(order.push(key).drop_last() =~= order);
}

/// A key is described by what its command says, by the name of its menu, or as several commands;
/// one that does nothing is not described.
pub proof fn law_keys_are_described_by_what_they_do(
    command: std::sync::Arc<crate::keymap::trie::MappableCommand>,
    node: std::sync::Arc<KeyTrieNode>,
)
    ensures
        command.name@ == "no_op"@ ==> description(KeyTrie::MappableCommand(command)) is None,
        command.name@ != "no_op"@ ==> description(KeyTrie::MappableCommand(command)) == Some(
            command.doc@,
        ),
        description(KeyTrie::Node(node)) == Some(node.name@),
{
}

/// Names are listed with a comma and a blank between any two.
pub proof fn law_names_are_listed_with_commas(names: Seq<Seq<char>>, name: Seq<char>)
    ensures
        listed(Seq::<Seq<char>>::empty()).len() == 0,
        listed(seq![name]) == name,
        names.len() > 0 ==> listed(names.push(name)) == listed(names) + ", "@ + name,
{
    assert(names.push(name).drop_last() =~= names);
}

} // verus!
