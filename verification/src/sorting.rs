//! Sorting by a key, which keeps the order of items with equal keys.

use vstd::prelude::*;

verus! {

/// A key by which items are sorted.
pub trait Ranked: Sized {
    spec fn at_most(&self, other: &Self) -> bool;

    proof fn total(a: &Self, b: &Self)
        ensures
            a.at_most(b) || b.at_most(a),
    ;

    proof fn transitive(a: &Self, b: &Self, c: &Self)
        requires
            a.at_most(b),
            b.at_most(c),
        ensures
            a.at_most(c),
    ;

    fn not_after(&self, other: &Self) -> (r: bool)
        ensures
            r == self.at_most(other),
    ;
}

impl Ranked for usize {
    open spec fn at_most(&self, other: &Self) -> bool {
        *self <= *other
    }

    proof fn total(a: &Self, b: &Self) {
    }

    proof fn transitive(a: &Self, b: &Self, c: &Self) {
    }

    fn not_after(&self, other: &Self) -> (r: bool) {
        *self <= *other
    }
}

/// Behind how many items a new one goes: behind the last that is not greater.
pub open spec fn slot<K: Ranked, T>(s: Seq<(K, T)>, key: K) -> nat
    decreases s.len(),
{
    if s.len() == 0 || s.last().0.at_most(&key) {
        s.len()
    } else {
        slot(s.drop_last(), key)
    }
}

/// The items sorted by their keys.
pub open spec fn sorted<K: Ranked, T>(s: Seq<(K, T)>) -> Seq<(K, T)>
    decreases s.len(),
{
    if s.len() == 0 {
        seq![]
    } else {
        let rest = sorted(s.drop_last());
        rest.insert(slot(rest, s.last().0) as int, s.last())
    }
}

pub open spec fn is_sorted<K: Ranked, T>(s: Seq<(K, T)>) -> bool {
    forall|i: int, j: int|
        0 <= i < j < s.len() ==> (#[trigger] s[i]).0.at_most(&(#[trigger] s[j]).0)
}

proof fn lemma_slot<K: Ranked, T>(s: Seq<(K, T)>, key: K)
    ensures
        slot(s, key) <= s.len(),
        slot(s, key) > 0 ==> s[slot(s, key) - 1].0.at_most(&key),
        forall|i: int| slot(s, key) <= i < s.len() ==> !(#[trigger] s[i]).0.at_most(&key),
    decreases s.len(),
{
    if s.len() > 0 && !s.last().0.at_most(&key) {
        lemma_slot(s.drop_last(), key);
        assert forall|i: int| slot(s, key) <= i < s.len() implies !(#[trigger] s[i]).0.at_most(
            &key,
        ) by {
            if i < s.len() - 1 {
                assert(s.drop_last()[i] == s[i]);
            }
        }
    }
}

/// Sorting leaves every key at most the next, and changes nothing but the order.
pub proof fn law_sorting_orders_the_items<K: Ranked, T>(s: Seq<(K, T)>)
    ensures
        is_sorted(sorted(s)),
        sorted(s).to_multiset() == s.to_multiset(),
    decreases s.len(),
{
    broadcast use vstd::seq_lib::group_to_multiset_ensures;

    if s.len() > 0 {
        let before = s.drop_last();
        law_sorting_orders_the_items(before);
        let rest = sorted(before);
        let key = s.last().0;
        let at = slot(rest, key) as int;
        lemma_slot(rest, key);
        let all = rest.insert(at, s.last());
        assert forall|i: int, j: int| 0 <= i < j < all.len() implies (
        #[trigger] all[i]).0.at_most(&(#[trigger] all[j]).0) by {
            let a = if i < at { i } else { i - 1 };
            let b = if j < at { j } else { j - 1 };
            if i == at {
                assert(all[j] == rest[b]);
                K::total(&rest[b].0, &key);
            } else if j == at {
                assert(all[i] == rest[a]);
                if a < at - 1 {
                    assert(rest[a].0.at_most(&rest[at - 1].0));
                    K::transitive(&rest[a].0, &rest[at - 1].0, &key);
                }
            } else {
                assert(all[i] == rest[a]);
                assert(all[j] == rest[b]);
            }
        }
        assert(all.remove(at) =~= rest);
        assert(all[at] == s.last());
        all.to_multiset_ensures();
        assert(all.to_multiset() =~= rest.to_multiset().insert(s.last()));
        assert(s =~= before.push(s.last()));
    } else {
        assert(s =~= seq![]);
    }
}

fn find_slot<K: Ranked, T>(s: &Vec<(K, T)>, key: &K) -> (r: usize)
    ensures
        r == slot(s@, *key),
        r <= s@.len(),
{
    let mut i: usize = s.len();
    assert(s@.take(i as int) =~= s@);
    while i > 0 && !s[i - 1].0.not_after(key)
        invariant
            i <= s@.len(),
            slot(s@, *key) == slot(s@.take(i as int), *key),
        decreases i,
    {
        assert(s@.take(i as int).drop_last() =~= s@.take(i - 1));
        i -= 1;
    }
    i
}

/// Sorts the items by their keys.
pub fn sort<K: Ranked, T>(items: Vec<(K, T)>) -> (r: Vec<(K, T)>)
    ensures
        r@ == sorted(items@),
{
    let mut out: Vec<(K, T)> = Vec::new();
    let ghost all = items@;
    assert(all.take(0) =~= seq![]);
    for item in it: items
        invariant
            it.seq() == all,
            out@ == sorted(all.take(it.index())),
    {
        assert(all.take(it.index() + 1).drop_last() =~= all.take(it.index()));
        assert(all.take(it.index() + 1).last() == item);
        let at = find_slot(&out, &item.0);
        out.insert(at, item);
    }
    assert(all.take(all.len() as int) =~= all);
    out
}

/// A further item goes behind all that are not greater and in front of all others: items with
/// equal keys keep their order.
pub proof fn law_equal_items_keep_their_order<K: Ranked, T>(s: Seq<(K, T)>, item: (K, T))
    ensures
        sorted(Seq::<(K, T)>::empty()).len() == 0,
        exists|p: int|
            {
                &&& 0 <= p <= sorted(s).len()
                &&& sorted(s.push(item)) == #[trigger] sorted(s).insert(p, item)
                &&& p > 0 ==> sorted(s)[p - 1].0.at_most(&item.0)
                &&& forall|j: int|
                    p <= j < sorted(s).len() ==> !(#[trigger] sorted(s)[j]).0.at_most(&item.0)
            },
{
    assert(s.push(item).drop_last() =~= s);
    let rest = sorted(s);
    lemma_slot_is_last(rest, item.0);
    let p = slot(rest, item.0) as int;
    assert(sorted(s.push(item)) == rest.insert(p, item));
}

proof fn lemma_slot_is_last<K: Ranked, T>(s: Seq<(K, T)>, key: K)
    ensures
        slot(s, key) <= s.len(),
        slot(s, key) > 0 ==> s[slot(s, key) - 1].0.at_most(&key),
        forall|j: int| slot(s, key) <= j < s.len() ==> !(#[trigger] s[j]).0.at_most(&key),
    decreases s.len(),
{
    if s.len() > 0 && !s.last().0.at_most(&key) {
        let rest = s.drop_last();
        lemma_slot_is_last(rest, key);
        assert(s[s.len() - 1] == s.last());
        assert forall|j: int| slot(s, key) <= j < s.len() implies !(#[trigger] s[j]).0.at_most(
            &key,
        ) by {
            if j < rest.len() {
                assert(rest[j] == s[j]);
            }
        }
    }
}

} // verus!
