//! Small ordered collections: sets and maps that keep their insertion order.
//!
//! A set is a `Vec` without duplicates, changed through `insert_id` and `remove_id`. A map is
//! an [`IdMap`], whose view is a `Map` and whose `order` gives the keys as they came in.

use vstd::prelude::*;

verus! {

/// An identifier: a copyable value whose equality can be tested.
pub trait Ident: Copy {
    fn same(&self, other: &Self) -> (r: bool)
        ensures
            r == (*self == *other),
    ;
}

impl Ident for u64 {
    fn same(&self, other: &Self) -> (r: bool) {
        *self == *other
    }
}

impl Ident for usize {
    fn same(&self, other: &Self) -> (r: bool) {
        *self == *other
    }
}

impl Ident for i64 {
    fn same(&self, other: &Self) -> (r: bool) {
        *self == *other
    }
}

/// Whether `v` holds `k`.
pub fn contains_id<K: Ident>(v: &Vec<K>, k: K) -> (r: bool)
    ensures
        r == v@.contains(k),
{
    let mut i: usize = 0;
    while i < v.len()
        invariant
            i <= v@.len(),
            forall|j: int| 0 <= j < i ==> v@[j] != k,
        decreases v@.len() - i,
    {
        if v[i].same(&k) {
            assert(v@[i as int] == k);
            return true;
        }
        i += 1;
    }
    false
}

/// `s` with `k` at its end, unless `s` holds `k` already.
pub open spec fn inserted<K>(s: Seq<K>, k: K) -> Seq<K> {
    if s.contains(k) {
        s
    } else {
        s.push(k)
    }
}

/// `s` with each of `ks` inserted in turn.
pub open spec fn inserted_all<K>(s: Seq<K>, ks: Seq<K>) -> Seq<K>
    decreases ks.len(),
{
    if ks.len() == 0 {
        s
    } else {
        inserted(inserted_all(s, ks.drop_last()), ks.last())
    }
}

/// `s` without every occurrence of `k`.
pub open spec fn without<K>(s: Seq<K>, k: K) -> Seq<K>
    decreases s.len(),
{
    if s.len() == 0 {
        s
    } else if s.last() == k {
        without(s.drop_last(), k)
    } else {
        without(s.drop_last(), k).push(s.last())
    }
}

pub broadcast proof fn lemma_inserted_contains<K>(s: Seq<K>, k: K, x: K)
    ensures
        #[trigger] inserted(s, k).contains(x) <==> (s.contains(x) || x == k),
{
    if !s.contains(k) {
        let t = s.push(k);
        if s.contains(x) {
            let i = s.index_of(x);
            assert(t[i] == x);
        }
        if x == k {
            assert(t[s.len() as int] == x);
        }
        if t.contains(x) {
            let i = t.index_of(x);
            if i < s.len() {
                assert(s[i] == x);
            }
        }
    }
}

pub broadcast proof fn lemma_inserted_no_duplicates<K>(s: Seq<K>, k: K)
    requires
        s.no_duplicates(),
    ensures
        (#[trigger] inserted(s, k)).no_duplicates(),
{
    if !s.contains(k) {
        assert forall|i: int, j: int|
            0 <= i < inserted(s, k).len() && 0 <= j < inserted(s, k).len() && i != j implies inserted(
            s,
            k,
        )[i] != inserted(s, k)[j] by {
            if i < s.len() {
                assert(s.contains(s[i]));
            }
            if j < s.len() {
                assert(s.contains(s[j]));
            }
        }
    }
}

/// Inserting many keys keeps what was there and adds exactly those keys.
pub proof fn lemma_inserted_all_contains<K>(s: Seq<K>, ks: Seq<K>, x: K)
    ensures
        inserted_all(s, ks).contains(x) <==> (s.contains(x) || ks.contains(x)),
    decreases ks.len(),
{
    if ks.len() > 0 {
        lemma_inserted_all_contains(s, ks.drop_last(), x);
        lemma_inserted_contains(inserted_all(s, ks.drop_last()), ks.last(), x);
        if ks.drop_last().contains(x) {
            let i = ks.drop_last().index_of(x);
            assert(ks[i] == x);
        }
        if ks.contains(x) {
            let i = ks.index_of(x);
            if i < ks.len() - 1 {
                assert(ks.drop_last()[i] == x);
            }
        }
        assert(ks.contains(ks.last()));
    }
}

pub proof fn lemma_inserted_all_no_duplicates<K>(s: Seq<K>, ks: Seq<K>)
    requires
        s.no_duplicates(),
    ensures
        inserted_all(s, ks).no_duplicates(),
    decreases ks.len(),
{
    if ks.len() > 0 {
        lemma_inserted_all_no_duplicates(s, ks.drop_last());
        lemma_inserted_no_duplicates(inserted_all(s, ks.drop_last()), ks.last());
    }
}

pub broadcast proof fn lemma_without_contains<K>(s: Seq<K>, k: K, x: K)
    ensures
        #[trigger] without(s, k).contains(x) <==> (s.contains(x) && x != k),
    decreases s.len(),
{
    if s.len() > 0 {
        let d = s.drop_last();
        lemma_without_contains(d, k, x);
        let w = without(d, k);
        if d.contains(x) {
            let i = d.index_of(x);
            assert(s[i] == x);
        }
        if s.contains(x) {
            let i = s.index_of(x);
            if i < d.len() {
                assert(d[i] == x);
            }
        }
        assert(s.contains(s.last())) by {
            assert(s[s.len() - 1] == s.last());
        }
        if s.last() != k {
            let t = w.push(s.last());
            if w.contains(x) {
                let i = w.index_of(x);
                assert(t[i] == x);
            }
            if t.contains(x) {
                let i = t.index_of(x);
                if i < w.len() {
                    assert(w[i] == x);
                }
            }
            assert(t[t.len() - 1] == s.last());
        }
    }
}

pub broadcast proof fn lemma_without_no_duplicates<K>(s: Seq<K>, k: K)
    requires
        s.no_duplicates(),
    ensures
        (#[trigger] without(s, k)).no_duplicates(),
    decreases s.len(),
{
    if s.len() > 0 {
        let d = s.drop_last();
        lemma_without_no_duplicates(d, k);
        let w = without(d, k);
        lemma_without_contains(d, k, s.last());
        if s.last() != k {
            assert(!d.contains(s.last())) by {
                if d.contains(s.last()) {
                    let i = d.index_of(s.last());
                    assert(s[i] == s[s.len() - 1]);
                }
            }
            lemma_inserted_no_duplicates(w, s.last());
            assert(inserted(w, s.last()) == w.push(s.last()));
        }
    }
}

/// Taking out a key that is not there changes nothing.
pub proof fn lemma_without_absent<K>(s: Seq<K>, k: K)
    requires
        !s.contains(k),
    ensures
        without(s, k) == s,
    decreases s.len(),
{
    if s.len() > 0 {
        assert(s[s.len() - 1] == s.last());
        assert(!s.drop_last().contains(k)) by {
            if s.drop_last().contains(k) {
                let i = s.drop_last().index_of(k);
                assert(s[i] == k);
            }
        }
        lemma_without_absent(s.drop_last(), k);
        assert(s.drop_last().push(s.last()) =~= s);
    }
}

/// Adds `k` at the end of `v` unless it is there; returns whether it was added.
pub fn insert_id<K: Ident>(v: &mut Vec<K>, k: K) -> (fresh: bool)
    ensures
        fresh == !old(v)@.contains(k),
        final(v)@ == inserted(old(v)@, k),
{
    if contains_id(v, k) {
        false
    } else {
        v.push(k);
        true
    }
}

/// Adds each of `ks` to `v` unless it is there.
pub fn insert_ids<K: Ident>(v: &mut Vec<K>, ks: &Vec<K>)
    ensures
        final(v)@ == inserted_all(old(v)@, ks@),
{
    let ghost start = v@;
    let mut i: usize = 0;
    assert(ks@.take(0) =~= seq![]);
    while i < ks.len()
        invariant
            i <= ks@.len(),
            v@ == inserted_all(start, ks@.take(i as int)),
        decreases ks@.len() - i,
    {
        insert_id(v, ks[i]);
        i += 1;
        assert(ks@.take(i as int).drop_last() =~= ks@.take(i - 1));
    }
    assert(ks@.take(i as int) =~= ks@);
}

/// Takes every occurrence of `k` out of `v`.
pub fn remove_id<K: Ident>(v: &mut Vec<K>, k: K)
    ensures
        final(v)@ == without(old(v)@, k),
{
    let mut kept: Vec<K> = Vec::new();
    let mut i: usize = 0;
    while i < v.len()
        invariant
            i <= v@.len(),
            kept@ == without(v@.take(i as int), k),
        decreases v@.len() - i,
    {
        let x = v[i];
        if !x.same(&k) {
            kept.push(x);
        }
        i += 1;
        assert(v@.take(i as int).drop_last() =~= v@.take(i - 1));
    }
    assert(v@.take(i as int) =~= v@);
    *v = kept;
}

/// A copy of a vector of identifiers.
pub fn copy_ids<K: Ident>(v: &Vec<K>) -> (r: Vec<K>)
    ensures
        r@ == v@,
{
    let mut out: Vec<K> = Vec::new();
    let mut i: usize = 0;
    while i < v.len()
        invariant
            i <= v@.len(),
            out@ == v@.take(i as int),
        decreases v@.len() - i,
    {
        out.push(v[i]);
        i += 1;
        assert(v@.take(i as int) =~= v@.take(i - 1).push(v@[i - 1]));
    }
    assert(v@.take(i as int) =~= v@);
    out
}

/// A map from identifiers to values that remembers the order in which its keys came in.
#[derive(Debug)]
pub struct IdMap<K, V> {
    pub keys: Vec<K>,
    pub values: Vec<V>,
}

impl<K: Ident, V> View for IdMap<K, V> {
    type V = Map<K, V>;

    open spec fn view(&self) -> Map<K, V> {
        Map::new(|k: K| self.keys@.contains(k), |k: K| self.values@[self.keys@.index_of(k)])
    }
}

impl<K: Ident, V> IdMap<K, V> {
    /// No key occurs twice, and each key has a value.
    pub open spec fn wf(&self) -> bool {
        &&& self.keys@.no_duplicates()
        &&& self.keys@.len() == self.values@.len()
    }

    /// The keys in the order in which they were first inserted.
    pub open spec fn order(&self) -> Seq<K> {
        self.keys@
    }

    pub fn new() -> (r: Self)
        ensures
            r.wf(),
            r@ == Map::<K, V>::empty(),
            r.order() == Seq::<K>::empty(),
    {
        let r = IdMap { keys: Vec::new(), values: Vec::new() };
        assert(r@ =~= Map::<K, V>::empty());
        r
    }

    pub fn len(&self) -> (n: usize)
        ensures
            n == self.order().len(),
    {
        self.keys.len()
    }

    /// Where the key stands, if it is there.
    pub fn find(&self, k: K) -> (r: Option<usize>)
        requires
            self.wf(),
        ensures
            match r {
                Some(i) => i < self.order().len() && self.order()[i as int] == k
                    && self.order().index_of(k) == i && self@.dom().contains(k)
                    && self@[k] == self.values@[i as int],
                None => !self@.dom().contains(k),
            },
    {
        let mut i: usize = 0;
        while i < self.keys.len()
            invariant
                self.wf(),
                i <= self.keys@.len(),
                forall|j: int| 0 <= j < i ==> self.keys@[j] != k,
            decreases self.keys@.len() - i,
        {
            if self.keys[i].same(&k) {
                assert(self.keys@[i as int] == k);
                assert(self.keys@.contains(k));
                return Some(i);
            }
            i += 1;
        }
        None
    }

    pub fn contains_key(&self, k: K) -> (r: bool)
        requires
            self.wf(),
        ensures
            r == self@.dom().contains(k),
    {
        self.find(k).is_some()
    }

    pub fn get(&self, k: K) -> (r: Option<&V>)
        requires
            self.wf(),
        ensures
            match r {
                Some(v) => self@.dom().contains(k) && *v == self@[k],
                None => !self@.dom().contains(k),
            },
    {
        match self.find(k) {
            Some(i) => Some(&self.values[i]),
            None => None,
        }
    }

    /// Access to the value under `k` for changing it in place.
    pub fn get_mut(&mut self, k: K) -> (r: Option<&mut V>)
        requires
            old(self).wf(),
        ensures
            match r {
                Some(v) => old(self)@.dom().contains(k) && *v == old(self)@[k] && final(self)@
                    == old(self)@.insert(k, *final(v)),
                None => !old(self)@.dom().contains(k) && *final(self) == *old(self),
            },
            final(self).wf(),
            final(self).order() == old(self).order(),
    {
        match self.find(k) {
            Some(i) => {
                let r = &mut self.values[i];
                Some(r)
            },
            None => None,
        }
    }

    /// Sets the value under `k`, which joins the end of the order if it is new.
    pub fn insert(&mut self, k: K, v: V)
        requires
            old(self).wf(),
        ensures
            final(self).wf(),
            final(self)@ == old(self)@.insert(k, v),
            final(self).order() == inserted(old(self).order(), k),
    {
        match self.find(k) {
            Some(i) => {
                self.values[i] = v;
                assert(self@ =~= old(self)@.insert(k, v));
            },
            None => {
                let ghost before = *self;
                self.keys.push(k);
                self.values.push(v);
                proof {
                    lemma_inserted_no_duplicates(before.keys@, k);
                    assert forall|x: K| before.keys@.contains(x) implies self.keys@.index_of(x)
                        == before.keys@.index_of(x) by {
                        let i = before.keys@.index_of(x);
                        assert(self.keys@[i] == x);
                    }
                    assert(self.keys@[self.keys@.len() - 1] == k);
                    assert forall|x: K| #[trigger] self.keys@.contains(x) <==> (
                    before.keys@.contains(x) || x == k) by {
                        lemma_inserted_contains(before.keys@, k, x);
                    }
                    assert(self@ =~= before@.insert(k, v));
                }
            },
        }
    }

    /// The values, in the order of their keys.
    pub fn into_values(self) -> (r: Vec<V>)
        requires
            self.wf(),
        ensures
            r@.len() == self.order().len(),
            forall|i: int|
                0 <= i < r@.len() ==> #[trigger] r@[i] == self@[self.order()[i]]
                    && self@.dom().contains(self.order()[i]),
    {
        assert forall|i: int| 0 <= i < self.values@.len() implies #[trigger] self.values@[i]
            == self@[self.keys@[i]] && self@.dom().contains(self.keys@[i]) by {
            assert(self.keys@.contains(self.keys@[i]));
        }
        self.values
    }

    /// Takes the key out, with its value.
    pub fn remove(&mut self, k: K) -> (r: Option<V>)
        requires
            old(self).wf(),
        ensures
            final(self).wf(),
            final(self)@ == old(self)@.remove(k),
            final(self).order() == without(old(self).order(), k),
            match r {
                Some(v) => old(self)@.dom().contains(k) && v == old(self)@[k],
                None => !old(self)@.dom().contains(k),
            },
    {
        match self.find(k) {
            Some(i) => {
                let ghost before = *self;
                self.keys.remove(i);
                let v = self.values.remove(i);
                proof {
                    lemma_without_at(before.keys@, i as int);
                    lemma_without_no_duplicates(before.keys@, k);
                    assert(self.keys@ == without(before.keys@, k));
                    assert forall|x: K| #[trigger] self.keys@.contains(x) <==> (
                    before.keys@.contains(x) && x != k) by {
                        lemma_without_contains(before.keys@, k, x);
                    }
                    assert forall|x: K| self.keys@.contains(x) implies self.values@[self.keys@.index_of(
                        x,
                    )] == before.values@[before.keys@.index_of(x)] by {
                        let j = self.keys@.index_of(x);
                        assert(self.keys@[j] == x);
                        let o = if j < i { j } else { j + 1 };
                        assert(before.keys@[o] == x);
                    }
                    assert(self@ =~= before@.remove(k));
                }
                Some(v)
            },
            None => {
                proof {
                    lemma_without_absent(self.keys@, k);
                    assert(self@ =~= old(self)@.remove(k));
                }
                None
            },
        }
    }
}

/// Taking out the one key at index `i` is taking out that index.
pub proof fn lemma_without_at<K>(s: Seq<K>, i: int)
    requires
        s.no_duplicates(),
        0 <= i < s.len(),
    ensures
        without(s, s[i]) == s.remove(i),
    decreases s.len(),
{
    let d = s.drop_last();
    if i == s.len() - 1 {
        assert(!d.contains(s[i])) by {
            if d.contains(s[i]) {
                let j = d.index_of(s[i]);
                assert(s[j] == s[i]);
            }
        }
        lemma_without_absent(d, s[i]);
        assert(s.remove(i) =~= d);
    } else {
        assert(d[i] == s[i]);
        lemma_without_at(d, i);
        assert(s.last() == s[s.len() - 1]);
        assert(s.remove(i) =~= d.remove(i).push(s.last()));
    }
}

/// The ids grow from one to the next, so that none occurs twice.
pub open spec fn ascending(ids: Seq<u64>) -> bool {
    forall|i: int, j: int| 0 <= i < j < ids.len() ==> #[trigger] ids[i] < #[trigger] ids[j]
}

/// Two lists of growing ids that hold the same ids are the same list.
pub proof fn law_ascending_ids_are_determined(a: Seq<u64>, b: Seq<u64>)
    requires
        ascending(a),
        ascending(b),
        forall|id: u64| a.contains(id) <==> b.contains(id),
    ensures
        a == b,
    decreases a.len(),
{
    if a.len() == 0 {
        if b.len() > 0 {
            assert(b.contains(b[0]));
        }
        assert(a =~= b);
    } else {
        assert(a.contains(a[0]));
        assert(b.len() > 0);
        assert(b.contains(b.last()));
        assert(a.contains(a.last()));
        let i = choose|i: int| 0 <= i < a.len() && a[i] == b.last();
        let j = choose|j: int| 0 <= j < b.len() && b[j] == a.last();
        assert(a.last() == b.last());
        assert forall|id: u64| a.drop_last().contains(id) <==> b.drop_last().contains(id) by {
            if a.drop_last().contains(id) {
                let k = choose|k: int| 0 <= k < a.drop_last().len() && a.drop_last()[k] == id;
                assert(a[k] == id);
                assert(b.contains(id));
                let l = choose|l: int| 0 <= l < b.len() && b[l] == id;
                assert(b.drop_last()[l] == id);
            }
            if b.drop_last().contains(id) {
                let k = choose|k: int| 0 <= k < b.drop_last().len() && b.drop_last()[k] == id;
                assert(b[k] == id);
                assert(a.contains(id));
                let l = choose|l: int| 0 <= l < a.len() && a[l] == id;
                assert(a.drop_last()[l] == id);
            }
        }
        law_ascending_ids_are_determined(a.drop_last(), b.drop_last());
        assert(a =~= a.drop_last().push(a.last()));
        assert(b =~= b.drop_last().push(b.last()));
    }
}

/// Puts an id into its place, unless it is there already.
pub fn insert_ascending(ids: &mut Vec<u64>, id: u64)
    requires
        ascending(old(ids)@),
    ensures
        ascending(final(ids)@),
        forall|x: u64| #[trigger] final(ids)@.contains(x) <==> old(ids)@.contains(x) || x == id,
{
    let ghost before = ids@;
    let mut i: usize = 0;
    while i < ids.len() && ids[i] < id
        invariant
            i <= ids@.len(),
            ids@ == before,
            forall|j: int| 0 <= j < i ==> #[trigger] ids@[j] < id,
        decreases ids@.len() - i,
    {
        i += 1;
    }
    if i < ids.len() && ids[i] == id {
        assert(before[i as int] == id);
        return;
    }
    ids.insert(i, id);
    proof {
        assert forall|x: u64| #[trigger] ids@.contains(x) <==> before.contains(x) || x == id by {
            if before.contains(x) {
                let k = choose|k: int| 0 <= k < before.len() && before[k] == x;
                if k < i {
                    assert(ids@[k] == x);
                } else {
                    assert(ids@[k + 1] == x);
                }
            }
            if x == id {
                assert(ids@[i as int] == x);
            }
            if ids@.contains(x) {
                let k = choose|k: int| 0 <= k < ids@.len() && ids@[k] == x;
                if k < i {
                    assert(before[k] == x);
                } else if k > i {
                    assert(before[k - 1] == x);
                }
            }
        }
    }
}

/// Puts each of some ids into its place.
pub fn insert_all_ascending(ids: &mut Vec<u64>, more: &Vec<u64>)
    requires
        ascending(old(ids)@),
    ensures
        ascending(final(ids)@),
        forall|x: u64| #[trigger]
            final(ids)@.contains(x) <==> old(ids)@.contains(x) || more@.contains(x),
{
    let ghost before = ids@;
    let mut i: usize = 0;
    assert(more@.take(0) =~= seq![]);
    while i < more.len()
        invariant
            i <= more@.len(),
            before == old(ids)@,
            ascending(ids@),
            forall|x: u64| #[trigger]
                ids@.contains(x) <==> before.contains(x) || more@.take(i as int).contains(x),
        decreases more@.len() - i,
    {
        let ghost so_far = ids@;
        let ghost shorter = more@.take(i as int);
        let ghost longer = more@.take(i + 1);
        insert_ascending(ids, more[i]);
        proof {
            assert forall|x: u64| #[trigger] ids@.contains(x) <==> before.contains(x)
                || longer.contains(x) by {
                assert(so_far.contains(x) <==> before.contains(x) || shorter.contains(x));
                if shorter.contains(x) {
                    let k = choose|k: int| 0 <= k < shorter.len() && shorter[k] == x;
                    assert(longer[k] == x);
                }
                if x == more@[i as int] {
                    assert(longer[i as int] == x);
                }
                if longer.contains(x) {
                    let k = choose|k: int| 0 <= k < longer.len() && longer[k] == x;
                    if k < i {
                        assert(shorter[k] == x);
                    }
                }
            }
        }
        i += 1;
    }
    assert(more@.take(i as int) =~= more@);
}

/// Taking something out of a list leaves the rest in order; putting something in that is there
/// changes nothing, and else it goes to the end.
pub proof fn law_lists_keep_their_order<K>(s: Seq<K>, k: K, x: K)
    ensures
        without(s.push(k), k) == without(s, k),
        x != k ==> without(s.push(x), k) == without(s, k).push(x),
        s.contains(k) ==> inserted(s, k) == s,
        !s.contains(k) ==> inserted(s, k) == s.push(k),
        inserted(inserted(s, k), k) == inserted(s, k),
{
    assert(s.push(k).drop_last() =~= s);
    assert(s.push(x).drop_last() =~= s);
    if !s.contains(k) {
        assert(s.push(k)[s.len() as int] == k);
    }
}

/// What is put in one after the other is in afterwards, once, behind what was there.
pub proof fn law_all_that_is_put_in_is_in<K>(s: Seq<K>, ks: Seq<K>, k: K)
    ensures
        inserted_all(s, ks).contains(k) <==> s.contains(k) || ks.contains(k),
        s.len() <= inserted_all(s, ks).len() <= s.len() + ks.len(),
        inserted_all(s, ks).take(s.len() as int) == s,
        s.no_duplicates() ==> inserted_all(s, ks).no_duplicates(),
    decreases ks.len(),
{
    if ks.len() > 0 {
        let front = ks.drop_last();
        let before = inserted_all(s, front);
        law_all_that_is_put_in_is_in(s, front, k);
        law_all_that_is_put_in_is_in(s, front, ks.last());
        lemma_inserted_contains(before, ks.last(), k);
        assert(ks =~= front.push(ks.last()));
        if front.contains(k) {
            assert(ks[front.index_of(k)] == k);
        }
        if ks.contains(k) && k != ks.last() {
            assert(front[ks.index_of(k)] == k);
        }
        assert(ks.contains(ks.last())) by {
            assert(ks[ks.len() - 1] == ks.last());
        }
        assert(inserted_all(s, ks).take(s.len() as int) =~= before.take(s.len() as int));
        if s.no_duplicates() {
            lemma_inserted_no_duplicates(before, ks.last());
        }
    } else {
        assert(s.take(s.len() as int) =~= s);
    }
}

} // verus!
