//! An ordered map kept as a sorted vector.

use vstd::prelude::*;

use crate::text::Sign;

verus! {

/// A key with a strict total order on its model.
pub trait Key: Sized {
    /// What identifies the key.
    type Model;

    spec fn model(&self) -> Self::Model;

    spec fn precedes(a: Self::Model, b: Self::Model) -> bool;

    proof fn strict_order(a: Self::Model, b: Self::Model, c: Self::Model)
        ensures
            !Self::precedes(a, a),
            Self::precedes(a, b) ==> !Self::precedes(b, a),
            Self::precedes(a, b) && Self::precedes(b, c) ==> Self::precedes(a, c),
            a == b || Self::precedes(a, b) || Self::precedes(b, a),
    ;

    fn sign(&self, other: &Self) -> (s: Sign)
        ensures
            s == Sign::Less <==> Self::precedes(self.model(), other.model()),
            s == Sign::Same <==> self.model() == other.model(),
            s == Sign::More <==> Self::precedes(other.model(), self.model()),
    ;
}

/// A map from keys to values, listed in key order.
pub struct SortedMap<K: Key, V> {
    entries: Vec<(K, V)>,
}

/// Entries in strictly increasing key order.
pub open spec fn ascending<K: Key, V>(s: Seq<(K, V)>) -> bool {
    forall|i: int, j: int|
        0 <= i < j < s.len() ==> K::precedes((#[trigger] s[i]).0.model(), (#[trigger] s[j]).0.model())
}

/// The entries hold the key `k`.
pub open spec fn holds<K: Key, V>(s: Seq<(K, V)>, k: K::Model) -> bool {
    exists|i: int| 0 <= i < s.len() && (#[trigger] s[i]).0.model() == k
}

/// Where the entries hold the key `k`.
pub open spec fn place<K: Key, V>(s: Seq<(K, V)>, k: K::Model) -> int {
    choose|i: int| 0 <= i < s.len() && (#[trigger] s[i]).0.model() == k
}

/// The map that the entries list.
pub open spec fn map_of<K: Key, V>(s: Seq<(K, V)>) -> Map<K::Model, V> {
    Map::new(|k: K::Model| holds(s, k), |k: K::Model| s[place(s, k)].1)
}

proof fn unique_place<K: Key, V>(s: Seq<(K, V)>, i: int)
    requires
        ascending(s),
        0 <= i < s.len(),
    ensures
        holds(s, s[i].0.model()),
        place(s, s[i].0.model()) == i,
{
    let j = place(s, s[i].0.model());
    K::strict_order(s[i].0.model(), s[i].0.model(), s[i].0.model());
    if j < i {
        assert(K::precedes(s[j].0.model(), s[i].0.model()));
    }
    if i < j {
        assert(K::precedes(s[i].0.model(), s[j].0.model()));
    }
}

/// The map of ascending entries has as many keys as there are entries.
proof fn map_of_len<K: Key, V>(s: Seq<(K, V)>)
    requires
        ascending(s),
    ensures
        map_of(s).dom().finite(),
        map_of(s).dom().len() == s.len(),
    decreases s.len(),
{
    if s.len() == 0 {
        assert(map_of(s).dom() =~= Set::empty());
    } else {
        let t = s.drop_last();
        let k = s.last().0.model();
        assert(ascending(t)) by {
            assert forall|i: int, j: int| 0 <= i < j < t.len() implies K::precedes(
                (#[trigger] t[i]).0.model(),
                (#[trigger] t[j]).0.model(),
            ) by {
                assert(t[i] == s[i]);
                assert(t[j] == s[j]);
            }
        }
        map_of_len(t);
        assert(!holds(t, k)) by {
            if holds(t, k) {
                let i = place(t, k);
                assert(t[i] == s[i]);
                assert(K::precedes(s[i].0.model(), s[s.len() - 1].0.model()));
                K::strict_order(k, k, k);
            }
        }
        assert(map_of(s).dom() =~= map_of(t).dom().insert(k)) by {
            assert forall|x: K::Model| holds(s, x) == (holds(t, x) || x == k) by {
                if holds(s, x) {
                    let i = place(s, x);
                    if i < t.len() {
                        assert(t[i] == s[i]);
                    }
                }
                if holds(t, x) {
                    let i = place(t, x);
                    assert(s[i] == t[i]);
                }
                if x == k {
                    assert(s[s.len() - 1].0.model() == k);
                }
            }
        }
    }
}

/// One more entry is one more insertion.
pub proof fn map_of_prefix<K: Key, V>(s: Seq<(K, V)>, i: int)
    requires
        ascending(s),
        0 <= i < s.len(),
    ensures
        map_of(s.take(i + 1)) == map_of(s.take(i)).insert(s[i].0.model(), s[i].1),
{
    let a = s.take(i);
    let b = s.take(i + 1);
    let k = s[i].0.model();
    assert(ascending(a)) by {
        assert forall|x: int, y: int| 0 <= x < y < a.len() implies K::precedes(
            (#[trigger] a[x]).0.model(),
            (#[trigger] a[y]).0.model(),
        ) by {
            assert(a[x] == s[x] && a[y] == s[y]);
        }
    }
    assert(ascending(b)) by {
        assert forall|x: int, y: int| 0 <= x < y < b.len() implies K::precedes(
            (#[trigger] b[x]).0.model(),
            (#[trigger] b[y]).0.model(),
        ) by {
            assert(b[x] == s[x] && b[y] == s[y]);
        }
    }
    assert(b[i] == s[i]);
    assert forall|x: K::Model| holds(b, x) == (holds(a, x) || x == k) by {
        if holds(b, x) {
            let p = place(b, x);
            if p < i {
                assert(a[p] == b[p]);
            }
        }
        if holds(a, x) {
            let p = place(a, x);
            assert(b[p] == a[p]);
        }
    }
    assert(map_of(b).dom() =~= map_of(a).insert(k, s[i].1).dom());
    assert forall|x: K::Model| #[trigger] map_of(b).dom().contains(x) implies map_of(b)[x] == map_of(a).insert(
        k,
        s[i].1,
    )[x] by {
        if x == k {
            unique_place(b, i);
        } else {
            let p = place(a, x);
            assert(holds(a, x));
            assert(b[p] == a[p]);
            unique_place(b, p);
        }
    }
    assert(map_of(b) =~= map_of(a).insert(k, s[i].1));
}

impl<K: Key, V> SortedMap<K, V> {
    /// The entries, in key order.
    pub closed spec fn items(&self) -> Seq<(K, V)> {
        self.entries@
    }

    /// The entries are sorted and no key occurs twice.
    pub closed spec fn wf(&self) -> bool {
        ascending(self.entries@)
    }

    /// How the listed items and the map relate.
    pub proof fn items_are_the_map(&self)
        requires
            self.wf(),
        ensures
            ascending(self.items()),
            self@ == map_of(self.items()),
            forall|i: int|
                0 <= i < self.items().len() ==> {
                    &&& self@.dom().contains((#[trigger] self.items()[i]).0.model())
                    &&& self@[self.items()[i].0.model()] == self.items()[i].1
                },
            self@.dom().finite(),
            self@.dom().len() == self.items().len(),
    {
        map_of_len(self.entries@);
        assert forall|i: int| 0 <= i < self.items().len() implies {
            &&& self@.dom().contains((#[trigger] self.items()[i]).0.model())
            &&& self@[self.items()[i].0.model()] == self.items()[i].1
        } by {
            unique_place(self.entries@, i);
        }
    }

    /// A map without entries.
    pub fn new() -> (m: Self)
        ensures
            m.wf(),
            m@ == Map::<K::Model, V>::empty(),
            m.items().len() == 0,
    {
        let m = SortedMap { entries: Vec::new() };
        proof {
            assert(m@.dom() =~= Set::empty());
            assert(m@ =~= Map::empty());
        }
        m
    }

    /// How many entries there are.
    pub fn len(&self) -> (n: usize)
        requires
            self.wf(),
        ensures
            n == self.items().len(),
            n == self@.dom().len(),
    {
        proof {
            self.items_are_the_map();
        }
        self.entries.len()
    }

    /// The entry at place `i` in key order.
    pub fn at(&self, i: usize) -> (entry: &(K, V))
        requires
            i < self.items().len(),
        ensures
            *entry == self.items()[i as int],
    {
        &self.entries[i]
    }

    /// Finds `key`, or the place where it belongs.
    fn find(&self, key: &K) -> (r: Result<usize, usize>)
        requires
            self.wf(),
        ensures
            match r {
                Ok(i) => i < self.entries@.len() && self.entries@[i as int].0.model() == key.model(),
                Err(i) => {
                    &&& i <= self.entries@.len()
                    &&& !holds(self.entries@, key.model())
                    &&& forall|j: int| 0 <= j < i ==> K::precedes((#[trigger] self.entries@[j]).0.model(), key.model())
                    &&& forall|j: int|
                        i <= j < self.entries@.len() ==> K::precedes(
                            key.model(),
                            (#[trigger] self.entries@[j]).0.model(),
                        )
                },
            },
    {
        let mut i: usize = 0;
        while i < self.entries.len()
            invariant
                self.wf(),
                i <= self.entries@.len(),
                forall|j: int| 0 <= j < i ==> K::precedes((#[trigger] self.entries@[j]).0.model(), key.model()),
            decreases self.entries@.len() - i,
        {
            match self.entries[i].0.sign(key) {
                Sign::Less => {
                    i = i + 1;
                },
                Sign::Same => {
                    return Ok(i);
                },
                Sign::More => {
                    proof {
                        let s = self.entries@;
                        assert forall|j: int| i <= j < s.len() implies K::precedes(
                            key.model(),
                            (#[trigger] s[j]).0.model(),
                        ) by {
                            if i < j {
                                K::strict_order(key.model(), s[i as int].0.model(), s[j].0.model());
                            }
                        }
                        K::strict_order(key.model(), key.model(), key.model());
                        assert(!holds(s, key.model()));
                    }
                    return Err(i);
                },
            }
        }
        proof {
            K::strict_order(key.model(), key.model(), key.model());
            assert(!holds(self.entries@, key.model()));
        }
        Err(i)
    }

    /// True when `key` has an entry.
    pub fn contains(&self, key: &K) -> (found: bool)
        requires
            self.wf(),
        ensures
            found == self@.dom().contains(key.model()),
    {
        match self.find(key) {
            Ok(i) => {
                proof {
                    unique_place(self.entries@, i as int);
                }
                true
            },
            Err(_) => false,
        }
    }

    /// The value of `key`.
    pub fn get(&self, key: &K) -> (value: Option<&V>)
        requires
            self.wf(),
        ensures
            match value {
                Some(v) => self@.dom().contains(key.model()) && *v == self@[key.model()],
                None => !self@.dom().contains(key.model()),
            },
    {
        match self.find(key) {
            Ok(i) => {
                proof {
                    unique_place(self.entries@, i as int);
                }
                Some(&self.entries[i].1)
            },
            Err(_) => None,
        }
    }

    /// Gives `key` the value `value`.
    pub fn insert(&mut self, key: K, value: V)
        requires
            old(self).wf(),
        ensures
            final(self).wf(),
            final(self)@ == old(self)@.insert(key.model(), value),
    {
        let ghost before = self.entries@;
        let ghost k = key.model();
        match self.find(&key) {
            Ok(i) => {
                self.entries.set(i, (key, value));
                proof {
                    let after = self.entries@;
                    assert(forall|j: int| 0 <= j < before.len() ==> (#[trigger] after[j]).0.model() == before[j].0.model());
                    assert(ascending(after)) by {
                        assert forall|a: int, b: int| 0 <= a < b < after.len() implies K::precedes(
                            (#[trigger] after[a]).0.model(),
                            (#[trigger] after[b]).0.model(),
                        ) by {
                            assert(K::precedes(before[a].0.model(), before[b].0.model()));
                        }
                    }
                    assert forall|x: K::Model| holds(after, x) == holds(before, x) by {
                        if holds(after, x) {
                            assert(before[place(after, x)].0.model() == x);
                        }
                        if holds(before, x) {
                            assert(after[place(before, x)].0.model() == x);
                        }
                    }
                    unique_place(before, i as int);
                    assert forall|x: K::Model| #[trigger] map_of(before).insert(k, value).dom().contains(x)
                        implies map_of(after)[x] == map_of(before).insert(k, value)[x] by {
                        let j = place(before, x);
                        unique_place(before, j);
                        unique_place(after, j);
                        assert(after[j].0.model() == x);
                    }
                    assert(map_of(after).dom() =~= map_of(before).insert(k, value).dom());
                    assert(map_of(after) =~= map_of(before).insert(k, value));
                }
            },
            Err(i) => {
                self.entries.insert(i, (key, value));
                proof {
                    let after = self.entries@;
                    let at = i as int;
                    assert(after == before.insert(at, (key, value)));
                    assert(ascending(after)) by {
                        assert forall|a: int, b: int| 0 <= a < b < after.len() implies K::precedes(
                            (#[trigger] after[a]).0.model(),
                            (#[trigger] after[b]).0.model(),
                        ) by {
                            let x = if a < at { a } else { a - 1 };
                            let y = if b < at { b } else { b - 1 };
                            if a != at && b != at {
                                assert(K::precedes(before[x].0.model(), before[y].0.model()));
                            } else if a == at {
                                assert(K::precedes(k, before[y].0.model()));
                            } else {
                                assert(K::precedes(before[x].0.model(), k));
                            }
                        }
                    }
                    assert forall|x: K::Model| holds(after, x) == (holds(before, x) || x == k) by {
                        if holds(after, x) {
                            let p = place(after, x);
                            if p < at {
                                assert(before[p] == after[p]);
                            } else if p > at {
                                assert(before[p - 1] == after[p]);
                            }
                        }
                        if holds(before, x) {
                            let p = place(before, x);
                            if p < at {
                                assert(after[p] == before[p]);
                            } else {
                                assert(after[p + 1] == before[p]);
                            }
                        }
                        if x == k {
                            assert(after[at].0.model() == k);
                        }
                    }
                    assert forall|x: K::Model| #[trigger] map_of(before).insert(k, value).dom().contains(x)
                        implies map_of(after)[x] == map_of(before).insert(k, value)[x] by {
                        if x == k {
                            unique_place(after, at);
                        } else {
                            let p = place(before, x);
                            let q = if p < at { p } else { p + 1 };
                            assert(after[q] == before[p]);
                            unique_place(after, q);
                        }
                    }
                    assert(map_of(after).dom() =~= map_of(before).insert(k, value).dom());
                    assert(map_of(after) =~= map_of(before).insert(k, value));
                }
            },
        }
    }

    /// Takes the entry of `key` out.
    pub fn remove(&mut self, key: &K) -> (value: Option<V>)
        requires
            old(self).wf(),
        ensures
            final(self).wf(),
            final(self)@ == old(self)@.remove(key.model()),
            match value {
                Some(v) => old(self)@.dom().contains(key.model()) && v == old(self)@[key.model()],
                None => !old(self)@.dom().contains(key.model()),
            },
    {
        let ghost before = self.entries@;
        let ghost k = key.model();
        match self.find(key) {
            Ok(i) => {
                proof {
                    unique_place(before, i as int);
                }
                let entry = self.entries.remove(i);
                proof {
                    let after = self.entries@;
                    let at = i as int;
                    assert(after == before.remove(at));
                    assert(ascending(after)) by {
                        assert forall|a: int, b: int| 0 <= a < b < after.len() implies K::precedes(
                            (#[trigger] after[a]).0.model(),
                            (#[trigger] after[b]).0.model(),
                        ) by {
                            let x = if a < at { a } else { a + 1 };
                            let y = if b < at { b } else { b + 1 };
                            assert(K::precedes(before[x].0.model(), before[y].0.model()));
                        }
                    }
                    assert forall|x: K::Model| holds(after, x) == (holds(before, x) && x != k) by {
                        if holds(after, x) {
                            let p = place(after, x);
                            let q = if p < at { p } else { p + 1 };
                            assert(before[q] == after[p]);
                            unique_place(before, q);
                        }
                        if holds(before, x) && x != k {
                            let p = place(before, x);
                            let q = if p < at { p } else { p - 1 };
                            assert(after[q] == before[p]);
                        }
                    }
                    assert forall|x: K::Model| #[trigger] map_of(before).remove(k).dom().contains(x)
                        implies map_of(after)[x] == map_of(before).remove(k)[x] by {
                        let p = place(before, x);
                        let q = if p < at { p } else { p - 1 };
                        assert(after[q] == before[p]);
                        unique_place(after, q);
                    }
                    assert(map_of(after).dom() =~= map_of(before).remove(k).dom());
                    assert(map_of(after) =~= map_of(before).remove(k));
                }
                Some(entry.1)
            },
            Err(_) => {
                proof {
                    assert(map_of(before) =~= map_of(before).remove(k));
                }
                None
            },
        }
    }

    /// Takes every entry out.
    pub fn clear(&mut self)
        ensures
            final(self).wf(),
            final(self)@ == Map::<K::Model, V>::empty(),
    {
        self.entries.clear();
        proof {
            assert(self@.dom() =~= Set::empty());
            assert(self@ =~= Map::empty());
        }
    }
}

impl<K: Key + Copy, V: Copy> SortedMap<K, V> {
    /// A map with the same entries.
    pub fn duplicate(&self) -> (m: Self)
        requires
            self.wf(),
        ensures
            m.wf(),
            m@ == self@,
            m.items() == self.items(),
    {
        let mut entries: Vec<(K, V)> = Vec::new();
        let mut i: usize = 0;
        while i < self.entries.len()
            invariant
                i <= self.entries@.len(),
                entries@ == self.entries@.take(i as int),
            decreases self.entries@.len() - i,
        {
            let entry: (K, V) = (self.entries[i].0, self.entries[i].1);
            entries.push(entry);
            proof {
                assert(self.entries@.take(i + 1) =~= self.entries@.take(i as int).push(self.entries@[i as int]));
            }
            i = i + 1;
        }
        proof {
            assert(self.entries@.take(i as int) =~= self.entries@);
        }
        SortedMap { entries }
    }
}

impl<K: Key, V> View for SortedMap<K, V> {
    type V = Map<K::Model, V>;

    closed spec fn view(&self) -> Map<K::Model, V> {
        map_of(self.entries@)
    }
}

impl Key for String {
    type Model = Seq<char>;

    open spec fn model(&self) -> Seq<char> {
        self@
    }

    open spec fn precedes(a: Seq<char>, b: Seq<char>) -> bool {
        crate::text::before(a, b)
    }

    proof fn strict_order(a: Seq<char>, b: Seq<char>, c: Seq<char>) {
        crate::text::before_is_strict_order(a, b, c);
    }

    fn sign(&self, other: &String) -> (s: Sign) {
        crate::text::sign_of(self.as_str(), other.as_str())
    }
}

} // verus!
