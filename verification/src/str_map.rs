use vstd::prelude::*;

use crate::types::Bid;

verus! {

/// A map from strings to values, kept as a list of entries with distinct keys.
///
/// Its model is a `Map` from the keys' characters to the values.
#[derive(Debug)]
pub struct StrMap<V> {
    entries: Vec<(String, V)>,
}

/// No key occurs twice in a list of entries.
pub open spec fn distinct_keys<V>(entries: Seq<(String, V)>) -> bool {
    forall|i: int, j: int|
        0 <= i < entries.len() && 0 <= j < entries.len() && i != j ==> #[trigger] entries[i].0@
            != #[trigger] entries[j].0@
}

/// Entry `i` of the list has key `k`.
pub open spec fn key_at<V>(entries: Seq<(String, V)>, i: int, k: Seq<char>) -> bool {
    0 <= i < entries.len() && entries[i].0@ == k
}

/// The map that a list of entries with distinct keys stands for.
pub open spec fn entries_map<V>(entries: Seq<(String, V)>) -> Map<Seq<char>, V> {
    Map::new(
        |k: Seq<char>| exists|i: int| #[trigger] key_at(entries, i, k),
        |k: Seq<char>| entries[choose|i: int| #[trigger] key_at(entries, i, k)].1,
    )
}

/// In a list with distinct keys, entry `i` is what the map holds for its key.
proof fn lemma_entries_map_at<V>(entries: Seq<(String, V)>, i: int)
    requires
        distinct_keys(entries),
        0 <= i < entries.len(),
    ensures
        entries_map(entries).contains_key(entries[i].0@),
        entries_map(entries)[entries[i].0@] == entries[i].1,
{
    let k = entries[i].0@;
    assert(key_at(entries, i, k));
    let j = choose|j: int| #[trigger] key_at(entries, j, k);
    assert(key_at(entries, j, k));
    if j != i {
        assert(entries[i].0@ != entries[j].0@);
    }
}

/// The map holds every key of the list, and only those.
proof fn lemma_entries_map_dom<V>(entries: Seq<(String, V)>, k: Seq<char>)
    ensures
        entries_map(entries).contains_key(k) <==> exists|i: int| #[trigger] key_at(entries, i, k),
{
}

/// Two lists with distinct keys that pair the same keys with the same values
/// stand for the same map.
proof fn lemma_entries_map_same<V>(a: Seq<(String, V)>, b: Seq<(String, V)>, m: Map<Seq<char>, V>)
    requires
        distinct_keys(b),
        forall|i: int| 0 <= i < b.len() ==> #[trigger] m.contains_key(b[i].0@) && m[b[i].0@] == b[i].1,
        forall|k: Seq<char>| #[trigger] m.contains_key(k) ==> exists|i: int| #[trigger] key_at(b, i, k),
    ensures
        entries_map(b) == m,
{
    assert forall|k: Seq<char>| entries_map(b).contains_key(k) <==> m.contains_key(k) by {
        if entries_map(b).contains_key(k) {
            let i = choose|i: int| #[trigger] key_at(b, i, k);
            assert(m.contains_key(b[i].0@));
        }
    }
    assert forall|k: Seq<char>| #[trigger] entries_map(b).contains_key(k) implies entries_map(b)[k]
        == m[k] by {
        let i = choose|i: int| #[trigger] key_at(b, i, k);
        assert(key_at(b, i, k));
        assert(m.contains_key(b[i].0@));
        lemma_entries_map_at(b, i);
    }
    assert(entries_map(b) =~= m);
}

impl<V> View for StrMap<V> {
    type V = Map<Seq<char>, V>;

    closed spec fn view(&self) -> Map<Seq<char>, V> {
        entries_map(self.entries@)
    }
}

impl<V> StrMap<V> {
    /// No key is stored twice.
    pub closed spec fn wf(self) -> bool {
        distinct_keys(self.entries@)
    }

    /// Whether no key is stored twice.
    pub fn check_wf(&self) -> (ok: bool)
        ensures
            ok == self.wf(),
    {
        let n = self.entries.len();
        let mut i: usize = 0;
        while i < n
            invariant
                n == self.entries@.len(),
                i <= n,
                forall|a: int, b: int|
                    0 <= a < i && 0 <= b < n && a != b ==> #[trigger] self.entries@[a].0@
                        != #[trigger] self.entries@[b].0@,
            decreases n - i,
        {
            let mut j: usize = 0;
            while j < n
                invariant
                    n == self.entries@.len(),
                    i < n,
                    j <= n,
                    forall|a: int, b: int|
                        0 <= a < i && 0 <= b < n && a != b ==> #[trigger] self.entries@[a].0@
                            != #[trigger] self.entries@[b].0@,
                    forall|b: int|
                        0 <= b < j && b != i ==> self.entries@[i as int].0@ != #[trigger] self.entries@[b].0@,
                decreases n - j,
            {
                if j != i && self.entries[i].0 == self.entries[j].0 {
                    proof {
                        assert(self.entries@[i as int].0@ == self.entries@[j as int].0@);
                    }
                    return false;
                }
                j = j + 1;
            }
            i = i + 1;
        }
        proof {
            assert forall|a: int, b: int|
                0 <= a < n && 0 <= b < n && a != b implies #[trigger] self.entries@[a].0@
                != #[trigger] self.entries@[b].0@ by {}
        }
        true
    }

    /// The stored entries, in the order the map keeps them.
    pub closed spec fn entry_seq(self) -> Seq<(String, V)> {
        self.entries@
    }

    /// Makes an empty map.
    pub fn new() -> (m: Self)
        ensures
            m.wf(),
            m@ == Map::<Seq<char>, V>::empty(),
    {
        let m = StrMap { entries: Vec::new() };
        assert(m@ =~= Map::<Seq<char>, V>::empty());
        m
    }

    /// The position of key `k` in the entry list, if it is there.
    fn find(&self, k: &String) -> (r: Option<usize>)
        ensures
            match r {
                Some(i) => i < self.entries@.len() && self.entries@[i as int].0@ == k@,
                None => forall|i: int| 0 <= i < self.entries@.len() ==> self.entries@[i].0@ != k@,
            },
    {
        let n = self.entries.len();
        let mut i: usize = 0;
        while i < n
            invariant
                n == self.entries@.len(),
                i <= n,
                forall|j: int| 0 <= j < i ==> self.entries@[j].0@ != k@,
            decreases n - i,
        {
            if self.entries[i].0 == *k {
                return Some(i);
            }
            i = i + 1;
        }
        None
    }

    /// Whether key `k` is in the map.
    pub fn contains_key(&self, k: &String) -> (r: bool)
        requires
            self.wf(),
        ensures
            r == self@.contains_key(k@),
    {
        proof {
            lemma_entries_map_dom(self.entries@, k@);
        }
        match self.find(k) {
            Some(i) => {
                proof {
                    lemma_entries_map_at(self.entries@, i as int);
                }
                true
            },
            None => false,
        }
    }

    /// The value stored under `k`, if any.
    pub fn get(&self, k: &String) -> (r: Option<&V>)
        requires
            self.wf(),
        ensures
            r is Some <==> self@.contains_key(k@),
            r matches Some(v) ==> *v == self@[k@],
    {
        proof {
            lemma_entries_map_dom(self.entries@, k@);
        }
        match self.find(k) {
            Some(i) => {
                proof {
                    lemma_entries_map_at(self.entries@, i as int);
                }
                Some(&self.entries[i].1)
            },
            None => None,
        }
    }

    /// Stores `v` under `k`, and hands back what `k` held before.
    pub fn insert(&mut self, k: String, v: V) -> (prev: Option<V>)
        requires
            old(self).wf(),
        ensures
            final(self).wf(),
            final(self)@ == old(self)@.insert(k@, v),
            prev is Some <==> old(self)@.contains_key(k@),
            prev matches Some(p) ==> p == old(self)@[k@],
    {
        let ghost old_entries = self.entries@;
        proof {
            lemma_entries_map_dom(old_entries, k@);
        }
        match self.find(&k) {
            Some(i) => {
                proof {
                    lemma_entries_map_at(old_entries, i as int);
                }
                let ghost kv = k@;
                let (_, prev) = self.entries.remove(i);
                self.entries.insert(i, (k, v));
                proof {
                    let new_entries = self.entries@;
                    assert(new_entries =~= old_entries.update(i as int, new_entries[i as int]));
                    let target = entries_map(old_entries).insert(kv, v);
                    assert forall|j: int| 0 <= j < new_entries.len() implies #[trigger] target.contains_key(
                        new_entries[j].0@,
                    ) && target[new_entries[j].0@] == new_entries[j].1 by {
                        if j != i {
                            lemma_entries_map_at(old_entries, j);
                        }
                    }
                    assert forall|k2: Seq<char>| #[trigger] target.contains_key(k2) implies exists|j: int|
                        #[trigger] key_at(new_entries, j, k2) by {
                        if k2 == kv {
                            assert(key_at(new_entries, i as int, k2));
                        } else {
                            let j = choose|j: int| #[trigger] key_at(old_entries, j, k2);
                            assert(key_at(new_entries, j, k2));
                        }
                    }
                    lemma_entries_map_same(old_entries, new_entries, target);
                }
                Some(prev)
            },
            None => {
                let ghost kv = k@;
                self.entries.push((k, v));
                proof {
                    let new_entries = self.entries@;
                    let n = old_entries.len() as int;
                    let target = entries_map(old_entries).insert(kv, v);
                    assert forall|j: int| 0 <= j < new_entries.len() implies #[trigger] target.contains_key(
                        new_entries[j].0@,
                    ) && target[new_entries[j].0@] == new_entries[j].1 by {
                        if j < n {
                            lemma_entries_map_at(old_entries, j);
                        }
                    }
                    assert forall|k2: Seq<char>| #[trigger] target.contains_key(k2) implies exists|j: int|
                        #[trigger] key_at(new_entries, j, k2) by {
                        if k2 == kv {
                            assert(key_at(new_entries, n, k2));
                        } else {
                            let j = choose|j: int| #[trigger] key_at(old_entries, j, k2);
                            assert(key_at(new_entries, j, k2));
                        }
                    }
                    lemma_entries_map_same(old_entries, new_entries, target);
                }
                None
            },
        }
    }

    /// Takes out the value stored under `k`, if any.
    pub fn remove(&mut self, k: &String) -> (prev: Option<V>)
        requires
            old(self).wf(),
        ensures
            final(self).wf(),
            final(self)@ == old(self)@.remove(k@),
            prev is Some <==> old(self)@.contains_key(k@),
            prev matches Some(p) ==> p == old(self)@[k@],
    {
        let ghost old_entries = self.entries@;
        proof {
            lemma_entries_map_dom(old_entries, k@);
        }
        match self.find(k) {
            Some(i) => {
                proof {
                    lemma_entries_map_at(old_entries, i as int);
                }
                let (_, prev) = self.entries.remove(i);
                proof {
                    let new_entries = self.entries@;
                    let target = entries_map(old_entries).remove(k@);
                    assert forall|j: int| 0 <= j < new_entries.len() implies #[trigger] target.contains_key(
                        new_entries[j].0@,
                    ) && target[new_entries[j].0@] == new_entries[j].1 by {
                        if j < i {
                            lemma_entries_map_at(old_entries, j);
                        } else {
                            lemma_entries_map_at(old_entries, j + 1);
                        }
                    }
                    assert forall|k2: Seq<char>| #[trigger] target.contains_key(k2) implies exists|j: int|
                        #[trigger] key_at(new_entries, j, k2) by {
                        let j = choose|j: int| #[trigger] key_at(old_entries, j, k2);
                        if j < i {
                            assert(key_at(new_entries, j, k2));
                        } else {
                            assert(j != i);
                            assert(key_at(new_entries, j - 1, k2));
                        }
                    }
                    lemma_entries_map_same(old_entries, new_entries, target);
                }
                Some(prev)
            },
            None => {
                proof {
                    assert(old_entries == self.entries@);
                    assert(entries_map(old_entries).remove(k@) =~= entries_map(old_entries));
                }
                None
            },
        }
    }

    /// The number of keys in the map.
    pub fn len(&self) -> (n: usize)
        requires
            self.wf(),
        ensures
            n == self@.dom().len(),
    {
        proof {
            lemma_entries_map_len(self.entries@);
        }
        self.entries.len()
    }

    /// The entries, each key with its value, in the map's own order.
    pub fn entries(&self) -> (r: &Vec<(String, V)>)
        requires
            self.wf(),
        ensures
            r@ == self.entry_seq(),
            distinct_keys(r@),
            forall|i: int|
                0 <= i < r@.len() ==> #[trigger] self@.contains_key(r@[i].0@) && self@[r@[i].0@]
                    == r@[i].1,
            forall|k: Seq<char>| #[trigger]
                self@.contains_key(k) ==> exists|i: int| #[trigger] key_at(r@, i, k),
    {
        proof {
            assert forall|i: int| 0 <= i < self.entries@.len() implies #[trigger] self@.contains_key(
                self.entries@[i].0@,
            ) && self@[self.entries@[i].0@] == self.entries@[i].1 by {
                lemma_entries_map_at(self.entries@, i);
            }
        }
        &self.entries
    }
}

impl<V: Copy> StrMap<V> {
    /// A copy of the map, entry by entry.
    pub fn duplicate(&self) -> (r: Self)
        requires
            self.wf(),
        ensures
            r.wf(),
            r@ == self@,
            r.entry_seq() == self.entry_seq(),
    {
        let mut entries: Vec<(String, V)> = Vec::new();
        let n = self.entries.len();
        let mut i: usize = 0;
        while i < n
            invariant
                n == self.entries@.len(),
                i <= n,
                entries@.len() == i,
                forall|j: int| 0 <= j < i ==> #[trigger] entries@[j] == self.entries@[j],
            decreases n - i,
        {
            let k = self.entries[i].0.clone();
            let v = self.entries[i].1;
            entries.push((k, v));
            i = i + 1;
        }
        assert(entries@ =~= self.entries@);
        StrMap { entries }
    }
}

impl StrMap<Bid> {
    /// A copy of the bids, entry by entry.
    pub fn duplicate_bids(&self) -> (r: Self)
        requires
            self.wf(),
        ensures
            r.wf(),
            r@ == self@,
            r.entry_seq() == self.entry_seq(),
    {
        let mut entries: Vec<(String, Bid)> = Vec::new();
        let n = self.entries.len();
        let mut i: usize = 0;
        while i < n
            invariant
                n == self.entries@.len(),
                i <= n,
                entries@.len() == i,
                forall|j: int| 0 <= j < i ==> #[trigger] entries@[j] == self.entries@[j],
            decreases n - i,
        {
            let k = self.entries[i].0.clone();
            let v = self.entries[i].1.duplicate();
            entries.push((k, v));
            i = i + 1;
        }
        assert(entries@ =~= self.entries@);
        StrMap { entries }
    }
}

/// A well-formed map holds finitely many keys, as many as it stores entries.
pub proof fn lemma_str_map_finite<V>(m: StrMap<V>)
    requires
        m.wf(),
    ensures
        m@.dom().finite(),
        m@.dom().len() == m.entry_seq().len(),
{
    lemma_entries_map_len(m.entries@);
}

/// The map of a list with distinct keys has as many keys as the list has entries.
proof fn lemma_entries_map_len<V>(entries: Seq<(String, V)>)
    requires
        distinct_keys(entries),
    ensures
        entries_map(entries).dom().finite(),
        entries_map(entries).dom().len() == entries.len(),
    decreases entries.len(),
{
    let m = entries_map(entries);
    if entries.len() == 0 {
        assert(m.dom() =~= Set::<Seq<char>>::empty());
    } else {
        let n = entries.len() - 1;
        let prefix = entries.drop_last();
        let last = entries[n].0@;
        assert(distinct_keys(prefix)) by {
            assert forall|i: int, j: int|
                0 <= i < prefix.len() && 0 <= j < prefix.len() && i != j implies #[trigger] prefix[i].0@
                != #[trigger] prefix[j].0@ by {
                assert(prefix[i] == entries[i]);
                assert(prefix[j] == entries[j]);
            }
        }
        lemma_entries_map_len(prefix);
        let pm = entries_map(prefix);
        assert(!pm.dom().contains(last)) by {
            if pm.dom().contains(last) {
                let i = choose|i: int| #[trigger] key_at(prefix, i, last);
                assert(entries[i].0@ == last);
            }
        }
        assert(m.dom() =~= pm.dom().insert(last)) by {
            assert forall|k: Seq<char>| m.dom().contains(k) implies pm.dom().contains(k) || k == last by {
                let i = choose|i: int| #[trigger] key_at(entries, i, k);
                if i < n {
                    assert(key_at(prefix, i, k));
                }
            }
            assert forall|k: Seq<char>| pm.dom().contains(k) implies m.dom().contains(k) by {
                let i = choose|i: int| #[trigger] key_at(prefix, i, k);
                assert(key_at(entries, i, k));
            }
            assert(key_at(entries, n, last));
        }
    }
}

/// A set of strings that remembers the order in which they were added,
/// each string at most once.
#[derive(Debug)]
pub struct StrSet {
    items: Vec<String>,
}

impl View for StrSet {
    type V = Seq<Seq<char>>;

    closed spec fn view(&self) -> Seq<Seq<char>> {
        self.items@.map_values(|s: String| s@)
    }
}

/// What is left of `s` when `x` is taken out by moving the last element into its place.
pub open spec fn swap_removed(s: Seq<Seq<char>>, x: Seq<char>) -> Seq<Seq<char>> {
    if s.contains(x) {
        s.update(s.index_of(x), s.last()).drop_last()
    } else {
        s
    }
}

impl StrSet {
    /// No string is stored twice.
    pub open spec fn wf(self) -> bool {
        self@.no_duplicates()
    }

    /// Whether no string is stored twice.
    pub fn check_wf(&self) -> (ok: bool)
        ensures
            ok == self.wf(),
    {
        let n = self.items.len();
        let mut i: usize = 0;
        while i < n
            invariant
                n == self.items@.len(),
                n == self@.len(),
                i <= n,
                forall|a: int, b: int|
                    0 <= a < i && 0 <= b < n && a != b ==> #[trigger] self@[a] != #[trigger] self@[b],
            decreases n - i,
        {
            let mut j: usize = 0;
            while j < n
                invariant
                    n == self.items@.len(),
                    n == self@.len(),
                    i < n,
                    j <= n,
                    forall|a: int, b: int|
                        0 <= a < i && 0 <= b < n && a != b ==> #[trigger] self@[a] != #[trigger] self@[b],
                    forall|b: int| 0 <= b < j && b != i ==> self@[i as int] != #[trigger] self@[b],
                decreases n - j,
            {
                if j != i && self.items[i] == self.items[j] {
                    proof {
                        assert(self@[i as int] == self@[j as int]);
                    }
                    return false;
                }
                j = j + 1;
            }
            i = i + 1;
        }
        proof {
            assert forall|a: int, b: int|
                0 <= a < n && 0 <= b < n && a != b implies #[trigger] self@[a] != #[trigger] self@[b] by {}
        }
        true
    }

    /// Makes an empty set.
    pub fn new() -> (s: Self)
        ensures
            s.wf(),
            s@ == Seq::<Seq<char>>::empty(),
    {
        let s = StrSet { items: Vec::new() };
        assert(s@ =~= Seq::<Seq<char>>::empty());
        s
    }

    fn find(&self, x: &String) -> (r: Option<usize>)
        ensures
            match r {
                Some(i) => i < self@.len() && self@[i as int] == x@,
                None => !self@.contains(x@),
            },
    {
        let n = self.items.len();
        let mut i: usize = 0;
        while i < n
            invariant
                n == self@.len(),
                n == self.items@.len(),
                i <= n,
                forall|j: int| 0 <= j < i ==> self@[j] != x@,
            decreases n - i,
        {
            if self.items[i] == *x {
                return Some(i);
            }
            i = i + 1;
        }
        None
    }

    /// Whether `x` is in the set.
    pub fn contains(&self, x: &String) -> (r: bool)
        ensures
            r == self@.contains(x@),
    {
        self.find(x).is_some()
    }

    /// Adds `x` at the end unless it is already there; tells whether it was added.
    pub fn insert(&mut self, x: String) -> (added: bool)
        requires
            old(self).wf(),
        ensures
            final(self).wf(),
            added == !old(self)@.contains(x@),
            final(self)@ == if added {
                old(self)@.push(x@)
            } else {
                old(self)@
            },
    {
        match self.find(&x) {
            Some(_) => false,
            None => {
                let ghost xv = x@;
                self.items.push(x);
                assert(self@ =~= old(self)@.push(xv));
                true
            },
        }
    }

    /// Takes `x` out, moving the last element into its place; tells whether it was there.
    pub fn remove(&mut self, x: &String) -> (removed: bool)
        requires
            old(self).wf(),
        ensures
            final(self).wf(),
            removed == old(self)@.contains(x@),
            final(self)@ == swap_removed(old(self)@, x@),
            final(self)@.to_set() == old(self)@.to_set().remove(x@),
    {
        let ghost s = self@;
        match self.find(x) {
            Some(i) => {
                let _ = self.items.swap_remove(i);
                proof {
                    let j = s.index_of(x@);
                    assert(s[j] == x@);
                    assert(j == i);
                    assert(self@ =~= s.update(i as int, s.last()).drop_last());
                    let t = self@;
                    assert forall|a: int, b: int|
                        0 <= a < t.len() && 0 <= b < t.len() && a != b implies t[a] != t[b] by {
                        let a2 = if a == i { s.len() - 1 } else { a };
                        let b2 = if b == i { s.len() - 1 } else { b };
                        assert(t[a] == s[a2]);
                        assert(t[b] == s[b2]);
                    }
                    assert forall|y: Seq<char>| t.contains(y) <==> s.contains(y) && y != x@ by {
                        if t.contains(y) {
                            let a = choose|a: int| 0 <= a < t.len() && t[a] == y;
                            let a2 = if a == i { s.len() - 1 } else { a };
                            assert(t[a] == s[a2]);
                        }
                        if s.contains(y) && y != x@ {
                            let a = choose|a: int| 0 <= a < s.len() && s[a] == y;
                            if a == s.len() - 1 {
                                assert(t[i as int] == y);
                            } else {
                                assert(t[a] == y);
                            }
                        }
                    }
                    assert(t.to_set() =~= s.to_set().remove(x@));
                }
                true
            },
            None => {
                assert(s.to_set().remove(x@) =~= s.to_set());
                false
            },
        }
    }

    /// The number of strings in the set.
    pub fn len(&self) -> (n: usize)
        ensures
            n == self@.len(),
    {
        self.items.len()
    }

    /// Whether the set is empty.
    pub fn is_empty(&self) -> (r: bool)
        ensures
            r == (self@.len() == 0),
    {
        self.items.len() == 0
    }

    /// A copy of the strings, in the set's order.
    pub fn to_vec(&self) -> (v: Vec<String>)
        ensures
            v@.map_values(|s: String| s@) == self@,
    {
        let mut v: Vec<String> = Vec::new();
        let n = self.items.len();
        let mut i: usize = 0;
        while i < n
            invariant
                n == self.items@.len(),
                i <= n,
                v@.len() == i,
                forall|j: int| 0 <= j < i ==> v@[j]@ == self.items@[j]@,
            decreases n - i,
        {
            v.push(self.items[i].clone());
            i = i + 1;
        }
        assert(v@.map_values(|s: String| s@) =~= self@);
        v
    }
}

} // verus!
