//! Tables kept in the order of their keys.

use vstd::prelude::*;

use crate::text::chars;

verus! {

/// A key that a table can be ordered by.
pub trait Key: View + Sized {
    /// Whether one key stands before another.
    spec fn before(a: Self::V, b: Self::V) -> bool;

    /// No key stands before itself.
    proof fn lemma_irreflexive(a: Self::V)
        ensures
            !Self::before(a, a),
    ;

    /// The order is transitive.
    proof fn lemma_transitive(a: Self::V, b: Self::V, c: Self::V)
        requires
            Self::before(a, b),
            Self::before(b, c),
        ensures
            Self::before(a, c),
    ;

    /// Of two different keys one stands before the other.
    proof fn lemma_total(a: Self::V, b: Self::V)
        ensures
            a == b || Self::before(a, b) || Self::before(b, a),
    ;

    /// Whether this key stands before another.
    fn precedes(&self, other: &Self) -> (r: bool)
        ensures
            r == Self::before(self@, other@),
    ;
}

impl Key for u32 {
    open spec fn before(a: u32, b: u32) -> bool {
        a < b
    }

    proof fn lemma_irreflexive(a: u32) {
    }

    proof fn lemma_transitive(a: u32, b: u32, c: u32) {
    }

    proof fn lemma_total(a: u32, b: u32) {
    }

    fn precedes(&self, other: &u32) -> bool {
        *self < *other
    }
}

impl Key for u8 {
    open spec fn before(a: u8, b: u8) -> bool {
        a < b
    }

    proof fn lemma_irreflexive(a: u8) {
    }

    proof fn lemma_transitive(a: u8, b: u8, c: u8) {
    }

    proof fn lemma_total(a: u8, b: u8) {
    }

    fn precedes(&self, other: &u8) -> bool {
        *self < *other
    }
}

/// Whether one text stands before another, by the code points of their characters.
pub open spec fn text_before(a: Seq<char>, b: Seq<char>) -> bool
    decreases a.len(),
{
    if b.len() == 0 {
        false
    } else if a.len() == 0 {
        true
    } else if a[0] != b[0] {
        a[0] < b[0]
    } else {
        text_before(a.skip(1), b.skip(1))
    }
}

proof fn lemma_text_irreflexive(a: Seq<char>)
    ensures
        !text_before(a, a),
    decreases a.len(),
{
    if a.len() > 0 {
        lemma_text_irreflexive(a.skip(1));
    }
}

proof fn lemma_text_transitive(a: Seq<char>, b: Seq<char>, c: Seq<char>)
    requires
        text_before(a, b),
        text_before(b, c),
    ensures
        text_before(a, c),
    decreases a.len(),
{
    if a.len() > 0 && a[0] == b[0] && b[0] == c[0] {
        lemma_text_transitive(a.skip(1), b.skip(1), c.skip(1));
    }
}

proof fn lemma_text_total(a: Seq<char>, b: Seq<char>)
    ensures
        a == b || text_before(a, b) || text_before(b, a),
    decreases a.len(),
{
    if a.len() == 0 || b.len() == 0 {
        if a.len() == b.len() {
            assert(a =~= b);
        }
    } else if a[0] == b[0] {
        lemma_text_total(a.skip(1), b.skip(1));
        if a.skip(1) == b.skip(1) {
            assert(a =~= seq![a[0]] + a.skip(1));
            assert(b =~= seq![b[0]] + b.skip(1));
        }
    }
}

impl Key for String {
    open spec fn before(a: Seq<char>, b: Seq<char>) -> bool {
        text_before(a, b)
    }

    proof fn lemma_irreflexive(a: Seq<char>) {
        lemma_text_irreflexive(a);
    }

    proof fn lemma_transitive(a: Seq<char>, b: Seq<char>, c: Seq<char>) {
        lemma_text_transitive(a, b, c);
    }

    proof fn lemma_total(a: Seq<char>, b: Seq<char>) {
        lemma_text_total(a, b);
    }

    fn precedes(&self, other: &String) -> bool {
        let a = chars(self.as_str());
        let b = chars(other.as_str());
        let mut i: usize = 0;
        assert(a@.skip(0) =~= a@);
        assert(b@.skip(0) =~= b@);
        while i < a.len() && i < b.len() && a[i] == b[i]
            invariant
                i <= a@.len(),
                i <= b@.len(),
                a@ == self@,
                b@ == other@,
                text_before(self@, other@) == text_before(a@.skip(i as int), b@.skip(i as int)),
            decreases a@.len() - i,
        {
            assert(a@.skip(i as int).skip(1) =~= a@.skip(i + 1));
            assert(b@.skip(i as int).skip(1) =~= b@.skip(i + 1));
            i += 1;
        }
        if i == b.len() {
            false
        } else if i == a.len() {
            true
        } else {
            a[i] < b[i]
        }
    }
}

/// Whether the entries stand in the order of their keys, no key twice.
pub open spec fn sorted<K: Key, V>(s: Seq<(K, V)>) -> bool {
    forall|i: int, j: int| 0 <= i < j < s.len() ==> K::before(#[trigger] s[i].0@, #[trigger] s[j].0@)
}

/// Whether an entry has a key.
pub open spec fn entry_has<K: Key, V>(s: Seq<(K, V)>, i: int, k: K::V) -> bool {
    0 <= i < s.len() && s[i].0@ == k
}

/// The map that entries make.
pub open spec fn as_map<K: Key, V>(s: Seq<(K, V)>) -> Map<K::V, V> {
    Map::new(
        |k: K::V| exists|i: int| entry_has(s, i, k),
        |k: K::V| s[choose|i: int| entry_has(s, i, k)].1,
    )
}

/// A table from keys to values, in the order of the keys.
pub struct Table<K, V> {
    entries: Vec<(K, V)>,
}

/// Every entry of a sorted list is in its map.
pub proof fn lemma_in_map<K: Key, V>(s: Seq<(K, V)>, i: int)
    requires
        sorted(s),
        0 <= i < s.len(),
    ensures
        as_map(s).contains_key(s[i].0@),
        as_map(s)[s[i].0@] == s[i].1,
{
    assert(entry_has(s, i, s[i].0@));
    let j = choose|j: int| entry_has(s, j, s[i].0@);
    if j < i {
        assert(K::before(s[j].0@, s[i].0@));
        K::lemma_irreflexive(s[i].0@);
    } else if i < j {
        assert(K::before(s[i].0@, s[j].0@));
        K::lemma_irreflexive(s[i].0@);
    }
}

/// No two entries of a sorted list have the same key.
pub proof fn lemma_distinct<K: Key, V>(s: Seq<(K, V)>, i: int, j: int)
    requires
        sorted(s),
        0 <= i < j < s.len(),
    ensures
        s[i].0@ != s[j].0@,
{
    assert(K::before(s[i].0@, s[j].0@));
    K::lemma_irreflexive(s[i].0@);
}

/// Every key of the map is that of an entry.
pub proof fn lemma_from_map<K: Key, V>(s: Seq<(K, V)>, k: K::V) -> (i: int)
    requires
        sorted(s),
        as_map(s).contains_key(k),
    ensures
        0 <= i < s.len(),
        s[i].0@ == k,
        as_map(s)[k] == s[i].1,
{
    let i = choose|i: int| entry_has(s, i, k);
    lemma_in_map(s, i);
    i
}

/// Replacing the value of an entry.
proof fn lemma_update<K: Key, V>(s: Seq<(K, V)>, i: int, e: (K, V))
    requires
        sorted(s),
        0 <= i < s.len(),
        e.0@ == s[i].0@,
    ensures
        sorted(s.update(i, e)),
        as_map(s.update(i, e)) == as_map(s).insert(e.0@, e.1),
{
    let t = s.update(i, e);
    assert(sorted(t)) by {
        assert forall|a: int, b: int| 0 <= a < b < t.len() implies K::before(
            #[trigger] t[a].0@,
            #[trigger] t[b].0@,
        ) by {
            assert(K::before(s[a].0@, s[b].0@));
        }
    }
    let m = as_map(s).insert(e.0@, e.1);
    lemma_in_map(t, i);
    assert forall|k: K::V|
        #![trigger as_map(t).dom().contains(k)]
        #![trigger as_map(t)[k]]
        as_map(t).dom().contains(k) == m.dom().contains(k) && (m.dom().contains(k) ==> as_map(t)[k]
            == m[k]) by {
        if as_map(t).contains_key(k) {
            let a = lemma_from_map(t, k);
            lemma_in_map(s, a);
        }
        if as_map(s).contains_key(k) {
            let a = lemma_from_map(s, k);
            lemma_in_map(t, a);
        }
    }
    assert(as_map(t) =~= m);
}

/// Putting a new entry in its place.
proof fn lemma_insert<K: Key, V>(s: Seq<(K, V)>, i: int, e: (K, V))
    requires
        sorted(s),
        0 <= i <= s.len(),
        forall|j: int| 0 <= j < i ==> K::before(#[trigger] s[j].0@, e.0@),
        forall|j: int| i <= j < s.len() ==> K::before(e.0@, #[trigger] s[j].0@),
    ensures
        sorted(s.insert(i, e)),
        as_map(s.insert(i, e)) == as_map(s).insert(e.0@, e.1),
        !as_map(s).contains_key(e.0@),
{
    let t = s.insert(i, e);
    assert(sorted(t)) by {
        assert forall|a: int, b: int| 0 <= a < b < t.len() implies K::before(
            #[trigger] t[a].0@,
            #[trigger] t[b].0@,
        ) by {
            let sa = if a < i {
                a
            } else {
                a - 1
            };
            let sb = if b < i {
                b
            } else {
                b - 1
            };
            if a != i && b != i {
                assert(K::before(s[sa].0@, s[sb].0@));
            } else if a == i {
                assert(K::before(e.0@, s[sb].0@));
            } else {
                assert(K::before(s[sa].0@, e.0@));
            }
        }
    }
    if as_map(s).contains_key(e.0@) {
        let j = lemma_from_map(s, e.0@);
        K::lemma_irreflexive(e.0@);
        if j < i {
            assert(K::before(s[j].0@, e.0@));
        } else {
            assert(K::before(e.0@, s[j].0@));
        }
    }
    let m = as_map(s).insert(e.0@, e.1);
    lemma_in_map(t, i);
    assert forall|k: K::V|
        #![trigger as_map(t).dom().contains(k)]
        #![trigger as_map(t)[k]]
        as_map(t).dom().contains(k) == m.dom().contains(k) && (m.dom().contains(k) ==> as_map(t)[k]
            == m[k]) by {
        if as_map(t).contains_key(k) {
            let a = lemma_from_map(t, k);
            if a < i {
                lemma_in_map(s, a);
            } else if a > i {
                lemma_in_map(s, a - 1);
            }
        }
        if as_map(s).contains_key(k) {
            let a = lemma_from_map(s, k);
            if a < i {
                assert(t[a] == s[a]);
                lemma_in_map(t, a);
            } else {
                assert(t[a + 1] == s[a]);
                lemma_in_map(t, a + 1);
            }
        }
    }
    assert(as_map(t) =~= m);
}

/// Taking an entry out.
proof fn lemma_remove<K: Key, V>(s: Seq<(K, V)>, i: int)
    requires
        sorted(s),
        0 <= i < s.len(),
    ensures
        sorted(s.remove(i)),
        as_map(s.remove(i)) == as_map(s).remove(s[i].0@),
{
    let t = s.remove(i);
    assert(sorted(t)) by {
        assert forall|a: int, b: int| 0 <= a < b < t.len() implies K::before(
            #[trigger] t[a].0@,
            #[trigger] t[b].0@,
        ) by {
            let sa = if a < i {
                a
            } else {
                a + 1
            };
            let sb = if b < i {
                b
            } else {
                b + 1
            };
            assert(K::before(s[sa].0@, s[sb].0@));
        }
    }
    let m = as_map(s).remove(s[i].0@);
    assert forall|k: K::V|
        #![trigger as_map(t).dom().contains(k)]
        #![trigger as_map(t)[k]]
        as_map(t).dom().contains(k) == m.dom().contains(k) && (m.dom().contains(k) ==> as_map(t)[k]
            == m[k]) by {
        if as_map(t).contains_key(k) {
            let a = lemma_from_map(t, k);
            let sa = if a < i {
                a
            } else {
                a + 1
            };
            lemma_in_map(s, sa);
            K::lemma_irreflexive(k);
            if sa < i {
                assert(K::before(s[sa].0@, s[i].0@));
            } else {
                assert(K::before(s[i].0@, s[sa].0@));
            }
        }
        if m.contains_key(k) {
            let a = lemma_from_map(s, k);
            if a < i {
                assert(t[a] == s[a]);
                lemma_in_map(t, a);
            } else {
                assert(t[a - 1] == s[a]);
                lemma_in_map(t, a - 1);
            }
        }
    }
    assert(as_map(t) =~= m);
}

/// Mapping the values of two lists with the same keys, one by one to the same, gives the same map.
pub proof fn lemma_mapped<K: Key, V, W>(
    s: Seq<(K, V)>,
    t: Seq<(K, V)>,
    f: spec_fn(V) -> W,
    g: spec_fn(V) -> W,
)
    requires
        sorted(s),
        sorted(t),
        s.len() == t.len(),
        forall|i: int|
            0 <= i < s.len() ==> (#[trigger] s[i]).0@ == t[i].0@ && g(t[i].1) == f(s[i].1),
    ensures
        as_map(t).map_values(g) == as_map(s).map_values(f),
{
    let a = as_map(t).map_values(g);
    let b = as_map(s).map_values(f);
    assert forall|k: K::V|
        #![trigger a.dom().contains(k)]
        #![trigger a[k]]
        a.dom().contains(k) == b.dom().contains(k) && (b.dom().contains(k) ==> a[k] == b[k]) by {
        if as_map(t).contains_key(k) {
            let i = lemma_from_map(t, k);
            lemma_in_map(s, i);
        }
        if as_map(s).contains_key(k) {
            let i = lemma_from_map(s, k);
            lemma_in_map(t, i);
        }
    }
    assert(a =~= b);
}

impl<K: Key, V> View for Table<K, V> {
    type V = Map<K::V, V>;

    open spec fn view(&self) -> Map<K::V, V> {
        as_map(self.list())
    }
}

impl<K: Key, V> Table<K, V> {
    /// The entries, in the order of their keys.
    pub closed spec fn list(self) -> Seq<(K, V)> {
        self.entries@
    }

    /// Whether the entries stand in order.
    pub open spec fn wf(self) -> bool {
        sorted(self.list())
    }

    /// A table without entries.
    pub fn new() -> (r: Self)
        ensures
            r.wf(),
            r@ == Map::<K::V, V>::empty(),
            r.list() == Seq::<(K, V)>::empty(),
    {
        let r = Table { entries: Vec::new() };
        assert(r@ =~= Map::empty());
        r
    }

    /// How many entries there are.
    pub open spec fn spec_len(&self) -> usize {
        self.list().len() as usize
    }

    /// How many entries there are.
    #[verifier::when_used_as_spec(spec_len)]
    pub fn len(&self) -> (r: usize)
        ensures
            r == self.spec_len(),
            r == self.list().len(),
    {
        self.entries.len()
    }

    /// The key of an entry.
    pub fn key_at(&self, i: usize) -> (r: &K)
        requires
            i < self.list().len(),
        ensures
            *r == self.list()[i as int].0,
    {
        &self.entries[i].0
    }

    /// The value of an entry.
    pub fn value_at(&self, i: usize) -> (r: &V)
        requires
            i < self.list().len(),
        ensures
            *r == self.list()[i as int].1,
    {
        &self.entries[i].1
    }

    /// The place of the first entry whose key does not stand before `key`.
    fn place(&self, key: &K) -> (r: usize)
        requires
            self.wf(),
        ensures
            r <= self.list().len(),
            forall|j: int| 0 <= j < r ==> K::before(#[trigger] self.list()[j].0@, key@),
            r < self.list().len() ==> !K::before(self.list()[r as int].0@, key@),
    {
        let mut i: usize = 0;
        while i < self.entries.len() && self.entries[i].0.precedes(key)
            invariant
                i <= self.entries@.len(),
                forall|j: int| 0 <= j < i ==> K::before(#[trigger] self.list()[j].0@, key@),
            decreases self.entries@.len() - i,
        {
            i += 1;
        }
        i
    }

    /// The place of the entry with a key, where there is one.
    pub fn index_of(&self, key: &K) -> (r: Option<usize>)
        requires
            self.wf(),
        ensures
            match r {
                Some(i) => i < self.list().len() && self.list()[i as int].0@ == key@
                    && self@.contains_key(key@) && self@[key@] == self.list()[i as int].1,
                None => !self@.contains_key(key@),
            },
    {
        let i = self.place(key);
        if i < self.entries.len() && !key.precedes(&self.entries[i].0) {
            proof {
                K::lemma_total(self.list()[i as int].0@, key@);
                lemma_in_map(self.list(), i as int);
            }
            Some(i)
        } else {
            proof {
                if self@.contains_key(key@) {
                    let j = lemma_from_map(self.list(), key@);
                    K::lemma_irreflexive(key@);
                    if j < i {
                        assert(K::before(self.list()[j].0@, key@));
                    } else if i < j {
                        assert(K::before(self.list()[i as int].0@, self.list()[j].0@));
                        K::lemma_transitive(key@, self.list()[i as int].0@, key@);
                    }
                }
            }
            None
        }
    }

    /// Whether there is an entry with a key.
    pub fn contains_key(&self, key: &K) -> (r: bool)
        requires
            self.wf(),
        ensures
            r == self@.contains_key(key@),
    {
        self.index_of(key).is_some()
    }

    /// The value under a key.
    pub fn get(&self, key: &K) -> (r: Option<&V>)
        requires
            self.wf(),
        ensures
            match r {
                Some(v) => self@.contains_key(key@) && *v == self@[key@],
                None => !self@.contains_key(key@),
            },
    {
        match self.index_of(key) {
            Some(i) => Some(&self.entries[i].1),
            None => None,
        }
    }

    /// Puts a value under a key, in place of the one that was there.
    pub fn insert(&mut self, key: K, value: V)
        requires
            old(self).wf(),
        ensures
            final(self).wf(),
            final(self)@ == old(self)@.insert(key@, value),
    {
        let i = self.place(&key);
        if i < self.entries.len() && !key.precedes(&self.entries[i].0) {
            proof {
                K::lemma_total(self.list()[i as int].0@, key@);
                lemma_update(self.list(), i as int, (key, value));
            }
            self.entries.set(i, (key, value));
        } else {
            proof {
                assert forall|j: int| i <= j < self.list().len() implies K::before(
                    key@,
                    #[trigger] self.list()[j].0@,
                ) by {
                    if i < j {
                        assert(K::before(self.list()[i as int].0@, self.list()[j].0@));
                        K::lemma_transitive(key@, self.list()[i as int].0@, self.list()[j].0@);
                    }
                }
                lemma_insert(self.list(), i as int, (key, value));
            }
            self.entries.insert(i, (key, value));
        }
    }

    /// Takes the entry with a key out.
    pub fn remove(&mut self, key: &K) -> (r: Option<V>)
        requires
            old(self).wf(),
        ensures
            final(self).wf(),
            match r {
                Some(v) => old(self)@.contains_key(key@) && v == old(self)@[key@],
                None => !old(self)@.contains_key(key@),
            },
            final(self)@ == old(self)@.remove(key@),
    {
        match self.index_of(key) {
            Some(i) => {
                proof {
                    lemma_remove(self.list(), i as int);
                }
                let (_, v) = self.entries.remove(i);
                Some(v)
            },
            None => {
                assert(self@.remove(key@) =~= self@);
                None
            },
        }
    }

    /// Takes the last entry out.
    pub fn pop(&mut self) -> (r: (K, V))
        requires
            old(self).wf(),
            old(self).list().len() > 0,
        ensures
            final(self).wf(),
            final(self).list() == old(self).list().drop_last(),
            r == old(self).list().last(),
            old(self)@.contains_key(r.0@),
            old(self)@[r.0@] == r.1,
            final(self)@ == old(self)@.remove(r.0@),
    {
        proof {
            let n = self.list().len() - 1;
            lemma_in_map(self.list(), n);
            lemma_remove(self.list(), n);
            assert(self.list().remove(n) =~= self.list().drop_last());
        }
        let n: usize = self.entries.len() - 1;
        let e = self.entries.remove(n);
        assert(self.list() =~= old(self).list().drop_last());
        e
    }

    /// Replaces the value of an entry.
    pub fn replace_at(&mut self, i: usize, value: V)
        requires
            old(self).wf(),
            i < old(self).list().len(),
        ensures
            final(self).wf(),
            final(self).list() == old(self).list().update(
                i as int,
                (old(self).list()[i as int].0, value),
            ),
            final(self)@ == old(self)@.insert(old(self).list()[i as int].0@, value),
    {
        proof {
            lemma_update(self.list(), i as int, (self.list()[i as int].0, value));
        }
        self.entries[i].1 = value;
        assert(self.list() =~= old(self).list().update(
            i as int,
            (old(self).list()[i as int].0, value),
        ));
    }
}

} // verus!
