//! Maps that keep the order of insertion.

use crate::domain::{UserKey, UserKeyView};
use crate::text::same;
use vstd::prelude::*;

verus! {

/// A map with text keys. No key stands in it twice; what came first stays first.
pub struct TextMap<V: View> {
    pub entries: Vec<(String, V)>,
}

/// The pairs of a map, in order.
pub open spec fn pairs<V: View>(entries: Seq<(String, V)>) -> Seq<(Seq<char>, V::V)> {
    Seq::new(entries.len(), |i: int| (entries[i].0@, entries[i].1@))
}

/// No key stands in two pairs.
pub open spec fn distinct_keys<K, V>(s: Seq<(K, V)>) -> bool {
    forall|i: int, j: int| 0 <= i < j < s.len() ==> (#[trigger] s[i]).0 != (#[trigger] s[j]).0
}

/// The position of the first pair with the key, or the length where there is none.
pub open spec fn key_position<K, V>(s: Seq<(K, V)>, key: K) -> int
    decreases s.len(),
{
    if s.len() == 0 || s[0].0 == key {
        0
    } else {
        1 + key_position(s.drop_first(), key)
    }
}

pub open spec fn has_key<K, V>(s: Seq<(K, V)>, key: K) -> bool {
    exists|i: int| 0 <= i < s.len() && (#[trigger] s[i]).0 == key
}

/// The value that stands with a key.
pub open spec fn value_of<K, V>(s: Seq<(K, V)>, key: K) -> Option<V> {
    let i = key_position(s, key);
    if i < s.len() {
        Some(s[i].1)
    } else {
        None
    }
}

/// The pairs after an insertion: the value is put in place, or the pair stands at the end.
pub open spec fn with_pair<K, V>(s: Seq<(K, V)>, key: K, value: V) -> Seq<
    (K, V),
> {
    let i = key_position(s, key);
    if i < s.len() {
        s.update(i, (key, value))
    } else {
        s.push((key, value))
    }
}

impl<V: View> View for TextMap<V> {
    type V = Seq<(Seq<char>, V::V)>;

    open spec fn view(&self) -> Seq<(Seq<char>, V::V)> {
        pairs(self.entries@)
    }
}

/// The position is that of a pair with the key, and of the first one.
pub proof fn lemma_key_position<K, V>(s: Seq<(K, V)>, key: K)
    ensures
        0 <= key_position(s, key) <= s.len(),
        key_position(s, key) < s.len() ==> s[key_position(s, key)].0 == key,
        forall|i: int| 0 <= i < key_position(s, key) ==> (#[trigger] s[i]).0 != key,
        has_key(s, key) == (key_position(s, key) < s.len()),
    decreases s.len(),
{
    if s.len() > 0 && s[0].0 != key {
        let t = s.drop_first();
        lemma_key_position(t, key);
        assert forall|i: int| 0 <= i < key_position(s, key) implies (#[trigger] s[i]).0 != key by {
            if i > 0 {
                assert(t[i - 1] == s[i]);
            }
        }
        if key_position(t, key) < t.len() {
            assert(t[key_position(t, key)] == s[key_position(s, key)]);
        }
    }
    if key_position(s, key) >= s.len() {
        assert(forall|i: int| 0 <= i < s.len() ==> (#[trigger] s[i]).0 != key);
    }
}

pub proof fn lemma_key_position_is<K, V>(s: Seq<(K, V)>, key: K, n: int)
    requires
        0 <= n <= s.len(),
        n < s.len() ==> s[n].0 == key,
        forall|i: int| 0 <= i < n ==> (#[trigger] s[i]).0 != key,
    ensures
        key_position(s, key) == n,
{
    lemma_key_position(s, key);
}

/// Insertion keeps the keys distinct.
pub proof fn lemma_with_pair_distinct<K, V>(s: Seq<(K, V)>, key: K, value: V)
    requires
        distinct_keys(s),
    ensures
        distinct_keys(with_pair(s, key, value)),
{
    lemma_key_position(s, key);
}

/// What a lookup gives back of an insertion: the value under its own key, and
/// under every other key what stood there before.
pub proof fn lookup_after_insertion<K, V>(
    s: Seq<(K, V)>,
    key: K,
    value: V,
    other: K,
)
    ensures
        value_of(with_pair(s, key, value), key) == Some(value),
        other != key ==> value_of(with_pair(s, key, value), other) == value_of(s, other),
{
    let r = with_pair(s, key, value);
    let n = key_position(s, key);
    lemma_key_position(s, key);
    assert forall|i: int| 0 <= i < n implies (#[trigger] r[i]).0 != key by {
        assert(r[i] == s[i]);
    }
    lemma_key_position_is(r, key, n);
    if other != key {
        lemma_key_position(s, other);
        let m = key_position(s, other);
        if m < s.len() {
            assert forall|i: int| 0 <= i < m implies (#[trigger] r[i]).0 != other by {
                if i != n {
                    assert(r[i] == s[i]);
                }
            }
            assert(r[m] == s[m]);
            lemma_key_position_is(r, other, m);
        } else {
            assert forall|i: int| 0 <= i < r.len() implies (#[trigger] r[i]).0 != other by {
                if i != n {
                    assert(r[i] == s[i]);
                }
            }
            lemma_key_position_is(r, other, r.len() as int);
        }
    }
}

impl<V: View> TextMap<V> {
    /// No key stands in the map twice.
    pub open spec fn wf(&self) -> bool {
        distinct_keys(self@)
    }

    pub fn new() -> (r: Self)
        ensures
            r@ == Seq::<(Seq<char>, V::V)>::empty(),
            r.wf(),
    {
        let r = TextMap { entries: Vec::new() };
        assert(r@ =~= Seq::<(Seq<char>, V::V)>::empty());
        r
    }

    pub fn len(&self) -> (r: usize)
        ensures
            r == self@.len(),
    {
        self.entries.len()
    }

    pub fn is_empty(&self) -> (r: bool)
        ensures
            r == (self@.len() == 0),
    {
        self.entries.len() == 0
    }

    /// The position of a key, or the length where it is not in the map.
    pub fn position(&self, key: &str) -> (r: usize)
        ensures
            r == key_position(self@, key@),
            r <= self@.len(),
    {
        let mut i: usize = 0;
        while i < self.entries.len()
            invariant
                0 <= i <= self.entries@.len(),
                forall|j: int| 0 <= j < i ==> (#[trigger] self@[j]).0 != key@,
            decreases self.entries.len() - i,
        {
            if same(self.entries[i].0.as_str(), key) {
                proof {
                    lemma_key_position_is(self@, key@, i as int);
                }
                return i;
            }
            i += 1;
        }
        proof {
            lemma_key_position_is(self@, key@, i as int);
        }
        i
    }

    pub fn contains_key(&self, key: &str) -> (r: bool)
        ensures
            r == has_key(self@, key@),
    {
        proof {
            lemma_key_position(self@, key@);
        }
        self.position(key) < self.entries.len()
    }

    pub fn get(&self, key: &str) -> (r: Option<&V>)
        ensures
            match r {
                Some(v) => value_of(self@, key@) == Some(v@),
                None => value_of(self@, key@) is None,
            },
    {
        let i = self.position(key);
        if i < self.entries.len() {
            Some(&self.entries[i].1)
        } else {
            None
        }
    }

    /// Put a value under a key; what stood there before is gone.
    pub fn insert(&mut self, key: String, value: V)
        ensures
            final(self)@ == with_pair(old(self)@, key@, value@),
            old(self).wf() ==> final(self).wf(),
    {
        let i = self.position(key.as_str());
        proof {
            if self.wf() {
                lemma_with_pair_distinct(self@, key@, value@);
            }
            lemma_key_position(self@, key@);
        }
        let ghost before = self@;
        if i < self.entries.len() {
            self.entries.set(i, (key, value));
            assert(self@ =~= before.update(i as int, (key@, value@)));
        } else {
            self.entries.push((key, value));
            assert(self@ =~= before.push((key@, value@)));
        }
    }
}

/// A map whose keys are users. No key stands in it twice; what came first stays first.
pub struct UserMap<V: View> {
    pub entries: Vec<(UserKey, V)>,
}

impl<V: View> View for UserMap<V> {
    type V = Seq<(UserKeyView, V::V)>;

    open spec fn view(&self) -> Seq<(UserKeyView, V::V)> {
        Seq::new(self.entries@.len(), |i: int| (self.entries@[i].0@, self.entries@[i].1@))
    }
}

/// The pairs without the one of a key.
pub open spec fn without_key<K, V>(s: Seq<(K, V)>, key: K) -> Seq<(K, V)> {
    let i = key_position(s, key);
    if i < s.len() {
        s.remove(i)
    } else {
        s
    }
}

impl<V: View> UserMap<V> {
    /// No key stands in the map twice.
    pub open spec fn wf(&self) -> bool {
        distinct_keys(self@)
    }

    pub fn new() -> (r: Self)
        ensures
            r@ == Seq::<(UserKeyView, V::V)>::empty(),
            r.wf(),
    {
        let r = UserMap { entries: Vec::new() };
        assert(r@ =~= Seq::<(UserKeyView, V::V)>::empty());
        r
    }

    pub fn len(&self) -> (r: usize)
        ensures
            r == self@.len(),
    {
        self.entries.len()
    }

    pub fn is_empty(&self) -> (r: bool)
        ensures
            r == (self@.len() == 0),
    {
        self.entries.len() == 0
    }

    /// The position of a key, or the length where it is not in the map.
    pub fn position(&self, key: &UserKey) -> (r: usize)
        ensures
            r == key_position(self@, key@),
            r <= self@.len(),
    {
        let mut i: usize = 0;
        while i < self.entries.len()
            invariant
                0 <= i <= self.entries@.len(),
                forall|j: int| 0 <= j < i ==> (#[trigger] self@[j]).0 != key@,
            decreases self.entries.len() - i,
        {
            if self.entries[i].0.is(key) {
                proof {
                    lemma_key_position_is(self@, key@, i as int);
                }
                return i;
            }
            i += 1;
        }
        proof {
            lemma_key_position_is(self@, key@, i as int);
        }
        i
    }

    pub fn contains_key(&self, key: &UserKey) -> (r: bool)
        ensures
            r == has_key(self@, key@),
    {
        proof {
            lemma_key_position(self@, key@);
        }
        self.position(key) < self.entries.len()
    }

    pub fn get(&self, key: &UserKey) -> (r: Option<&V>)
        ensures
            match r {
                Some(v) => value_of(self@, key@) == Some(v@),
                None => value_of(self@, key@) is None,
            },
    {
        let i = self.position(key);
        if i < self.entries.len() {
            Some(&self.entries[i].1)
        } else {
            None
        }
    }

    /// Put a value under a key; what stood there before is gone.
    pub fn insert(&mut self, key: UserKey, value: V)
        ensures
            final(self)@ == with_pair(old(self)@, key@, value@),
            old(self).wf() ==> final(self).wf(),
    {
        let i = self.position(&key);
        proof {
            if self.wf() {
                lemma_with_pair_distinct(self@, key@, value@);
            }
            lemma_key_position(self@, key@);
        }
        let ghost before = self@;
        if i < self.entries.len() {
            self.entries.set(i, (key, value));
            assert(self@ =~= before.update(i as int, (key@, value@)));
        } else {
            self.entries.push((key, value));
            assert(self@ =~= before.push((key@, value@)));
        }
    }

    /// Take a key out of the map.
    pub fn remove(&mut self, key: &UserKey)
        ensures
            final(self)@ == without_key(old(self)@, key@),
            old(self).wf() ==> final(self).wf(),
    {
        let i = self.position(key);
        proof {
            lemma_key_position(self@, key@);
        }
        let ghost before = self@;
        if i < self.entries.len() {
            self.entries.remove(i);
            assert(self@ =~= before.remove(i as int));
        }
    }
}

/// What a lookup gives back once a key is taken out: nothing under that key,
/// and under every other key what stood there before.
pub proof fn lookup_after_removal<K, V>(s: Seq<(K, V)>, key: K, other: K)
    requires
        distinct_keys(s),
    ensures
        value_of(without_key(s, key), key) is None,
        other != key ==> value_of(without_key(s, key), other) == value_of(s, other),
{
    let r = without_key(s, key);
    let n = key_position(s, key);
    lemma_key_position(s, key);
    assert forall|i: int| 0 <= i < r.len() implies (#[trigger] r[i]).0 != key by {
        if n < s.len() {
            if i < n {
                assert(r[i] == s[i]);
            } else {
                assert(r[i] == s[i + 1]);
                assert(s[n].0 != s[i + 1].0);
            }
        }
    }
    lemma_key_position_is(r, key, r.len() as int);
    if other != key {
        lemma_key_position(s, other);
        let m = key_position(s, other);
        let p = if n < m {
            m - 1
        } else {
            m
        };
        if n < s.len() {
            assert forall|i: int| 0 <= i < p implies (#[trigger] r[i]).0 != other by {
                if i < n {
                    assert(r[i] == s[i]);
                } else {
                    assert(r[i] == s[i + 1]);
                }
            }
            if m < s.len() {
                assert(r[p] == s[m]);
            }
            lemma_key_position_is(r, other, p);
        }
    }
}

} // verus!
