//! A table from keys to values, kept as a list of entries with distinct keys.

use vstd::prelude::*;

verus! {

/// A value that can be the key of a [`Table`].
pub trait Key: View + Sized {
    /// Whether two keys are the same.
    fn same_key(&self, other: &Self) -> (r: bool)
        ensures
            r == (self@ == other@),
    ;

    /// A key that is the same.
    fn copy_key(&self) -> (r: Self)
        ensures
            r@ == self@,
    ;
}

impl Key for String {
    fn same_key(&self, other: &Self) -> (r: bool) {
        *self == *other
    }

    fn copy_key(&self) -> (r: Self) {
        self.clone()
    }
}

impl Key for u64 {
    fn same_key(&self, other: &Self) -> (r: bool) {
        *self == *other
    }

    fn copy_key(&self) -> (r: Self) {
        *self
    }
}

impl Key for (String, String) {
    fn same_key(&self, other: &Self) -> (r: bool) {
        self.0 == other.0 && self.1 == other.1
    }

    fn copy_key(&self) -> (r: Self) {
        (self.0.clone(), self.1.clone())
    }
}

/// A table from keys to values.
#[derive(Debug)]
pub struct Table<K: Key, V: View> {
    entries: Vec<(K, V)>,
}

/// Whether entry `i` is the entry of the key `k`.
pub open spec fn holds_key<K: Key, V>(s: Seq<(K, V)>, k: K::V, i: int) -> bool {
    0 <= i < s.len() && s[i].0@ == k
}

/// The map that a list of entries with distinct keys stands for.
pub open spec fn entry_map<K: Key, V: View>(s: Seq<(K, V)>) -> Map<K::V, V::V> {
    Map::new(
        |k: K::V| exists|i: int| holds_key(s, k, i),
        |k: K::V| s[choose|i: int| holds_key(s, k, i)].1@,
    )
}

/// Whether no key occurs twice.
pub open spec fn distinct_keys<K: Key, V>(s: Seq<(K, V)>) -> bool {
    forall|i: int, j: int| 0 <= i < j < s.len() ==> (#[trigger] s[i]).0@ != (#[trigger] s[j]).0@
}

proof fn lemma_entry<K: Key, V: View>(s: Seq<(K, V)>, i: int)
    requires
        distinct_keys(s),
        0 <= i < s.len(),
    ensures
        entry_map(s).contains_key(s[i].0@),
        entry_map(s)[s[i].0@] == s[i].1@,
{
    let k = s[i].0@;
    assert(holds_key(s, k, i));
    let j = choose|j: int| holds_key(s, k, j);
    assert(j == i) by {
        if j < i {
            assert(s[j].0@ != s[i].0@);
        } else if i < j {
            assert(s[i].0@ != s[j].0@);
        }
    }
}

proof fn lemma_absent<K: Key, V: View>(s: Seq<(K, V)>, k: K::V)
    requires
        forall|i: int| 0 <= i < s.len() ==> (#[trigger] s[i]).0@ != k,
    ensures
        !entry_map(s).contains_key(k),
{
}

/// A key in the map is the key of some entry.
proof fn lemma_present<K: Key, V: View>(s: Seq<(K, V)>, k: K::V) -> (i: int)
    requires
        entry_map(s).contains_key(k),
    ensures
        0 <= i < s.len(),
        s[i].0@ == k,
{
    choose|i: int| holds_key(s, k, i)
}

proof fn lemma_push<K: Key, V: View>(s: Seq<(K, V)>, k: K, v: V)
    requires
        distinct_keys(s),
        forall|i: int| 0 <= i < s.len() ==> (#[trigger] s[i]).0@ != k@,
    ensures
        distinct_keys(s.push((k, v))),
        entry_map(s.push((k, v))) == entry_map(s).insert(k@, v@),
{
    let t = s.push((k, v));
    let want = entry_map(s).insert(k@, v@);
    assert forall|q: K::V|
        entry_map(t).dom().contains(q) == want.dom().contains(q) && (want.dom().contains(q)
            ==> #[trigger] entry_map(t)[q] == want[q]) by {
        if entry_map(t).contains_key(q) {
            let i = lemma_present(t, q);
            lemma_entry(t, i);
            if i < s.len() {
                assert(t[i] == s[i]);
                lemma_entry(s, i);
            }
        }
        if entry_map(s).contains_key(q) {
            let i = lemma_present(s, q);
            assert(t[i] == s[i]);
            lemma_entry(t, i);
            lemma_entry(s, i);
        }
        if q == k@ {
            lemma_entry(t, s.len() as int);
        }
    }
    assert(entry_map(t).dom() =~= want.dom()) by {
        assert forall|q: K::V| entry_map(t).dom().contains(q) == want.dom().contains(q) by {
            let _ = entry_map(t)[q];
        }
    }
    assert(entry_map(t) =~= want);
}

proof fn lemma_remove<K: Key, V: View>(s: Seq<(K, V)>, n: int)
    requires
        distinct_keys(s),
        0 <= n < s.len(),
    ensures
        distinct_keys(s.remove(n)),
        entry_map(s.remove(n)) == entry_map(s).remove(s[n].0@),
{
    let t = s.remove(n);
    let k = s[n].0@;
    assert forall|i: int, j: int| 0 <= i < j < t.len() implies (#[trigger] t[i]).0@ != (
    #[trigger] t[j]).0@ by {
        let a = if i < n { i } else { i + 1 };
        let b = if j < n { j } else { j + 1 };
        assert(t[i] == s[a] && t[j] == s[b]);
    }
    let want = entry_map(s).remove(k);
    assert forall|q: K::V|
        entry_map(t).dom().contains(q) == want.dom().contains(q) && (want.dom().contains(q)
            ==> #[trigger] entry_map(t)[q] == want[q]) by {
        if entry_map(t).contains_key(q) {
            let i = lemma_present(t, q);
            let a = if i < n { i } else { i + 1 };
            assert(t[i] == s[a]);
            lemma_entry(t, i);
            lemma_entry(s, a);
            if a < n {
                assert(s[a].0@ != s[n].0@);
            } else {
                assert(s[n].0@ != s[a].0@);
            }
        }
        if want.contains_key(q) {
            let a = lemma_present(s, q);
            let i = if a < n { a } else { a - 1 };
            assert(t[i] == s[a]);
            lemma_entry(t, i);
            lemma_entry(s, a);
        }
    }
    assert(entry_map(t).dom() =~= want.dom()) by {
        assert forall|q: K::V| entry_map(t).dom().contains(q) == want.dom().contains(q) by {
            let _ = entry_map(t)[q];
        }
    }
    assert(entry_map(t) =~= want);
}

impl<K: Key, V: View> View for Table<K, V> {
    type V = Map<K::V, V::V>;

    closed spec fn view(&self) -> Map<K::V, V::V> {
        entry_map(self.entries@)
    }
}

impl<K: Key, V: View> Table<K, V> {
    /// No key occurs twice.
    #[verifier::type_invariant]
    spec fn inv(&self) -> bool {
        distinct_keys(self.entries@)
    }

    /// The table without entries.
    pub fn new() -> (r: Self)
        ensures
            r@ == Map::<K::V, V::V>::empty(),
    {
        let r = Table { entries: Vec::new() };
        assert(r@ =~= Map::<K::V, V::V>::empty());
        r
    }

    /// Removes all entries.
    pub fn clear(&mut self)
        ensures
            final(self)@ == Map::<K::V, V::V>::empty(),
    {
        *self = Table::new();
    }

    /// Takes the list of entries out, leaving an empty table.
    fn release(&mut self) -> (r: Vec<(K, V)>)
        ensures
            r@ == old(self).entries@,
    {
        let mut t = Table::new();
        core::mem::swap(self, &mut t);
        t.entries
    }

    /// The place of the entry of `key`.
    fn position(&self, key: &K) -> (r: Option<usize>)
        ensures
            match r {
                Some(i) => i < self.entries@.len() && self.entries@[i as int].0@ == key@,
                None => forall|i: int|
                    0 <= i < self.entries@.len() ==> (#[trigger] self.entries@[i]).0@ != key@,
            },
    {
        let mut i: usize = 0;
        while i < self.entries.len()
            invariant
                i <= self.entries@.len(),
                forall|j: int| 0 <= j < i ==> (#[trigger] self.entries@[j]).0@ != key@,
            decreases self.entries@.len() - i,
        {
            if self.entries[i].0.same_key(key) {
                return Some(i);
            }
            i += 1;
        }
        None
    }

    /// The value of `key`.
    pub fn get(&self, key: &K) -> (r: Option<&V>)
        ensures
            match r {
                Some(v) => self@.contains_key(key@) && self@[key@] == v@,
                None => !self@.contains_key(key@),
            },
    {
        proof {
            use_type_invariant(self);
        }
        match self.position(key) {
            Some(i) => {
                proof {
                    lemma_entry(self.entries@, i as int);
                }
                Some(&self.entries[i].1)
            },
            None => {
                proof {
                    lemma_absent(self.entries@, key@);
                }
                None
            },
        }
    }

    /// Whether `key` has a value.
    pub fn has(&self, key: &K) -> (r: bool)
        ensures
            r == self@.contains_key(key@),
    {
        self.get(key).is_some()
    }

    /// Removes the entry of `key` and gives its value.
    pub fn take(&mut self, key: &K) -> (r: Option<V>)
        ensures
            final(self)@ == old(self)@.remove(key@),
            match r {
                Some(v) => old(self)@.contains_key(key@) && old(self)@[key@] == v@,
                None => !old(self)@.contains_key(key@),
            },
    {
        proof {
            use_type_invariant(&*self);
        }
        match self.position(key) {
            Some(i) => {
                proof {
                    lemma_entry(self.entries@, i as int);
                    lemma_remove(self.entries@, i as int);
                }
                let mut entries = self.release();
                let e = entries.remove(i);
                *self = Table { entries };
                Some(e.1)
            },
            None => {
                proof {
                    lemma_absent(self.entries@, key@);
                    assert(self@.remove(key@) =~= self@);
                }
                None
            },
        }
    }

    /// Gives `key` the value `value`, in place of any it had.
    pub fn set(&mut self, key: K, value: V)
        ensures
            final(self)@ == old(self)@.insert(key@, value@),
    {
        let _ = self.take(&key);
        proof {
            use_type_invariant(&*self);
            assert(!self@.contains_key(key@));
            assert forall|i: int| 0 <= i < self.entries@.len() implies (#[trigger] self.entries@[i]).0@
                != key@ by {
                lemma_entry(self.entries@, i);
            }
            lemma_push(self.entries@, key, value);
            assert(old(self)@.remove(key@).insert(key@, value@) =~= old(self)@.insert(
                key@,
                value@,
            ));
        }
        let mut entries = self.release();
        entries.push((key, value));
        *self = Table { entries };
    }

    /// Removes some entry and gives it, while there is one.
    pub fn pop(&mut self) -> (r: Option<(K, V)>)
        ensures
            match r {
                Some((k, v)) => {
                    &&& old(self)@.contains_key(k@)
                    &&& old(self)@[k@] == v@
                    &&& final(self)@ == old(self)@.remove(k@)
                    &&& final(self)@.len() < old(self)@.len()
                },
                None => old(self)@ == Map::<K::V, V::V>::empty() && final(self)@ == old(self)@,
            },
            old(self)@.dom().finite(),
    {
        proof {
            use_type_invariant(&*self);
            lemma_finite(self.entries@);
        }
        let n: usize = self.entries.len();
        if n == 0 {
            assert(self@ =~= Map::<K::V, V::V>::empty());
            return None;
        }
        proof {
            lemma_entry(self.entries@, n - 1);
            lemma_remove(self.entries@, n - 1);
            assert(self.entries@.remove(n - 1) =~= self.entries@.drop_last());
        }
        let mut entries = self.release();
        let e = entries.pop();
        *self = Table { entries };
        e
    }

    /// The number of entries.
    pub fn len(&self) -> (r: usize)
        ensures
            r == self@.len(),
            self@.dom().finite(),
    {
        proof {
            use_type_invariant(self);
            lemma_finite(self.entries@);
        }
        self.entries.len()
    }

    /// The keys, in some order, each once.
    pub fn keys(&self) -> (r: Vec<K>)
        ensures
            forall|k: K::V| self@.contains_key(k) <==> exists|i: int|
                0 <= i < r@.len() && (#[trigger] r@[i])@ == k,
            forall|i: int, j: int| 0 <= i < j < r@.len() ==> (#[trigger] r@[i])@ != (#[trigger] r@[j])@,
    {
        proof {
            use_type_invariant(self);
        }
        let mut r: Vec<K> = Vec::new();
        let mut i: usize = 0;
        while i < self.entries.len()
            invariant
                i <= self.entries@.len(),
                r@.len() == i,
                forall|j: int| 0 <= j < i ==> (#[trigger] r@[j])@ == self.entries@[j].0@,
            decreases self.entries@.len() - i,
        {
            r.push(self.entries[i].0.copy_key());
            i += 1;
        }
        proof {
            assert forall|k: K::V| self@.contains_key(k) <==> exists|i: int|
                0 <= i < r@.len() && (#[trigger] r@[i])@ == k by {
                if self@.contains_key(k) {
                    let i = lemma_present(self.entries@, k);
                    assert(r@[i]@ == k);
                }
                if exists|i: int| 0 <= i < r@.len() && (#[trigger] r@[i])@ == k {
                    let i = choose|i: int| 0 <= i < r@.len() && (#[trigger] r@[i])@ == k;
                    lemma_entry(self.entries@, i);
                }
            }
            assert forall|i: int, j: int| 0 <= i < j < r@.len() implies (#[trigger] r@[i])@ != (
            #[trigger] r@[j])@ by {
                assert(self.entries@[i].0@ != self.entries@[j].0@);
            }
        }
        r
    }
}

proof fn lemma_finite<K: Key, V: View>(s: Seq<(K, V)>)
    requires
        distinct_keys(s),
    ensures
        entry_map(s).dom().finite(),
        entry_map(s).len() == s.len(),
    decreases s.len(),
{
    if s.len() == 0 {
        assert(entry_map(s).dom() =~= Set::<K::V>::empty());
    } else {
        let n = s.len() - 1;
        assert(s.remove(n) =~= s.drop_last());
        lemma_remove(s, n);
        lemma_finite(s.drop_last());
        lemma_entry(s, n);
        assert(entry_map(s).dom() =~= entry_map(s.drop_last()).dom().insert(s[n].0@));
    }
}

} // verus!
