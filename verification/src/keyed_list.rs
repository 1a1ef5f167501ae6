//! Keyed lists: the registry's lookup tables.
//!
//! A `KeyedList<K, T>` is an association list of key/value pairs whose keys
//! are pairwise distinct (compared by abstract value). Its mathematical
//! value is the finite map from key values to element values, so every
//! contract over an index of the registry is stated over a `Map`.

use vstd::prelude::*;

use crate::identity::Identity;

verus! {

/// A key type for `KeyedList`: exec equality that decides equality of the
/// abstract key values.
pub trait ListKey: View + Sized {
    /// Decides whether two keys have the same abstract value.
    fn key_eq(&self, other: &Self) -> (r: bool)
        ensures
            r == (self@ == other@),
    ;
}

impl ListKey for Identity {
    fn key_eq(&self, other: &Self) -> (r: bool)
        ensures
            r == (self@ == other@),
    {
        self.same_as(other)
    }
}

impl ListKey for String {
    fn key_eq(&self, other: &Self) -> (r: bool)
        ensures
            r == (self@ == other@),
    {
        *self == *other
    }
}

pub open spec fn alist_has_key<K: ListKey, T: View>(s: Seq<(K, T)>, k: K::V) -> bool {
    exists|i: int| 0 <= i < s.len() && (#[trigger] s[i].0@) == k
}

pub open spec fn alist_index_of<K: ListKey, T: View>(s: Seq<(K, T)>, k: K::V) -> int {
    choose|i: int| 0 <= i < s.len() && (#[trigger] s[i].0@) == k
}

/// The keys of `s` are pairwise distinct as abstract values.
pub open spec fn alist_uniq<K: ListKey, T: View>(s: Seq<(K, T)>) -> bool {
    forall|i: int, j: int|
        0 <= i < j < s.len() ==> (#[trigger] s[i].0@) != (#[trigger] s[j].0@)
}

/// The finite map that an association list stands for.
pub open spec fn alist_view<K: ListKey, T: View>(s: Seq<(K, T)>) -> Map<K::V, T::V> {
    Map::new(
        |k: K::V| alist_has_key(s, k),
        |k: K::V| s[alist_index_of(s, k)].1@,
    )
}

/// At a position `i` of a duplicate-free list, the map takes the value
/// stored there.
pub proof fn lemma_alist_at<K: ListKey, T: View>(s: Seq<(K, T)>, i: int)
    requires
        alist_uniq(s),
        0 <= i < s.len(),
    ensures
        alist_has_key(s, s[i].0@),
        alist_index_of(s, s[i].0@) == i,
        alist_view(s).contains_key(s[i].0@),
        alist_view(s)[s[i].0@] == s[i].1@,
{
    let k = s[i].0@;
    assert(alist_has_key(s, k));
    let j = alist_index_of(s, k);
    assert(0 <= j < s.len() && s[j].0@ == k);
    if i < j {
        assert(s[i].0@ != s[j].0@);
    } else if j < i {
        assert(s[j].0@ != s[i].0@);
    }
}

/// Appending a pair with a fresh key inserts it into the map.
pub proof fn lemma_alist_push_fresh<K: ListKey, T: View>(s: Seq<(K, T)>, k: K, v: T)
    requires
        alist_uniq(s),
        !alist_has_key(s, k@),
    ensures
        alist_uniq(s.push((k, v))),
        alist_view(s.push((k, v))) == alist_view(s).insert(k@, v@),
{
    let s2 = s.push((k, v));
    assert forall|a: int, b: int| 0 <= a < b < s2.len() implies (#[trigger] s2[a].0@)
        != (#[trigger] s2[b].0@) by {
        if b < s.len() {
            assert(s[a].0@ != s[b].0@);
        } else {
            assert(s2[b].0@ == k@);
            assert(s2[a].0@ == s[a].0@);
            assert(!(s[a].0@ == k@));
        }
    }
    assert forall|kk: K::V| #[trigger] alist_has_key(s2, kk) implies
        alist_has_key(s, kk) || kk == k@ by {
        let i = choose|i: int| 0 <= i < s2.len() && (#[trigger] s2[i].0@) == kk;
        if i < s.len() {
            assert(s[i].0@ == kk);
        }
    }
    assert forall|kk: K::V| alist_has_key(s, kk) implies #[trigger] alist_has_key(s2, kk) by {
        let i = choose|i: int| 0 <= i < s.len() && (#[trigger] s[i].0@) == kk;
        assert(s2[i].0@ == kk);
    }
    assert(alist_has_key(s2, k@)) by {
        assert(s2[s.len() as int].0@ == k@);
    }
    assert forall|kk: K::V| alist_has_key(s2, kk) implies
        #[trigger] alist_view(s2)[kk] == alist_view(s).insert(k@, v@)[kk] by {
        let i = alist_index_of(s2, kk);
        assert(0 <= i < s2.len() && s2[i].0@ == kk);
        lemma_alist_at(s2, i);
        if kk == k@ {
            if i < s.len() {
                assert(alist_has_key(s, kk));
            }
            assert(i == s.len());
            assert(alist_view(s2)[kk] == v@);
        } else {
            assert(i < s.len());
            lemma_alist_at(s, i);
            assert(alist_view(s)[kk] == s[i].1@);
        }
    }
    assert(alist_view(s2) =~= alist_view(s).insert(k@, v@));
}

/// Replacing the value stored under an existing key updates the map at
/// that key and nothing else.
pub proof fn lemma_alist_update<K: ListKey, T: View>(s: Seq<(K, T)>, i: int, k: K, v: T)
    requires
        alist_uniq(s),
        0 <= i < s.len(),
        s[i].0@ == k@,
    ensures
        alist_uniq(s.update(i, (k, v))),
        alist_view(s.update(i, (k, v))) == alist_view(s).insert(k@, v@),
{
    let s2 = s.update(i, (k, v));
    assert forall|x: int| 0 <= x < s2.len() implies (#[trigger] s2[x].0@) == s[x].0@ by {}
    assert forall|a: int, b: int| 0 <= a < b < s2.len() implies (#[trigger] s2[a].0@)
        != (#[trigger] s2[b].0@) by {
        assert(s[a].0@ != s[b].0@);
    }
    assert forall|kk: K::V| #[trigger] alist_has_key(s2, kk) <==> alist_has_key(s, kk) by {
        if alist_has_key(s2, kk) {
            let x = choose|x: int| 0 <= x < s2.len() && (#[trigger] s2[x].0@) == kk;
            assert(s[x].0@ == kk);
        }
        if alist_has_key(s, kk) {
            let x = choose|x: int| 0 <= x < s.len() && (#[trigger] s[x].0@) == kk;
            assert(s2[x].0@ == kk);
        }
    }
    assert(alist_has_key(s, k@));
    assert forall|kk: K::V| alist_has_key(s2, kk) implies
        #[trigger] alist_view(s2)[kk] == alist_view(s).insert(k@, v@)[kk] by {
        let x = alist_index_of(s2, kk);
        assert(0 <= x < s2.len() && s2[x].0@ == kk);
        lemma_alist_at(s2, x);
        if kk == k@ {
            if x != i {
                assert(s[x].0@ != s[i].0@);
            }
            assert(x == i);
            assert(alist_view(s2)[kk] == v@);
        } else {
            assert(x != i);
            lemma_alist_at(s, x);
            assert(alist_view(s)[kk] == s[x].1@);
            assert(s2[x].1@ == s[x].1@);
        }
    }
    assert(alist_view(s2) =~= alist_view(s).insert(k@, v@));
}

/// The domain of the map of a duplicate-free list is finite, with one
/// element per pair.
pub proof fn lemma_alist_dom<K: ListKey, T: View>(s: Seq<(K, T)>)
    requires
        alist_uniq(s),
    ensures
        alist_view(s).dom().finite(),
        alist_view(s).dom().len() == s.len(),
    decreases s.len(),
{
    if s.len() == 0 {
        assert forall|kk: K::V| !(#[trigger] alist_has_key(s, kk)) by {}
        assert(alist_view(s).dom() =~= Set::<K::V>::empty());
    } else {
        let prefix = s.drop_last();
        let last = s.last();
        lemma_alist_dom(prefix);
        assert(!alist_has_key(prefix, last.0@)) by {
            if alist_has_key(prefix, last.0@) {
                let x = choose|x: int|
                    0 <= x < prefix.len() && (#[trigger] prefix[x].0@) == last.0@;
                assert(s[x].0@ != s[s.len() - 1].0@);
            }
        }
        lemma_alist_push_fresh(prefix, last.0, last.1);
        assert(s =~= prefix.push(last));
        assert(alist_view(s).dom() =~= alist_view(prefix).dom().insert(last.0@));
        assert(!alist_view(prefix).dom().contains(last.0@));
    }
}

/// An association list of key/value pairs with pairwise distinct keys,
/// read through its map of abstract values.
pub struct KeyedList<K, T> {
    pairs: Vec<(K, T)>,
}

impl<K: ListKey, T: View> View for KeyedList<K, T> {
    type V = Map<K::V, T::V>;

    closed spec fn view(&self) -> Map<K::V, T::V> {
        alist_view(self.pairs@)
    }
}

impl<K: ListKey, T: View> KeyedList<K, T> {
    /// The keys stored in the list are pairwise distinct.
    pub closed spec fn wf(self) -> bool {
        alist_uniq(self.pairs@)
    }

    /// The map of a well-formed list has a finite domain.
    pub proof fn lemma_dom_finite(self)
        requires
            self.wf(),
        ensures
            self@.dom().finite(),
    {
        lemma_alist_dom(self.pairs@);
    }

    /// The empty list: the empty map.
    pub fn new() -> (r: Self)
        ensures
            r.wf(),
            r@ == Map::<K::V, T::V>::empty(),
            r@.dom() == Set::<K::V>::empty(),
    {
        let r = KeyedList { pairs: Vec::new() };
        proof {
            assert forall|kk: K::V| !(#[trigger] alist_has_key(r.pairs@, kk)) by {}
            assert(r@ =~= Map::<K::V, T::V>::empty());
            assert(r@.dom() =~= Set::<K::V>::empty());
        }
        r
    }

    fn index_of(&self, k: &K) -> (r: Option<usize>)
        requires
            self.wf(),
        ensures
            match r {
                Some(i) => i < self.pairs@.len() && self.pairs@[i as int].0@ == k@,
                None => !alist_has_key(self.pairs@, k@),
            },
    {
        let n = self.pairs.len();
        let mut i: usize = 0;
        while i < n
            invariant
                n == self.pairs@.len(),
                i <= n,
                self.wf(),
                forall|j: int| 0 <= j < i ==> (#[trigger] self.pairs@[j].0@) != k@,
            decreases n - i,
        {
            let p = &self.pairs[i];
            if p.0.key_eq(k) {
                return Some(i);
            }
            i += 1;
        }
        None
    }

    /// Looks a key up: `Some` exactly when the map contains the key's
    /// abstract value, and then the stored element.
    pub fn get(&self, k: &K) -> (r: Option<&T>)
        requires
            self.wf(),
        ensures
            match r {
                Some(v) => self@.contains_key(k@) && v@ == self@[k@],
                None => !self@.contains_key(k@),
            },
    {
        match self.index_of(k) {
            Some(i) => {
                proof {
                    lemma_alist_at(self.pairs@, i as int);
                }
                let p = &self.pairs[i];
                Some(&p.1)
            },
            None => None,
        }
    }

    /// Whether the map contains the key's abstract value.
    pub fn contains_key(&self, k: &K) -> (r: bool)
        requires
            self.wf(),
        ensures
            r == self@.contains_key(k@),
    {
        match self.get(k) {
            Some(_) => true,
            None => false,
        }
    }

    /// Binds `k` to `v`, replacing any earlier binding of the same key;
    /// returns whether the key was new.
    pub fn insert(&mut self, k: K, v: T) -> (fresh: bool)
        requires
            old(self).wf(),
        ensures
            final(self).wf(),
            final(self)@ == old(self)@.insert(k@, v@),
            fresh == !old(self)@.contains_key(k@),
    {
        match self.index_of(&k) {
            Some(i) => {
                proof {
                    lemma_alist_at(self.pairs@, i as int);
                    lemma_alist_update(self.pairs@, i as int, k, v);
                }
                let slot = &mut self.pairs[i];
                *slot = (k, v);
                false
            },
            None => {
                proof {
                    lemma_alist_push_fresh(self.pairs@, k, v);
                }
                self.pairs.push((k, v));
                true
            },
        }
    }
}

} // verus!
