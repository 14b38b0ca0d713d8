//! The order-indexed instantiation: an [`AutoBTreeMap`] wraps
//! `std::collections::BTreeMap`, so it requires the key type to support a
//! total order, offers logarithmic-time operations, and iterates in ascending
//! key order.
//!
//! The contracts below are phrased like the standard library's own
//! specifications for `BTreeMap`: their interesting clauses hold under the
//! hypothesis `obeys_cmp::<T::Key>()`, which says that the key type's
//! comparison operations agree with its specification-level ordering. The
//! verifier's standard library establishes that hypothesis for the primitive
//! integer types and tuples of them, among others.

use vstd::prelude::*;

use std::collections::btree_map;
use std::collections::BTreeMap;

use crate::lemma_empty_synchronized;
use crate::lemma_insert_synchronized;
use crate::lemma_remove_synchronized;
use crate::obeys_exact_clone;
use crate::synchronized;
use crate::AutoMapped;
use vstd::laws_cmp::obeys_cmp;
use vstd::std_specs::btree::increasing_seq;
use vstd::std_specs::btree::key_obeys_cmp_spec;
use vstd::std_specs::cmp::OrdSpec;
use vstd::std_specs::iter::IteratorSpec;

verus! {

/// An order-indexed map whose values also contain their keys.
///
/// Entries are created only through [`insert`](AutoBTreeMap::insert) and
/// [`insert_cloned`](AutoBTreeMap::insert_cloned), which derive the index key
/// from the inserted entity itself, so a map built through this interface
/// keeps the key-synchronization invariant [`synchronized`].
pub struct AutoBTreeMap<T: AutoMapped> {
    inner: BTreeMap<T::Key, T::Value>,
}

impl<T: AutoMapped> View for AutoBTreeMap<T> {
    type V = Map<T::Key, T::Value>;

    closed spec fn view(&self) -> Map<T::Key, T::Value> {
        self.inner@
    }
}

impl<T: AutoMapped> AutoBTreeMap<T> where T::Key: Ord {
    /// Constructor: the empty map, which is trivially synchronized.
    pub fn new() -> (r: Self)
        ensures
            r@ == Map::<T::Key, T::Value>::empty(),
            synchronized::<T>(r@),
    {
        let r = AutoBTreeMap { inner: BTreeMap::new() };
        proof {
            lemma_empty_synchronized::<T>();
        }
        r
    }

    /// Insert a key-value pair via just the value.
    ///
    /// The entity is split into its key and payload; the payload is stored
    /// under the key, replacing and returning whatever the key previously
    /// mapped to (`None` if the key was absent).
    pub fn insert(&mut self, t: T) -> (r: Option<T::Value>)
        ensures
            obeys_cmp::<T::Key>() ==> ({
                let (k, v) = t.spec_split();
                &&& final(self)@ == old(self)@.insert(k, v)
                &&& match r {
                    Some(prev) => old(self)@.contains_key(k) && prev == old(self)@[k],
                    None => !old(self)@.contains_key(k),
                }
                &&& (synchronized::<T>(old(self)@) ==> synchronized::<T>(final(self)@))
            }),
    {
        let ghost t0 = t;
        let (k, v) = t.split();
        let r = self.inner.insert(k, v);
        proof {
            if obeys_cmp::<T::Key>() && synchronized::<T>(old(self)@) {
                lemma_insert_synchronized::<T>(old(self)@, t0);
            }
        }
        r
    }

    /// Like [`insert`](AutoBTreeMap::insert), but returns the displaced entry
    /// as a whole reconstituted entity, which requires cloning the key.
    pub fn insert_cloned(&mut self, t: T) -> (r: Option<T>)
        where T::Key: Clone
        ensures
            obeys_cmp::<T::Key>() && obeys_exact_clone::<T::Key>() ==> ({
                let (k, v) = t.spec_split();
                &&& final(self)@ == old(self)@.insert(k, v)
                &&& match r {
                    Some(prev) => old(self)@.contains_key(k) && prev == T::spec_join(
                        (k, old(self)@[k]),
                    ),
                    None => !old(self)@.contains_key(k),
                }
                &&& (synchronized::<T>(old(self)@) ==> synchronized::<T>(final(self)@))
            }),
    {
        let ghost t0 = t;
        let (k, v) = t.split();
        let stored_key = k.clone();
        proof {
            if obeys_exact_clone::<T::Key>() {
                assert(cloned::<T::Key>(k, stored_key));
                assert(stored_key == k);
            }
        }
        let prev = self.inner.insert(stored_key, v);
        proof {
            if obeys_cmp::<T::Key>() && obeys_exact_clone::<T::Key>() && synchronized::<T>(
                old(self)@,
            ) {
                lemma_insert_synchronized::<T>(old(self)@, t0);
            }
        }
        match prev {
            Some(val) => Some(T::join((k, val))),
            None => None,
        }
    }

    /// Get an owned copy of the full entity associated with this key,
    /// reconstituted from the key and a clone of the stored payload.
    pub fn get_cloned(&self, k: T::Key) -> (r: Option<T>)
        where T::Value: Clone
        ensures
            obeys_cmp::<T::Key>() ==> ({
                &&& self@.contains_key(k) ==> (exists|v: T::Value|
                    #[trigger] cloned::<T::Value>(self@[k], v) && r == Some(T::spec_join((k, v))))
                &&& !self@.contains_key(k) ==> r == None::<T>
            }),
            obeys_cmp::<T::Key>() && obeys_exact_clone::<T::Value>() ==> ({
                &&& self@.contains_key(k) ==> r == Some(T::spec_join((k, self@[k])))
                &&& !self@.contains_key(k) ==> r == None::<T>
            }),
    {
        match self.inner.get(&k) {
            Some(val) => {
                let payload = val.clone();
                proof {
                    assert(cloned::<T::Value>(*val, payload));
                    if obeys_exact_clone::<T::Value>() {
                        assert(payload == *val);
                    }
                }
                Some(T::join((k, payload)))
            },
            None => None,
        }
    }

    /// Like [`remove`](AutoBTreeMap::remove), but returns the removed entry
    /// as a whole reconstituted entity. Removing an absent key returns `None`
    /// and leaves the map unchanged.
    pub fn remove_cloned(&mut self, k: T::Key) -> (r: Option<T>)
        ensures
            obeys_cmp::<T::Key>() ==> ({
                &&& final(self)@ == old(self)@.remove(k)
                &&& old(self)@.contains_key(k) ==> r == Some(T::spec_join((k, old(self)@[k])))
                &&& !old(self)@.contains_key(k) ==> r == None::<T> && final(self)@ == old(self)@
                &&& (synchronized::<T>(old(self)@) ==> synchronized::<T>(final(self)@))
            }),
    {
        let prev = self.inner.remove(&k);
        proof {
            if obeys_cmp::<T::Key>() {
                if !old(self)@.contains_key(k) {
                    assert(old(self)@.remove(k) =~= old(self)@);
                }
                if synchronized::<T>(old(self)@) {
                    lemma_remove_synchronized::<T>(old(self)@, k);
                }
            }
        }
        match prev {
            Some(val) => Some(T::join((k, val))),
            None => None,
        }
    }

    /// Pass-through for the backend's `len`.
    pub fn len(&self) -> (n: usize)
        ensures
            obeys_cmp::<T::Key>() ==> n == self@.len(),
    {
        let n = self.inner.len();
        proof {
            if obeys_cmp::<T::Key>() {
                assert(key_obeys_cmp_spec::<T::Key>());
            }
        }
        n
    }

    /// Pass-through for the backend's `is_empty`.
    pub fn is_empty(&self) -> (b: bool)
        ensures
            b == self@.is_empty(),
    {
        self.inner.is_empty()
    }

    /// Pass-through for the backend's `contains_key`.
    pub fn contains_key(&self, k: &T::Key) -> (b: bool)
        ensures
            obeys_cmp::<T::Key>() ==> b == self@.contains_key(*k),
    {
        self.inner.contains_key(k)
    }

    /// Pass-through for the backend's `get`: borrow the payload stored under
    /// this key, without reconstituting an entity.
    pub fn get<'a>(&'a self, k: &T::Key) -> (r: Option<&'a T::Value>)
        ensures
            obeys_cmp::<T::Key>() ==> match r {
                Some(v) => self@.contains_key(*k) && *v == self@[*k],
                None => !self@.contains_key(*k),
            },
    {
        self.inner.get(k)
    }

    /// Pass-through for the backend's `remove`: remove the entry under this
    /// key and return the raw payload. Removing an absent key returns `None`
    /// and leaves the map unchanged.
    pub fn remove(&mut self, k: &T::Key) -> (r: Option<T::Value>)
        ensures
            obeys_cmp::<T::Key>() ==> ({
                &&& final(self)@ == old(self)@.remove(*k)
                &&& match r {
                    Some(v) => old(self)@.contains_key(*k) && v == old(self)@[*k],
                    None => !old(self)@.contains_key(*k) && final(self)@ == old(self)@,
                }
                &&& (synchronized::<T>(old(self)@) ==> synchronized::<T>(final(self)@))
            }),
    {
        let prev = self.inner.remove(k);
        proof {
            if obeys_cmp::<T::Key>() {
                if !old(self)@.contains_key(*k) {
                    assert(old(self)@.remove(*k) =~= old(self)@);
                }
                if synchronized::<T>(old(self)@) {
                    lemma_remove_synchronized::<T>(old(self)@, *k);
                }
            }
        }
        prev
    }

    /// Pass-through for the backend's `iter`: iterate over the entries in
    /// ascending key order. The remaining entries of the iterator are exactly
    /// the entries of the map, and their keys compare strictly below one
    /// another from left to right.
    pub fn iter<'a>(&'a self) -> (it: btree_map::Iter<'a, T::Key, T::Value>)
        ensures
            obeys_cmp::<T::Key>() ==> ({
                let pairs = it.remaining();
                &&& pairs.len() == self@.dom().len()
                &&& pairs.no_duplicates()
                &&& forall|i: int| #![trigger pairs[i]]
                    0 <= i < pairs.len() ==> self@.contains_key(*pairs[i].0) && self@[*pairs[i].0]
                        == *pairs[i].1
                &&& forall|k: T::Key| #[trigger]
                    self@.contains_key(k) ==> pairs.contains((&k, &self@[k]))
                &&& forall|i: int, j: int| #![trigger pairs[i], pairs[j]]
                    0 <= i < j < pairs.len() ==> pairs[i].0.cmp_spec(pairs[j].0) is Less
            }),
    {
        let it = self.inner.iter();
        proof {
            if obeys_cmp::<T::Key>() {
                assert(key_obeys_cmp_spec::<T::Key>());
                let pairs = it.remaining();
                let keys = pairs.map_values(|kv: (&T::Key, &T::Value)| *kv.0);
                assert(increasing_seq(keys));
                assert forall|i: int, j: int| #![trigger pairs[i], pairs[j]]
                    0 <= i < j < pairs.len() implies pairs[i].0.cmp_spec(pairs[j].0) is Less by {
                    assert(keys[i] == *pairs[i].0);
                    assert(keys[j] == *pairs[j].0);
                    assert(keys[i].cmp_spec(&keys[j]) is Less);
                }
            }
        }
        it
    }

    /// Pass-through for the backend's `clear`.
    pub fn clear(&mut self)
        ensures
            final(self)@ == Map::<T::Key, T::Value>::empty(),
            synchronized::<T>(final(self)@),
    {
        self.inner.clear();
        proof {
            lemma_empty_synchronized::<T>();
        }
    }

    /// Conversion out to the raw backend container. This direction is always
    /// safe: the entries are handed over exactly as they stand.
    pub fn into_inner(self) -> (m: BTreeMap<T::Key, T::Value>)
        ensures
            m@ == self@,
    {
        self.inner
    }

    /// Conversion in from a raw backend container. This direction is a trust
    /// boundary: the wrapper takes the entries as they stand, so whether the
    /// key-synchronization invariant holds of the result is the caller's
    /// responsibility, as the view equality below makes precise.
    pub fn from_inner(m: BTreeMap<T::Key, T::Value>) -> (r: Self)
        ensures
            r@ == m@,
    {
        AutoBTreeMap { inner: m }
    }
}

/// Conversion fidelity: a wrapper converted out to its raw backend container
/// and then converted back in again is observably equal to the map it came
/// from — same keys, same stored payloads, same cardinality.
pub proof fn lemma_conversion_fidelity<T: AutoMapped>(
    a: AutoBTreeMap<T>,
    raw: BTreeMap<T::Key, T::Value>,
    b: AutoBTreeMap<T>,
) where T::Key: Ord
    requires
        call_ensures(AutoBTreeMap::<T>::into_inner, (a,), raw),
        call_ensures(AutoBTreeMap::<T>::from_inner, (raw,), b),
    ensures
        b@ == a@,
{
}

impl<T: AutoMapped> Default for AutoBTreeMap<T> where T::Key: Ord {
    /// The default map is the empty map.
    fn default() -> (r: Self)
        ensures
            r@ == Map::<T::Key, T::Value>::empty(),
            synchronized::<T>(r@),
    {
        Self::new()
    }
}

impl<T: AutoMapped> Clone for AutoBTreeMap<T> where
    T::Key: Ord + Clone,
    T::Value: Clone,
 {
    /// Cloning the wrapper clones the backend, entry for entry.
    fn clone(&self) -> (r: Self)
        ensures
            r@ == self@,
    {
        AutoBTreeMap { inner: self.inner.clone() }
    }
}

} // verus!
