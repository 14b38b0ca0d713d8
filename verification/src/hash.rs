//! The hash-indexed instantiation: an [`AutoHashMap`] wraps
//! `std::collections::HashMap`, so it requires the key type to support
//! equality and hashing, offers expected constant-time operations, and gives
//! no ordering guarantee between keys.
//!
//! The contracts below are phrased like the standard library's own
//! specifications for `HashMap`: their interesting clauses hold under the
//! hypothesis `obeys_key_model::<T::Key>()`, which says that hashing and
//! equality on the key type are compatible with mathematical equality. The
//! verifier's standard library establishes that hypothesis for the primitive
//! integer types, among others.

use vstd::prelude::*;

use std::collections::hash_map;
use std::collections::HashMap;
use std::hash::Hash;

use crate::lemma_empty_synchronized;
use crate::lemma_insert_synchronized;
use crate::lemma_remove_synchronized;
use crate::obeys_exact_clone;
use crate::synchronized;
use crate::AutoMapped;
use vstd::std_specs::hash::obeys_key_model;
use vstd::std_specs::iter::IteratorSpec;

verus! {

/// A hash-indexed map whose values also contain their keys.
///
/// Entries are created only through [`insert`](AutoHashMap::insert) and
/// [`insert_cloned`](AutoHashMap::insert_cloned), which derive the index key
/// from the inserted entity itself, so a map built through this interface
/// keeps the key-synchronization invariant [`synchronized`].
pub struct AutoHashMap<T: AutoMapped> {
    inner: HashMap<T::Key, T::Value>,
}

impl<T: AutoMapped> View for AutoHashMap<T> {
    type V = Map<T::Key, T::Value>;

    closed spec fn view(&self) -> Map<T::Key, T::Value> {
        self.inner@
    }
}

impl<T: AutoMapped> AutoHashMap<T> where T::Key: Eq + Hash {
    /// Constructor: the empty map, which is trivially synchronized.
    pub fn new() -> (r: Self)
        ensures
            r@ == Map::<T::Key, T::Value>::empty(),
            synchronized::<T>(r@),
    {
        let r = AutoHashMap { inner: HashMap::new() };
        proof {
            lemma_empty_synchronized::<T>();
        }
        r
    }

    /// Insert a key-value pair via just the value.
    ///
    /// The entity is split into its key and payload; the payload is stored
    /// under the key, replacing and returning whatever the key previously
    /// mapped to (`None` if the key was absent).
    pub fn insert(&mut self, t: T) -> (r: Option<T::Value>)
        ensures
            obeys_key_model::<T::Key>() ==> ({
                let (k, v) = t.spec_split();
                &&& final(self)@ == old(self)@.insert(k, v)
                &&& match r {
                    Some(prev) => old(self)@.contains_key(k) && prev == old(self)@[k],
                    None => !old(self)@.contains_key(k),
                }
                &&& (synchronized::<T>(old(self)@) ==> synchronized::<T>(final(self)@))
            }),
    {
        let ghost t0 = t;
        let (k, v) = t.split();
        let r = self.inner.insert(k, v);
        proof {
            if obeys_key_model::<T::Key>() && synchronized::<T>(old(self)@) {
                lemma_insert_synchronized::<T>(old(self)@, t0);
            }
        }
        r
    }

    /// Like [`insert`](AutoHashMap::insert), but returns the displaced entry
    /// as a whole reconstituted entity, which requires cloning the key.
    pub fn insert_cloned(&mut self, t: T) -> (r: Option<T>)
        where T::Key: Clone
        ensures
            obeys_key_model::<T::Key>() && obeys_exact_clone::<T::Key>() ==> ({
                let (k, v) = t.spec_split();
                &&& final(self)@ == old(self)@.insert(k, v)
                &&& match r {
                    Some(prev) => old(self)@.contains_key(k) && prev == T::spec_join(
                        (k, old(self)@[k]),
                    ),
                    None => !old(self)@.contains_key(k),
                }
                &&& (synchronized::<T>(old(self)@) ==> synchronized::<T>(final(self)@))
            }),
    {
        let ghost t0 = t;
        let (k, v) = t.split();
        let stored_key = k.clone();
        proof {
            if obeys_exact_clone::<T::Key>() {
                assert(cloned::<T::Key>(k, stored_key));
                assert(stored_key == k);
            }
        }
        let prev = self.inner.insert(stored_key, v);
        proof {
            if obeys_key_model::<T::Key>() && obeys_exact_clone::<T::Key>()
                && synchronized::<T>(old(self)@) {
                lemma_insert_synchronized::<T>(old(self)@, t0);
            }
        }
        match prev {
            Some(val) => Some(T::join((k, val))),
            None => None,
        }
    }

    /// Get an owned copy of the full entity associated with this key,
    /// reconstituted from the key and a clone of the stored payload.
    pub fn get_cloned(&self, k: T::Key) -> (r: Option<T>)
        where T::Value: Clone
        ensures
            obeys_key_model::<T::Key>() ==> ({
                &&& self@.contains_key(k) ==> (exists|v: T::Value|
                    #[trigger] cloned::<T::Value>(self@[k], v) && r == Some(T::spec_join((k, v))))
                &&& !self@.contains_key(k) ==> r == None::<T>
            }),
            obeys_key_model::<T::Key>() && obeys_exact_clone::<T::Value>() ==> ({
                &&& self@.contains_key(k) ==> r == Some(T::spec_join((k, self@[k])))
                &&& !self@.contains_key(k) ==> r == None::<T>
            }),
    {
        match self.inner.get(&k) {
            Some(val) => {
                let payload = val.clone();
                proof {
                    assert(cloned::<T::Value>(*val, payload));
                    if obeys_exact_clone::<T::Value>() {
                        assert(payload == *val);
                    }
                }
                Some(T::join((k, payload)))
            },
            None => None,
        }
    }

    /// Like [`remove`](AutoHashMap::remove), but returns the removed entry as
    /// a whole reconstituted entity. Removing an absent key returns `None`
    /// and leaves the map unchanged.
    pub fn remove_cloned(&mut self, k: T::Key) -> (r: Option<T>)
        ensures
            obeys_key_model::<T::Key>() ==> ({
                &&& final(self)@ == old(self)@.remove(k)
                &&& old(self)@.contains_key(k) ==> r == Some(T::spec_join((k, old(self)@[k])))
                &&& !old(self)@.contains_key(k) ==> r == None::<T> && final(self)@ == old(self)@
                &&& (synchronized::<T>(old(self)@) ==> synchronized::<T>(final(self)@))
            }),
    {
        let prev = self.inner.remove(&k);
        proof {
            if obeys_key_model::<T::Key>() {
                if !old(self)@.contains_key(k) {
                    assert(old(self)@.remove(k) =~= old(self)@);
                }
                if synchronized::<T>(old(self)@) {
                    lemma_remove_synchronized::<T>(old(self)@, k);
                }
            }
        }
        match prev {
            Some(val) => Some(T::join((k, val))),
            None => None,
        }
    }

    /// Pass-through for the backend's `len`.
    pub fn len(&self) -> (n: usize)
        ensures
            obeys_key_model::<T::Key>() ==> n == self@.len(),
    {
        self.inner.len()
    }

    /// Pass-through for the backend's `is_empty`.
    pub fn is_empty(&self) -> (b: bool)
        ensures
            b == self@.is_empty(),
    {
        self.inner.is_empty()
    }

    /// Pass-through for the backend's `contains_key`.
    pub fn contains_key(&self, k: &T::Key) -> (b: bool)
        ensures
            obeys_key_model::<T::Key>() ==> b == self@.contains_key(*k),
    {
        self.inner.contains_key(k)
    }

    /// Pass-through for the backend's `get`: borrow the payload stored under
    /// this key, without reconstituting an entity.
    pub fn get<'a>(&'a self, k: &T::Key) -> (r: Option<&'a T::Value>)
        ensures
            obeys_key_model::<T::Key>() ==> match r {
                Some(v) => self@.contains_key(*k) && *v == self@[*k],
                None => !self@.contains_key(*k),
            },
    {
        self.inner.get(k)
    }

    /// Pass-through for the backend's `remove`: remove the entry under this
    /// key and return the raw payload. Removing an absent key returns `None`
    /// and leaves the map unchanged.
    pub fn remove(&mut self, k: &T::Key) -> (r: Option<T::Value>)
        ensures
            obeys_key_model::<T::Key>() ==> ({
                &&& final(self)@ == old(self)@.remove(*k)
                &&& match r {
                    Some(v) => old(self)@.contains_key(*k) && v == old(self)@[*k],
                    None => !old(self)@.contains_key(*k) && final(self)@ == old(self)@,
                }
                &&& (synchronized::<T>(old(self)@) ==> synchronized::<T>(final(self)@))
            }),
    {
        let prev = self.inner.remove(k);
        proof {
            if obeys_key_model::<T::Key>() {
                if !old(self)@.contains_key(*k) {
                    assert(old(self)@.remove(*k) =~= old(self)@);
                }
                if synchronized::<T>(old(self)@) {
                    lemma_remove_synchronized::<T>(old(self)@, *k);
                }
            }
        }
        prev
    }

    /// Pass-through for the backend's `iter`: iterate over the entries, in
    /// no particular order. The remaining entries of the iterator are exactly
    /// the entries of the map.
    pub fn iter<'a>(&'a self) -> (it: hash_map::Iter<'a, T::Key, T::Value>)
        ensures
            obeys_key_model::<T::Key>() ==> ({
                let pairs = it.remaining();
                &&& pairs.len() == self@.dom().len()
                &&& pairs.no_duplicates()
                &&& forall|i: int| #![trigger pairs[i]]
                    0 <= i < pairs.len() ==> self@.contains_key(*pairs[i].0) && self@[*pairs[i].0]
                        == *pairs[i].1
                &&& forall|k: T::Key| #[trigger]
                    self@.contains_key(k) ==> pairs.contains((&k, &self@[k]))
            }),
    {
        self.inner.iter()
    }

    /// Pass-through for the backend's `clear`.
    pub fn clear(&mut self)
        ensures
            final(self)@ == Map::<T::Key, T::Value>::empty(),
            synchronized::<T>(final(self)@),
    {
        self.inner.clear();
        proof {
            lemma_empty_synchronized::<T>();
        }
    }

    /// Conversion out to the raw backend container. This direction is always
    /// safe: the entries are handed over exactly as they stand.
    pub fn into_inner(self) -> (m: HashMap<T::Key, T::Value>)
        ensures
            m@ == self@,
    {
        self.inner
    }

    /// Conversion in from a raw backend container. This direction is a trust
    /// boundary: the wrapper takes the entries as they stand, so whether the
    /// key-synchronization invariant holds of the result is the caller's
    /// responsibility, as the view equality below makes precise.
    pub fn from_inner(m: HashMap<T::Key, T::Value>) -> (r: Self)
        ensures
            r@ == m@,
    {
        AutoHashMap { inner: m }
    }
}

/// Conversion fidelity: a wrapper converted out to its raw backend container
/// and then converted back in again is observably equal to the map it came
/// from — same keys, same stored payloads, same cardinality.
pub proof fn lemma_conversion_fidelity<T: AutoMapped>(
    a: AutoHashMap<T>,
    raw: HashMap<T::Key, T::Value>,
    b: AutoHashMap<T>,
) where T::Key: Eq + Hash
    requires
        call_ensures(AutoHashMap::<T>::into_inner, (a,), raw),
        call_ensures(AutoHashMap::<T>::from_inner, (raw,), b),
    ensures
        b@ == a@,
{
}

impl<T: AutoMapped> Default for AutoHashMap<T> where T::Key: Eq + Hash {
    /// The default map is the empty map.
    fn default() -> (r: Self)
        ensures
            r@ == Map::<T::Key, T::Value>::empty(),
            synchronized::<T>(r@),
    {
        Self::new()
    }
}

impl<T: AutoMapped> Clone for AutoHashMap<T> where
    T::Key: Eq + Hash + Clone,
    T::Value: Clone,
 {
    /// Cloning the wrapper clones the backend, entry for entry.
    fn clone(&self) -> (r: Self)
        ensures
            r@ == self@,
    {
        AutoHashMap { inner: self.inner.clone() }
    }
}

} // verus!
