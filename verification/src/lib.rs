//! Maps whose values carry their own keys.
//!
//! Many programs store self-describing records: values that already know the
//! key under which they should be filed. Passing the key separately on every
//! insertion invites a class of bugs where the map's index key and the
//! record's own identity drift apart. This crate offers a small discipline to
//! rule those bugs out:
//!
//! * the [`AutoMapped`] trait says how a value type decomposes into a
//!   `(Key, Value)` pair and how it is reconstituted from one, together with
//!   the round-trip law that reconstitution undoes decomposition;
//! * [`AutoHashMap`](hash::AutoHashMap) and
//!   [`AutoBTreeMap`](btree::AutoBTreeMap) wrap the standard hash-indexed and
//!   order-indexed containers so that entries can only be created through the
//!   value's own key, while all other map operations pass through unchanged.
//!
//! The payoff is the key-synchronization invariant, captured by
//! [`synchronized`]: every entry `(k, v)` observable in one of the wrapped
//! maps reconstructs to an entity whose derived key is exactly `k`. The
//! invariant holds of the empty map and is preserved by every operation the
//! wrappers offer; converting a raw backend container into a wrapper is the
//! one place where it becomes the caller's obligation.

use vstd::prelude::*;

pub mod btree;
pub mod hash;
pub mod person;

pub use btree::AutoBTreeMap;
pub use hash::AutoHashMap;
pub use person::Person;

verus! {

/// How a value type declares its key.
///
/// A type implementing this trait can be consumed into a disjoint
/// `(Key, Value)` pair on insertion into an [`AutoHashMap`](hash::AutoHashMap)
/// or [`AutoBTreeMap`](btree::AutoBTreeMap), and reassembled from such a pair
/// on the way out. Both directions are total and pure, and they must round
/// trip: `join(split(t))` gives back `t` for every entity `t`. The ghost
/// functions [`spec_split`](AutoMapped::spec_split) and
/// [`spec_join`](AutoMapped::spec_join) mirror the executable operations so
/// that contracts can speak about them, and
/// [`lemma_round_trip`](AutoMapped::lemma_round_trip) obliges every
/// implementation to prove the law.
pub trait AutoMapped: Sized {
    /// The key type.
    type Key;

    /// The value type: the payload stored beside the key.
    type Value;

    /// Ghost decomposition of an entity into its key and payload.
    spec fn spec_split(self) -> (Self::Key, Self::Value);

    /// Ghost reconstruction of an entity from a key and a payload.
    spec fn spec_join(pair: (Self::Key, Self::Value)) -> Self;

    /// The round-trip law: reconstruction undoes decomposition, so splitting
    /// an entity loses no information.
    proof fn lemma_round_trip(t: Self)
        ensures
            Self::spec_join(t.spec_split()) == t,
    ;

    /// Split into a key-value pair.
    fn split(self) -> (r: (Self::Key, Self::Value))
        ensures
            r == self.spec_split(),
    ;

    /// Reconstitute from key and value parts.
    fn join(pair: (Self::Key, Self::Value)) -> (r: Self)
        ensures
            r == Self::spec_join(pair),
    ;
}

/// The key-synchronization invariant: every entry `(k, v)` of the map
/// reconstructs to an entity that decomposes back to exactly `(k, v)`, so in
/// particular the key derivable from the entity stored at `k` is `k` itself.
pub open spec fn synchronized<T: AutoMapped>(m: Map<T::Key, T::Value>) -> bool {
    forall|k: T::Key| #[trigger]
        m.contains_key(k) ==> T::spec_join((k, m[k])).spec_split() == (k, m[k])
}

/// The empty map is synchronized.
pub proof fn lemma_empty_synchronized<T: AutoMapped>()
    ensures
        synchronized::<T>(Map::<T::Key, T::Value>::empty()),
{
}

/// Inserting an entity's own split preserves the key-synchronization
/// invariant: this is the only way the wrappers ever create an entry.
pub proof fn lemma_insert_synchronized<T: AutoMapped>(m: Map<T::Key, T::Value>, t: T)
    requires
        synchronized::<T>(m),
    ensures
        synchronized::<T>(m.insert(t.spec_split().0, t.spec_split().1)),
{
    let k = t.spec_split().0;
    let v = t.spec_split().1;
    let m2 = m.insert(k, v);
    assert forall|k2: T::Key| #[trigger]
        m2.contains_key(k2) implies T::spec_join((k2, m2[k2])).spec_split() == (k2, m2[k2]) by {
        if k2 == k {
            T::lemma_round_trip(t);
        } else {
            assert(m.contains_key(k2));
        }
    }
}

/// Removing an entry preserves the key-synchronization invariant.
pub proof fn lemma_remove_synchronized<T: AutoMapped>(m: Map<T::Key, T::Value>, k: T::Key)
    requires
        synchronized::<T>(m),
    ensures
        synchronized::<T>(m.remove(k)),
{
    assert forall|k2: T::Key| #[trigger]
        m.remove(k).contains_key(k2) implies T::spec_join((k2, m.remove(k)[k2])).spec_split() == (
        k2,
        m.remove(k)[k2],
    ) by {
        assert(m.contains_key(k2));
    }
}

/// What the invariant buys: an entry observed at key `k` reconstructs to an
/// entity whose derived key is `k` and whose payload is the stored value.
pub proof fn lemma_synchronized_entry<T: AutoMapped>(m: Map<T::Key, T::Value>, k: T::Key)
    requires
        synchronized::<T>(m),
        m.contains_key(k),
    ensures
        T::spec_join((k, m[k])).spec_split().0 == k,
        T::spec_join((k, m[k])).spec_split().1 == m[k],
{
    assert(T::spec_join((k, m[k])).spec_split() == (k, m[k]));
}

/// Whether `clone` on `K` always returns a value equal to its input. The
/// standard library guarantees this for its own key-like types (integers,
/// `String`, and so on); the cloned-insertion operations promise exact
/// results only under this hypothesis.
pub open spec fn obeys_exact_clone<K: Clone>() -> bool {
    forall|a: K, b: K| #[trigger] cloned::<K>(a, b) ==> b == a
}

} // verus!
