//! The two map variants, exercised through the sample `Person` entity:
//! key-derived insertion, lookup and removal, the cloned variants, the
//! pass-through operations, and the conversions to and from the raw backend
//! containers.

use std::collections::BTreeMap;
use std::collections::HashMap;
use std::collections::HashSet;

use automap::btree::AutoBTreeMap;
use automap::hash::AutoHashMap;
use automap::person::Person;
use automap::AutoMapped;

#[test]
fn auto_hashmap() {
    let mut hashmap = AutoHashMap::<Person>::new();
    let bob1 = Person {
        name: "Bob".into(),
        age: 23,
    };
    let bob2 = Person {
        name: "Bob".into(),
        age: 41,
    };
    let ruth = Person {
        name: "Ruth".into(),
        age: 32,
    };
    assert_eq!(hashmap.insert(bob1.clone()), None);
    assert_eq!(hashmap.insert(ruth.clone()), None);
    assert_eq!(hashmap.insert(bob2.clone()), Some(bob1.age));
    assert_eq!(
        hashmap
            .iter()
            .map(|(k, v)| (k.clone(), v.clone()))
            .map(Person::join)
            .collect::<HashSet<Person>>(),
        vec![bob2.clone(), ruth.clone()].into_iter().collect()
    );
    assert_eq!(hashmap.len(), 2);
    assert_eq!(hashmap.get_cloned("Bob".to_string()), Some(bob2.clone()));
    assert_eq!(hashmap.remove(&"Bob".into()), Some(bob2.age));
    assert_eq!(hashmap.remove(&"Ruth".into()), Some(ruth.age));
}

#[test]
fn auto_btreemap() {
    let mut btreemap = AutoBTreeMap::<Person>::new();
    let bob1 = Person {
        name: "Bob".into(),
        age: 23,
    };
    let bob2 = Person {
        name: "Bob".into(),
        age: 41,
    };
    let ruth = Person {
        name: "Ruth".into(),
        age: 32,
    };
    assert_eq!(btreemap.insert(bob1.clone()), None);
    assert_eq!(btreemap.insert(ruth.clone()), None);
    assert_eq!(btreemap.insert(bob2.clone()), Some(bob1.age));
    assert_eq!(
        btreemap.iter().map(|(_, v)| v).collect::<HashSet<&u16>>(),
        vec![&bob2.age, &ruth.age].into_iter().collect()
    );
    assert_eq!(btreemap.len(), 2);
    assert_eq!(btreemap.get(&"Bob".to_string()), Some(&bob2.age));
    assert_eq!(btreemap.remove(&"Bob".to_string()), Some(bob2.age));
    assert_eq!(btreemap.remove(&"Ruth".to_string()), Some(ruth.age));
}

#[test]
fn btreemap_ascending_iteration() {
    let mut map = AutoBTreeMap::<Person>::new();
    map.insert(Person {
        name: "Ruth".into(),
        age: 32,
    });
    map.insert(Person {
        name: "Bob".into(),
        age: 41,
    });
    let keys: Vec<String> = map.iter().map(|(k, _)| k.clone()).collect();
    assert_eq!(keys, vec!["Bob".to_string(), "Ruth".to_string()]);
}

#[test]
fn hashmap_insert_cloned_returns_prior_entity() {
    let mut map = AutoHashMap::<Person>::new();
    let bob1 = Person {
        name: "Bob".into(),
        age: 23,
    };
    let bob2 = Person {
        name: "Bob".into(),
        age: 41,
    };
    assert_eq!(map.insert_cloned(bob1.clone()), None);
    assert_eq!(map.insert_cloned(bob2.clone()), Some(bob1));
    assert_eq!(map.len(), 1);
    assert_eq!(map.get(&"Bob".into()), Some(&bob2.age));
}

#[test]
fn btreemap_insert_cloned_returns_prior_entity() {
    let mut map = AutoBTreeMap::<Person>::new();
    let bob1 = Person {
        name: "Bob".into(),
        age: 23,
    };
    let bob2 = Person {
        name: "Bob".into(),
        age: 41,
    };
    assert_eq!(map.insert_cloned(bob1.clone()), None);
    assert_eq!(map.insert_cloned(bob2.clone()), Some(bob1));
    assert_eq!(map.len(), 1);
    assert_eq!(map.get(&"Bob".into()), Some(&bob2.age));
}

#[test]
fn absent_key_operations_leave_map_unchanged() {
    let mut map = AutoHashMap::<Person>::new();
    let ruth = Person {
        name: "Ruth".into(),
        age: 32,
    };
    map.insert(ruth.clone());
    assert_eq!(map.get(&"Bob".into()), None);
    assert_eq!(map.get_cloned("Bob".to_string()), None);
    assert_eq!(map.remove(&"Bob".into()), None);
    assert_eq!(map.remove_cloned("Bob".to_string()), None);
    assert_eq!(map.len(), 1);
    assert_eq!(map.get_cloned("Ruth".to_string()), Some(ruth));

    let mut ordered = AutoBTreeMap::<Person>::new();
    let bob = Person {
        name: "Bob".into(),
        age: 41,
    };
    ordered.insert(bob.clone());
    assert_eq!(ordered.get(&"Ruth".into()), None);
    assert_eq!(ordered.get_cloned("Ruth".to_string()), None);
    assert_eq!(ordered.remove(&"Ruth".into()), None);
    assert_eq!(ordered.remove_cloned("Ruth".to_string()), None);
    assert_eq!(ordered.len(), 1);
    assert_eq!(ordered.get_cloned("Bob".to_string()), Some(bob));
}

#[test]
fn remove_cloned_returns_whole_entity() {
    let mut map = AutoHashMap::<Person>::new();
    let ruth = Person {
        name: "Ruth".into(),
        age: 32,
    };
    map.insert(ruth.clone());
    assert_eq!(map.remove_cloned("Ruth".to_string()), Some(ruth));
    assert_eq!(map.len(), 0);
    assert!(map.is_empty());
}

#[test]
fn hashmap_conversion_fidelity() {
    let mut map = AutoHashMap::<Person>::new();
    let bob = Person {
        name: "Bob".into(),
        age: 41,
    };
    let ruth = Person {
        name: "Ruth".into(),
        age: 32,
    };
    map.insert(bob.clone());
    map.insert(ruth.clone());
    let raw: HashMap<String, u16> = map.into_inner();
    assert_eq!(raw.len(), 2);
    let back = AutoHashMap::<Person>::from_inner(raw);
    assert_eq!(back.len(), 2);
    assert_eq!(back.get_cloned("Bob".to_string()), Some(bob));
    assert_eq!(back.get_cloned("Ruth".to_string()), Some(ruth));
}

#[test]
fn btreemap_conversion_fidelity() {
    let mut map = AutoBTreeMap::<Person>::new();
    let bob = Person {
        name: "Bob".into(),
        age: 41,
    };
    let ruth = Person {
        name: "Ruth".into(),
        age: 32,
    };
    map.insert(bob.clone());
    map.insert(ruth.clone());
    let raw: BTreeMap<String, u16> = map.into_inner();
    assert_eq!(raw.len(), 2);
    let back = AutoBTreeMap::<Person>::from_inner(raw);
    assert_eq!(back.len(), 2);
    assert_eq!(back.get_cloned("Bob".to_string()), Some(bob));
    assert_eq!(back.get_cloned("Ruth".to_string()), Some(ruth));
}

#[test]
fn clear_and_default_give_empty_maps() {
    let mut map = AutoHashMap::<Person>::new();
    map.insert(Person {
        name: "Bob".into(),
        age: 41,
    });
    assert!(!map.is_empty());
    assert!(map.contains_key(&"Bob".into()));
    map.clear();
    assert!(map.is_empty());
    assert!(!map.contains_key(&"Bob".into()));

    let empty_hash: AutoHashMap<Person> = Default::default();
    assert!(empty_hash.is_empty());
    let mut ordered: AutoBTreeMap<Person> = Default::default();
    assert!(ordered.is_empty());
    ordered.insert(Person {
        name: "Ruth".into(),
        age: 32,
    });
    ordered.clear();
    assert!(ordered.is_empty());
}

#[test]
fn wrapper_clone_copies_entries() {
    let mut map = AutoBTreeMap::<Person>::new();
    let bob = Person {
        name: "Bob".into(),
        age: 41,
    };
    map.insert(bob.clone());
    let copy = map.clone();
    assert_eq!(copy.len(), 1);
    assert_eq!(copy.get_cloned("Bob".to_string()), Some(bob.clone()));
    // the original is untouched
    assert_eq!(map.get_cloned("Bob".to_string()), Some(bob));
}
