use kademlia::id::{Id, EXPECTED_ID_LENGTH_IN_BYTES};
use kademlia::store::{InMemoryStore, Key, StoredValue};

#[test]
fn value_is_present_for_the_give_key() {
    let mut store = InMemoryStore::new_in_memory_store();
    let key = "kademlia".as_bytes().to_vec();
    let value = "distributed hash table".as_bytes().to_vec();

    store.put(key, value);

    let query_key = "kademlia".as_bytes().to_vec();
    let stored_value = store.get(&query_key);

    assert!(stored_value.is_some(), "{}", format!("value must be present for {}", String::from_utf8(query_key).unwrap()));

    let expected_value = "distributed hash table".as_bytes().to_vec();
    assert_eq!(expected_value, stored_value.unwrap())
}

#[test]
fn value_is_missing_for_the_give_key() {
    let store = InMemoryStore::new_in_memory_store();

    let query_key = "non_existing_key".as_bytes().to_vec();
    let stored_value = store.get(&query_key);

    assert!(stored_value.is_none(), "{}", format!("value must be missing for {}", String::from_utf8(query_key).unwrap()));
}

#[test]
fn store_delete_the_value_for_an_existing_key() {
    let mut store = InMemoryStore::new_in_memory_store();
    let key = "kademlia".as_bytes().to_vec();
    let value = "distributed hash table".as_bytes().to_vec();

    store.put(key, value);

    let key_to_delete = "kademlia".as_bytes().to_vec();
    store.delete(&key_to_delete);

    let stored_value = store.get(&key_to_delete);
    assert!(stored_value.is_none(), "{}", format!("value must not be present for {}", String::from_utf8(key_to_delete).unwrap()));
}

#[test]
fn correct_key_id_length() {
    let key = Key::new_with_id(vec![10, 20, 30], Id::new(vec![0; 20]));

    assert_eq!(&vec![0; 20], key.id.bytes());
    assert_eq!(vec![10, 20, 30], key.key);
}

#[test]
fn key_with_id_and_content() {
    let key = Key::new(vec![10, 20, 30]);

    assert_eq!(EXPECTED_ID_LENGTH_IN_BYTES, key.length_key_id());
    assert_eq!(vec![10, 20, 30], key.key);
}

#[test]
fn get_the_value_for_the_existing_key() {
    let mut store = InMemoryStore::new();
    let key = "kademlia".as_bytes().to_vec();
    let value = "distributed hash table".as_bytes().to_vec();

    store.put_or_update(Key::new(key), value);

    let query_key = "kademlia".as_bytes().to_vec();
    let stored_value = store.get(&query_key);

    assert!(
        stored_value.is_some(),
        "{}",
        format!("value must be present for {}", String::from_utf8(query_key).unwrap())
    );

    let expected_value = "distributed hash table".as_bytes().to_vec();
    assert_eq!(expected_value, stored_value.unwrap())
}

#[test]
fn update_the_value_for_an_existing_key() {
    let mut store = InMemoryStore::new();
    let key = "kademlia".as_bytes().to_vec();
    let value = "distributed hash table".as_bytes().to_vec();

    store.put_or_update(Key::new(key.clone()), value);

    let updated_value = "hash table".as_bytes().to_vec();
    store.put_or_update(Key::new(key), updated_value);

    let query_key = "kademlia".as_bytes().to_vec();
    let stored_value = store.get(&query_key);

    assert!(
        stored_value.is_some(),
        "{}",
        format!("value must be present for {}", String::from_utf8(query_key).unwrap())
    );

    let expected_value = "hash table".as_bytes().to_vec();
    assert_eq!(expected_value, stored_value.unwrap())
}

#[test]
fn get_value_for_the_missing_key() {
    let store = InMemoryStore::new();

    let query_key = "non_existing_key".as_bytes().to_vec();
    let stored_value = store.get(&query_key);

    assert!(
        stored_value.is_none(),
        "{}",
        format!("value must be missing for {}", String::from_utf8(query_key).unwrap())
    );
}

#[test]
fn mod_delete_the_value_for_an_existing_key() {
    let mut store = InMemoryStore::new();
    let key = "kademlia".as_bytes().to_vec();
    let value = "distributed hash table".as_bytes().to_vec();

    store.put_or_update(Key::new(key), value);

    let key_to_delete = "kademlia".as_bytes().to_vec();
    store.delete(&key_to_delete);

    let stored_value = store.get(&key_to_delete);
    assert!(
        stored_value.is_none(),
        "{}",
        format!("value must not be present for {}", String::from_utf8(key_to_delete).unwrap())
    );
}

#[test]
fn other_keys_survive_updates_and_deletes() {
    let mut store = InMemoryStore::new();
    store.put(vec![1], vec![10]);
    store.put(vec![2], vec![20]);
    store.put(vec![3], vec![30]);
    store.delete(&vec![2]);
    store.put(vec![1], vec![11]);
    store.delete(&vec![9]);
    assert_eq!(Some(vec![11]), store.get(&vec![1]));
    assert_eq!(None, store.get(&vec![2]));
    assert_eq!(Some(vec![30]), store.get(&vec![3]));
}

#[test]
fn stored_value_keeps_its_parts() {
    let stored = StoredValue::new(Id::new(vec![1, 2]), vec![7, 8]);
    assert_eq!(&vec![7, 8], stored.value());
    assert_eq!(vec![7, 8], stored.clone_value());
    assert_eq!(&vec![1, 2], stored.key_id.bytes());
}
