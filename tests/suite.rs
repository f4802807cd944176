use ents::entity::EntExt;
use ents::records::{TestEntity, UserWithUniqueEmail};
use ents::store::{MemStore, Transactional};

#[test]
fn suite_basic_read_update_delete() {
    let mut store = MemStore::new();
    let mut txn = store.write_txn();
    let id = txn.create(TestEntity::new("test_update".to_string(), 50)).unwrap();
    txn.commit(&mut store).unwrap();

    let mut txn = store.write_txn();
    let read = txn.get(id).unwrap().unwrap().as_ent::<TestEntity>().unwrap();
    assert_eq!((read.name.as_str(), read.value, read.id), ("test_update", 50, id));
    assert!(txn.get(999999).unwrap().is_none());
    let mut ent = *txn.get(id).unwrap().unwrap().downcast_ent::<TestEntity>().unwrap();
    let ok = txn
        .update(&mut ent, |e: &TestEntity| {
            let mut e = e.clone();
            e.value = 75;
            e.name = "updated_name".to_string();
            e
        })
        .unwrap();
    assert!(ok);
    txn.commit(&mut store).unwrap();

    let mut txn = store.write_txn();
    let read = txn.get(id).unwrap().unwrap().into_ent::<TestEntity>().unwrap();
    assert_eq!((read.name.as_str(), read.value), ("updated_name", 75));
    txn.delete::<TestEntity>(id).unwrap();
    txn.commit(&mut store).unwrap();

    let txn = store.write_txn();
    assert!(txn.get(id).unwrap().is_none());
}

#[test]
fn suite_multiple_entities() {
    let mut store = MemStore::new();
    let mut txn = store.write_txn();
    let mut ids = Vec::new();
    for i in 0..5 {
        ids.push(txn.create(TestEntity::new(format!("test_multi_{}", i), i * 10)).unwrap());
    }
    txn.commit(&mut store).unwrap();

    let txn = store.write_txn();
    for (i, &id) in ids.iter().enumerate() {
        let e = txn.get(id).unwrap().unwrap().as_ent::<TestEntity>().unwrap();
        assert_eq!(e.name, format!("test_multi_{}", i));
        assert_eq!(e.value, i as i32 * 10);
    }
}

#[test]
fn suite_unique_email_is_not_enforced() {
    let store = MemStore::new();
    let mut txn = store.write_txn();
    txn.create(UserWithUniqueEmail::new("user1".to_string(), "unique@example.com".to_string())).unwrap();
    assert!(txn
        .create(UserWithUniqueEmail::new("user2".to_string(), "unique@example.com".to_string()))
        .is_ok());
}

#[test]
fn suite_concurrent_stale_updates() {
    let mut store = MemStore::new();
    let mut txn = store.write_txn();
    let id = txn.create(TestEntity::new("concurrent_test".to_string(), 0)).unwrap();
    txn.commit(&mut store).unwrap();

    let snapshot = store.write_txn().get(id).unwrap().unwrap().into_ent::<TestEntity>().unwrap();
    let mut successes = 0;
    for i in 0..3 {
        let mut txn = store.write_txn();
        let mut stale = snapshot.clone();
        if txn
            .update(&mut stale, |e: &TestEntity| {
                let mut e = e.clone();
                e.value = 100 + i;
                e.name = format!("attempt_{}", i);
                e
            })
            .unwrap()
        {
            successes += 1;
        }
        txn.commit(&mut store).unwrap();
    }
    assert_eq!(successes, 1);
    let stored = store.write_txn().get(id).unwrap().unwrap().into_ent::<TestEntity>().unwrap();
    assert_eq!((stored.name.as_str(), stored.value), ("attempt_0", 100));
}
