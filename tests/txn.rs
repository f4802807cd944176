use ents::edge_provider::EdgeValue;
use ents::entity::{AnyEnt, Ent, EntExt};
use ents::query_edge::{EdgeCursor, EdgeQuery, QueryEdge};
use ents::records::{Post, Tag, TestEntity, User, UserWithUniqueEmail};
use ents::store::{MemStore, Transactional};
use ents::{DatabaseError, Id};

fn test_entity(ent: Option<AnyEnt>) -> TestEntity {
    ent.expect("entity is stored").as_ent::<TestEntity>().expect("entity is a TestEntity")
}

#[test]
fn test_insert_and_get() {
    let store = MemStore::new();
    let mut txn = store.write_txn();

    let ent = TestEntity::new("test".to_string(), 42);
    let id = txn.create(ent).unwrap();

    let retrieved = txn.get(id).unwrap();
    assert!(retrieved.is_some());

    let retrieved_ent = retrieved.unwrap();
    assert_eq!(retrieved_ent.id(), id);
    assert!(retrieved_ent.is::<TestEntity>());
    assert_eq!(retrieved_ent.typetag_name(), "TestEntity");

    let mut store = store;
    txn.commit(&mut store).unwrap();
}

#[test]
fn test_get_nonexistent() {
    let store = MemStore::new();
    let txn = store.write_txn();

    let result = txn.get(999).unwrap();
    assert!(result.is_none());
}

#[test]
fn test_transaction_commit() {
    let mut store = MemStore::new();

    let id = {
        let mut txn = store.write_txn();
        let ent = TestEntity::new("committed".to_string(), 999);
        let id = txn.create(ent).unwrap();
        txn.commit(&mut store).unwrap();
        id
    };

    let txn = store.write_txn();
    let retrieved = txn.get(id).unwrap();
    assert!(retrieved.is_some());
}

#[test]
fn test_transaction_rollback() {
    let store = MemStore::new();

    let id = {
        let mut txn = store.write_txn();
        let ent = TestEntity::new("rolled_back".to_string(), 888);
        // Dropped without a commit.
        txn.create(ent).unwrap()
    };

    let txn = store.write_txn();
    let retrieved = txn.get(id).unwrap();
    assert!(retrieved.is_none());
}

#[test]
fn test_update_without_cas() {
    let store = MemStore::new();
    let mut txn = store.write_txn();

    let mut ent = TestEntity::new("original".to_string(), 100);
    let id = txn.create(ent.clone()).unwrap();
    ent.set_id(id);

    let success = txn
        .update(&mut ent, |e: &TestEntity| {
            let mut e = e.clone();
            e.name = "updated".to_string();
            e.value = 200;
            e
        })
        .unwrap();
    assert!(success);
    assert!(ent.last_updated > 0);

    let stored = test_entity(txn.get(id).unwrap());
    assert_eq!(stored.name, "updated");
    assert_eq!(stored.value, 200);
    assert_eq!(stored.last_updated, ent.last_updated);
}

#[test]
fn stale_snapshot_update_is_refused() {
    let store = MemStore::new();
    let mut txn = store.write_txn();
    let id = txn.create(TestEntity::new("e".to_string(), 1)).unwrap();

    let mut s1 = test_entity(txn.get(id).unwrap());
    let mut s2 = test_entity(txn.get(id).unwrap());
    assert_eq!(s1.last_updated, s2.last_updated);

    let first = txn
        .update(&mut s1, |e: &TestEntity| {
            let mut e = e.clone();
            e.value = 10;
            e
        })
        .unwrap();
    assert!(first);

    let second = txn
        .update(&mut s2, |e: &TestEntity| {
            let mut e = e.clone();
            e.value = 20;
            e
        })
        .unwrap();
    assert!(!second);

    let stored = test_entity(txn.get(id).unwrap());
    assert_eq!(stored.value, 10);
    assert_eq!(stored.last_updated, s1.last_updated);
}

#[test]
fn update_of_missing_entity_writes_nothing() {
    let store = MemStore::new();
    let mut txn = store.write_txn();
    let mut ghost = TestEntity::new("gone".to_string(), 1);
    ghost.set_id(42);
    let written = txn
        .update(&mut ghost, |e: &TestEntity| e.clone())
        .unwrap();
    assert!(!written);
    assert!(txn.get(42).unwrap().is_none());
}

#[test]
fn update_with_exhausted_version_fails() {
    let store = MemStore::new();
    let mut txn = store.write_txn();
    let mut ent = TestEntity::new("old".to_string(), 1);
    ent.last_updated = u64::MAX;
    let id = txn.create(ent.clone()).unwrap();
    ent.set_id(id);
    let r = txn.update(&mut ent, |e: &TestEntity| e.clone());
    assert!(matches!(r, Err(DatabaseError::Mutation(_))));
    let stored = test_entity(txn.get(id).unwrap());
    assert_eq!(stored.last_updated, u64::MAX);
}

fn create_post(txn: &mut ents::store::MemTxn) -> (Id, Id, Id, Id, Id) {
    let user_id = txn.create(User::new("johndoe".to_string(), "john@example.com".to_string())).unwrap();
    let tag1_id = txn.create(Tag::new("rust".to_string(), "#ff6b6b".to_string())).unwrap();
    let tag2_id = txn.create(Tag::new("programming".to_string(), "#4ecdc4".to_string())).unwrap();
    let post = Post::new(
        "Learning Rust".to_string(),
        "A guide".to_string(),
        user_id,
        vec![tag1_id, tag2_id],
    );
    let post_id = txn.create(post).unwrap();
    (user_id, tag1_id, tag2_id, post_id, 0)
}

#[test]
fn post_edges_follow_its_fields() {
    let store = MemStore::new();
    let mut txn = store.write_txn();
    let (user_id, tag1_id, tag2_id, post_id, _) = create_post(&mut txn);

    let author = txn.find_edges(post_id, EdgeQuery::asc(&[b"author"])).unwrap();
    assert_eq!(author.len(), 1);
    assert_eq!(author[0].dest, user_id);

    let tags = txn.find_edges(post_id, EdgeQuery::asc(&[b"tag"])).unwrap();
    let dests: Vec<Id> = tags.iter().map(|e| e.dest).collect();
    assert_eq!(dests, vec![tag1_id, tag2_id]);

    let post = txn.get(post_id).unwrap().unwrap().into_ent::<Post>().unwrap();
    assert_eq!(post.title, "Learning Rust");
    assert_eq!(post.author_id, user_id);
    assert_eq!(post.tag_ids, vec![tag1_id, tag2_id]);
    assert!(txn.get(user_id).unwrap().unwrap().as_ent::<Post>().is_none());
}

#[test]
fn update_moves_changed_edges() {
    let store = MemStore::new();
    let mut txn = store.write_txn();
    let (_user_id, tag1_id, _tag2_id, post_id, _) = create_post(&mut txn);
    let other = txn.create(User::new("jane".to_string(), "jane@example.com".to_string())).unwrap();

    let mut post = txn.get(post_id).unwrap().unwrap().into_ent::<Post>().unwrap();
    let written = txn
        .update(&mut post, |p: &Post| {
            let mut p = p.clone();
            p.author_id = other;
            p.tag_ids = vec![tag1_id];
            p
        })
        .unwrap();
    assert!(written);

    let edges = txn.find_edges(post_id, EdgeQuery::asc(&[])).unwrap();
    assert_eq!(edges.len(), 2);
    assert_eq!((edges[0].sort_key.as_slice(), edges[0].dest), (&b"author"[..], other));
    assert_eq!((edges[1].sort_key.as_slice(), edges[1].dest), (&b"tag"[..], tag1_id));
}

#[test]
fn update_without_edge_change_keeps_edges() {
    let store = MemStore::new();
    let mut txn = store.write_txn();
    let (_user_id, _t1, _t2, post_id, _) = create_post(&mut txn);
    // An extra edge from the post that no draft accounts for.
    txn.create_edge(EdgeValue::new(post_id, b"note".to_vec(), 77)).unwrap();
    let before = txn.find_edges(post_id, EdgeQuery::asc(&[])).unwrap();

    let mut post = txn.get(post_id).unwrap().unwrap().into_ent::<Post>().unwrap();
    let written = txn
        .update(&mut post, |p: &Post| {
            let mut p = p.clone();
            p.title = "Renamed".to_string();
            p
        })
        .unwrap();
    assert!(written);

    let after = txn.find_edges(post_id, EdgeQuery::asc(&[])).unwrap();
    assert_eq!(before, after);
    assert_eq!(after.len(), 4);
}

#[test]
fn delete_sweeps_incoming_edges() {
    let store = MemStore::new();
    let mut txn = store.write_txn();
    let a = txn.create(TestEntity::new("a".to_string(), 1)).unwrap();
    let b = txn.create(TestEntity::new("b".to_string(), 2)).unwrap();
    txn.create_edge(EdgeValue::new(b, b"ref".to_vec(), a)).unwrap();
    txn.create_edge(EdgeValue::new(a, b"ref".to_vec(), b)).unwrap();
    assert_eq!(txn.find_edges(b, EdgeQuery::asc(&[])).unwrap().len(), 1);

    txn.delete::<TestEntity>(a).unwrap();
    assert!(txn.get(a).unwrap().is_none());
    assert!(txn.find_edges(b, EdgeQuery::asc(&[])).unwrap().is_empty());
    // Edges whose source is the deleted entity stay.
    assert_eq!(txn.find_edges(a, EdgeQuery::asc(&[])).unwrap().len(), 1);
    // Deleting an id that is not there is no error.
    txn.delete::<TestEntity>(a).unwrap();
}

#[test]
fn duplicate_edge_is_stored_once() {
    let store = MemStore::new();
    let mut txn = store.write_txn();
    txn.create_edge(EdgeValue::new(1, b"x".to_vec(), 2)).unwrap();
    txn.create_edge(EdgeValue::new(1, b"x".to_vec(), 2)).unwrap();
    assert_eq!(txn.find_edges(1, EdgeQuery::asc(&[])).unwrap().len(), 1);
}

#[test]
fn unique_email_user_gets_marker_edge() {
    let store = MemStore::new();
    let mut txn = store.write_txn();
    let id = txn
        .create(UserWithUniqueEmail::new("u".to_string(), "u@example.com".to_string()))
        .unwrap();
    let marks = txn.find_edges(0, EdgeQuery::asc(&[b"unique_email"])).unwrap();
    assert_eq!(marks.len(), 1);
    assert_eq!(marks[0].dest, id);
}

#[test]
fn ids_are_fresh_and_nonzero() {
    let store = MemStore::new();
    let mut txn = store.write_txn();
    let a = txn.create(Tag::new("a".to_string(), "red".to_string())).unwrap();
    let b = txn.create(Tag::new("b".to_string(), "blue".to_string())).unwrap();
    assert_ne!(a, 0);
    assert_ne!(a, b);
    let tag = txn.get(b).unwrap().unwrap().into_ent::<Tag>().unwrap();
    assert_eq!((tag.name.as_str(), tag.color.as_str(), tag.id), ("b", "blue", b));
}

#[test]
fn pagination_over_one_hundred_fifty_edges() {
    let store = MemStore::new();
    let mut txn = store.write_txn();
    for i in 1..=150u64 {
        txn.create_edge(EdgeValue::new(1, b"item".to_vec(), i * 10)).unwrap();
    }
    let page1 = txn.find_edges(1, EdgeQuery::asc(&[])).unwrap();
    assert_eq!(page1.len(), 100);
    assert_eq!(page1[0].dest, 10);
    assert_eq!(page1[99].dest, 1000);

    let last = page1.last().unwrap();
    let page2 = txn
        .find_edges(1, EdgeQuery::asc(&[]).with_cursor(EdgeCursor::new(&last.sort_key, last.dest)))
        .unwrap();
    assert_eq!(page2.len(), 50);
    assert_eq!(page2[0].dest, 1010);
    assert_eq!(page2[49].dest, 1500);
}

#[test]
fn version_moves_past_the_version_read() {
    let store = MemStore::new();
    let mut txn = store.write_txn();
    let mut ent = TestEntity::new("v".to_string(), 1);
    ent.last_updated = u64::MAX - 1;
    let id = txn.create(ent.clone()).unwrap();
    let mut s1 = test_entity(txn.get(id).unwrap());
    let mut s2 = s1.clone();
    // The mutation lowers the version it hands back.
    let written = txn
        .update(&mut s1, |e: &TestEntity| {
            let mut e = e.clone();
            e.last_updated = 0;
            e
        })
        .unwrap();
    assert!(written);
    assert_eq!(s1.last_updated, u64::MAX);
    assert!(!txn.update(&mut s2, |e: &TestEntity| e.clone()).unwrap());
    let stored = test_entity(txn.get(id).unwrap());
    assert_eq!(stored.last_updated, u64::MAX);
}

#[test]
fn test_update_edge_change() {
    let store = MemStore::new();
    let mut txn = store.write_txn();
    let city1_id = txn.create(Tag::new("City1".to_string(), "100".to_string())).unwrap();
    let city2_id = txn.create(Tag::new("City2".to_string(), "200".to_string())).unwrap();
    let author = txn.create(User::new("Alice".to_string(), "30".to_string())).unwrap();
    let person_id = txn
        .create(Post::new("Alice".to_string(), String::new(), author, vec![city1_id]))
        .unwrap();
    let mut person = txn.get(person_id).unwrap().unwrap().into_ent::<Post>().unwrap();

    let edges = txn.find_edges(person_id, EdgeQuery::asc(&[b"tag"])).unwrap();
    assert_eq!(edges.len(), 1);
    assert_eq!(edges[0].dest, city1_id);

    let success = txn
        .update(&mut person, |p: &Post| {
            let mut p = p.clone();
            p.tag_ids = vec![city2_id];
            p
        })
        .unwrap();
    assert!(success);
    let edges = txn.find_edges(person_id, EdgeQuery::asc(&[b"tag"])).unwrap();
    assert_eq!(edges.len(), 1);
    assert_eq!(edges[0].dest, city2_id);

    // The same link again: the draft is unchanged.
    let success_no_change = txn
        .update(&mut person, |p: &Post| {
            let mut p = p.clone();
            p.tag_ids = vec![city2_id];
            p
        })
        .unwrap();
    assert!(success_no_change);
    let edges = txn.find_edges(person_id, EdgeQuery::asc(&[b"tag"])).unwrap();
    assert_eq!(edges.len(), 1);
    assert_eq!(edges[0].dest, city2_id);
}
