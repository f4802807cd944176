use ents::codec::{edges_of_keys, keys_into, make_edge_key};
use ents::entity::{advance_version, next_version};
use ents::query_edge::{Edge, EdgeCursor, EdgeQuery};
use ents::records::{Post, TestEntity};
use ents::sql::find_edges_sql;
use ents::store::{cas_allows, setup_edges, MemStore, Transactional};
use ents::query_edge::QueryEdge;

#[test]
fn sql_without_names_or_cursor() {
    let sql = find_edges_sql(&EdgeQuery::asc(&[]));
    assert_eq!(
        sql,
        "SELECT source, type, dest FROM edges WHERE source = ? ORDER BY type ASC, dest ASC LIMIT 100"
    );
}

#[test]
fn sql_with_names_and_cursor() {
    let names: [&[u8]; 3] = [b"a", b"b", b"c"];
    let query = EdgeQuery::desc(&names).with_cursor(EdgeCursor::new(b"b", 4));
    assert_eq!(
        find_edges_sql(&query),
        "SELECT source, type, dest FROM edges WHERE source = ? AND type IN (?, ?, ?) \
         AND (type, dest) < (?, ?) ORDER BY type DESC, dest DESC LIMIT 100"
    );
    let one: [&[u8]; 1] = [b"a"];
    let query = EdgeQuery::asc(&one).with_cursor_opt(Some(EdgeCursor::new(b"a", 1)));
    assert_eq!(
        find_edges_sql(&query),
        "SELECT source, type, dest FROM edges WHERE source = ? AND type IN (?) \
         AND (type, dest) > (?, ?) ORDER BY type ASC, dest ASC LIMIT 100"
    );
}

#[test]
fn keys_decode_to_edges() {
    let keys = vec![make_edge_key(3, b"k", 9), make_edge_key(4, b"", 1)];
    let edges = edges_of_keys(&keys);
    assert_eq!(edges, vec![Edge::new(3, b"k".to_vec(), 9), Edge::new(4, vec![], 1)]);
}

#[test]
fn keys_into_picks_destination() {
    let keys = vec![make_edge_key(1, b"r", 7), make_edge_key(2, b"r", 8), make_edge_key(3, b"s", 7)];
    let hit = keys_into(&keys, 7);
    assert_eq!(hit, vec![keys[0].clone(), keys[2].clone()]);
    assert!(keys_into(&keys, 99).is_empty());
}

#[test]
fn cas_decisions() {
    assert!(cas_allows(None, None));
    assert!(cas_allows(Some(5), None));
    assert!(cas_allows(Some(5), Some(5)));
    assert!(!cas_allows(Some(6), Some(5)));
    assert!(!cas_allows(None, Some(5)));
}

#[test]
fn version_advances() {
    assert_eq!(advance_version(10, 20), Some(20));
    assert_eq!(advance_version(10, 10), Some(11));
    assert_eq!(advance_version(10, 3), Some(11));
    assert_eq!(advance_version(u64::MAX, 3), None);
    assert!(next_version(0).unwrap() > 0);
    assert!(next_version(u64::MAX).is_err());
}

#[test]
fn setup_edges_writes_draft() {
    let store = MemStore::new();
    let mut txn = store.write_txn();
    let mut post = Post::new("t".to_string(), "c".to_string(), 11, vec![12, 13]);
    post.id = 10;
    setup_edges(&post, &mut txn).unwrap();
    let edges = txn.find_edges(10, EdgeQuery::asc(&[])).unwrap();
    let got: Vec<(Vec<u8>, u64)> = edges.into_iter().map(|e| (e.sort_key, e.dest)).collect();
    assert_eq!(got, vec![(b"author".to_vec(), 11), (b"tag".to_vec(), 12), (b"tag".to_vec(), 13)]);

    let plain = TestEntity::new("x".to_string(), 1);
    setup_edges(&plain, &mut txn).unwrap();
    assert!(txn.find_edges(0, EdgeQuery::asc(&[])).unwrap().is_empty());
    assert!(txn.get(10).unwrap().is_none());
}
