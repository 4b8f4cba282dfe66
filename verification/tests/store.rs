use entity_cache::cache_control::CacheControl;
use entity_cache::entity::StoreWrite;
use entity_cache::entry::CacheEntry;
use entity_cache::invalidation::InvalidationOrigin;
use entity_cache::invalidation::InvalidationRequest;
use entity_cache::registry::PrivateQueries;
use entity_cache::store::MemoryStore;

fn stored(max_age: u64, data: &str) -> CacheEntry {
    CacheEntry {
        control: CacheControl { max_age: Some(max_age), ..CacheControl::default() },
        data: data.as_bytes().to_vec(),
    }
}

fn target(
    subgraph: &str,
    typename: Option<&str>,
    entity: Option<&str>,
    query_hash: Option<&str>,
) -> InvalidationRequest {
    InvalidationRequest {
        subgraph: subgraph.to_string(),
        typename: typename.map(|s| s.to_string()),
        entity: entity.map(|s| s.as_bytes().to_vec()),
        query_hash: query_hash.map(|s| s.to_string()),
        origin: InvalidationOrigin::Endpoint,
    }
}

const E1: &str = "5811967f540d300d249ab30ae681359a7815fdb5d3dc71a94be1d491006a6b27";

#[test]
fn store_then_immediate_get_returns_the_entry() {
    let mut store = MemoryStore::new();
    store.insert("k".to_string(), stored(60, "payload"), Some(30), 1000);
    assert_eq!(store.get("k", 1000), Some(stored(60, "payload")));
    assert_eq!(store.get("other", 1000), None);
    assert_eq!(store.len(), 1);
}

#[test]
fn get_ages_the_directives_by_the_seconds_gone() {
    let mut store = MemoryStore::new();
    store.insert("k".to_string(), stored(60, "payload"), Some(30), 1000);
    let later = store.get("k", 1012).unwrap();
    assert_eq!(later.data, b"payload".to_vec());
    assert_eq!(later.control, stored(60, "payload").control.aged(12));
    assert_eq!(later.control.ttl(), Some(48));
}

#[test]
fn entries_are_gone_when_their_ttl_is_over() {
    let mut store = MemoryStore::new();
    store.insert("k".to_string(), stored(60, "payload"), Some(30), 1000);
    assert!(store.get("k", 1029).is_some());
    assert_eq!(store.get("k", 1030), None);
    assert_eq!(store.get("k", 5000), None);
    store.insert("zero".to_string(), stored(60, "payload"), Some(0), 1000);
    assert_eq!(store.get("zero", 1000), None);
}

#[test]
fn entries_without_ttl_stay() {
    let mut store = MemoryStore::new();
    store.insert("k".to_string(), stored(60, "payload"), None, 1000);
    assert!(store.get("k", u64::MAX).is_some());
}

#[test]
fn reading_before_the_write_time_counts_no_age() {
    let mut store = MemoryStore::new();
    store.insert("k".to_string(), stored(60, "payload"), Some(5), 1000);
    assert_eq!(store.get("k", 10), Some(stored(60, "payload")));
}

#[test]
fn insert_replaces_what_was_there() {
    let mut store = MemoryStore::new();
    store.insert("k".to_string(), stored(60, "first"), Some(30), 1000);
    store.insert("k".to_string(), stored(10, "second"), Some(30), 1001);
    assert_eq!(store.len(), 1);
    assert_eq!(store.get("k", 1001), Some(stored(10, "second")));
}

#[test]
fn get_multiple_is_positional() {
    let mut store = MemoryStore::new();
    store.insert("a".to_string(), stored(60, "A"), None, 0);
    store.insert("c".to_string(), stored(60, "C"), Some(5), 0);
    let keys = vec!["c".to_string(), "b".to_string(), "a".to_string(), "c".to_string()];
    assert_eq!(
        store.get_multiple(&keys, 0),
        vec![Some(stored(60, "C")), None, Some(stored(60, "A")), Some(stored(60, "C"))]
    );
    assert_eq!(store.get_multiple(&keys, 5)[0], None);
    assert_eq!(store.get_multiple(&Vec::new(), 0), Vec::new());
}

#[test]
fn insert_multiple_writes_in_order() {
    let mut store = MemoryStore::new();
    store.insert_multiple(
        vec![
            StoreWrite { key: "a".to_string(), entry: stored(60, "1") },
            StoreWrite { key: "b".to_string(), entry: stored(60, "2") },
            StoreWrite { key: "a".to_string(), entry: stored(60, "3") },
        ],
        Some(10),
        7,
    );
    assert_eq!(store.len(), 2);
    assert_eq!(store.get("a", 7), Some(stored(60, "3")));
    assert_eq!(store.get("b", 7), Some(stored(60, "2")));
    assert_eq!(store.get("a", 17), None);
}

#[test]
fn delete_says_whether_there_was_an_entry() {
    let mut store = MemoryStore::new();
    store.insert("a".to_string(), stored(60, "1"), None, 0);
    assert!(store.delete("a"));
    assert!(!store.delete("a"));
    assert_eq!(store.get("a", 0), None);
    assert_eq!(store.len(), 0);
}

#[test]
fn scan_lists_keys_by_prefix() {
    let mut store = MemoryStore::new();
    for key in ["subgraph:a:Product:1", "subgraph:ab:Product:1", "subgraph:a:User:1", "x"] {
        store.insert(key.to_string(), stored(60, "1"), None, 0);
    }
    assert_eq!(
        store.scan_prefix("subgraph:a:"),
        vec!["subgraph:a:Product:1".to_string(), "subgraph:a:User:1".to_string()]
    );
    assert_eq!(store.scan_prefix("").len(), 4);
    assert_eq!(store.scan_prefix("subgraph:a:Product:1:more"), Vec::<String>::new());
}

#[test]
fn delete_prefix_counts_what_it_deletes() {
    let mut store = MemoryStore::new();
    for key in ["p:1", "p:2", "q:1", "p:3"] {
        store.insert(key.to_string(), stored(60, "1"), None, 0);
    }
    assert_eq!(store.delete_prefix("p:"), 3);
    assert_eq!(store.scan_prefix(""), vec!["q:1".to_string()]);
    assert_eq!(store.delete_prefix("p:"), 0);
}

#[test]
fn subgraph_target_has_one_prefix() {
    assert_eq!(
        target("inventory", None, None, None).key_prefixes(),
        vec!["subgraph:inventory:".to_string()]
    );
    assert_eq!(
        target("inventory", None, Some("{\"id\":\"1\"}"), Some("abc")).key_prefixes(),
        vec!["subgraph:inventory:".to_string()]
    );
}

#[test]
fn type_target_covers_entities_and_root_queries() {
    assert_eq!(
        target("inventory", Some("Product"), None, None).key_prefixes(),
        vec![
            "subgraph:inventory:Product:".to_string(),
            "subgraph:inventory:type:Product:".to_string()
        ]
    );
    assert_eq!(
        target("inventory", Some("Query"), None, Some("abc")).key_prefixes(),
        vec![
            "subgraph:inventory:Query:".to_string(),
            "subgraph:inventory:type:Query:hash:abc:".to_string()
        ]
    );
}

#[test]
fn entity_target_hashes_the_entity() {
    assert_eq!(
        target("inventory", Some("Product"), Some("{\"id\":\"1\"}"), None).key_prefixes(),
        vec![format!("subgraph:inventory:Product:{E1}:")]
    );
    assert_eq!(
        target("inventory", Some("Product"), Some("{\"id\":\"1\"}"), Some("abc")).key_prefixes(),
        vec![format!("subgraph:inventory:Product:{E1}:abc:")]
    );
}

#[test]
fn invalidation_by_type_deletes_matching_keys() {
    let mut store = MemoryStore::new();
    let keys = [
        "subgraph:inventory:Product:e1:q:d",
        "subgraph:inventory:Product:e2:q:d:user",
        "subgraph:inventory:type:Product:hash:q:data:d",
        "subgraph:inventory:User:e1:q:d",
        "subgraph:inventory:ProductLine:e1:q:d",
        "subgraph:reviews:Product:e1:q:d",
    ];
    for key in keys {
        store.insert(key.to_string(), stored(60, "1"), None, 0);
    }
    let prefixes = target("inventory", Some("Product"), None, None).key_prefixes();
    assert_eq!(store.invalidate(&prefixes), 3);
    for key in &keys[..3] {
        assert_eq!(store.get(key, 0), None);
    }
    for key in &keys[3..] {
        assert!(store.get(key, 0).is_some());
    }
}

#[test]
fn invalidation_by_subgraph_deletes_the_subgraph() {
    let mut store = MemoryStore::new();
    for key in ["subgraph:a:Product:e1:q:d", "subgraph:a:type:Query:hash:q:data:d", "subgraph:b:P:e:q:d"] {
        store.insert(key.to_string(), stored(60, "1"), None, 0);
    }
    assert_eq!(store.invalidate(&target("a", None, None, None).key_prefixes()), 2);
    assert_eq!(store.scan_prefix(""), vec!["subgraph:b:P:e:q:d".to_string()]);
}

#[test]
fn registry_starts_empty_and_keeps_what_it_gets() {
    let mut registry = PrivateQueries::new();
    assert!(!registry.contains("query { me { name } }"));
    assert!(registry.insert("query { me { name } }".to_string()));
    assert!(registry.contains("query { me { name } }"));
    assert!(!registry.insert("query { me { name } }".to_string()));
    assert!(!registry.contains("query { me { id } }"));
    assert!(registry.insert("".to_string()));
    assert!(registry.contains(""));
}
