use entity_cache::cache_control::CacheControl;
use entity_cache::entity::cache_lookup_entities;
use entity_cache::entity::cache_store_entities_from_response;
use entity_cache::entity::filter_representations;
use entity_cache::entity::insert_entities_in_result;
use entity_cache::entity::start_entities;
use entity_cache::entity::EntitiesField;
use entity_cache::entity::EntityLookup;
use entity_cache::entity::EntityStart;
use entity_cache::entity::IntermediateResult;
use entity_cache::entity::ResponseError;
use entity_cache::entity::StoreWrite;
use entity_cache::entry::CacheEntry;
use entity_cache::entry::GraphError;
use entity_cache::entry::PathElement;
use entity_cache::keys::RequestError;
use entity_cache::metrics::CacheHitMiss;
use entity_cache::metrics::CacheSubgraph;
use entity_cache::metrics::TypeCount;
use entity_cache::request::CacheRequest;
use entity_cache::request::Representation;
use entity_cache::request::RepresentationsVariable;
use entity_cache::request::Typename;

fn fresh(max_age: u64, age: u64) -> CacheControl {
    CacheControl { max_age: Some(max_age), age, ..CacheControl::default() }
}

fn entry(control: CacheControl, data: &str) -> CacheEntry {
    CacheEntry { control, data: data.as_bytes().to_vec() }
}

fn product(id: &str) -> Representation {
    Representation {
        typename: Typename::Text("Product".to_string()),
        identity: format!("{{\"id\":\"{id}\"}}").into_bytes(),
        body: format!("{{\"__typename\":\"Product\",\"id\":\"{id}\"}}").into_bytes(),
    }
}

fn product_count(hit: usize, miss: usize) -> TypeCount {
    TypeCount { typename: "Product".to_string(), counts: CacheHitMiss { hit, miss } }
}

fn names(n: usize) -> Vec<String> {
    (0..n).map(|i| format!("k{i}")).collect()
}

fn hit(key: &str, data: &str) -> IntermediateResult {
    IntermediateResult {
        key: key.to_string(),
        typename: "Product".to_string(),
        cache_entry: Some(entry(fresh(60, 0), data)),
    }
}

fn miss(key: &str) -> IntermediateResult {
    IntermediateResult { key: key.to_string(), typename: "Product".to_string(), cache_entry: None }
}

fn payloads(items: &[&str]) -> Vec<Vec<u8>> {
    items.iter().map(|s| s.as_bytes().to_vec()).collect()
}

fn entity_error(position: usize, body: &str) -> GraphError {
    GraphError {
        path: Some(vec![
            PathElement::Key("_entities".to_string()),
            PathElement::Index(position),
            PathElement::Key("name".to_string()),
        ]),
        body: body.as_bytes().to_vec(),
    }
}

fn entity_request() -> CacheRequest {
    CacheRequest {
        subgraph_name: "inventory".to_string(),
        query_hash: vec![9],
        operation_name: None,
        variables: b"{}".to_vec(),
        authorization: b"{}".to_vec(),
        extra_keys: Vec::new(),
    }
}

#[test]
fn filter_splits_hits_and_misses_in_order() {
    let representations = vec![product("1"), product("2"), product("3")];
    let found = vec![Some(entry(fresh(60, 10), "one")), None, Some(entry(fresh(30, 0), "three"))];
    let filtered = filter_representations(representations, names(3), found).unwrap();
    assert_eq!(filtered.new_representations, vec![product("2")]);
    assert_eq!(filtered.result.len(), 3);
    assert_eq!(filtered.result[0].key, "k0");
    assert_eq!(filtered.result[0].typename, "Product");
    assert_eq!(filtered.result[0].cache_entry, Some(entry(fresh(60, 10), "one")));
    assert_eq!(filtered.result[1], miss("k1"));
    assert_eq!(filtered.result[2].cache_entry, Some(entry(fresh(30, 0), "three")));
    assert_eq!(filtered.cache_control, Some(fresh(60, 10).merge(&fresh(30, 0))));
    assert_eq!(filtered.metrics, CacheSubgraph(vec![product_count(2, 1)]));
}

#[test]
fn filter_discards_stale_entries() {
    let representations = vec![product("1"), product("2")];
    let found = vec![Some(entry(fresh(60, 60), "old")), Some(entry(fresh(60, 59), "new"))];
    let filtered = filter_representations(representations, names(2), found).unwrap();
    assert_eq!(filtered.new_representations, vec![product("1")]);
    assert_eq!(filtered.result[0].cache_entry, None);
    assert_eq!(filtered.result[1].cache_entry, Some(entry(fresh(60, 59), "new")));
    assert_eq!(filtered.cache_control, Some(fresh(60, 59)));
}

#[test]
fn filter_without_hits_has_no_merged_control() {
    let filtered =
        filter_representations(vec![product("1")], names(1), vec![None]).unwrap();
    assert_eq!(filtered.cache_control, None);
    assert_eq!(filtered.new_representations, vec![product("1")]);
}

#[test]
fn filter_treats_an_answer_of_wrong_length_as_all_misses() {
    let representations = vec![product("1"), product("2")];
    let found = vec![Some(entry(fresh(60, 0), "one"))];
    let filtered = filter_representations(representations, names(2), found).unwrap();
    assert_eq!(filtered.new_representations, vec![product("1"), product("2")]);
    assert_eq!(filtered.result, vec![miss("k0"), miss("k1")]);
    assert_eq!(filtered.cache_control, None);
}

#[test]
fn filter_names_untyped_text_with_a_dash() {
    let mut odd = product("1");
    odd.typename = Typename::NotText;
    let filtered = filter_representations(vec![odd], names(1), vec![None]).unwrap();
    assert_eq!(filtered.result[0].typename, "-");
}

#[test]
fn filter_rejects_a_representation_without_typename() {
    let mut bad = product("2");
    bad.typename = Typename::Missing;
    assert_eq!(
        filter_representations(vec![product("1"), bad.clone()], names(2), vec![None, None]),
        Err(RequestError::MissingTypename)
    );
    assert_eq!(
        filter_representations(vec![bad], names(1), Vec::new()),
        Err(RequestError::MissingTypename)
    );
}

#[test]
fn merge_keeps_the_order_of_the_request() {
    let result = vec![miss("k0"), hit("k1", "cached-1"), miss("k2"), hit("k3", "cached-3")];
    let merged = insert_entities_in_result(
        payloads(&["up-0", "up-2"]),
        &Vec::new(),
        Some(100),
        fresh(60, 0),
        result,
        &None,
        true,
    )
    .unwrap();
    assert_eq!(merged.new_entities, payloads(&["up-0", "cached-1", "up-2", "cached-3"]));
    assert_eq!(merged.new_errors, Vec::new());
    assert_eq!(
        merged.to_insert,
        vec![
            StoreWrite { key: "k0".to_string(), entry: entry(fresh(60, 0), "up-0") },
            StoreWrite { key: "k2".to_string(), entry: entry(fresh(60, 0), "up-2") },
        ]
    );
    assert_eq!(merged.ttl, Some(60));
}

#[test]
fn merge_ttl_is_the_smaller_of_freshness_and_subgraph_ttl() {
    let run = |control: CacheControl, subgraph_ttl: Option<u64>| {
        insert_entities_in_result(Vec::new(), &Vec::new(), subgraph_ttl, control, Vec::new(), &None, true)
            .unwrap()
            .ttl
    };
    assert_eq!(run(fresh(60, 0), Some(100)), Some(60));
    assert_eq!(run(fresh(60, 0), Some(10)), Some(10));
    assert_eq!(run(fresh(60, 45), Some(30)), Some(15));
    assert_eq!(run(fresh(60, 0), None), Some(60));
    assert_eq!(run(CacheControl::default(), Some(10)), Some(10));
    assert_eq!(run(CacheControl::default(), None), None);
}

#[test]
fn merge_fails_when_the_subgraph_sent_too_few_entities() {
    let result = vec![miss("k0"), hit("k1", "cached"), miss("k2")];
    assert_eq!(
        insert_entities_in_result(
            payloads(&["only-one"]),
            &Vec::new(),
            None,
            fresh(60, 0),
            result,
            &None,
            true
        ),
        Err(ResponseError::InvalidNumberOfEntities)
    );
}

#[test]
fn merge_ignores_surplus_entities() {
    let merged = insert_entities_in_result(
        payloads(&["a", "b", "c"]),
        &Vec::new(),
        None,
        fresh(60, 0),
        vec![miss("k0")],
        &None,
        true,
    )
    .unwrap();
    assert_eq!(merged.new_entities, payloads(&["a"]));
    assert_eq!(merged.to_insert.len(), 1);
}

#[test]
fn errors_move_to_the_merged_position_and_block_the_write() {
    let result = vec![hit("k0", "cached-0"), miss("k1"), hit("k2", "cached-2"), miss("k3")];
    let errors = vec![
        entity_error(1, "second failed"),
        GraphError { path: None, body: b"no path".to_vec() },
        GraphError { path: Some(vec![PathElement::Key("other".to_string())]), body: b"x".to_vec() },
        entity_error(7, "nobody"),
        entity_error(1, "second failed again"),
    ];
    let merged = insert_entities_in_result(
        payloads(&["up-1", "up-3"]),
        &errors,
        None,
        fresh(60, 0),
        result,
        &None,
        true,
    )
    .unwrap();
    assert_eq!(merged.new_entities, payloads(&["cached-0", "up-1", "cached-2", "up-3"]));
    assert_eq!(
        merged.new_errors,
        vec![entity_error(3, "second failed"), entity_error(3, "second failed again")]
    );
    assert_eq!(
        merged.to_insert,
        vec![StoreWrite { key: "k1".to_string(), entry: entry(fresh(60, 0), "up-1") }]
    );
}

#[test]
fn error_paths_must_start_with_entities_and_an_index() {
    let errors = vec![
        GraphError {
            path: Some(vec![PathElement::Key("_entities".to_string())]),
            body: b"short".to_vec(),
        },
        GraphError {
            path: Some(vec![PathElement::Other("_entities".to_string()), PathElement::Index(0)]),
            body: b"other".to_vec(),
        },
        GraphError {
            path: Some(vec![PathElement::Key("_entities".to_string()), PathElement::Key("0".to_string())]),
            body: b"key".to_vec(),
        },
    ];
    let merged = insert_entities_in_result(
        payloads(&["up"]),
        &errors,
        None,
        fresh(60, 0),
        vec![miss("k0")],
        &None,
        true,
    )
    .unwrap();
    assert_eq!(merged.new_errors, Vec::new());
    assert_eq!(merged.to_insert.len(), 1);
}

#[test]
fn no_store_writes_nothing() {
    let merged = insert_entities_in_result(
        payloads(&["a", "b"]),
        &Vec::new(),
        Some(60),
        CacheControl::no_store(),
        vec![miss("k0"), miss("k1")],
        &None,
        true,
    )
    .unwrap();
    assert_eq!(merged.new_entities, payloads(&["a", "b"]));
    assert_eq!(merged.to_insert, Vec::new());
}

#[test]
fn private_without_scope_writes_nothing() {
    let private = CacheControl { private: true, ..fresh(60, 0) };
    let stored = cache_store_entities_from_response(
        Some(60),
        EntitiesField::List(payloads(&["a"])),
        &Vec::new(),
        private,
        vec![miss("k0")],
        false,
        &None,
    )
    .unwrap()
    .unwrap();
    assert_eq!(stored.new_entities, payloads(&["a"]));
    assert_eq!(stored.to_insert, Vec::new());
}

#[test]
fn newly_private_response_is_stored_under_the_scope() {
    let private = CacheControl { private: true, ..fresh(60, 0) };
    let scope = Some("abc".to_string());
    let stored = cache_store_entities_from_response(
        Some(600),
        EntitiesField::List(payloads(&["a"])),
        &Vec::new(),
        private,
        vec![miss("k0")],
        false,
        &scope,
    )
    .unwrap()
    .unwrap();
    assert_eq!(
        stored.to_insert,
        vec![StoreWrite { key: "k0:abc".to_string(), entry: entry(private, "a") }]
    );
    assert_eq!(stored.ttl, Some(60));
}

#[test]
fn known_private_response_keeps_its_keys() {
    let private = CacheControl { private: true, ..fresh(60, 0) };
    let scope = Some("abc".to_string());
    let stored = cache_store_entities_from_response(
        None,
        EntitiesField::List(payloads(&["a"])),
        &Vec::new(),
        private,
        vec![miss("k0:abc")],
        true,
        &scope,
    )
    .unwrap()
    .unwrap();
    assert_eq!(stored.to_insert[0].key, "k0:abc");
}

#[test]
fn public_response_ignores_the_scope() {
    let scope = Some("abc".to_string());
    let stored = cache_store_entities_from_response(
        None,
        EntitiesField::List(payloads(&["a"])),
        &Vec::new(),
        fresh(60, 0),
        vec![miss("k0")],
        false,
        &scope,
    )
    .unwrap()
    .unwrap();
    assert_eq!(stored.to_insert[0].key, "k0");
}

#[test]
fn answer_without_entities_is_left_alone() {
    assert_eq!(
        cache_store_entities_from_response(
            None,
            EntitiesField::Absent,
            &Vec::new(),
            fresh(60, 0),
            vec![miss("k0")],
            false,
            &None
        ),
        Ok(None)
    );
}

#[test]
fn entities_that_are_no_list_are_malformed() {
    assert_eq!(
        cache_store_entities_from_response(
            None,
            EntitiesField::NotAList,
            &Vec::new(),
            fresh(60, 0),
            vec![miss("k0")],
            false,
            &None
        ),
        Err(ResponseError::ExpectedArrayOfEntities)
    );
}

#[test]
fn too_few_entities_from_the_subgraph_are_malformed() {
    assert_eq!(
        cache_store_entities_from_response(
            None,
            EntitiesField::List(Vec::new()),
            &Vec::new(),
            fresh(60, 0),
            vec![miss("k0")],
            false,
            &None
        ),
        Err(ResponseError::InvalidNumberOfEntities)
    );
}

#[test]
fn full_hit_answers_without_the_subgraph() {
    let found = vec![
        Some(entry(CacheControl { private: true, ..fresh(60, 50) }, "one")),
        Some(entry(fresh(30, 0), "two")),
    ];
    let lookup =
        cache_lookup_entities(vec![product("1"), product("2")], names(2), found).unwrap();
    match lookup {
        EntityLookup::Hit { entities, control, metrics } => {
            assert_eq!(metrics, CacheSubgraph(vec![product_count(2, 0)]));
            assert_eq!(entities, payloads(&["one", "two"]));
            assert_eq!(control.ttl(), Some(10));
            assert!(control.private);
            assert_eq!(control.header_value(), b"max-age=10,private".to_vec());
        }
        EntityLookup::Miss { .. } => panic!("expected a hit"),
    }
}

#[test]
fn single_cached_representation_is_a_hit() {
    let found = vec![Some(entry(fresh(60, 0), "one"))];
    let lookup = cache_lookup_entities(vec![product("1")], names(1), found).unwrap();
    assert_eq!(
        lookup,
        EntityLookup::Hit {
            entities: payloads(&["one"]),
            control: fresh(60, 0),
            metrics: CacheSubgraph(vec![product_count(1, 0)]),
        }
    );
}

#[test]
fn partial_hit_forwards_the_residual() {
    let found = vec![Some(entry(fresh(60, 0), "one")), None];
    let lookup =
        cache_lookup_entities(vec![product("1"), product("2")], names(2), found).unwrap();
    match lookup {
        EntityLookup::Miss { new_representations, result, cache_control, metrics } => {
            assert_eq!(metrics, CacheSubgraph(vec![product_count(1, 1)]));
            assert_eq!(new_representations, vec![product("2")]);
            assert_eq!(result.len(), 2);
            assert_eq!(cache_control, Some(fresh(60, 0)));
        }
        EntityLookup::Hit { .. } => panic!("expected a miss"),
    }
}

#[test]
fn lookup_of_nothing_answers_with_no_store() {
    let lookup = cache_lookup_entities(Vec::new(), Vec::new(), Vec::new()).unwrap();
    assert_eq!(
        lookup,
        EntityLookup::Hit {
            entities: Vec::new(),
            control: CacheControl::no_store(),
            metrics: CacheSubgraph(Vec::new()),
        }
    );
}

#[test]
fn empty_representations_answer_at_once() {
    let expected =
        EntityStart::Respond { entities: Vec::new(), control: CacheControl::no_store() };
    assert_eq!(
        start_entities(&entity_request(), RepresentationsVariable::List(Vec::new()), false, &None),
        Ok(EntityStart::Respond { entities: Vec::new(), control: CacheControl::no_store() })
    );
    assert_eq!(
        start_entities(&entity_request(), RepresentationsVariable::Absent, false, &None),
        Ok(expected)
    );
}

#[test]
fn representations_that_are_no_list_are_malformed() {
    assert_eq!(
        start_entities(&entity_request(), RepresentationsVariable::NotAList, false, &None),
        Err(RequestError::RepresentationsNotAList)
    );
}

#[test]
fn start_derives_one_key_for_each_representation() {
    let start = start_entities(
        &entity_request(),
        RepresentationsVariable::List(vec![product("1"), product("2")]),
        false,
        &None,
    )
    .unwrap();
    match start {
        EntityStart::Lookup { representations, keys } => {
            assert_eq!(representations, vec![product("1"), product("2")]);
            assert_eq!(keys.len(), 2);
            assert!(keys[0].starts_with("subgraph:inventory:Product:"));
            assert_ne!(keys[0], keys[1]);
        }
        EntityStart::Respond { .. } => panic!("expected a lookup"),
    }
}

#[test]
fn start_rejects_a_representation_without_typename() {
    let mut bad = product("1");
    bad.typename = Typename::Missing;
    assert_eq!(
        start_entities(&entity_request(), RepresentationsVariable::List(vec![bad]), false, &None),
        Err(RequestError::MissingTypename)
    );
}
