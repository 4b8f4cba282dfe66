use entity_cache::headers::HeaderList;
use entity_cache::keys::extract_cache_key_root;
use entity_cache::keys::extract_cache_keys;
use entity_cache::keys::get_private_id;
use entity_cache::keys::hash_additional_data;
use entity_cache::keys::hash_query;
use entity_cache::keys::hash_vary_headers;
use entity_cache::keys::RequestError;
use entity_cache::request::CacheRequest;
use entity_cache::request::ExtraKey;
use entity_cache::request::Representation;
use entity_cache::request::Typename;

const Q1: &str = "6e915b47add5f2bd5c98c6fefb72db0e2a759cdb6f1fb1aa9c34a60125149204";
const Q2: &str = "55cd676b88a2b26f680edb86c8924583669e5fa793e975ecce8a41698930753d";
const D1: &str = "d4aa5baba888d46b85338a8d517e8ac722ef5679272a9990bdceeed5f612dce4";
const D2: &str = "2eba6362f8b13db77f64f92e14e9948c5ddb578bc65dd8a987d7134cf07e9a1c";
const D3: &str = "a445cc240291e0dba40f84037ddaedfa8a603e92bfd2c41c1f801d61c02b08e3";
const E1: &str = "5811967f540d300d249ab30ae681359a7815fdb5d3dc71a94be1d491006a6b27";
const E2: &str = "6aae64de37c7801ed7b8c69c256772203d4071ab685ba8e1ef9ff9e8f3975804";
const ABC: &str = "ba7816bf8f01cfea414140de5dae2223b00361a396177a9cb410ff61f20015ad";

fn keys_request(operation_name: Option<&str>, extra: &[(&str, &str)]) -> CacheRequest {
    CacheRequest {
        subgraph_name: "inventory".to_string(),
        query_hash: vec![1, 2, 3],
        operation_name: operation_name.map(|s| s.to_string()),
        variables: b"{\"first\":10}".to_vec(),
        authorization: b"{\"is_authenticated\":true}".to_vec(),
        extra_keys: extra
            .iter()
            .map(|(n, v)| ExtraKey { name: n.to_string(), value: v.as_bytes().to_vec() })
            .collect(),
    }
}

fn keys_representation(typename: Typename, identity: &str) -> Representation {
    Representation {
        typename,
        identity: identity.as_bytes().to_vec(),
        body: b"{}".to_vec(),
    }
}

#[test]
fn hash_query_covers_hash_and_operation_name() {
    assert_eq!(hash_query(&[1, 2, 3], &Some("GetProduct".to_string())), Q1);
    assert_eq!(hash_query(&[1, 2, 3], &None), Q2);
    assert_eq!(hash_query(&[1, 2, 3], &Some("-".to_string())), Q2);
}

#[test]
fn hash_additional_data_covers_variables_and_authorization() {
    assert_eq!(hash_additional_data(&keys_request(Some("GetProduct"), &[])), D1);
    assert_eq!(hash_additional_data(&keys_request(None, &[])), D1);
}

#[test]
fn hash_additional_data_covers_extra_keys() {
    let extra = [("other", "\"x\""), ("all", "\"tenant-a\""), ("GetProduct", "\"extra-op\"")];
    assert_eq!(hash_additional_data(&keys_request(Some("GetProduct"), &extra)), D2);
    assert_eq!(hash_additional_data(&keys_request(Some("Unlisted"), &extra)), D3);
    assert_eq!(hash_additional_data(&keys_request(None, &extra)), D3);
}

#[test]
fn hash_additional_data_takes_first_extra_key_of_a_name() {
    let extra = [("all", "\"tenant-a\""), ("all", "\"tenant-b\"")];
    assert_eq!(hash_additional_data(&keys_request(None, &extra)), D3);
}

#[test]
fn private_id_is_the_fingerprint_of_the_user() {
    assert_eq!(get_private_id(Some("abc")), Some(ABC.to_string()));
    assert_eq!(get_private_id(None), None);
}

#[test]
fn root_key_has_the_documented_shape() {
    let request = keys_request(Some("GetProduct"), &[]);
    assert_eq!(
        extract_cache_key_root(&request, None, false, &None),
        format!("subgraph:inventory:type:Query:hash:{Q1}:data:{D1}")
    );
    assert_eq!(
        extract_cache_key_root(&request, Some("RootQuery"), false, &None),
        format!("subgraph:inventory:type:RootQuery:hash:{Q1}:data:{D1}")
    );
}

#[test]
fn root_key_gets_private_suffix_only_when_known_private_with_scope() {
    let request = keys_request(Some("GetProduct"), &[]);
    let scope = Some(ABC.to_string());
    let plain = format!("subgraph:inventory:type:Query:hash:{Q1}:data:{D1}");
    assert_eq!(extract_cache_key_root(&request, None, true, &scope), format!("{plain}:{ABC}"));
    assert_eq!(extract_cache_key_root(&request, None, false, &scope), plain);
    assert_eq!(extract_cache_key_root(&request, None, true, &None), plain);
}

#[test]
fn entity_keys_have_the_documented_shape() {
    let request = keys_request(Some("GetProduct"), &[]);
    let representations = vec![
        keys_representation(Typename::Text("Product".to_string()), "{\"id\":\"1\"}"),
        keys_representation(Typename::NotText, "{\"id\":\"2\"}"),
    ];
    let keys = extract_cache_keys(&request, &representations, false, &None).unwrap();
    assert_eq!(
        keys,
        vec![
            format!("subgraph:inventory:Product:{E1}:{Q1}:{D1}"),
            format!("subgraph:inventory:-:{E2}:{Q1}:{D1}"),
        ]
    );
}

#[test]
fn entity_keys_get_private_suffix() {
    let request = keys_request(None, &[]);
    let representations =
        vec![keys_representation(Typename::Text("User".to_string()), "{\"id\":\"1\"}")];
    let scope = Some(ABC.to_string());
    assert_eq!(
        extract_cache_keys(&request, &representations, true, &scope).unwrap(),
        vec![format!("subgraph:inventory:User:{E1}:{Q2}:{D1}:{ABC}")]
    );
    assert_eq!(
        extract_cache_keys(&request, &representations, false, &scope).unwrap(),
        vec![format!("subgraph:inventory:User:{E1}:{Q2}:{D1}")]
    );
}

#[test]
fn entity_keys_of_no_representation_are_none() {
    let request = keys_request(None, &[]);
    assert_eq!(extract_cache_keys(&request, &Vec::new(), false, &None), Ok(Vec::new()));
}

#[test]
fn missing_typename_is_a_malformed_request() {
    let request = keys_request(None, &[]);
    let representations = vec![
        keys_representation(Typename::Text("Product".to_string()), "{\"id\":\"1\"}"),
        keys_representation(Typename::Missing, "{\"id\":\"2\"}"),
    ];
    assert_eq!(
        extract_cache_keys(&request, &representations, false, &None),
        Err(RequestError::MissingTypename)
    );
}

#[test]
fn equal_requests_give_equal_keys() {
    let a = keys_request(Some("GetProduct"), &[("all", "1")]);
    let b = keys_request(Some("GetProduct"), &[("all", "1")]);
    let ra = vec![keys_representation(Typename::Text("Product".to_string()), "{\"id\":\"1\"}")];
    let rb = vec![keys_representation(Typename::Text("Product".to_string()), "{\"id\":\"1\"}")];
    let scope = Some("s".to_string());
    assert_eq!(
        extract_cache_key_root(&a, None, true, &scope),
        extract_cache_key_root(&b, None, true, &scope)
    );
    assert_eq!(
        extract_cache_keys(&a, &ra, true, &scope),
        extract_cache_keys(&b, &rb, true, &scope)
    );
}

#[test]
fn keys_differ_with_the_fingerprint() {
    let a = keys_request(Some("GetProduct"), &[]);
    let mut b = keys_request(Some("GetProduct"), &[]);
    b.variables = b"{\"first\":11}".to_vec();
    assert_ne!(
        extract_cache_key_root(&a, None, false, &None),
        extract_cache_key_root(&b, None, false, &None)
    );
    let mut c = keys_request(Some("GetProduct"), &[]);
    c.subgraph_name = "reviews".to_string();
    assert_ne!(
        extract_cache_key_root(&a, None, false, &None),
        extract_cache_key_root(&c, None, false, &None)
    );
}

fn vary_headers(pairs: &[(&str, &[u8])]) -> HeaderList {
    let mut headers = HeaderList::new();
    for (name, value) in pairs {
        headers.append(name.to_string(), value.to_vec());
    }
    headers
}

#[test]
fn vary_star_gives_star() {
    let headers = vary_headers(&[("vary", b"accept-encoding"), ("Vary", b"*")]);
    assert_eq!(hash_vary_headers(&headers), "*");
}

#[test]
fn vary_hashes_the_named_headers() {
    let headers = vary_headers(&[
        ("accept-encoding", b"gzip"),
        ("vary", b"Accept-Encoding, accept-language"),
        ("accept-language", b"en"),
        ("accept-language", b"fr"),
    ]);
    assert_eq!(
        hash_vary_headers(&headers),
        "e29a9a301c08204e8f2a4cb24171c3e4f7554c93ca971cf283bc8c857f44314e"
    );
}

#[test]
fn vary_skips_what_is_not_there_or_not_text() {
    let headers = vary_headers(&[
        ("accept-encoding", b"gzip"),
        ("vary", b"accept-encoding, missing, binary"),
        ("binary", &[0xff, 0xfe]),
        ("vary", &[0xff]),
    ]);
    assert_eq!(
        hash_vary_headers(&headers),
        "e5ba61a90a782cf67b820418458a547521954757f2bbcea4d49ef72f14038b09"
    );
}

#[test]
fn vary_separator_is_comma_and_space() {
    let headers = vary_headers(&[
        ("accept-encoding", b"gzip"),
        ("accept-language", b"en"),
        ("vary", b"accept-encoding,accept-language"),
    ]);
    assert_eq!(
        hash_vary_headers(&headers),
        "e3b0c44298fc1c149afbf4c8996fb92427ae41e4649b934ca495991b7852b855"
    );
}

#[test]
fn no_vary_header_hashes_nothing() {
    let headers = vary_headers(&[("accept-encoding", b"gzip")]);
    assert_eq!(
        hash_vary_headers(&headers),
        "e3b0c44298fc1c149afbf4c8996fb92427ae41e4649b934ca495991b7852b855"
    );
}

#[test]
fn fingerprints_are_sixty_four_hex_digits() {
    let request = keys_request(Some("GetProduct"), &[("all", "1")]);
    for text in [
        hash_query(&[], &None),
        hash_additional_data(&request),
        get_private_id(Some("")).unwrap(),
    ] {
        assert_eq!(text.len(), 64);
        assert!(text.bytes().all(|b| b.is_ascii_digit() || (b'a'..=b'f').contains(&b)));
    }
}
