//! Cache keys.
//!
//! A key is made of plain parts separated by colons, so that the entries of a
//! subgraph, of a type or of one entity can be found by the prefix of their
//! keys. Everything that could hold personal data enters a key only as a
//! SHA-256 fingerprint.

use crate::cache_control::put_bytes;
use crate::digest::fingerprint;
use crate::digest::is_fingerprint;
use crate::digest::sha256_hex;
use crate::headers::bytes_match_ignoring_case;
use crate::headers::same_but_case;
use crate::headers::values_of;
use crate::headers::HeaderList;
use crate::headers::HeaderSeq;
use crate::headers::VARY;
use crate::request::representations_view;
use crate::request::text_of;
use crate::request::CacheRequest;
use crate::request::ExtraKey;
use crate::request::Fingerprint;
use crate::request::Representation;
use crate::request::RepresentationView;
use crate::request::Typename;
use crate::request::TypenameView;
use crate::text::bytes_of;
use crate::text::same_text;
use vstd::prelude::*;
use vstd::slice::slice_subrange;
use vstd::string::*;

verus! {

/// Why no key could be made for a request.
#[derive(Debug, Clone, Copy, PartialEq, Eq)]
pub enum RequestError {
    /// A representation has no `__typename`.
    MissingTypename,
    /// The `representations` variable is no list.
    RepresentationsNotAList,
}

/// The bytes that are hashed for the query: its hash, a zero byte, the
/// operation's name (`-` where it has none) and a zero byte.
pub open spec fn query_preimage(query_hash: Seq<u8>, operation_name: Option<Seq<char>>) -> Seq<u8> {
    query_hash + seq![0u8] + bytes_of(
        match operation_name {
            Some(n) => n,
            None => "-"@,
        },
    ) + seq![0u8]
}

/// The fingerprint of the query and the operation's name.
pub open spec fn hashed_query(fp: Fingerprint) -> Seq<char> {
    fingerprint(query_preimage(fp.query_hash, fp.operation_name))
}

/// The value of the first extra key from position `i` on that is named
/// `name`; nothing where there is none.
pub open spec fn extra_value(extra: Seq<(Seq<char>, Seq<u8>)>, name: Seq<char>, i: int) -> Seq<u8>
    decreases extra.len() - i,
{
    if i < 0 || i >= extra.len() {
        Seq::empty()
    } else if extra[i].0 == name {
        extra[i].1
    } else {
        extra_value(extra, name, i + 1)
    }
}

/// The bytes that are hashed for the rest of the request: the variables,
/// the authorization metadata, the extra key `all` and the extra key that
/// is named like the operation.
pub open spec fn additional_preimage(fp: Fingerprint) -> Seq<u8> {
    fp.variables + fp.authorization + extra_value(fp.extra_keys, "all"@, 0) + match fp.operation_name {
        Some(n) => extra_value(fp.extra_keys, n, 0),
        None => Seq::empty(),
    }
}

/// The fingerprint of the variables, the authorization metadata and the
/// extra keys.
pub open spec fn hashed_additional(fp: Fingerprint) -> Seq<char> {
    fingerprint(additional_preimage(fp))
}

/// The end of a key that belongs to one user: a colon and the user's scope,
/// where the query is known to be private and a scope is at hand.
pub open spec fn private_suffix(is_known_private: bool, private_id: Option<Seq<char>>) -> Seq<char> {
    match private_id {
        Some(id) => if is_known_private {
            ":"@ + id
        } else {
            Seq::empty()
        },
        None => Seq::empty(),
    }
}

/// The key of a root query:
/// `subgraph:{name}:type:{type}:hash:{query}:data:{rest}` and the private
/// suffix.
pub open spec fn root_key(
    fp: Fingerprint,
    entity_type: Option<Seq<char>>,
    is_known_private: bool,
    private_id: Option<Seq<char>>,
) -> Seq<char> {
    "subgraph:"@ + fp.subgraph_name + ":type:"@ + match entity_type {
        Some(t) => t,
        None => "Query"@,
    } + ":hash:"@ + hashed_query(fp) + ":data:"@ + hashed_additional(fp) + private_suffix(
        is_known_private,
        private_id,
    )
}

/// The type name that stands in an entity's key.
pub open spec fn typename_text(t: TypenameView) -> Seq<char> {
    match t {
        TypenameView::Text(s) => s,
        _ => "-"@,
    }
}

/// The key of one entity:
/// `subgraph:{name}:{type}:{entity}:{query}:{rest}` and the private suffix.
pub open spec fn entity_key(
    fp: Fingerprint,
    r: RepresentationView,
    is_known_private: bool,
    private_id: Option<Seq<char>>,
) -> Seq<char> {
    "subgraph:"@ + fp.subgraph_name + ":"@ + typename_text(r.typename) + ":"@ + fingerprint(
        r.identity,
    ) + ":"@ + hashed_query(fp) + ":"@ + hashed_additional(fp) + private_suffix(
        is_known_private,
        private_id,
    )
}

/// Every representation has a type name.
pub open spec fn all_typed(r: Seq<RepresentationView>) -> bool {
    forall|i: int| 0 <= i < r.len() ==> !((#[trigger] r[i]).typename is Missing)
}

/// The keys of the entities of a request, one for each representation and
/// in their order.
pub open spec fn entity_keys(
    fp: Fingerprint,
    r: Seq<RepresentationView>,
    is_known_private: bool,
    private_id: Option<Seq<char>>,
) -> Seq<Seq<char>> {
    Seq::new(r.len(), |i: int| entity_key(fp, r[i], is_known_private, private_id))
}

/// The text of a sequence of strings.
pub open spec fn texts(keys: Seq<String>) -> Seq<Seq<char>> {
    Seq::new(keys.len(), |i: int| keys[i]@)
}

/// A user's scope: the fingerprint of the value that tells users apart.
pub open spec fn private_scope(user: Seq<char>) -> Seq<char> {
    fingerprint(bytes_of(user))
}

/// Fingerprints the query's hash and the operation's name.
pub fn hash_query(query_hash: &[u8], operation_name: &Option<String>) -> (hash: String)
    ensures
        hash@ == fingerprint(query_preimage(query_hash@, text_of(*operation_name))),
        is_fingerprint(hash@),
{
    let mut buffer: Vec<u8> = Vec::new();
    put_bytes(&mut buffer, query_hash);
    buffer.push(0);
    match operation_name {
        Some(n) => put_bytes(&mut buffer, n.as_str().as_bytes()),
        None => put_bytes(&mut buffer, "-".as_bytes()),
    }
    buffer.push(0);
    assert(buffer@ =~= query_preimage(query_hash@, text_of(*operation_name)));
    sha256_hex(buffer.as_slice())
}

fn put_extra(buffer: &mut Vec<u8>, extra_keys: &Vec<ExtraKey>, name: &str)
    ensures
        final(buffer)@ == old(buffer)@ + extra_value(
            Seq::new(extra_keys@.len(), |i: int| extra_keys@[i]@),
            name@,
            0,
        ),
{
    let ghost extra = Seq::new(extra_keys@.len(), |i: int| extra_keys@[i]@);
    let mut i: usize = 0;
    while i < extra_keys.len()
        invariant
            i <= extra_keys@.len(),
            extra == Seq::new(extra_keys@.len(), |i: int| extra_keys@[i]@),
            extra_value(extra, name@, 0) == extra_value(extra, name@, i as int),
            buffer@ == old(buffer)@,
        decreases extra_keys@.len() - i,
    {
        assert(extra[i as int] == extra_keys@[i as int]@);
        if same_text(extra_keys[i].name.as_str(), name) {
            put_bytes(buffer, extra_keys[i].value.as_slice());
            return ;
        }
        i += 1;
    }
    assert(buffer@ =~= old(buffer)@ + Seq::<u8>::empty());
}

/// Fingerprints what a key depends on besides the query and the entity: the
/// variables, the authorization metadata and the request's extra keys.
pub fn hash_additional_data(request: &CacheRequest) -> (hash: String)
    ensures
        hash@ == hashed_additional(request@),
        is_fingerprint(hash@),
{
    let mut buffer: Vec<u8> = Vec::new();
    put_bytes(&mut buffer, request.variables.as_slice());
    put_bytes(&mut buffer, request.authorization.as_slice());
    put_extra(&mut buffer, &request.extra_keys, "all");
    match &request.operation_name {
        Some(n) => put_extra(&mut buffer, &request.extra_keys, n.as_str()),
        None => {},
    }
    assert(buffer@ =~= additional_preimage(request@));
    sha256_hex(buffer.as_slice())
}

/// The scope of the user that `user` tells apart from the others, if there
/// is such a value.
pub fn get_private_id(user: Option<&str>) -> (scope: Option<String>)
    ensures
        match user {
            Some(u) => scope is Some && scope->0@ == private_scope(u@) && is_fingerprint(scope->0@),
            None => scope is None,
        },
{
    match user {
        Some(u) => Some(sha256_hex(u.as_bytes())),
        None => None,
    }
}

fn put_private_suffix(key: &mut String, is_known_private: bool, private_id: &Option<String>)
    ensures
        final(key)@ == old(key)@ + private_suffix(is_known_private, text_of(*private_id)),
{
    if is_known_private {
        match private_id {
            Some(id) => {
                key.append(":");
                key.append(id.as_str());
                assert(key@ =~= old(key)@ + (":"@ + id@));
            },
            None => {
                assert(key@ =~= old(key)@ + Seq::<char>::empty());
            },
        }
    } else {
        assert(key@ =~= old(key)@ + Seq::<char>::empty());
    }
}

/// Builds the cache key of a root query.
pub fn extract_cache_key_root(
    request: &CacheRequest,
    entity_type_opt: Option<&str>,
    is_known_private: bool,
    private_id: &Option<String>,
) -> (key: String)
    ensures
        key@ == root_key(
            request@,
            match entity_type_opt {
                Some(t) => Some(t@),
                None => None,
            },
            is_known_private,
            text_of(*private_id),
        ),
{
    let query_hash = hash_query(request.query_hash.as_slice(), &request.operation_name);
    let additional_data_hash = hash_additional_data(request);
    let entity_type = match entity_type_opt {
        Some(t) => t,
        None => "Query",
    };
    let mut key = String::from_str("subgraph:");
    key.append(request.subgraph_name.as_str());
    key.append(":type:");
    key.append(entity_type);
    key.append(":hash:");
    key.append(query_hash.as_str());
    key.append(":data:");
    key.append(additional_data_hash.as_str());
    put_private_suffix(&mut key, is_known_private, private_id);
    key
}

/// Builds the cache keys of the entities that a request asks for, one for
/// each representation and in their order. A representation without a type
/// name makes the request malformed.
pub fn extract_cache_keys(
    request: &CacheRequest,
    representations: &Vec<Representation>,
    is_known_private: bool,
    private_id: &Option<String>,
) -> (keys: Result<Vec<String>, RequestError>)
    ensures
        match keys {
            Ok(k) => {
                &&& all_typed(representations_view(representations@))
                &&& texts(k@) == entity_keys(
                    request@,
                    representations_view(representations@),
                    is_known_private,
                    text_of(*private_id),
                )
            },
            Err(e) => {
                &&& e == RequestError::MissingTypename
                &&& !all_typed(representations_view(representations@))
            },
        },
{
    let query_hash = hash_query(request.query_hash.as_slice(), &request.operation_name);
    let additional_data_hash = hash_additional_data(request);
    let ghost reps = representations_view(representations@);
    let ghost id = text_of(*private_id);
    let mut res: Vec<String> = Vec::new();
    let mut i: usize = 0;
    while i < representations.len()
        invariant
            i <= representations@.len(),
            reps == representations_view(representations@),
            id == text_of(*private_id),
            query_hash@ == hashed_query(request@),
            additional_data_hash@ == hashed_additional(request@),
            res@.len() == i,
            forall|k: int| 0 <= k < i ==> !((#[trigger] reps[k]).typename is Missing),
            forall|k: int|
                0 <= k < i ==> (#[trigger] res@[k])@ == entity_key(
                    request@,
                    reps[k],
                    is_known_private,
                    id,
                ),
        decreases representations@.len() - i,
    {
        let representation = &representations[i];
        assert(reps[i as int] == representation@);
        let mut key = String::from_str("subgraph:");
        key.append(request.subgraph_name.as_str());
        key.append(":");
        match &representation.typename {
            Typename::Missing => {
                return Err(RequestError::MissingTypename);
            },
            Typename::NotText => {
                key.append("-");
            },
            Typename::Text(t) => {
                key.append(t.as_str());
            },
        }
        let hashed_entity_key = sha256_hex(representation.identity.as_slice());
        key.append(":");
        key.append(hashed_entity_key.as_str());
        key.append(":");
        key.append(query_hash.as_str());
        key.append(":");
        key.append(additional_data_hash.as_str());
        put_private_suffix(&mut key, is_known_private, private_id);
        res.push(key);
        i += 1;
    }
    assert(texts(res@) =~= entity_keys(request@, reps, is_known_private, id));
    Ok(res)
}

/// Requests with the same content get the same keys.
pub proof fn lemma_equal_requests_equal_keys(
    a: CacheRequest,
    b: CacheRequest,
    ra: Seq<Representation>,
    rb: Seq<Representation>,
    entity_type: Option<Seq<char>>,
    is_known_private: bool,
    private_id: Option<Seq<char>>,
)
    requires
        a@ == b@,
        representations_view(ra) == representations_view(rb),
    ensures
        root_key(a@, entity_type, is_known_private, private_id) == root_key(
            b@,
            entity_type,
            is_known_private,
            private_id,
        ),
        entity_keys(a@, representations_view(ra), is_known_private, private_id) == entity_keys(
            b@,
            representations_view(rb),
            is_known_private,
            private_id,
        ),
{
}

/// A header value that reads as text: visible ASCII, spaces and tabs.
pub open spec fn is_header_text(value: Seq<u8>) -> bool {
    forall|i: int| 0 <= i < value.len() ==> 32 <= #[trigger] value[i] <= 126 || value[i] == 9
}

/// The position of the first header from `i` on whose name is `name` but
/// for ASCII case; the length of the list if there is none.
pub open spec fn header_index(h: HeaderSeq, name: Seq<u8>, i: int) -> int
    decreases h.len() - i,
{
    if i < 0 || i >= h.len() {
        h.len() as int
    } else if same_but_case(bytes_of(h[i].0), name) {
        i
    } else {
        header_index(h, name, i + 1)
    }
}

/// What the header named `name` adds to the bytes that are hashed: its first
/// value and a zero byte, where it is there and its value reads as text.
pub open spec fn header_part(h: HeaderSeq, name: Seq<u8>) -> Seq<u8> {
    let i = header_index(h, name, 0);
    if i < h.len() && is_header_text(h[i].1) {
        h[i].1 + seq![0u8]
    } else {
        Seq::empty()
    }
}

/// What the names that one `Vary` value lists add to the bytes that are
/// hashed, from the name that begins at `start` on, of which the bytes up to
/// `j` were looked at. The names are separated by a comma and a space.
pub open spec fn vary_value_part(h: HeaderSeq, value: Seq<u8>, start: int, j: int) -> Seq<u8>
    decreases value.len() - j,
{
    if start < 0 || start > j || j >= value.len() {
        if 0 <= start <= value.len() {
            header_part(h, value.subrange(start, value.len() as int))
        } else {
            Seq::empty()
        }
    } else if value[j] == 44 && j + 1 < value.len() && value[j + 1] == 32 {
        header_part(h, value.subrange(start, j)) + vary_value_part(h, value, j + 2, j + 2)
    } else {
        vary_value_part(h, value, start, j + 1)
    }
}

/// What the `Vary` values from position `k` on add to the bytes that are
/// hashed. A value that does not read as text adds nothing.
pub open spec fn vary_part(h: HeaderSeq, values: Seq<Seq<u8>>, k: int) -> Seq<u8>
    decreases values.len() - k,
{
    if k < 0 || k >= values.len() {
        Seq::empty()
    } else if is_header_text(values[k]) {
        vary_value_part(h, values[k], 0, 0) + vary_part(h, values, k + 1)
    } else {
        vary_part(h, values, k + 1)
    }
}

/// Some `Vary` value is the star: the response varies on everything.
pub open spec fn varies_on_all(values: Seq<Seq<u8>>) -> bool {
    exists|k: int| 0 <= k < values.len() && #[trigger] values[k] == seq![42u8]
}

/// The fingerprint of the headers that a response varies on: `*` where a
/// `Vary` header says so, else the fingerprint of the values of the headers
/// that the `Vary` headers name.
pub open spec fn hashed_vary_headers(h: HeaderSeq) -> Seq<char> {
    let values = values_of(h, VARY@);
    if varies_on_all(values) {
        "*"@
    } else {
        fingerprint(vary_part(h, values, 0))
    }
}

fn reads_as_text(value: &[u8]) -> (yes: bool)
    ensures
        yes == is_header_text(value@),
{
    let mut i: usize = 0;
    while i < value.len()
        invariant
            i <= value.len(),
            forall|k: int| 0 <= k < i ==> 32 <= #[trigger] value@[k] <= 126 || value@[k] == 9,
        decreases value.len() - i,
    {
        let b = value[i];
        if !((32 <= b && b <= 126) || b == 9) {
            return false;
        }
        i += 1;
    }
    true
}

fn put_header(buffer: &mut Vec<u8>, headers: &HeaderList, name: &[u8])
    ensures
        final(buffer)@ == old(buffer)@ + header_part(headers@, name@),
{
    let mut i: usize = 0;
    while i < headers.entries.len()
        invariant
            i <= headers.entries@.len(),
            buffer@ == old(buffer)@,
            header_index(headers@, name@, 0) == header_index(headers@, name@, i as int),
        decreases headers.entries@.len() - i,
    {
        assert(headers@[i as int] == headers.entries@[i as int]@);
        if bytes_match_ignoring_case(headers.entries[i].name.as_str().as_bytes(), name) {
            if reads_as_text(headers.entries[i].value.as_slice()) {
                put_bytes(buffer, headers.entries[i].value.as_slice());
                buffer.push(0);
                assert(buffer@ =~= old(buffer)@ + header_part(headers@, name@));
            } else {
                assert(buffer@ =~= old(buffer)@ + header_part(headers@, name@));
            }
            return ;
        }
        i += 1;
    }
    assert(buffer@ =~= old(buffer)@ + header_part(headers@, name@));
}

fn put_vary_value(buffer: &mut Vec<u8>, headers: &HeaderList, value: &[u8])
    ensures
        final(buffer)@ == old(buffer)@ + vary_value_part(headers@, value@, 0, 0),
{
    let mut start: usize = 0;
    let mut j: usize = 0;
    let ghost done: Seq<u8> = Seq::empty();
    assert(buffer@ =~= old(buffer)@ + done);
    while j < value.len()
        invariant
            start <= j <= value@.len(),
            buffer@ == old(buffer)@ + done,
            vary_value_part(headers@, value@, 0, 0) == done + vary_value_part(
                headers@,
                value@,
                start as int,
                j as int,
            ),
        decreases value@.len() - j,
    {
        if value[j] == 44 && j + 1 < value.len() && value[j + 1] == 32 {
            put_header(buffer, headers, slice_subrange(value, start, j));
            proof {
                let part = header_part(headers@, value@.subrange(start as int, j as int));
                assert(buffer@ =~= old(buffer)@ + (done + part));
                assert(done + vary_value_part(headers@, value@, start as int, j as int) =~= (done
                    + part) + vary_value_part(headers@, value@, j + 2, j + 2));
                done = done + part;
            }
            start = j + 2;
            j = j + 2;
        } else {
            j += 1;
        }
    }
    put_header(buffer, headers, slice_subrange(value, start, value.len()));
    proof {
        let part = header_part(headers@, value@.subrange(start as int, value@.len() as int));
        assert(buffer@ =~= old(buffer)@ + (done + part));
    }
}

/// Fingerprints the values of the request headers that a response varies
/// on, as its `Vary` headers name them.
pub fn hash_vary_headers(headers: &HeaderList) -> (hash: String)
    ensures
        hash@ == hashed_vary_headers(headers@),
{
    let values = headers.values(VARY);
    let ghost spec_values = values_of(headers@, VARY@);
    let mut buffer: Vec<u8> = Vec::new();
    let ghost done: Seq<u8> = Seq::empty();
    let mut k: usize = 0;
    while k < values.len()
        invariant
            k <= values@.len(),
            spec_values == values_of(headers@, VARY@),
            values@.len() == spec_values.len(),
            forall|i: int| 0 <= i < values@.len() ==> (#[trigger] values@[i])@ == spec_values[i],
            forall|i: int| 0 <= i < k ==> #[trigger] spec_values[i] != seq![42u8],
            buffer@ == done,
            vary_part(headers@, spec_values, 0) == done + vary_part(headers@, spec_values, k as int),
        decreases values@.len() - k,
    {
        let value = values[k].as_slice();
        assert(value@ == spec_values[k as int]);
        if value.len() == 1 && value[0] == 42 {
            assert(value@ =~= seq![42u8]);
            return String::from_str("*");
        }
        assert(spec_values[k as int] != seq![42u8]) by {
            if spec_values[k as int] == seq![42u8] {
                assert(seq![42u8].len() == 1);
                assert(seq![42u8][0] == 42u8);
            }
        }
        if reads_as_text(value) {
            put_vary_value(&mut buffer, headers, value);
            proof {
                let part = vary_value_part(headers@, spec_values[k as int], 0, 0);
                assert(done + vary_part(headers@, spec_values, k as int) =~= (done + part) + vary_part(
                    headers@,
                    spec_values,
                    k + 1,
                ));
                done = done + part;
            }
        }
        k += 1;
    }
    assert(buffer@ =~= vary_part(headers@, spec_values, 0));
    sha256_hex(buffer.as_slice())
}

} // verus!
