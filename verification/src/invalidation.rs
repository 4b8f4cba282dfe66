//! Invalidation: which entries an invalidation request selects.
//!
//! Keys begin with the subgraph, then the type, then the entity, so that a
//! request selects entries by the beginning of their keys.

use crate::digest::fingerprint;
use crate::digest::sha256_hex;
use crate::keys::entity_key;
use crate::keys::root_key;
use crate::keys::texts;
use crate::request::text_of;
use crate::request::Fingerprint;
use crate::request::RepresentationView;
use crate::request::TypenameView;
use crate::text::begins_with;
use crate::text::lemma_joined_begins_with;
use vstd::prelude::*;
use vstd::string::*;

verus! {

/// Where an invalidation request came from.
#[derive(Debug, Clone, Copy, PartialEq, Eq)]
pub enum InvalidationOrigin {
    /// Posted to the invalidation endpoint.
    Endpoint,
    /// Found in the extensions of a subgraph's answer.
    Extensions,
}

/// A request to drop entries: those of a subgraph, narrowed, if wanted, to a
/// type, to one entity of the type, and to one query.
#[derive(Clone, Debug, PartialEq, Eq)]
pub struct InvalidationRequest {
    /// The subgraph whose entries are meant.
    pub subgraph: String,
    /// The type whose entries are meant.
    pub typename: Option<String>,
    /// The entity that is meant: the canonical bytes of its representation
    /// without the type discriminator.
    pub entity: Option<Vec<u8>>,
    /// The fingerprint of the query whose entries are meant.
    pub query_hash: Option<String>,
    /// Where the request came from.
    pub origin: InvalidationOrigin,
}

/// The mathematical content of an [`InvalidationRequest`].
pub ghost struct TargetView {
    pub subgraph: Seq<char>,
    pub typename: Option<Seq<char>>,
    pub entity: Option<Seq<u8>>,
    pub query_hash: Option<Seq<char>>,
    pub origin: InvalidationOrigin,
}

impl View for InvalidationRequest {
    type V = TargetView;

    open spec fn view(&self) -> TargetView {
        TargetView {
            subgraph: self.subgraph@,
            typename: text_of(self.typename),
            entity: match self.entity {
                Some(e) => Some(e@),
                None => None,
            },
            query_hash: text_of(self.query_hash),
            origin: self.origin,
        }
    }
}

/// The beginning of every key of a subgraph.
pub open spec fn subgraph_prefix(subgraph: Seq<char>) -> Seq<char> {
    "subgraph:"@ + subgraph + ":"@
}

/// The beginning of the key of every entity of a type.
pub open spec fn type_prefix(subgraph: Seq<char>, typename: Seq<char>) -> Seq<char> {
    subgraph_prefix(subgraph) + typename + ":"@
}

/// The beginning of the key of every root query on a type.
pub open spec fn root_type_prefix(subgraph: Seq<char>, typename: Seq<char>) -> Seq<char> {
    subgraph_prefix(subgraph) + "type:"@ + typename + ":"@
}

/// The beginning of every key of one entity.
pub open spec fn entity_prefix(subgraph: Seq<char>, typename: Seq<char>, entity: Seq<u8>) -> Seq<
    char,
> {
    type_prefix(subgraph, typename) + fingerprint(entity) + ":"@
}

/// The key prefixes that a request selects. Without a type it is the
/// subgraph's one prefix. With a type it is the type's entities and the
/// type's root queries; an entity narrows the request to the keys of that
/// entity, and a query narrows the keys of an entity, or the root queries of
/// a type, to those of the query.
pub open spec fn prefixes_of(t: TargetView) -> Seq<Seq<char>> {
    match t.typename {
        None => seq![subgraph_prefix(t.subgraph)],
        Some(typename) => match (t.entity, t.query_hash) {
            (None, None) => seq![
                type_prefix(t.subgraph, typename),
                root_type_prefix(t.subgraph, typename),
            ],
            (None, Some(q)) => seq![
                type_prefix(t.subgraph, typename),
                root_type_prefix(t.subgraph, typename) + "hash:"@ + q + ":"@,
            ],
            (Some(e), None) => seq![entity_prefix(t.subgraph, typename, e)],
            (Some(e), Some(q)) => seq![entity_prefix(t.subgraph, typename, e) + q + ":"@],
        },
    }
}

/// A key is selected by a list of prefixes where it begins with one of them.
pub open spec fn selected(key: Seq<char>, prefixes: Seq<Seq<char>>) -> bool {
    exists|i: int| 0 <= i < prefixes.len() && begins_with(key, #[trigger] prefixes[i])
}

impl InvalidationRequest {
    /// The key prefixes to scan the store for; every key that begins with
    /// one of them is to be deleted.
    pub fn key_prefixes(&self) -> (prefixes: Vec<String>)
        ensures
            texts(prefixes@) == prefixes_of(self@),
    {
        let mut prefixes: Vec<String> = Vec::new();
        let mut base = String::from_str("subgraph:");
        base.append(self.subgraph.as_str());
        base.append(":");
        match &self.typename {
            None => {
                prefixes.push(base);
            },
            Some(typename) => {
                let mut entities = base.clone();
                entities.append(typename.as_str());
                entities.append(":");
                match &self.entity {
                    Some(entity) => {
                        let hashed = sha256_hex(entity.as_slice());
                        entities.append(hashed.as_str());
                        entities.append(":");
                        match &self.query_hash {
                            Some(q) => {
                                entities.append(q.as_str());
                                entities.append(":");
                            },
                            None => {},
                        }
                        prefixes.push(entities);
                    },
                    None => {
                        let mut roots = base;
                        roots.append("type:");
                        roots.append(typename.as_str());
                        roots.append(":");
                        match &self.query_hash {
                            Some(q) => {
                                roots.append("hash:");
                                roots.append(q.as_str());
                                roots.append(":");
                            },
                            None => {},
                        }
                        prefixes.push(entities);
                        prefixes.push(roots);
                    },
                }
            },
        }
        assert(texts(prefixes@) =~= prefixes_of(self@));
        prefixes
    }
}

/// The request for a subgraph and a type selects the key of every entity of
/// that type and the key of every root query on that type in the subgraph,
/// whatever the query, the variables and the user's scope are.
pub proof fn lemma_type_request_selects_keys(
    target: TargetView,
    fp: Fingerprint,
    r: RepresentationView,
    typename: Seq<char>,
    is_known_private: bool,
    private_id: Option<Seq<char>>,
)
    requires
        target.subgraph == fp.subgraph_name,
        target.typename == Some(typename),
        target.entity is None,
        target.query_hash is None,
        r.typename == TypenameView::Text(typename),
    ensures
        selected(entity_key(fp, r, is_known_private, private_id), prefixes_of(target)),
        selected(root_key(fp, Some(typename), is_known_private, private_id), prefixes_of(target)),
{
    let prefixes = prefixes_of(target);
    let e = entity_key(fp, r, is_known_private, private_id);
    let e_rest = fingerprint(r.identity) + ":"@ + crate::keys::hashed_query(fp) + ":"@
        + crate::keys::hashed_additional(fp) + crate::keys::private_suffix(
        is_known_private,
        private_id,
    );
    assert(e =~= prefixes[0] + e_rest);
    lemma_joined_begins_with(prefixes[0], e_rest);
    let k = root_key(fp, Some(typename), is_known_private, private_id);
    let k_rest = "hash:"@ + crate::keys::hashed_query(fp) + ":data:"@ + crate::keys::hashed_additional(
        fp,
    ) + crate::keys::private_suffix(is_known_private, private_id);
    lemma_root_key_parts(fp, typename, is_known_private, private_id);
    lemma_joined_begins_with(prefixes[1], k_rest);
}

/// A root key is the prefix of its type and then the rest.
proof fn lemma_root_key_parts(
    fp: Fingerprint,
    typename: Seq<char>,
    is_known_private: bool,
    private_id: Option<Seq<char>>,
)
    ensures
        root_key(fp, Some(typename), is_known_private, private_id) == root_type_prefix(
            fp.subgraph_name,
            typename,
        ) + ("hash:"@ + crate::keys::hashed_query(fp) + ":data:"@ + crate::keys::hashed_additional(fp)
            + crate::keys::private_suffix(is_known_private, private_id)),
{
    reveal_strlit(":type:");
    reveal_strlit(":");
    reveal_strlit("type:");
    reveal_strlit(":hash:");
    reveal_strlit("hash:");
    assert(":type:"@ =~= ":"@ + "type:"@);
    assert(":hash:"@ =~= ":"@ + "hash:"@);
    let lhs = root_key(fp, Some(typename), is_known_private, private_id);
    let rhs = root_type_prefix(fp.subgraph_name, typename) + ("hash:"@ + crate::keys::hashed_query(fp)
        + ":data:"@ + crate::keys::hashed_additional(fp) + crate::keys::private_suffix(
        is_known_private,
        private_id,
    ));
    assert(lhs =~= rhs);
}

/// The request for a subgraph alone selects every key of the subgraph.
pub proof fn lemma_subgraph_request_selects_keys(
    target: TargetView,
    fp: Fingerprint,
    r: RepresentationView,
    entity_type: Option<Seq<char>>,
    is_known_private: bool,
    private_id: Option<Seq<char>>,
)
    requires
        target.subgraph == fp.subgraph_name,
        target.typename is None,
    ensures
        selected(entity_key(fp, r, is_known_private, private_id), prefixes_of(target)),
        selected(root_key(fp, entity_type, is_known_private, private_id), prefixes_of(target)),
{
    let prefixes = prefixes_of(target);
    let e = entity_key(fp, r, is_known_private, private_id);
    let e_rest = crate::keys::typename_text(r.typename) + ":"@ + fingerprint(r.identity) + ":"@
        + crate::keys::hashed_query(fp) + ":"@ + crate::keys::hashed_additional(fp)
        + crate::keys::private_suffix(is_known_private, private_id);
    assert(e =~= prefixes[0] + e_rest);
    lemma_joined_begins_with(prefixes[0], e_rest);
    reveal_strlit(":type:");
    reveal_strlit(":");
    reveal_strlit("type:");
    assert(":type:"@ =~= ":"@ + "type:"@);
    let k = root_key(fp, entity_type, is_known_private, private_id);
    let k_rest = "type:"@ + match entity_type {
        Some(t) => t,
        None => "Query"@,
    } + ":hash:"@ + crate::keys::hashed_query(fp) + ":data:"@ + crate::keys::hashed_additional(fp)
        + crate::keys::private_suffix(is_known_private, private_id);
    assert(k =~= prefixes[0] + k_rest);
    lemma_joined_begins_with(prefixes[0], k_rest);
}

} // verus!
