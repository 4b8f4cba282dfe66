//! What the cache reads of an outbound subgraph request.
//!
//! The caller hands over the parts of the request from which cache keys are
//! derived, each as plain text or bytes: JSON values come in their canonical
//! serialized form (object keys sorted), so that equal values give equal
//! bytes.

use vstd::prelude::*;

verus! {

/// A request-scoped extra key: a name and the canonical bytes of its value.
#[derive(Clone, Debug, PartialEq, Eq)]
pub struct ExtraKey {
    pub name: String,
    pub value: Vec<u8>,
}

/// The parts of a subgraph request that enter its cache keys.
#[derive(Clone, Debug, PartialEq, Eq)]
pub struct CacheRequest {
    /// The name of the subgraph that the request goes to.
    pub subgraph_name: String,
    /// The hash of the prepared query.
    pub query_hash: Vec<u8>,
    /// The name of the operation, if it has one.
    pub operation_name: Option<String>,
    /// The canonical bytes of the variables, `representations` left out.
    pub variables: Vec<u8>,
    /// The canonical bytes of the authorization metadata.
    pub authorization: Vec<u8>,
    /// The extra keys that the request's context holds, by name.
    pub extra_keys: Vec<ExtraKey>,
}

/// The type discriminator of a representation.
#[derive(Clone, Debug, PartialEq, Eq)]
pub enum Typename {
    /// The representation is no object, or has no `__typename` member.
    Missing,
    /// The `__typename` member is not a string.
    NotText,
    /// The `__typename` member.
    Text(String),
}

/// One entity that an `_entities` request asks for.
#[derive(Clone, Debug, PartialEq, Eq)]
pub struct Representation {
    /// The type discriminator, carried plainly in the key.
    pub typename: Typename,
    /// The canonical bytes of the representation without its discriminator.
    pub identity: Vec<u8>,
    /// The representation as it is sent to the subgraph.
    pub body: Vec<u8>,
}

/// The `representations` variable of a request, as the request holds it.
#[derive(Clone, Debug, PartialEq, Eq)]
pub enum RepresentationsVariable {
    /// The variable is declared, but the request gives it no list: no entity
    /// is asked for.
    Absent,
    /// The variable holds something that is no list.
    NotAList,
    /// The entities that are asked for.
    List(Vec<Representation>),
}

/// The mathematical content of a [`CacheRequest`].
pub ghost struct Fingerprint {
    pub subgraph_name: Seq<char>,
    pub query_hash: Seq<u8>,
    pub operation_name: Option<Seq<char>>,
    pub variables: Seq<u8>,
    pub authorization: Seq<u8>,
    pub extra_keys: Seq<(Seq<char>, Seq<u8>)>,
}

/// The mathematical content of a [`Typename`].
pub ghost enum TypenameView {
    Missing,
    NotText,
    Text(Seq<char>),
}

/// The mathematical content of a [`Representation`].
pub ghost struct RepresentationView {
    pub typename: TypenameView,
    pub identity: Seq<u8>,
    pub body: Seq<u8>,
}

/// The text of an optional string.
pub open spec fn text_of(s: Option<String>) -> Option<Seq<char>> {
    match s {
        Some(t) => Some(t@),
        None => None,
    }
}

impl View for ExtraKey {
    type V = (Seq<char>, Seq<u8>);

    open spec fn view(&self) -> (Seq<char>, Seq<u8>) {
        (self.name@, self.value@)
    }
}

impl View for CacheRequest {
    type V = Fingerprint;

    open spec fn view(&self) -> Fingerprint {
        Fingerprint {
            subgraph_name: self.subgraph_name@,
            query_hash: self.query_hash@,
            operation_name: text_of(self.operation_name),
            variables: self.variables@,
            authorization: self.authorization@,
            extra_keys: Seq::new(self.extra_keys@.len(), |i: int| self.extra_keys@[i]@),
        }
    }
}

impl View for Typename {
    type V = TypenameView;

    open spec fn view(&self) -> TypenameView {
        match self {
            Typename::Missing => TypenameView::Missing,
            Typename::NotText => TypenameView::NotText,
            Typename::Text(t) => TypenameView::Text(t@),
        }
    }
}

impl View for Representation {
    type V = RepresentationView;

    open spec fn view(&self) -> RepresentationView {
        RepresentationView { typename: self.typename@, identity: self.identity@, body: self.body@ }
    }
}

/// The representations of a request, as mathematical values.
pub open spec fn representations_view(r: Seq<Representation>) -> Seq<RepresentationView> {
    Seq::new(r.len(), |i: int| r[i]@)
}

} // verus!
