//! What the store holds under a key, and what a response can carry besides
//! its data.

use crate::cache_control::CacheControl;
use vstd::prelude::*;
use vstd::slice::slice_to_vec;

verus! {

/// A stored response: its payload, and its freshness when it was stored.
#[derive(Debug, PartialEq, Eq)]
pub struct CacheEntry {
    pub control: CacheControl,
    /// The payload, as serialized JSON.
    pub data: Vec<u8>,
}

/// The mathematical content of a [`CacheEntry`].
pub ghost struct EntryView {
    pub control: CacheControl,
    pub data: Seq<u8>,
}

impl View for CacheEntry {
    type V = EntryView;

    open spec fn view(&self) -> EntryView {
        EntryView { control: self.control, data: self.data@ }
    }
}

impl Clone for CacheEntry {
    fn clone(&self) -> (copy: CacheEntry)
        ensures
            copy@ == self@,
    {
        CacheEntry { control: self.control, data: slice_to_vec(self.data.as_slice()) }
    }
}

/// The content of an entry that may be absent.
pub open spec fn entry_view(e: Option<CacheEntry>) -> Option<EntryView> {
    match e {
        Some(x) => Some(x@),
        None => None,
    }
}

/// The bytes of each payload of a list.
pub open spec fn payloads(v: Seq<Vec<u8>>) -> Seq<Seq<u8>> {
    Seq::new(v.len(), |i: int| v[i]@)
}

/// One step of the path from the root of a response to a value in it.
#[derive(Debug, PartialEq, Eq)]
pub enum PathElement {
    /// A member of an object, by its name.
    Key(String),
    /// An item of a list, by its position.
    Index(usize),
    /// Any other step, as text.
    Other(String),
}

/// The mathematical content of a [`PathElement`].
pub ghost enum PathElementView {
    Key(Seq<char>),
    Index(nat),
    Other(Seq<char>),
}

impl View for PathElement {
    type V = PathElementView;

    open spec fn view(&self) -> PathElementView {
        match self {
            PathElement::Key(k) => PathElementView::Key(k@),
            PathElement::Index(i) => PathElementView::Index(*i as nat),
            PathElement::Other(t) => PathElementView::Other(t@),
        }
    }
}

impl Clone for PathElement {
    fn clone(&self) -> (copy: PathElement)
        ensures
            copy@ == self@,
    {
        match self {
            PathElement::Key(k) => PathElement::Key(k.clone()),
            PathElement::Index(i) => PathElement::Index(*i),
            PathElement::Other(t) => PathElement::Other(t.clone()),
        }
    }
}

/// A GraphQL error of a response.
#[derive(Clone, Debug, PartialEq, Eq)]
pub struct GraphError {
    /// Where in the response the error belongs, if it says so.
    pub path: Option<Vec<PathElement>>,
    /// The rest of the error (message, locations, extensions), serialized.
    pub body: Vec<u8>,
}

/// The mathematical content of a [`GraphError`].
pub ghost struct ErrorView {
    pub path: Option<Seq<PathElementView>>,
    pub body: Seq<u8>,
}

/// The content of each step of a path.
pub open spec fn path_view(p: Seq<PathElement>) -> Seq<PathElementView> {
    Seq::new(p.len(), |i: int| p[i]@)
}

impl View for GraphError {
    type V = ErrorView;

    open spec fn view(&self) -> ErrorView {
        ErrorView {
            path: match self.path {
                Some(p) => Some(path_view(p@)),
                None => None,
            },
            body: self.body@,
        }
    }
}

/// The content of each error of a list.
pub open spec fn errors_view(e: Seq<GraphError>) -> Seq<ErrorView> {
    Seq::new(e.len(), |i: int| e[i]@)
}

} // verus!
