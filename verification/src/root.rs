//! The root-query path: a query without representations is answered from
//! the store as a whole, or stored as a whole.

use crate::cache_control::least;
use crate::cache_control::CacheControl;
use crate::entry::entry_view;
use crate::entry::CacheEntry;
use crate::entry::EntryView;
use crate::headers::values_of;
use crate::headers::HeaderList;
use crate::headers::HeaderSeq;
use crate::headers::CACHE_CONTROL;
use crate::cache_control::parsed_headers;
use crate::request::text_of;
use vstd::prelude::*;
use vstd::string::*;

verus! {

/// What the store's answer means for a root query.
#[derive(Debug, PartialEq, Eq)]
pub enum RootLookup {
    /// The stored response is fresh: it is the response.
    Hit {
        /// The data of the response.
        data: Vec<u8>,
        /// The directives of the response.
        control: CacheControl,
    },
    /// The subgraph has to be asked.
    Miss {
        /// The key that was looked up.
        key: String,
    },
}

/// Decides from the answer of the store whether a root query can be
/// answered at once: it can where the store holds an entry that is fresh.
pub fn cache_lookup_root(key: String, cache_result: Option<CacheEntry>) -> (lookup: RootLookup)
    ensures
        match entry_view(cache_result) {
            Some(e) if e.control.spec_can_use() => lookup matches RootLookup::Hit { data, control }
                && data@ == e.data && control == e.control,
            _ => lookup matches RootLookup::Miss { key: k } && k@ == key@,
        },
{
    match cache_result {
        Some(value) => {
            if value.control.can_use() {
                RootLookup::Hit { data: value.data, control: value.control }
            } else {
                RootLookup::Miss { key }
            }
        },
        None => RootLookup::Miss { key },
    }
}

/// The directives of a subgraph's answer: what its headers say, with the
/// store's lifetime where they name none; `no-store` where the answer has no
/// `Cache-Control` header or one that cannot be read.
pub open spec fn answer_control(h: HeaderSeq, storage_ttl: Option<u64>) -> CacheControl {
    if values_of(h, CACHE_CONTROL@).len() == 0 {
        CacheControl::spec_no_store()
    } else {
        match parsed_headers(h, storage_ttl) {
            Ok(c) => c,
            Err(_) => CacheControl::spec_no_store(),
        }
    }
}

/// Reads the directives of a subgraph's answer from its headers.
pub fn response_control(headers: &HeaderList, storage_ttl: Option<u64>) -> (control: CacheControl)
    ensures
        control == answer_control(headers@, storage_ttl),
{
    if headers.contains(CACHE_CONTROL) {
        CacheControl::from_headers(headers, storage_ttl)
    } else {
        CacheControl::no_store()
    }
}

/// An order to write the response to a root query to the store.
#[derive(Clone, Debug, PartialEq, Eq)]
pub struct RootStore {
    /// The key to write under.
    pub key: String,
    /// The directives to keep with the data.
    pub control: CacheControl,
    /// The seconds after which the store is to drop the entry.
    pub ttl: Option<u64>,
}

/// The mathematical content of a [`RootStore`].
pub ghost struct RootStoreView {
    pub key: Seq<char>,
    pub control: CacheControl,
    pub ttl: Option<u64>,
}

impl View for RootStore {
    type V = RootStoreView;

    open spec fn view(&self) -> RootStoreView {
        RootStoreView { key: self.key@, control: self.control, ttl: self.ttl }
    }
}

/// The content of an order that may be absent.
pub open spec fn store_view(s: Option<RootStore>) -> Option<RootStoreView> {
    match s {
        Some(x) => Some(x@),
        None => None,
    }
}

/// The response to a root query is written where it carries data and no
/// error and its directives allow storing; it then lives for the smaller of
/// its own freshness and the subgraph's lifetime.
pub open spec fn root_store(
    subgraph_ttl: Option<u64>,
    has_data: bool,
    has_errors: bool,
    control: CacheControl,
    key: Seq<char>,
) -> Option<RootStoreView> {
    if has_data && !has_errors && control.spec_should_store() {
        Some(RootStoreView { key, control, ttl: least(control.spec_ttl(), subgraph_ttl) })
    } else {
        None
    }
}

/// Says whether the response to a root query is to be written to the store,
/// and for how long.
pub fn cache_store_root_from_response(
    subgraph_ttl: Option<u64>,
    has_data: bool,
    has_errors: bool,
    cache_control: CacheControl,
    cache_key: String,
) -> (order: Option<RootStore>)
    ensures
        store_view(order) == root_store(subgraph_ttl, has_data, has_errors, cache_control, cache_key@),
{
    if has_data && !has_errors && cache_control.should_store() {
        let ttl = match (cache_control.ttl(), subgraph_ttl) {
            (None, None) => None,
            (Some(x), None) => Some(x),
            (None, Some(y)) => Some(y),
            (Some(x), Some(y)) => Some(if x <= y { x } else { y }),
        };
        Some(RootStore { key: cache_key, control: cache_control, ttl })
    } else {
        None
    }
}

/// What follows from the answer of a subgraph to a root query.
#[derive(Debug, PartialEq, Eq)]
pub struct RootOutcome {
    /// The directives of the answer.
    pub control: CacheControl,
    /// The query is to be noted as private: its answer is the first to say
    /// so.
    pub register_private: bool,
    /// The answer's invalidation extension is to be taken out and acted on.
    pub handle_invalidation: bool,
    /// The order to write the answer to the store, if it is to be written.
    pub store: Option<RootStore>,
}

/// The key under which the answer to a root query is stored: the key it was
/// looked up with, and the user's scope where the answer is the first to say
/// that the query is private.
pub open spec fn root_stored_key(
    key: Seq<char>,
    is_known_private: bool,
    control: CacheControl,
    private_id: Option<Seq<char>>,
) -> Seq<char> {
    match private_id {
        Some(id) => if control.private && !is_known_private {
            key + ":"@ + id
        } else {
            key
        },
        None => key,
    }
}

/// Decides what follows from the answer of a subgraph to a root query: a
/// private answer makes its query known as private, and without a user's
/// scope it is handed on as it is; any other answer gives up its
/// invalidation extension and is stored where it may be.
pub fn root_response(
    headers: &HeaderList,
    storage_ttl: Option<u64>,
    subgraph_ttl: Option<u64>,
    is_known_private: bool,
    private_id: &Option<String>,
    root_cache_key: String,
    has_data: bool,
    has_errors: bool,
) -> (outcome: RootOutcome)
    ensures
        outcome.control == answer_control(headers@, storage_ttl),
        outcome.register_private == (outcome.control.private && !is_known_private),
        outcome.handle_invalidation == !(outcome.control.private && private_id is None),
        store_view(outcome.store) == if outcome.control.private && private_id is None {
            None
        } else {
            root_store(
                subgraph_ttl,
                has_data,
                has_errors,
                outcome.control,
                root_stored_key(
                    root_cache_key@,
                    is_known_private,
                    outcome.control,
                    text_of(*private_id),
                ),
            )
        },
{
    let control = response_control(headers, storage_ttl);
    let register_private = control.private() && !is_known_private;
    let mut key = root_cache_key;
    if control.private() {
        match private_id {
            Some(id) => {
                if !is_known_private {
                    key.append(":");
                    key.append(id.as_str());
                    assert(key@ =~= root_cache_key@ + ":"@ + id@);
                }
            },
            None => {
                return RootOutcome {
                    control,
                    register_private,
                    handle_invalidation: false,
                    store: None,
                };
            },
        }
    }
    let store = cache_store_root_from_response(subgraph_ttl, has_data, has_errors, control, key);
    RootOutcome { control, register_private, handle_invalidation: true, store }
}

/// A response whose directives forbid storing is not written, and neither
/// is a private one that has no user's scope to be stored under.
pub proof fn lemma_root_not_stored(
    h: HeaderSeq,
    storage_ttl: Option<u64>,
    subgraph_ttl: Option<u64>,
    has_data: bool,
    has_errors: bool,
    key: Seq<char>,
)
    ensures
        answer_control(h, storage_ttl).no_store ==> root_store(
            subgraph_ttl,
            has_data,
            has_errors,
            answer_control(h, storage_ttl),
            key,
        ) is None,
        values_of(h, CACHE_CONTROL@).len() == 0 ==> answer_control(h, storage_ttl)
            == CacheControl::spec_no_store(),
{
}

} // verus!
