//! The entity path: an `_entities` request is split into the entities that
//! the store holds and those that the subgraph has to resolve, and the two
//! answers are merged in the order of the request.

use crate::cache_control::least;
use crate::cache_control::CacheControl;
use crate::entry::entry_view;
use crate::entry::errors_view;
use crate::entry::path_view;
use crate::entry::payloads;
use crate::entry::CacheEntry;
use crate::entry::EntryView;
use crate::entry::ErrorView;
use crate::entry::GraphError;
use crate::entry::PathElement;
use crate::entry::PathElementView;
use crate::keys::all_typed;
use crate::keys::texts;
use crate::keys::typename_text;
use crate::keys::RequestError;
use crate::metrics::count_entities;
use crate::metrics::counts_of;
use crate::metrics::CacheSubgraph;
use crate::request::representations_view;
use crate::request::text_of;
use crate::request::CacheRequest;
use crate::request::Representation;
use crate::request::RepresentationsVariable;
use crate::request::RepresentationView;
use crate::request::Typename;
use vstd::prelude::*;
use vstd::slice::slice_to_vec;
use vstd::string::*;

verus! {

/// The name of the member of a response's data that holds the entities.
pub const ENTITIES: &'static str = "_entities";

/// The name of the variable that holds the representations.
pub const REPRESENTATIONS: &'static str = "representations";

/// What is known of one representation after the store was asked.
#[derive(Clone, Debug, PartialEq, Eq)]
pub struct IntermediateResult {
    /// The key of the entity.
    pub key: String,
    /// The type name of the entity.
    pub typename: String,
    /// The entry that the store holds for it, if it is fresh.
    pub cache_entry: Option<CacheEntry>,
}

/// The mathematical content of an [`IntermediateResult`].
pub ghost struct IntermediateView {
    pub key: Seq<char>,
    pub typename: Seq<char>,
    pub cache_entry: Option<EntryView>,
}

impl View for IntermediateResult {
    type V = IntermediateView;

    open spec fn view(&self) -> IntermediateView {
        IntermediateView {
            key: self.key@,
            typename: self.typename@,
            cache_entry: entry_view(self.cache_entry),
        }
    }
}

/// The content of each intermediate result of a list.
pub open spec fn intermediate_view(r: Seq<IntermediateResult>) -> Seq<IntermediateView> {
    Seq::new(r.len(), |i: int| r[i]@)
}

/// The content of each answer of the store.
pub open spec fn found_view(found: Seq<Option<CacheEntry>>) -> Seq<Option<EntryView>> {
    Seq::new(found.len(), |i: int| entry_view(found[i]))
}

/// An entry counts as a hit only while it is fresh.
pub open spec fn usable(e: Option<EntryView>) -> Option<EntryView> {
    match e {
        Some(x) => if x.control.spec_can_use() {
            Some(x)
        } else {
            None
        },
        None => None,
    }
}

/// The hits among the answers of the store, one place for each of the `n`
/// representations. An answer of another length is of no use: every
/// representation is then a miss.
pub open spec fn usable_hits(found: Seq<Option<EntryView>>, n: nat) -> Seq<Option<EntryView>> {
    Seq::new(
        n,
        |i: int|
            if found.len() == n {
                usable(found[i])
            } else {
                None
            },
    )
}

/// The representations among the first `n` that the store has no fresh entry
/// for, in their order.
pub open spec fn misses(
    reps: Seq<RepresentationView>,
    hits: Seq<Option<EntryView>>,
    n: int,
) -> Seq<RepresentationView>
    decreases n,
{
    if n <= 0 || n > reps.len() || n > hits.len() {
        Seq::empty()
    } else if hits[n - 1] is None {
        misses(reps, hits, n - 1).push(reps[n - 1])
    } else {
        misses(reps, hits, n - 1)
    }
}

/// The directives of the first `n` hits, merged; none where there is no hit.
pub open spec fn merged_hits(hits: Seq<Option<EntryView>>, n: int) -> Option<CacheControl>
    decreases n,
{
    if n <= 0 || n > hits.len() {
        None
    } else {
        match hits[n - 1] {
            None => merged_hits(hits, n - 1),
            Some(e) => match merged_hits(hits, n - 1) {
                None => Some(e.control),
                Some(c) => Some(c.spec_merge(&e.control)),
            },
        }
    }
}

/// What is known of each representation: its key, its type name and its hit.
pub open spec fn intermediates(
    reps: Seq<RepresentationView>,
    keys: Seq<Seq<char>>,
    hits: Seq<Option<EntryView>>,
) -> Seq<IntermediateView> {
    Seq::new(
        reps.len(),
        |i: int|
            IntermediateView {
                key: keys[i],
                typename: typename_text(reps[i].typename),
                cache_entry: hits[i],
            },
    )
}

/// A request split by what the store holds.
#[derive(Debug, PartialEq, Eq)]
pub struct Filtered {
    /// The representations that the subgraph has to resolve.
    pub new_representations: Vec<Representation>,
    /// What is known of every representation, in the order of the request.
    pub result: Vec<IntermediateResult>,
    /// The merged directives of the hits; none where there is no hit.
    pub cache_control: Option<CacheControl>,
    /// The hits and the misses, counted by type.
    pub metrics: CacheSubgraph,
}

fn typename_of(representation: &Representation) -> (name: Option<String>)
    ensures
        match name {
            Some(t) => !(representation@.typename is Missing) && t@ == typename_text(
                representation@.typename,
            ),
            None => representation@.typename is Missing,
        },
{
    match &representation.typename {
        Typename::Missing => None,
        Typename::NotText => Some(String::from_str("-")),
        Typename::Text(t) => Some(t.clone()),
    }
}

fn merge_hit(so_far: Option<CacheControl>, control: &CacheControl) -> (merged: Option<CacheControl>)
    ensures
        merged == Some(
            match so_far {
                None => *control,
                Some(c) => c.spec_merge(control),
            },
        ),
{
    match so_far {
        None => Some(*control),
        Some(c) => Some(c.merge(control)),
    }
}

/// Splits the representations of a request by the answers of the store:
/// the ones without a fresh entry are to be sent on, and for every one the
/// key, the type name and the hit are kept, in the order of the request.
pub fn filter_representations(
    representations: Vec<Representation>,
    keys: Vec<String>,
    cache_result: Vec<Option<CacheEntry>>,
) -> (filtered: Result<Filtered, RequestError>)
    requires
        keys@.len() == representations@.len(),
    ensures
        match filtered {
            Ok(f) => {
                let reps = representations_view(representations@);
                let hits = usable_hits(found_view(cache_result@), reps.len());
                &&& all_typed(reps)
                &&& representations_view(f.new_representations@) == misses(reps, hits, reps.len() as int)
                &&& intermediate_view(f.result@) == intermediates(reps, texts(keys@), hits)
                &&& f.cache_control == merged_hits(hits, reps.len() as int)
                &&& counts_of(
                    f.metrics.0@,
                    intermediates(reps, texts(keys@), hits),
                    reps.len() as int,
                )
            },
            Err(e) => {
                &&& e == RequestError::MissingTypename
                &&& !all_typed(representations_view(representations@))
            },
        },
{
    let n = representations.len();
    let ghost reps = representations_view(representations@);
    let ghost found = found_view(cache_result@);
    let ghost hits = usable_hits(found, reps.len());
    let mut result: Vec<IntermediateResult> = Vec::new();
    let mut cache_control: Option<CacheControl> = None;
    if cache_result.len() == n {
        let ghost answers = cache_result@;
        for entry in it: cache_result
            invariant
                it.seq() == answers,
                found == found_view(answers),
                answers.len() == n,
                n == representations@.len(),
                n == keys@.len(),
                reps == representations_view(representations@),
                hits == usable_hits(found, reps.len()),
                result@.len() == it.index(),
                forall|k: int| 0 <= k < it.index() ==> !((#[trigger] reps[k]).typename is Missing),
                forall|k: int|
                    0 <= k < it.index() ==> (#[trigger] result@[k])@ == (IntermediateView {
                        key: keys@[k]@,
                        typename: typename_text(reps[k].typename),
                        cache_entry: hits[k],
                    }),
                cache_control == merged_hits(hits, it.index() as int),
        {
            let i = result.len();
            assert(reps[i as int] == representations@[i as int]@);
            assert(found[i as int] == entry_view(entry));
            let typename = match typename_of(&representations[i]) {
                Some(t) => t,
                None => {
                    return Err(RequestError::MissingTypename);
                },
            };
            let hit = match entry {
                Some(e) => if e.control.can_use() {
                    Some(e)
                } else {
                    None
                },
                None => None,
            };
            assert(entry_view(hit) == hits[i as int]);
            match &hit {
                Some(e) => {
                    cache_control = merge_hit(cache_control, &e.control);
                },
                None => {},
            }
            result.push(IntermediateResult { key: keys[i].clone(), typename, cache_entry: hit });
        }
    } else {
        let mut i: usize = 0;
        while i < n
            invariant
                i <= n,
                n == representations@.len(),
                n == keys@.len(),
                cache_result@.len() != n,
                found == found_view(cache_result@),
                reps == representations_view(representations@),
                hits == usable_hits(found, reps.len()),
                result@.len() == i,
                forall|k: int| 0 <= k < i ==> !((#[trigger] reps[k]).typename is Missing),
                forall|k: int|
                    0 <= k < i ==> (#[trigger] result@[k])@ == (IntermediateView {
                        key: keys@[k]@,
                        typename: typename_text(reps[k].typename),
                        cache_entry: hits[k],
                    }),
                cache_control == merged_hits(hits, i as int),
            decreases n - i,
        {
            assert(reps[i as int] == representations@[i as int]@);
            let typename = match typename_of(&representations[i]) {
                Some(t) => t,
                None => {
                    return Err(RequestError::MissingTypename);
                },
            };
            result.push(IntermediateResult { key: keys[i].clone(), typename, cache_entry: None });
            i += 1;
        }
    }
    assert(intermediate_view(result@) =~= intermediates(reps, texts(keys@), hits));
    let mut new_representations: Vec<Representation> = Vec::new();
    let ghost all = representations@;
    let mut j: usize = 0;
    for representation in it: representations
        invariant
            it.seq() == all,
            reps == representations_view(all),
            hits.len() == all.len(),
            result@.len() == all.len(),
            j == it.index(),
            forall|k: int| 0 <= k < result@.len() ==> (#[trigger] result@[k])@.cache_entry == hits[k],
            representations_view(new_representations@) == misses(reps, hits, j as int),
    {
        assert(reps[j as int] == representation@);
        assert(j < result.len());
        if result[j].cache_entry.is_none() {
            let ghost before = new_representations@;
            new_representations.push(representation);
            assert(representations_view(new_representations@) =~= representations_view(before).push(
                representation@,
            ));
        }
        j += 1;
    }
    let metrics = count_entities(&result);
    assert(intermediate_view(result@).len() == reps.len());
    Ok(Filtered { new_representations, result, cache_control, metrics })
}

/// Why the answer of a subgraph could not be merged.
#[derive(Debug, Clone, Copy, PartialEq, Eq)]
pub enum ResponseError {
    /// The subgraph sent fewer entities than it was asked for.
    InvalidNumberOfEntities,
    /// The `_entities` member of the answer is no list.
    ExpectedArrayOfEntities,
}

/// An entry to be written to the store.
#[derive(Clone, Debug, PartialEq, Eq)]
pub struct StoreWrite {
    pub key: String,
    pub entry: CacheEntry,
}

/// The mathematical content of a [`StoreWrite`].
pub ghost struct WriteView {
    pub key: Seq<char>,
    pub entry: EntryView,
}

impl View for StoreWrite {
    type V = WriteView;

    open spec fn view(&self) -> WriteView {
        WriteView { key: self.key@, entry: self.entry@ }
    }
}

/// The content of each write of a list.
pub open spec fn writes_view(w: Seq<StoreWrite>) -> Seq<WriteView> {
    Seq::new(w.len(), |i: int| w[i]@)
}

/// The number of misses among the first `n` representations.
pub open spec fn miss_count(result: Seq<IntermediateView>, n: int) -> nat
    decreases n,
{
    if n <= 0 || n > result.len() {
        0
    } else if result[n - 1].cache_entry is None {
        miss_count(result, n - 1) + 1
    } else {
        miss_count(result, n - 1)
    }
}

/// The entity at position `i` of the merged response: the stored payload for
/// a hit; for a miss the entity that the subgraph sent at the position that
/// the miss has among the misses.
pub open spec fn merged_entity(
    result: Seq<IntermediateView>,
    entities: Seq<Seq<u8>>,
    i: int,
) -> Seq<u8> {
    match result[i].cache_entry {
        Some(e) => e.data,
        None => entities[miss_count(result, i) as int],
    }
}

/// The entities of the merged response, one for each representation.
pub open spec fn merged_entities(result: Seq<IntermediateView>, entities: Seq<Seq<u8>>) -> Seq<
    Seq<u8>,
> {
    Seq::new(result.len(), |i: int| merged_entity(result, entities, i))
}

/// The error belongs to the entity at position `k` of the list it came with:
/// its path begins with `_entities` and `k`.
pub open spec fn points_at(e: ErrorView, k: nat) -> bool {
    match e.path {
        Some(p) => p.len() >= 2 && p[0] == PathElementView::Key(ENTITIES@) && p[1]
            == PathElementView::Index(k),
        None => false,
    }
}

/// The error with the position in its path set to `to`.
pub open spec fn realigned(e: ErrorView, to: nat) -> ErrorView {
    ErrorView {
        path: match e.path {
            Some(p) => Some(p.update(1, PathElementView::Index(to))),
            None => None,
        },
        body: e.body,
    }
}

/// Those of the first `n` errors that belong to the entity at `from`, each
/// moved to position `to`, in their order.
pub open spec fn errors_at(errors: Seq<ErrorView>, from: nat, to: nat, n: int) -> Seq<ErrorView>
    decreases n,
{
    if n <= 0 || n > errors.len() {
        Seq::empty()
    } else if points_at(errors[n - 1], from) {
        errors_at(errors, from, to, n - 1).push(realigned(errors[n - 1], to))
    } else {
        errors_at(errors, from, to, n - 1)
    }
}

/// Some error belongs to the entity at position `k`.
pub open spec fn has_error_at(errors: Seq<ErrorView>, k: nat) -> bool {
    exists|j: int| 0 <= j < errors.len() && points_at(#[trigger] errors[j], k)
}

/// The errors of the merged response for the first `n` representations: for
/// each miss, in order, the errors of the entity that the subgraph sent for
/// it, moved to the position of the miss in the request.
pub open spec fn merged_errors(
    result: Seq<IntermediateView>,
    errors: Seq<ErrorView>,
    n: int,
) -> Seq<ErrorView>
    decreases n,
{
    if n <= 0 || n > result.len() {
        Seq::empty()
    } else if result[n - 1].cache_entry is None {
        merged_errors(result, errors, n - 1) + errors_at(
            errors,
            miss_count(result, n - 1),
            (n - 1) as nat,
            errors.len() as int,
        )
    } else {
        merged_errors(result, errors, n - 1)
    }
}

/// The key under which an entity is stored: the key it was looked up with,
/// and the user's scope where the answer was the first to say that the query
/// is private.
pub open spec fn stored_key(key: Seq<char>, update_key_private: Option<Seq<char>>) -> Seq<char> {
    match update_key_private {
        Some(id) => key + ":"@ + id,
        None => key,
    }
}

/// The entity at position `i` is written to the store: it came from the
/// subgraph without an error, the directives allow storing, and a private
/// answer has a scope to be stored under.
pub open spec fn is_written(
    result: Seq<IntermediateView>,
    errors: Seq<ErrorView>,
    control: CacheControl,
    should_cache_private: bool,
    i: int,
) -> bool {
    &&& result[i].cache_entry is None
    &&& !has_error_at(errors, miss_count(result, i))
    &&& control.spec_should_store()
    &&& should_cache_private
}

/// The writes for the first `n` representations, in order.
pub open spec fn writes(
    result: Seq<IntermediateView>,
    entities: Seq<Seq<u8>>,
    errors: Seq<ErrorView>,
    control: CacheControl,
    update_key_private: Option<Seq<char>>,
    should_cache_private: bool,
    n: int,
) -> Seq<WriteView>
    decreases n,
{
    if n <= 0 || n > result.len() {
        Seq::empty()
    } else {
        let before = writes(
            result,
            entities,
            errors,
            control,
            update_key_private,
            should_cache_private,
            n - 1,
        );
        if is_written(result, errors, control, should_cache_private, n - 1) {
            before.push(
                WriteView {
                    key: stored_key(result[n - 1].key, update_key_private),
                    entry: EntryView {
                        control,
                        data: entities[miss_count(result, n - 1) as int],
                    },
                },
            )
        } else {
            before
        }
    }
}

/// The merged response and what is to be written to the store.
#[derive(Debug, PartialEq, Eq)]
pub struct Merged {
    /// The entities, one for each representation of the request.
    pub new_entities: Vec<Vec<u8>>,
    /// The errors of the subgraph's entities, at their merged positions.
    pub new_errors: Vec<GraphError>,
    /// The entries to write.
    pub to_insert: Vec<StoreWrite>,
    /// The seconds after which the store is to drop them.
    pub ttl: Option<u64>,
}

/// The number of misses does not shrink along the request.
pub proof fn lemma_miss_count_grows(result: Seq<IntermediateView>, a: int, b: int)
    requires
        0 <= a <= b <= result.len(),
    ensures
        miss_count(result, a) <= miss_count(result, b),
    decreases b - a,
{
    if a < b {
        lemma_miss_count_grows(result, a, b - 1);
    }
}

fn reversed(list: Vec<Vec<u8>>) -> (back: Vec<Vec<u8>>)
    ensures
        back@.len() == list@.len(),
        forall|i: int| 0 <= i < back@.len() ==> #[trigger] back@[i] == list@[list@.len() - 1 - i],
{
    let mut rest = list;
    let mut back: Vec<Vec<u8>> = Vec::new();
    while rest.len() > 0
        invariant
            rest@.len() + back@.len() == list@.len(),
            rest@ == list@.take(rest@.len() as int),
            forall|i: int| 0 <= i < back@.len() ==> #[trigger] back@[i] == list@[list@.len() - 1 - i],
        decreases rest@.len(),
    {
        let ghost before = rest@;
        let item = rest.pop().unwrap();
        assert(item == before[before.len() - 1]);
        assert(rest@ =~= list@.take(rest@.len() as int));
        back.push(item);
    }
    back
}

fn points_to(error: &GraphError, position: usize) -> (yes: bool)
    ensures
        yes == points_at(error@, position as nat),
{
    match &error.path {
        None => false,
        Some(p) => {
            if p.len() < 2 {
                return false;
            }
            assert(path_view(p@)[0] == p@[0]@);
            assert(path_view(p@)[1] == p@[1]@);
            let first = match &p[0] {
                PathElement::Key(k) => crate::text::same_text(k.as_str(), ENTITIES),
                _ => false,
            };
            let second = match &p[1] {
                PathElement::Index(i) => *i == position,
                _ => false,
            };
            first && second
        },
    }
}

fn moved_to(error: &GraphError, position: usize) -> (copy: GraphError)
    requires
        error@.path is Some,
        error@.path->0.len() >= 2,
    ensures
        copy@ == realigned(error@, position as nat),
{
    let body = slice_to_vec(error.body.as_slice());
    match &error.path {
        Some(p) => {
            let mut path: Vec<PathElement> = Vec::new();
            let mut i: usize = 0;
            while i < p.len()
                invariant
                    i <= p@.len(),
                    path@.len() == i,
                    forall|k: int|
                        0 <= k < i ==> (#[trigger] path@[k])@ == if k == 1 {
                            PathElementView::Index(position as nat)
                        } else {
                            p@[k]@
                        },
                decreases p@.len() - i,
            {
                if i == 1 {
                    path.push(PathElement::Index(position));
                } else {
                    path.push(p[i].clone());
                }
                i += 1;
            }
            assert(path_view(path@) =~= path_view(p@).update(
                1,
                PathElementView::Index(position as nat),
            ));
            GraphError { path: Some(path), body }
        },
        None => GraphError { path: None, body },
    }
}

fn collect_errors(errors: &Vec<GraphError>, from: usize, to: usize, out: &mut Vec<GraphError>) -> (found:
    bool)
    ensures
        errors_view(final(out)@) == errors_view(old(out)@) + errors_at(
            errors_view(errors@),
            from as nat,
            to as nat,
            errors@.len() as int,
        ),
        found == has_error_at(errors_view(errors@), from as nat),
{
    let ghost all = errors_view(errors@);
    let mut found = false;
    let mut i: usize = 0;
    assert(errors_view(out@) =~= errors_view(old(out)@) + Seq::<ErrorView>::empty());
    while i < errors.len()
        invariant
            i <= errors@.len(),
            all == errors_view(errors@),
            errors_view(out@) == errors_view(old(out)@) + errors_at(all, from as nat, to as nat, i as int),
            found == exists|j: int| 0 <= j < i && points_at(#[trigger] all[j], from as nat),
        decreases errors@.len() - i,
    {
        assert(all[i as int] == errors@[i as int]@);
        if points_to(&errors[i], from) {
            let ghost before = out@;
            out.push(moved_to(&errors[i], to));
            assert(errors_view(out@) =~= errors_view(before).push(realigned(all[i as int], to as nat)));
            assert(errors_view(out@) =~= errors_view(old(out)@) + errors_at(
                all,
                from as nat,
                to as nat,
                i + 1,
            ));
            found = true;
        }
        i += 1;
    }
    found
}

/// Merges the entities that the subgraph sent with the hits, in the order of
/// the request, moves the errors of the subgraph's entities to their merged
/// positions, and says which entities are to be written to the store.
pub fn insert_entities_in_result(
    entities: Vec<Vec<u8>>,
    errors: &Vec<GraphError>,
    subgraph_ttl: Option<u64>,
    cache_control: CacheControl,
    result: Vec<IntermediateResult>,
    update_key_private: &Option<String>,
    should_cache_private: bool,
) -> (merged: Result<Merged, ResponseError>)
    ensures
        match merged {
            Ok(m) => {
                let r = intermediate_view(result@);
                let sent = payloads(entities@);
                let e = errors_view(errors@);
                &&& miss_count(r, r.len() as int) <= sent.len()
                &&& payloads(m.new_entities@) == merged_entities(r, sent)
                &&& errors_view(m.new_errors@) == merged_errors(r, e, r.len() as int)
                &&& writes_view(m.to_insert@) == writes(
                    r,
                    sent,
                    e,
                    cache_control,
                    text_of(*update_key_private),
                    should_cache_private,
                    r.len() as int,
                )
                &&& m.ttl == least(cache_control.spec_ttl(), subgraph_ttl)
            },
            Err(e) => {
                &&& e == ResponseError::InvalidNumberOfEntities
                &&& miss_count(intermediate_view(result@), result@.len() as int) > entities@.len()
            },
        },
{
    let ttl = match (cache_control.ttl(), subgraph_ttl) {
        (None, None) => None,
        (Some(x), None) => Some(x),
        (None, Some(y)) => Some(y),
        (Some(x), Some(y)) => Some(if x <= y { x } else { y }),
    };
    let ghost r = intermediate_view(result@);
    let ghost sent = payloads(entities@);
    let ghost e = errors_view(errors@);
    let ghost id = text_of(*update_key_private);
    let ghost all = result@;
    let count = entities.len();
    let ghost total = entities@.len();
    assert(total == count);
    let mut upstream = reversed(entities);
    let mut new_entities: Vec<Vec<u8>> = Vec::new();
    let mut new_errors: Vec<GraphError> = Vec::new();
    let mut to_insert: Vec<StoreWrite> = Vec::with_capacity(count);
    let mut rank: usize = 0;
    assert(errors_view(new_errors@) =~= Seq::<ErrorView>::empty());
    assert(writes_view(to_insert@) =~= Seq::<WriteView>::empty());
    for item in it: result
        invariant
            it.seq() == all,
            r == intermediate_view(all),
            sent == payloads(entities@),
            sent.len() == total,
            e == errors_view(errors@),
            id == text_of(*update_key_private),
            rank == miss_count(r, it.index() as int),
            rank <= total,
            total <= usize::MAX,
            upstream@.len() == total - rank,
            forall|i: int|
                0 <= i < upstream@.len() ==> (#[trigger] upstream@[i])@ == sent[total - 1 - i],
            new_entities@.len() == it.index(),
            forall|i: int|
                0 <= i < it.index() ==> (#[trigger] new_entities@[i])@ == merged_entity(r, sent, i),
            errors_view(new_errors@) == merged_errors(r, e, it.index() as int),
            writes_view(to_insert@) == writes(
                r,
                sent,
                e,
                cache_control,
                id,
                should_cache_private,
                it.index() as int,
            ),
    {
        let position = new_entities.len();
        assert(r[position as int] == item@);
        let IntermediateResult { key, typename: _, cache_entry } = item;
        match cache_entry {
            Some(entry) => {
                new_entities.push(entry.data);
            },
            None => {
                let value = match upstream.pop() {
                    Some(v) => v,
                    None => {
                        proof {
                            lemma_miss_count_grows(r, position + 1, r.len() as int);
                        }
                        return Err(ResponseError::InvalidNumberOfEntities);
                    },
                };
                assert(value@ == sent[rank as int]);
                let mut key = key;
                match update_key_private {
                    Some(scope) => {
                        key.append(":");
                        key.append(scope.as_str());
                    },
                    None => {},
                }
                assert(key@ =~= stored_key(r[position as int].key, id));
                let has_errors = collect_errors(errors, rank, position, &mut new_errors);
                if !has_errors && cache_control.should_store() && should_cache_private {
                    let ghost before = to_insert@;
                    to_insert.push(
                        StoreWrite {
                            key,
                            entry: CacheEntry {
                                control: cache_control,
                                data: slice_to_vec(value.as_slice()),
                            },
                        },
                    );
                    assert(writes_view(to_insert@) =~= writes_view(before).push(
                        WriteView {
                            key: stored_key(r[position as int].key, id),
                            entry: EntryView { control: cache_control, data: sent[rank as int] },
                        },
                    ));
                }
                new_entities.push(value);
                rank += 1;
            },
        }
    }
    assert(payloads(new_entities@) =~= merged_entities(r, sent));
    Ok(Merged { new_entities, new_errors, to_insert, ttl })
}

/// What the store's answers mean for an `_entities` request.
#[derive(Debug, PartialEq, Eq)]
pub enum EntityLookup {
    /// Every entity is at hand: this is the response, and the subgraph is
    /// not asked.
    Hit {
        /// The entities, one for each representation of the request.
        entities: Vec<Vec<u8>>,
        /// The directives of the response.
        control: CacheControl,
        /// The hits, counted by type.
        metrics: CacheSubgraph,
    },
    /// Some entities are missing: the subgraph is asked for them.
    Miss {
        /// The representations to send on.
        new_representations: Vec<Representation>,
        /// What is known of every representation.
        result: Vec<IntermediateResult>,
        /// The merged directives of the hits; none where there is no hit.
        cache_control: Option<CacheControl>,
        /// The hits and the misses, counted by type.
        metrics: CacheSubgraph,
    },
}

/// The payload of every intermediate result is that of its entry.
pub open spec fn hit_payloads(r: Seq<IntermediateView>) -> Seq<Seq<u8>> {
    Seq::new(
        r.len(),
        |i: int|
            match r[i].cache_entry {
                Some(e) => e.data,
                None => Seq::empty(),
            },
    )
}

fn take_payloads(result: Vec<IntermediateResult>) -> (entities: Vec<Vec<u8>>)
    requires
        forall|i: int| 0 <= i < result@.len() ==> (#[trigger] result@[i]).cache_entry is Some,
    ensures
        payloads(entities@) == hit_payloads(intermediate_view(result@)),
{
    let ghost all = result@;
    let ghost r = intermediate_view(result@);
    let mut entities: Vec<Vec<u8>> = Vec::new();
    for item in it: result
        invariant
            it.seq() == all,
            r == intermediate_view(all),
            forall|i: int| 0 <= i < all.len() ==> (#[trigger] all[i]).cache_entry is Some,
            entities@.len() == it.index(),
            forall|i: int| 0 <= i < it.index() ==> (#[trigger] entities@[i])@ == hit_payloads(r)[i],
    {
        let ghost i = entities@.len() as int;
        assert(r[i] == item@);
        assert(all[i].cache_entry is Some);
        match item.cache_entry {
            Some(entry) => {
                entities.push(entry.data);
            },
            None => {},
        }
    }
    assert(payloads(entities@) =~= hit_payloads(r));
    entities
}

/// Every one of the first `n` representations has a hit.
pub open spec fn all_hit(hits: Seq<Option<EntryView>>, n: int) -> bool {
    forall|i: int| 0 <= i < n ==> (#[trigger] hits[i]) is Some
}

/// Where every representation has a hit, none is a miss.
pub proof fn lemma_no_miss_iff_all_hit(
    reps: Seq<RepresentationView>,
    hits: Seq<Option<EntryView>>,
    n: int,
)
    requires
        0 <= n <= reps.len(),
        n <= hits.len(),
    ensures
        (misses(reps, hits, n).len() == 0) == all_hit(hits, n),
    decreases n,
{
    if n > 0 {
        lemma_no_miss_iff_all_hit(reps, hits, n - 1);
        if all_hit(hits, n) {
            assert(hits[n - 1] is Some);
        }
        if misses(reps, hits, n).len() == 0 {
            assert forall|i: int| 0 <= i < n implies (#[trigger] hits[i]) is Some by {
                if i < n - 1 {
                    assert(all_hit(hits, n - 1));
                }
            }
        }
    }
}

/// Decides from the answers of the store whether an `_entities` request can
/// be answered at once. It can where no representation is a miss: the
/// response then holds the stored payloads in the order of the request, under
/// the merged directives of the entries (`no-store` where the request asks
/// for no entity at all).
pub fn cache_lookup_entities(
    representations: Vec<Representation>,
    keys: Vec<String>,
    cache_result: Vec<Option<CacheEntry>>,
) -> (lookup: Result<EntityLookup, RequestError>)
    requires
        keys@.len() == representations@.len(),
    ensures
        match lookup {
            Ok(EntityLookup::Hit { entities, control, metrics }) => {
                let reps = representations_view(representations@);
                let hits = usable_hits(found_view(cache_result@), reps.len());
                &&& all_typed(reps)
                &&& all_hit(hits, reps.len() as int)
                &&& payloads(entities@) == hit_payloads(intermediates(reps, texts(keys@), hits))
                &&& control == match merged_hits(hits, reps.len() as int) {
                    Some(c) => c,
                    None => CacheControl::spec_no_store(),
                }
                &&& counts_of(
                    metrics.0@,
                    intermediates(reps, texts(keys@), hits),
                    reps.len() as int,
                )
            },
            Ok(EntityLookup::Miss { new_representations, result, cache_control, metrics }) => {
                let reps = representations_view(representations@);
                let hits = usable_hits(found_view(cache_result@), reps.len());
                &&& all_typed(reps)
                &&& !all_hit(hits, reps.len() as int)
                &&& new_representations@.len() > 0
                &&& representations_view(new_representations@) == misses(reps, hits, reps.len() as int)
                &&& intermediate_view(result@) == intermediates(reps, texts(keys@), hits)
                &&& cache_control == merged_hits(hits, reps.len() as int)
                &&& counts_of(
                    metrics.0@,
                    intermediates(reps, texts(keys@), hits),
                    reps.len() as int,
                )
            },
            Err(e) => {
                &&& e == RequestError::MissingTypename
                &&& !all_typed(representations_view(representations@))
            },
        },
{
    let ghost reps = representations_view(representations@);
    let ghost hits = usable_hits(found_view(cache_result@), reps.len());
    match filter_representations(representations, keys, cache_result) {
        Err(e) => Err(e),
        Ok(filtered) => {
            proof {
                lemma_no_miss_iff_all_hit(reps, hits, reps.len() as int);
            }
            let Filtered { new_representations, result, cache_control, metrics } = filtered;
            if new_representations.len() > 0 {
                Ok(EntityLookup::Miss { new_representations, result, cache_control, metrics })
            } else {
                assert(representations_view(new_representations@).len() == 0);
                assert(all_hit(hits, reps.len() as int));
                assert(intermediate_view(result@).len() == reps.len());
                assert forall|i: int| 0 <= i < result@.len() implies (#[trigger] result@[i]).cache_entry is Some by {
                    assert(intermediate_view(result@)[i] == result@[i]@);
                    assert(hits[i] is Some);
                }
                let entities = take_payloads(result);
                let control = match cache_control {
                    Some(c) => c,
                    None => CacheControl::no_store(),
                };
                Ok(EntityLookup::Hit { entities, control, metrics })
            }
        },
    }
}

/// The `_entities` member of the data of a subgraph's answer.
#[derive(Debug, PartialEq, Eq)]
pub enum EntitiesField {
    /// The answer has no data, or its data has no such member.
    Absent,
    /// The member is no list.
    NotAList,
    /// The entities that the subgraph sent.
    List(Vec<Vec<u8>>),
}

/// The directives of the response to an `_entities` request: those of the
/// subgraph's answer, merged with those of the hits.
pub open spec fn entity_response_control(
    answer: CacheControl,
    cached: Option<CacheControl>,
) -> CacheControl {
    match cached {
        Some(c) => answer.spec_merge(&c),
        None => answer,
    }
}

/// The scope to add to the keys of a response that is the first to say that
/// its query is private.
pub open spec fn key_update(
    is_known_private: bool,
    control: CacheControl,
    private_id: Option<Seq<char>>,
) -> Option<Seq<char>> {
    if !is_known_private && control.private {
        private_id
    } else {
        None
    }
}

/// A private response can be stored only under a user's scope.
pub open spec fn may_cache_private(control: CacheControl, private_id: Option<Seq<char>>) -> bool {
    !control.private || private_id is Some
}

/// Merges the answer of the subgraph into the response to an `_entities`
/// request and says what is to be written to the store. An answer without
/// an `_entities` member is left as it is: nothing is merged or written.
pub fn cache_store_entities_from_response(
    subgraph_ttl: Option<u64>,
    entities: EntitiesField,
    errors: &Vec<GraphError>,
    cache_control: CacheControl,
    result_from_cache: Vec<IntermediateResult>,
    is_known_private: bool,
    private_id: &Option<String>,
) -> (stored: Result<Option<Merged>, ResponseError>)
    ensures
        match entities {
            EntitiesField::Absent => stored == Ok::<Option<Merged>, ResponseError>(None),
            EntitiesField::NotAList => stored == Err::<Option<Merged>, ResponseError>(
                ResponseError::ExpectedArrayOfEntities,
            ),
            EntitiesField::List(sent) => {
                let r = intermediate_view(result_from_cache@);
                let e = errors_view(errors@);
                let id = text_of(*private_id);
                match stored {
                    Ok(Some(m)) => {
                        &&& miss_count(r, r.len() as int) <= sent@.len()
                        &&& payloads(m.new_entities@) == merged_entities(r, payloads(sent@))
                        &&& errors_view(m.new_errors@) == merged_errors(r, e, r.len() as int)
                        &&& writes_view(m.to_insert@) == writes(
                            r,
                            payloads(sent@),
                            e,
                            cache_control,
                            key_update(is_known_private, cache_control, id),
                            may_cache_private(cache_control, id),
                            r.len() as int,
                        )
                        &&& m.ttl == least(cache_control.spec_ttl(), subgraph_ttl)
                    },
                    Ok(None) => false,
                    Err(e) => {
                        &&& e == ResponseError::InvalidNumberOfEntities
                        &&& miss_count(r, r.len() as int) > sent@.len()
                    },
                }
            },
        },
{
    match entities {
        EntitiesField::Absent => Ok(None),
        EntitiesField::NotAList => Err(ResponseError::ExpectedArrayOfEntities),
        EntitiesField::List(sent) => {
            let should_cache_private = !cache_control.private() || private_id.is_some();
            let no_update: Option<String> = None;
            let update_key_private = if !is_known_private && cache_control.private() {
                private_id
            } else {
                &no_update
            };
            match insert_entities_in_result(
                sent,
                errors,
                subgraph_ttl,
                cache_control,
                result_from_cache,
                update_key_private,
                should_cache_private,
            ) {
                Ok(m) => Ok(Some(m)),
                Err(e) => Err(e),
            }
        },
    }
}

/// Where the directives forbid storing, nothing is written.
pub proof fn lemma_no_store_writes_nothing(
    result: Seq<IntermediateView>,
    entities: Seq<Seq<u8>>,
    errors: Seq<ErrorView>,
    control: CacheControl,
    update_key_private: Option<Seq<char>>,
    should_cache_private: bool,
    n: int,
)
    requires
        control.no_store,
    ensures
        writes(result, entities, errors, control, update_key_private, should_cache_private, n).len()
            == 0,
    decreases n,
{
    if 0 < n <= result.len() {
        lemma_no_store_writes_nothing(
            result,
            entities,
            errors,
            control,
            update_key_private,
            should_cache_private,
            n - 1,
        );
    }
}

/// A private response without a user's scope is not written.
pub proof fn lemma_private_without_scope_writes_nothing(
    result: Seq<IntermediateView>,
    entities: Seq<Seq<u8>>,
    errors: Seq<ErrorView>,
    control: CacheControl,
    is_known_private: bool,
    n: int,
)
    requires
        control.private,
    ensures
        writes(
            result,
            entities,
            errors,
            control,
            key_update(is_known_private, control, None),
            may_cache_private(control, None),
            n,
        ).len() == 0,
    decreases n,
{
    if 0 < n <= result.len() {
        lemma_private_without_scope_writes_nothing(
            result,
            entities,
            errors,
            control,
            is_known_private,
            n - 1,
        );
    }
}

/// The residual request holds one representation for each miss, and the miss
/// at position `i` of the request stands in it at the position that
/// `miss_count` gives.
pub proof fn lemma_miss_positions(
    reps: Seq<RepresentationView>,
    keys: Seq<Seq<char>>,
    hits: Seq<Option<EntryView>>,
    n: int,
)
    requires
        hits.len() == reps.len(),
        0 <= n <= reps.len(),
    ensures
        misses(reps, hits, n).len() == miss_count(intermediates(reps, keys, hits), n),
        forall|i: int|
            0 <= i < n && (#[trigger] hits[i]) is None ==> misses(reps, hits, n)[miss_count(
                intermediates(reps, keys, hits),
                i,
            ) as int] == reps[i],
    decreases n,
{
    let r = intermediates(reps, keys, hits);
    if n > 0 {
        lemma_miss_positions(reps, keys, hits, n - 1);
        assert(r[n - 1].cache_entry == hits[n - 1]);
        assert forall|i: int| 0 <= i < n && (#[trigger] hits[i]) is None implies misses(
            reps,
            hits,
            n,
        )[miss_count(r, i) as int] == reps[i] by {
            if i < n - 1 {
                lemma_miss_count_grows(r, i + 1, n - 1);
                assert(r[i].cache_entry == hits[i]);
            }
        }
    }
}

/// The merged response is aligned with the request: it has one entity for
/// each representation; where the store had a fresh entry the entity is the
/// stored payload, and elsewhere it is what the subgraph sent for that
/// representation, found at the place that the representation had in the
/// residual request.
pub proof fn lemma_merged_response_aligned(
    reps: Seq<RepresentationView>,
    keys: Seq<Seq<char>>,
    found: Seq<Option<EntryView>>,
    entities: Seq<Seq<u8>>,
)
    ensures
        ({
            let hits = usable_hits(found, reps.len());
            let r = intermediates(reps, keys, hits);
            let residual = misses(reps, hits, reps.len() as int);
            &&& merged_entities(r, entities).len() == reps.len()
            &&& residual.len() == miss_count(r, reps.len() as int)
            &&& forall|i: int|
                0 <= i < reps.len() ==> match #[trigger] hits[i] {
                    Some(e) => merged_entities(r, entities)[i] == e.data,
                    None => {
                        let k = miss_count(r, i) as int;
                        &&& 0 <= k < residual.len()
                        &&& residual[k] == reps[i]
                        &&& merged_entities(r, entities)[i] == entities[k]
                    },
                }
        }),
{
    let hits = usable_hits(found, reps.len());
    let r = intermediates(reps, keys, hits);
    lemma_miss_positions(reps, keys, hits, reps.len() as int);
    assert forall|i: int| 0 <= i < reps.len() && (#[trigger] hits[i]) is None implies miss_count(
        r,
        i,
    ) < miss_count(r, reps.len() as int) by {
        assert(r[i].cache_entry == hits[i]);
        lemma_miss_count_grows(r, i + 1, reps.len() as int);
    }
    assert forall|i: int| 0 <= i < reps.len() implies match #[trigger] hits[i] {
        Some(e) => merged_entities(r, entities)[i] == e.data,
        None => {
            let k = miss_count(r, i) as int;
            &&& 0 <= k < misses(reps, hits, reps.len() as int).len()
            &&& misses(reps, hits, reps.len() as int)[k] == reps[i]
            &&& merged_entities(r, entities)[i] == entities[k]
        },
    } by {
        assert(r[i].cache_entry == hits[i]);
    }
}

/// The realigned errors of one entity are among the merged errors.
proof fn lemma_errors_at_holds(errors: Seq<ErrorView>, from: nat, to: nat, n: int, j: int)
    requires
        0 <= j < n <= errors.len(),
        points_at(errors[j], from),
    ensures
        errors_at(errors, from, to, n).contains(realigned(errors[j], to)),
    decreases n,
{
    if j == n - 1 {
        let s = errors_at(errors, from, to, n);
        assert(s[s.len() - 1] == realigned(errors[j], to));
    } else {
        lemma_errors_at_holds(errors, from, to, n - 1, j);
        let before = errors_at(errors, from, to, n - 1);
        let k = choose|k: int| 0 <= k < before.len() && before[k] == realigned(errors[j], to);
        assert(errors_at(errors, from, to, n)[k] == realigned(errors[j], to));
    }
}

/// An error that the subgraph attached to the entity it sent for a miss
/// stands in the merged response at the position of that miss, and the
/// entity is not written to the store.
pub proof fn lemma_error_follows_entity(
    result: Seq<IntermediateView>,
    errors: Seq<ErrorView>,
    control: CacheControl,
    should_cache_private: bool,
    i: int,
    j: int,
    n: int,
)
    requires
        0 <= i < n <= result.len(),
        result[i].cache_entry is None,
        0 <= j < errors.len(),
        points_at(errors[j], miss_count(result, i)),
    ensures
        merged_errors(result, errors, n).contains(realigned(errors[j], i as nat)),
        !is_written(result, errors, control, should_cache_private, i),
    decreases n,
{
    let wanted = realigned(errors[j], i as nat);
    if i == n - 1 {
        let own = errors_at(errors, miss_count(result, i), i as nat, errors.len() as int);
        lemma_errors_at_holds(errors, miss_count(result, i), i as nat, errors.len() as int, j);
        let k = choose|k: int| 0 <= k < own.len() && own[k] == wanted;
        let before = merged_errors(result, errors, n - 1);
        assert(merged_errors(result, errors, n)[before.len() + k] == wanted);
    } else {
        lemma_error_follows_entity(result, errors, control, should_cache_private, i, j, n - 1);
        let before = merged_errors(result, errors, n - 1);
        let k = choose|k: int| 0 <= k < before.len() && before[k] == wanted;
        assert(merged_errors(result, errors, n)[k] == wanted);
    }
}

/// How an `_entities` request begins.
#[derive(Debug, PartialEq, Eq)]
pub enum EntityStart {
    /// The request asks for no entity: this is the response, and neither the
    /// store nor the subgraph is asked.
    Respond {
        /// The entities of the response: none.
        entities: Vec<Vec<u8>>,
        /// The directives of the response: `no-store`.
        control: CacheControl,
    },
    /// The store is to be asked for the entries under `keys`, in one go.
    Lookup {
        /// The representations of the request.
        representations: Vec<Representation>,
        /// The key of each representation, in the order of the request.
        keys: Vec<String>,
    },
}

/// The representations that a request asks for: those of the list; none
/// where the variable has no value.
pub open spec fn asked_for(variable: RepresentationsVariable) -> Seq<Representation> {
    match variable {
        RepresentationsVariable::List(r) => r@,
        _ => Seq::empty(),
    }
}

/// Begins an `_entities` request: reads the representations and derives
/// their keys. A request without any representation is answered at once,
/// with no entity and `no-store`; one whose `representations` is no list, or
/// that holds a representation without a type name, is malformed.
pub fn start_entities(
    request: &CacheRequest,
    variable: RepresentationsVariable,
    is_known_private: bool,
    private_id: &Option<String>,
) -> (start: Result<EntityStart, RequestError>)
    ensures
        match start {
            Ok(EntityStart::Respond { entities, control }) => {
                &&& !(variable is NotAList)
                &&& asked_for(variable).len() == 0
                &&& entities@.len() == 0
                &&& control == CacheControl::spec_no_store()
            },
            Ok(EntityStart::Lookup { representations, keys }) => {
                &&& variable is List
                &&& representations@.len() > 0
                &&& representations@ == asked_for(variable)
                &&& all_typed(representations_view(representations@))
                &&& texts(keys@) == crate::keys::entity_keys(
                    request@,
                    representations_view(representations@),
                    is_known_private,
                    text_of(*private_id),
                )
            },
            Err(e) => if variable is NotAList {
                e == RequestError::RepresentationsNotAList
            } else {
                &&& e == RequestError::MissingTypename
                &&& !all_typed(representations_view(asked_for(variable)))
            },
        },
{
    match variable {
        RepresentationsVariable::NotAList => Err(RequestError::RepresentationsNotAList),
        RepresentationsVariable::Absent => Ok(
            EntityStart::Respond { entities: Vec::new(), control: CacheControl::no_store() },
        ),
        RepresentationsVariable::List(representations) => {
            if representations.len() == 0 {
                return Ok(
                    EntityStart::Respond { entities: Vec::new(), control: CacheControl::no_store() },
                );
            }
            match crate::keys::extract_cache_keys(
                request,
                &representations,
                is_known_private,
                private_id,
            ) {
                Ok(keys) => Ok(EntityStart::Lookup { representations, keys }),
                Err(e) => Err(e),
            }
        },
    }
}

} // verus!
