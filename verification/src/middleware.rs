//! How a subgraph request goes through the cache, and how the cache is set
//! up for a subgraph.
//!
//! The cache never talks to the store or to the subgraph itself. Its caller
//! does, and asks the cache at each turn what to do next:
//!
//! 1. `subgraph_service` says whether the cache is on for the subgraph, and
//!    `route_for` picks the way of the request: past the cache where it is
//!    off, and as `route` says where it is on.
//! 2. On the root path the caller reads the key of `extract_cache_key_root`
//!    from the store and hands the answer to `cache_lookup_root`; after a
//!    miss it calls the subgraph and hands the answer to `root_response`.
//! 3. On the entity path `start_entities` gives the keys to read in one go,
//!    `cache_lookup_entities` tells from the store's answers whether the
//!    subgraph has to be asked and for what, and `entities_answered` merges
//!    the subgraph's answer and says what to write.
//! 4. `note_answer` gathers the directives of all answers of a client's
//!    request (`no-store` for a subgraph for which the cache is off), and
//!    `supergraph_service` writes them on the response.

use crate::cache_control::CacheControl;
use crate::entity::cache_store_entities_from_response;
use crate::entity::entity_response_control;
use crate::entity::intermediate_view;
use crate::entity::key_update;
use crate::entity::may_cache_private;
use crate::entity::merged_entities;
use crate::entity::merged_errors;
use crate::entity::miss_count;
use crate::entity::writes;
use crate::entity::writes_view;
use crate::entity::EntitiesField;
use crate::entity::IntermediateResult;
use crate::entity::Merged;
use crate::entity::ResponseError;
use crate::entry::errors_view;
use crate::entry::payloads;
use crate::entry::GraphError;
use crate::cache_control::least;
use crate::cache_control::parsed_headers;
use crate::request::text_of;
use crate::root::answer_control;
use crate::root::response_control;
use crate::headers::HeaderList;
use crate::text::same_text;
use vstd::prelude::*;
use vstd::string::*;

verus! {

/// The kind of a GraphQL operation.
#[derive(Debug, Clone, Copy, PartialEq, Eq)]
pub enum OperationKind {
    Query,
    Mutation,
    Subscription,
}

/// The way a subgraph request takes.
#[derive(Debug, Clone, Copy, PartialEq, Eq)]
pub enum Route {
    /// Past the cache: the request goes to the subgraph as it is and its
    /// answer comes back as it is; the store is neither read nor written.
    Bypass,
    /// The root-query path.
    Root,
    /// The entity path.
    Entities,
    /// To the subgraph without caching; the answer's invalidation extension
    /// is still acted on.
    Forward,
}

/// The way of a request: a request that is part of a batch, or whose query
/// is known to be private while no user's scope is at hand, goes past the
/// cache; one with representations takes the entity path; of the others a
/// query takes the root path, and the rest is forwarded.
pub open spec fn route_of(
    is_batched: bool,
    is_known_private: bool,
    has_private_id: bool,
    has_representations: bool,
    kind: OperationKind,
) -> Route {
    if is_batched {
        Route::Bypass
    } else if is_known_private && !has_private_id {
        Route::Bypass
    } else if has_representations {
        Route::Entities
    } else if kind == OperationKind::Query {
        Route::Root
    } else {
        Route::Forward
    }
}

/// Picks the way of a request.
pub fn route(
    is_batched: bool,
    is_known_private: bool,
    has_private_id: bool,
    has_representations: bool,
    kind: OperationKind,
) -> (way: Route)
    ensures
        way == route_of(is_batched, is_known_private, has_private_id, has_representations, kind),
{
    if is_batched {
        Route::Bypass
    } else if is_known_private && !has_private_id {
        Route::Bypass
    } else if has_representations {
        Route::Entities
    } else {
        match kind {
            OperationKind::Query => Route::Root,
            _ => Route::Forward,
        }
    }
}

/// The directives that a request's context holds after one more answer was
/// seen: those of the answer, merged with what was there.
pub fn update_cache_control(current: Option<CacheControl>, cache_control: &CacheControl) -> (updated:
    CacheControl)
    ensures
        updated == match current {
            Some(c) => c.spec_merge(cache_control),
            None => *cache_control,
        },
{
    match current {
        Some(c) => c.merge(cache_control),
        None => *cache_control,
    }
}

/// What follows from the answer of a subgraph to the residual of an
/// `_entities` request, before the entities are merged.
#[derive(Debug, Clone, Copy, PartialEq, Eq)]
pub struct EntityOutcome {
    /// The directives of the response: those of the answer, merged with
    /// those of the hits.
    pub control: CacheControl,
    /// The query is to be noted as private: its answer is the first to say
    /// so.
    pub register_private: bool,
}

/// Reads the directives of the subgraph's answer to the residual of an
/// `_entities` request and merges them with those of the hits.
pub fn entity_response(
    headers: &HeaderList,
    storage_ttl: Option<u64>,
    control_from_cached: Option<CacheControl>,
    is_known_private: bool,
) -> (outcome: EntityOutcome)
    ensures
        outcome.control == entity_response_control(
            answer_control(headers@, storage_ttl),
            control_from_cached,
        ),
        outcome.register_private == (!is_known_private && outcome.control.private),
{
    let answer = response_control(headers, storage_ttl);
    let control = match control_from_cached {
        Some(c) => answer.merge(&c),
        None => answer,
    };
    EntityOutcome { control, register_private: !is_known_private && control.private() }
}

/// Takes the answer of the subgraph to the residual of an `_entities`
/// request: reads its directives, merges them with those of the hits, merges
/// the entities that it sent with the hits, and says what is to be written
/// to the store. The directives are known also where the entities cannot be
/// merged.
pub fn entities_answered(
    headers: &HeaderList,
    storage_ttl: Option<u64>,
    subgraph_ttl: Option<u64>,
    entities: EntitiesField,
    errors: &Vec<GraphError>,
    result_from_cache: Vec<IntermediateResult>,
    control_from_cached: Option<CacheControl>,
    is_known_private: bool,
    private_id: &Option<String>,
) -> (answered: (EntityOutcome, Result<Option<Merged>, ResponseError>))
    ensures
        answered.0.control == entity_response_control(
            answer_control(headers@, storage_ttl),
            control_from_cached,
        ),
        answered.0.register_private == (!is_known_private && answered.0.control.private),
        match entities {
            EntitiesField::Absent => answered.1 == Ok::<Option<Merged>, ResponseError>(None),
            EntitiesField::NotAList => answered.1 == Err::<Option<Merged>, ResponseError>(
                ResponseError::ExpectedArrayOfEntities,
            ),
            EntitiesField::List(sent) => {
                let r = intermediate_view(result_from_cache@);
                let e = errors_view(errors@);
                let id = text_of(*private_id);
                let control = answered.0.control;
                match answered.1 {
                    Ok(Some(m)) => {
                        &&& miss_count(r, r.len() as int) <= sent@.len()
                        &&& payloads(m.new_entities@) == merged_entities(r, payloads(sent@))
                        &&& errors_view(m.new_errors@) == merged_errors(r, e, r.len() as int)
                        &&& writes_view(m.to_insert@) == writes(
                            r,
                            payloads(sent@),
                            e,
                            control,
                            key_update(is_known_private, control, id),
                            may_cache_private(control, id),
                            r.len() as int,
                        )
                        &&& m.ttl == least(control.spec_ttl(), subgraph_ttl)
                    },
                    Ok(None) => false,
                    Err(e) => {
                        &&& e == ResponseError::InvalidNumberOfEntities
                        &&& miss_count(r, r.len() as int) > sent@.len()
                    },
                }
            },
        },
{
    let outcome = entity_response(headers, storage_ttl, control_from_cached, is_known_private);
    let merged = cache_store_entities_from_response(
        subgraph_ttl,
        entities,
        errors,
        outcome.control,
        result_from_cache,
        is_known_private,
        private_id,
    );
    (outcome, merged)
}

/// The settings of the cache for one subgraph.
#[derive(Clone, Debug, PartialEq, Eq)]
pub struct Subgraph {
    /// The seconds after which the entries of this subgraph expire, unless
    /// the subgraph's answers say otherwise.
    pub ttl: Option<u64>,
    /// Whether the cache is used for this subgraph; where absent, it is.
    pub enabled: Option<bool>,
    /// The name of the context entry that tells users apart.
    pub private_id: Option<String>,
}

/// The settings of one subgraph, by its name.
#[derive(Clone, Debug, PartialEq, Eq)]
pub struct NamedSubgraph {
    pub name: String,
    pub settings: Subgraph,
}

/// The settings for all subgraphs and those of the subgraphs that have
/// their own, by the names of the subgraphs. No name has settings twice.
#[derive(Debug, PartialEq, Eq)]
pub struct SubgraphConfiguration {
    all: Subgraph,
    subgraphs: Vec<NamedSubgraph>,
}

/// The position of the first settings from `i` on that are named `name`;
/// the length of the list if there are none.
pub open spec fn settings_index(subgraphs: Seq<NamedSubgraph>, name: Seq<char>, i: int) -> int
    decreases subgraphs.len() - i,
{
    if i < 0 || i >= subgraphs.len() {
        subgraphs.len() as int
    } else if subgraphs[i].name@ == name {
        i
    } else {
        settings_index(subgraphs, name, i + 1)
    }
}

/// No name stands twice in the list.
pub open spec fn names_once(subgraphs: Seq<NamedSubgraph>) -> bool {
    forall|i: int, j: int|
        0 <= i < j < subgraphs.len() ==> (#[trigger] subgraphs[i]).name@ != (#[trigger] subgraphs[j]).name@
}

/// The list with the settings of `name` set: in place of those that the name
/// had, or at the end where it had none.
pub open spec fn with_settings(subgraphs: Seq<NamedSubgraph>, entry: NamedSubgraph) -> Seq<
    NamedSubgraph,
> {
    let i = settings_index(subgraphs, entry.name@, 0);
    if i < subgraphs.len() {
        subgraphs.update(i, entry)
    } else {
        subgraphs.push(entry)
    }
}

/// What is found is in range and has the name; nothing before it has.
pub proof fn lemma_settings_index(subgraphs: Seq<NamedSubgraph>, name: Seq<char>, i: int)
    requires
        0 <= i <= subgraphs.len(),
    ensures
        i <= settings_index(subgraphs, name, i) <= subgraphs.len(),
        settings_index(subgraphs, name, i) < subgraphs.len() ==> subgraphs[settings_index(
            subgraphs,
            name,
            i,
        )].name@ == name,
        forall|k: int| i <= k < settings_index(subgraphs, name, i) ==> (#[trigger] subgraphs[k]).name@ != name,
    decreases subgraphs.len() - i,
{
    if i < subgraphs.len() && subgraphs[i].name@ != name {
        lemma_settings_index(subgraphs, name, i + 1);
    }
}

impl SubgraphConfiguration {
    #[verifier::type_invariant]
    spec fn well_formed(self) -> bool {
        names_once(self.subgraphs@)
    }

    /// The settings for the subgraphs that have none of their own.
    pub closed spec fn for_all(&self) -> Subgraph {
        self.all
    }

    /// The settings of the subgraphs that have their own, in the order in
    /// which their names came.
    pub closed spec fn named(&self) -> Seq<NamedSubgraph> {
        self.subgraphs@
    }

    /// The settings that hold for the subgraph `name`: its own where it has
    /// any, those for all subgraphs otherwise.
    pub open spec fn settings_of(&self, name: Seq<char>) -> Subgraph {
        let i = settings_index(self.named(), name, 0);
        if i < self.named().len() {
            self.named()[i].settings
        } else {
            self.for_all()
        }
    }

    /// The configuration in which no subgraph has settings of its own.
    pub fn new(all: Subgraph) -> (configuration: SubgraphConfiguration)
        ensures
            configuration.for_all() == all,
            configuration.named() == Seq::<NamedSubgraph>::empty(),
    {
        SubgraphConfiguration { all, subgraphs: Vec::new() }
    }

    /// No subgraph's name has settings twice: what the type keeps at all
    /// times.
    pub fn names_stand_once(&self) -> (yes: bool)
        ensures
            yes,
            names_once(self.named()),
    {
        proof {
            use_type_invariant(self);
        }
        true
    }

    /// Gives the subgraph `name` settings of its own, in place of those it
    /// had. Returns the settings it had.
    pub fn insert(&mut self, name: String, settings: Subgraph) -> (previous: Option<Subgraph>)
        ensures
            final(self).for_all() == old(self).for_all(),
            final(self).named() == with_settings(
                old(self).named(),
                (NamedSubgraph { name, settings }),
            ),
            previous == if settings_index(old(self).named(), name@, 0) < old(self).named().len() {
                Some(old(self).named()[settings_index(old(self).named(), name@, 0)].settings)
            } else {
                None
            },
    {
        proof {
            use_type_invariant(&*self);
        }
        let ghost before = self.subgraphs@;
        let mut list: Vec<NamedSubgraph> = Vec::new();
        core::mem::swap(&mut list, &mut self.subgraphs);
        let mut i: usize = 0;
        while i < list.len() && !same_text(list[i].name.as_str(), name.as_str())
            invariant
                i <= list@.len(),
                list@ == before,
                settings_index(before, name@, 0) == settings_index(before, name@, i as int),
                forall|k: int| 0 <= k < i ==> (#[trigger] before[k]).name@ != name@,
            decreases list@.len() - i,
        {
            i += 1;
        }
        proof {
            lemma_settings_index(before, name@, i as int);
        }
        let entry = NamedSubgraph { name, settings };
        let previous = if i < list.len() {
            proof {
                assert forall|a: int, b: int| 0 <= a < b < before.len() implies (#[trigger] before.update(
                    i as int,
                    entry,
                )[a]).name@ != (#[trigger] before.update(i as int, entry)[b]).name@ by {
                    assert(before[a].name@ != before[b].name@);
                }
            }
            let taken = list.remove(i);
            list.insert(i, entry);
            proof {
                assert(list@ =~= before.update(i as int, entry));
            }
            Some(taken.settings)
        } else {
            proof {
                assert forall|a: int, b: int| 0 <= a < b < before.len() + 1 implies (#[trigger] before.push(
                    entry,
                )[a]).name@ != (#[trigger] before.push(entry)[b]).name@ by {
                    if b < before.len() {
                        assert(before[a].name@ != before[b].name@);
                    } else {
                        assert(before[a].name@ != name@);
                    }
                }
            }
            list.push(entry);
            None
        };
        core::mem::swap(&mut list, &mut self.subgraphs);
        previous
    }

    /// The settings that hold for the subgraph `name`.
    pub fn get(&self, name: &str) -> (settings: &Subgraph)
        ensures
            *settings == self.settings_of(name@),
    {
        let mut i: usize = 0;
        while i < self.subgraphs.len()
            invariant
                i <= self.subgraphs@.len(),
                settings_index(self.subgraphs@, name@, 0) == settings_index(
                    self.subgraphs@,
                    name@,
                    i as int,
                ),
            decreases self.subgraphs@.len() - i,
        {
            if same_text(self.subgraphs[i].name.as_str(), name) {
                return &self.subgraphs[i].settings;
            }
            i += 1;
        }
        &self.all
    }
}

/// Where no name stands twice, the settings that are found under a name are
/// the only ones under it.
pub proof fn lemma_settings_are_the_only_ones(subgraphs: Seq<NamedSubgraph>, name: Seq<char>, k: int)
    requires
        names_once(subgraphs),
        0 <= k < subgraphs.len(),
        subgraphs[k].name@ == name,
    ensures
        settings_index(subgraphs, name, 0) == k,
{
    lemma_settings_index(subgraphs, name, 0);
    let i = settings_index(subgraphs, name, 0);
    if i < k {
        assert(subgraphs[i].name@ != subgraphs[k].name@);
    } else if k < i {
        assert(subgraphs[k].name@ != name);
    }
}

/// The settings of the store, as far as the cache reads them.
#[derive(Debug, Clone, Copy, PartialEq, Eq)]
pub struct StoreSettings {
    /// The seconds that entries live where a subgraph has no lifetime of its
    /// own.
    pub ttl: Option<u64>,
    /// Whether the cache refuses to start without the store.
    pub required_to_start: bool,
    /// Whether the store prolongs the life of an entry that is read.
    pub reset_ttl: bool,
}

/// The settings to open the store with: those that were given, but reading
/// never prolongs the life of an entry, since the cache sets the lifetime of
/// what it writes.
pub fn store_settings(given: StoreSettings) -> (settings: StoreSettings)
    ensures
        settings == (StoreSettings { reset_ttl: false, ..given }),
{
    StoreSettings { ttl: given.ttl, required_to_start: given.required_to_start, reset_ttl: false }
}

/// Why the cache cannot start.
#[derive(Debug, Clone, Copy, PartialEq, Eq)]
pub enum StartError {
    /// The store cannot be reached, and it is required.
    StoreUnavailable,
    /// A subgraph has no lifetime for its entries, and there is no global
    /// one.
    MissingTtl,
}

/// Every subgraph with settings of its own has a lifetime, or there is a
/// global one.
pub open spec fn ttls_resolve(global_ttl: Option<u64>, subgraphs: Seq<NamedSubgraph>) -> bool {
    global_ttl is Some || forall|i: int|
        0 <= i < subgraphs.len() ==> (#[trigger] subgraphs[i]).settings.ttl is Some
}

/// How the cache starts: with the store, or without it.
#[derive(Debug, Clone, Copy, PartialEq, Eq)]
pub enum Startup {
    /// The store is there: subgraphs are cached as their settings say.
    WithStore,
    /// The store could not be reached and is not required: nothing is
    /// cached.
    WithoutStore,
}

/// Checks the settings when the cache is set up. An unreachable store is
/// fatal only where it is required; a subgraph without any lifetime for its
/// entries is fatal in any case.
pub fn startup(
    store_available: bool,
    required_to_start: bool,
    global_ttl: Option<u64>,
    configuration: &SubgraphConfiguration,
) -> (start: Result<Startup, StartError>)
    ensures
        start == if !store_available && required_to_start {
            Err::<Startup, StartError>(StartError::StoreUnavailable)
        } else if !ttls_resolve(global_ttl, configuration.named()) {
            Err(StartError::MissingTtl)
        } else if store_available {
            Ok(Startup::WithStore)
        } else {
            Ok(Startup::WithoutStore)
        },
{
    if !store_available && required_to_start {
        return Err(StartError::StoreUnavailable);
    }
    if global_ttl.is_none() {
        let mut i: usize = 0;
        while i < configuration.subgraphs.len()
            invariant
                i <= configuration.subgraphs@.len(),
                global_ttl is None,
                store_available || !required_to_start,
                forall|k: int|
                    0 <= k < i ==> (#[trigger] configuration.subgraphs@[k]).settings.ttl is Some,
            decreases configuration.subgraphs@.len() - i,
        {
            if configuration.subgraphs[i].settings.ttl.is_none() {
                assert(configuration.subgraphs@[i as int].settings.ttl is None);
                return Err(StartError::MissingTtl);
            }
            i += 1;
        }
    }
    if store_available {
        Ok(Startup::WithStore)
    } else {
        Ok(Startup::WithoutStore)
    }
}

/// How the cache treats the requests to one subgraph.
#[derive(Clone, Debug, PartialEq, Eq)]
pub struct SubgraphPlan {
    /// Whether requests go through the cache at all. Where they do not,
    /// every request goes to the subgraph as it is and its answer comes back
    /// as it is, the store is neither read nor written, and the request's
    /// context is noted with `no-store` (see `route_for` and
    /// `noted_control`).
    pub caching: bool,
    /// The seconds after which entries expire where the answers name no
    /// lifetime.
    pub subgraph_ttl: Option<u64>,
    /// The name of the context entry that tells users apart.
    pub private_id: Option<String>,
}

/// The cache is on for a subgraph: the store is there, the cache is enabled,
/// and the settings of the subgraph do not switch it off.
pub open spec fn is_cached(startup: Startup, enabled: bool, settings: Subgraph) -> bool {
    startup == Startup::WithStore && enabled && match settings.enabled {
        Some(e) => e,
        None => true,
    }
}

/// The directives that are noted for an answer with the headers `h`: what
/// the headers say where the cache is on for the subgraph (`no-store` where
/// they cannot be read), and `no-store` where it is off.
pub open spec fn noted(caching: bool, h: crate::headers::HeaderSeq) -> CacheControl {
    if caching {
        match parsed_headers(h, None) {
            Ok(read) => read,
            Err(_) => CacheControl::spec_no_store(),
        }
    } else {
        CacheControl::spec_no_store()
    }
}

/// The way of a request to a subgraph, given whether the cache is on for
/// the subgraph.
pub open spec fn route_with(
    caching: bool,
    is_batched: bool,
    is_known_private: bool,
    has_private_id: bool,
    has_representations: bool,
    kind: OperationKind,
) -> Route {
    if caching {
        route_of(is_batched, is_known_private, has_private_id, has_representations, kind)
    } else {
        Route::Bypass
    }
}

/// Where the cache is switched off, for all subgraphs or for one, every
/// request to that subgraph goes past the cache, whatever it is, and the
/// context is noted with `no-store`, whatever the answer says and whatever
/// was noted before.
pub proof fn lemma_disabled_subgraph(
    startup: Startup,
    enabled: bool,
    settings: Subgraph,
    is_batched: bool,
    is_known_private: bool,
    has_private_id: bool,
    has_representations: bool,
    kind: OperationKind,
    h: crate::headers::HeaderSeq,
    current: Option<CacheControl>,
)
    requires
        !enabled || settings.enabled == Some(false),
    ensures
        !is_cached(startup, enabled, settings),
        route_with(
            is_cached(startup, enabled, settings),
            is_batched,
            is_known_private,
            has_private_id,
            has_representations,
            kind,
        ) == Route::Bypass,
        noted(is_cached(startup, enabled, settings), h) == CacheControl::spec_no_store(),
        match current {
            Some(c) => c.spec_merge(&noted(is_cached(startup, enabled, settings), h)),
            None => noted(is_cached(startup, enabled, settings), h),
        } == CacheControl::spec_no_store(),
{
}

/// Works out how the requests to the subgraph `name` are treated: they go
/// through the cache where the store is there, the cache is enabled and the
/// subgraph's settings do not say otherwise; entries live as long as the
/// subgraph's settings say, or else as long as the store says. Where the
/// cache is off for the subgraph, every request goes past the cache and
/// every answer is noted with `no-store`.
pub fn subgraph_service(
    startup: Startup,
    enabled: bool,
    storage_ttl: Option<u64>,
    configuration: &SubgraphConfiguration,
    name: &str,
) -> (plan: SubgraphPlan)
    ensures
        plan.caching == is_cached(startup, enabled, configuration.settings_of(name@)),
        !enabled || configuration.settings_of(name@).enabled == Some(false) ==> !plan.caching,
        !plan.caching ==> forall|h: crate::headers::HeaderSeq| #[trigger]
            noted(plan.caching, h) == CacheControl::spec_no_store(),
        !plan.caching ==> forall|b: bool, p: bool, i: bool, r: bool, k: OperationKind| #[trigger]
            route_with(plan.caching, b, p, i, r, k) == Route::Bypass,
        plan.subgraph_ttl == match configuration.settings_of(name@).ttl {
            Some(t) => Some(t),
            None => storage_ttl,
        },
        crate::request::text_of(plan.private_id) == crate::request::text_of(
            configuration.settings_of(name@).private_id,
        ),
{
    let settings = configuration.get(name);
    let subgraph_ttl = match settings.ttl {
        Some(t) => Some(t),
        None => storage_ttl,
    };
    let subgraph_enabled = enabled && match settings.enabled {
        Some(e) => e,
        None => true,
    };
    let private_id = match &settings.private_id {
        Some(id) => Some(id.clone()),
        None => None,
    };
    let caching = match startup {
        Startup::WithStore => subgraph_enabled,
        Startup::WithoutStore => false,
    };
    SubgraphPlan { caching, subgraph_ttl, private_id }
}

/// Writes the directives that a request's context gathered into the headers
/// of the response to the client. Where the context gathered none, the
/// headers stay as they are.
pub fn supergraph_service(cache_control: Option<CacheControl>, headers: &mut HeaderList)
    ensures
        final(headers)@ == match cache_control {
            Some(c) => c.written(old(headers)@),
            None => old(headers)@,
        },
{
    match cache_control {
        Some(c) => c.to_headers(headers),
        None => {},
    }
}

/// The way of a request to a subgraph: past the cache where the cache is
/// off for the subgraph, and as `route` says where it is on.
pub fn route_for(
    caching: bool,
    is_batched: bool,
    is_known_private: bool,
    has_private_id: bool,
    has_representations: bool,
    kind: OperationKind,
) -> (way: Route)
    ensures
        way == route_with(
            caching,
            is_batched,
            is_known_private,
            has_private_id,
            has_representations,
            kind,
        ),
{
    if caching {
        route(is_batched, is_known_private, has_private_id, has_representations, kind)
    } else {
        Route::Bypass
    }
}

/// The directives to note in the request's context for an answer of a
/// subgraph: what the headers of the answer say where the cache is on for
/// the subgraph (`no-store` where they cannot be read or say nothing), and
/// `no-store` where the cache is off for it, whatever the answer says.
pub fn noted_control(caching: bool, headers: &HeaderList) -> (control: CacheControl)
    ensures
        control == noted(caching, headers@),
        control == if caching {
            match parsed_headers(headers@, None) {
                Ok(read) => read,
                Err(_) => CacheControl::spec_no_store(),
            }
        } else {
            CacheControl::spec_no_store()
        },
{
    if caching {
        CacheControl::from_headers(headers, None)
    } else {
        CacheControl::no_store()
    }
}

/// The directives that a request's context holds after an answer of a
/// subgraph was noted: what `noted_control` gives for the answer, merged with
/// what was there. An answer of a subgraph for which the cache is off
/// leaves `no-store` and nothing else.
pub fn note_answer(current: Option<CacheControl>, caching: bool, headers: &HeaderList) -> (updated:
    CacheControl)
    ensures
        updated == match current {
            Some(c) => c.spec_merge(&noted(caching, headers@)),
            None => noted(caching, headers@),
        },
        !caching ==> updated == CacheControl::spec_no_store(),
{
    let noted = noted_control(caching, headers);
    update_cache_control(current, &noted)
}

} // verus!
