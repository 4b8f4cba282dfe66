//! Comparing two query plans.
//!
//! Two planners may give the same plan in different ways: fetches that run
//! in parallel may stand in another order and carry other operation names,
//! the variables that a fetch uses may be listed in another order, and the
//! operations may be written differently (see `operation`). Plans that differ
//! in nothing else match.

use crate::keys::texts;
use crate::middleware::OperationKind;
use crate::operation::same_ast_document;
use crate::operation::same_document;
use crate::operation::same_kind;
use crate::operation::same_texts;
use crate::operation::Document;
use crate::order::order_of;
use crate::order::positions;
use crate::order::stable_order;
use crate::request::text_of;
use crate::text::same_text;
use crate::text::text_before;
use crate::text::text_less;
use vstd::prelude::*;
use vstd::string::*;

verus! {

/// The operation that a fetch sends to a subgraph.
#[derive(Debug, PartialEq, Eq)]
pub struct SubgraphOperation {
    /// The operation as it is sent.
    pub serialized: String,
    /// The operation as a parser reads it; none where it cannot be read.
    pub document: Option<Document>,
}

/// A fetch from a subgraph.
#[derive(Debug, PartialEq, Eq)]
pub struct FetchNode {
    pub service_name: String,
    /// The selections that the fetch requires, each as it is written.
    pub requires: Vec<String>,
    /// The names of the variables that the operation uses.
    pub variable_usages: Vec<String>,
    pub operation: SubgraphOperation,
    /// The name of the operation. It plays no part in the comparison.
    pub operation_name: Option<String>,
    pub operation_kind: OperationKind,
    pub id: Option<String>,
    /// The rewrites of the input, each as it is written.
    pub input_rewrites: Option<Vec<String>>,
    /// The rewrites of the output, each as it is written.
    pub output_rewrites: Option<Vec<String>>,
    /// The rewrites of the context, each as it is written.
    pub context_rewrites: Option<Vec<String>>,
    /// The hash of the operation and the schema. It plays no part in the
    /// comparison.
    pub schema_aware_hash: Vec<u8>,
    /// The authorization metadata, as it is written.
    pub authorization: String,
}

/// The fetch that opens a subscription.
#[derive(Debug, PartialEq, Eq)]
pub struct SubscriptionNode {
    pub service_name: String,
    pub variable_usages: Vec<String>,
    pub operation: SubgraphOperation,
    pub operation_name: Option<String>,
    pub operation_kind: OperationKind,
    pub input_rewrites: Option<Vec<String>>,
    pub output_rewrites: Option<Vec<String>>,
}

/// A plan whose result is merged at a path of the response.
#[derive(Debug, PartialEq, Eq)]
pub struct FlattenNode {
    /// The steps of the path, each as it is written.
    pub path: Vec<String>,
    pub node: Box<PlanNode>,
}

/// The part of a deferred plan that is answered at once.
#[derive(Debug, PartialEq, Eq)]
pub struct Primary {
    pub subselection: Option<String>,
    pub node: Option<Box<PlanNode>>,
}

/// What a deferred part waits for.
#[derive(Debug, PartialEq, Eq)]
pub struct Depends {
    pub id: String,
    pub defer_label: Option<String>,
}

/// A part of a plan that is answered later.
#[derive(Debug, PartialEq, Eq)]
pub struct DeferredNode {
    pub depends: Vec<Depends>,
    pub label: Option<String>,
    /// The steps of the path, each as it is written.
    pub query_path: Vec<String>,
    pub subselection: Option<String>,
    pub node: Option<Box<PlanNode>>,
}

/// A query plan.
#[derive(Debug, PartialEq, Eq)]
pub enum PlanNode {
    /// Plans that run one after the other.
    Sequence { nodes: Vec<PlanNode> },
    /// Plans that run side by side.
    Parallel { nodes: Vec<PlanNode> },
    Fetch(FetchNode),
    Flatten(FlattenNode),
    Defer { primary: Primary, deferred: Vec<DeferredNode> },
    Subscription { primary: SubscriptionNode, rest: Option<Box<PlanNode>> },
    Condition {
        condition: String,
        if_clause: Option<Box<PlanNode>>,
        else_clause: Option<Box<PlanNode>>,
    },
}

/// The plan for a query.
#[derive(Debug, PartialEq, Eq)]
pub struct QueryPlan {
    pub node: Option<Box<PlanNode>>,
}

/// A plan together with its written form.
#[derive(Debug, PartialEq, Eq)]
pub struct QueryPlanResult {
    pub formatted_query_plan: Option<String>,
    pub query_plan: QueryPlan,
}

/// The texts of a list that may be absent.
pub open spec fn option_texts(o: Option<Vec<String>>) -> Option<Seq<Seq<char>>> {
    match o {
        Some(v) => Some(texts(v@)),
        None => None,
    }
}

/// The order of the texts of a list.
pub open spec fn order_by_text(v: Seq<String>) -> Seq<int> {
    order_of(v.len(), |i: int, j: int| !text_less(v[j]@, v[i]@))
}

/// The two lists hold the same texts when each list is put in order.
pub open spec fn match_sorted(x: Seq<String>, y: Seq<String>) -> bool {
    &&& x.len() == y.len()
    &&& forall|k: int|
        0 <= k < x.len() ==> x[#[trigger] order_by_text(x)[k]]@ == y[order_by_text(y)[k]]@
}

/// Both operations can be read, and they are the same.
pub open spec fn operations_match(a: SubgraphOperation, b: SubgraphOperation) -> bool {
    match (a.document, b.document) {
        (Some(x), Some(y)) => same_document(x, y),
        _ => false,
    }
}

/// Two fetches match: they are the same but for the names and the hashes of
/// their operations, the order of the variables that they use and the way
/// their operations are written.
pub open spec fn fetches_match(a: FetchNode, b: FetchNode) -> bool {
    &&& a.service_name@ == b.service_name@
    &&& texts(a.requires@) == texts(b.requires@)
    &&& match_sorted(a.variable_usages@, b.variable_usages@)
    &&& a.operation_kind == b.operation_kind
    &&& text_of(a.id) == text_of(b.id)
    &&& option_texts(a.input_rewrites) == option_texts(b.input_rewrites)
    &&& option_texts(a.output_rewrites) == option_texts(b.output_rewrites)
    &&& option_texts(a.context_rewrites) == option_texts(b.context_rewrites)
    &&& a.authorization@ == b.authorization@
    &&& operations_match(a.operation, b.operation)
}

/// Two subscription fetches match: they are the same but for the way their
/// operations are written.
pub open spec fn subscriptions_match(a: SubscriptionNode, b: SubscriptionNode) -> bool {
    &&& a.service_name@ == b.service_name@
    &&& texts(a.variable_usages@) == texts(b.variable_usages@)
    &&& text_of(a.operation_name) == text_of(b.operation_name)
    &&& a.operation_kind == b.operation_kind
    &&& option_texts(a.input_rewrites) == option_texts(b.input_rewrites)
    &&& option_texts(a.output_rewrites) == option_texts(b.output_rewrites)
    &&& operations_match(a.operation, b.operation)
}

/// What each item of a list waits for.
pub open spec fn depends_view(d: Seq<Depends>) -> Seq<(Seq<char>, Option<Seq<char>>)> {
    Seq::new(d.len(), |i: int| (d[i].id@, text_of(d[i].defer_label)))
}

/// Some plan of `list` matches `a`.
pub open spec fn has_match_in(a: PlanNode, list: Seq<PlanNode>) -> bool
    decreases a, 1nat,
{
    exists|j: int| 0 <= j < list.len() && nodes_match(a, #[trigger] list[j])
}

/// Some plan of `list` is matched by `b`.
pub open spec fn has_match_from(list: Seq<PlanNode>, b: PlanNode) -> bool
    decreases list, 1nat,
{
    exists|i: int| 0 <= i < list.len() && nodes_match(#[trigger] list[i], b)
}

/// Two plans match.
pub open spec fn nodes_match(a: PlanNode, b: PlanNode) -> bool
    decreases a, 0nat,
{
    match (a, b) {
        (PlanNode::Sequence { nodes: x }, PlanNode::Sequence { nodes: y }) => {
            &&& x@.len() == y@.len()
            &&& forall|i: int| 0 <= i < x@.len() ==> nodes_match(#[trigger] x@[i], y@[i])
        },
        (PlanNode::Parallel { nodes: x }, PlanNode::Parallel { nodes: y }) => {
            &&& x@.len() == y@.len()
            &&& forall|i: int| 0 <= i < x@.len() ==> has_match_in(#[trigger] x@[i], y@)
            &&& forall|j: int| 0 <= j < y@.len() ==> has_match_from(x@, #[trigger] y@[j])
        },
        (PlanNode::Fetch(x), PlanNode::Fetch(y)) => fetches_match(x, y),
        (PlanNode::Flatten(x), PlanNode::Flatten(y)) => flattens_match(x, y),
        (
            PlanNode::Defer { primary: p, deferred: x },
            PlanNode::Defer { primary: q, deferred: y },
        ) => {
            &&& primaries_match(p, q)
            &&& x@.len() == y@.len()
            &&& forall|i: int| 0 <= i < x@.len() ==> deferred_match(#[trigger] x@[i], y@[i])
        },
        (
            PlanNode::Subscription { primary: p, rest: x },
            PlanNode::Subscription { primary: q, rest: y },
        ) => subscriptions_match(p, q) && optional_nodes_match(x, y),
        (
            PlanNode::Condition { condition: c, if_clause: x1, else_clause: x2 },
            PlanNode::Condition { condition: d, if_clause: y1, else_clause: y2 },
        ) => c@ == d@ && optional_nodes_match(x1, y1) && optional_nodes_match(x2, y2),
        _ => false,
    }
}

/// Two plans that may be absent match: both are absent, or both are there
/// and match.
pub open spec fn optional_nodes_match(a: Option<Box<PlanNode>>, b: Option<Box<PlanNode>>) -> bool
    decreases a, 0nat,
{
    match (a, b) {
        (None, None) => true,
        (Some(x), Some(y)) => nodes_match(*x, *y),
        _ => false,
    }
}

/// The parts of two deferred plans that are answered at once match.
pub open spec fn primaries_match(a: Primary, b: Primary) -> bool
    decreases a, 0nat,
{
    text_of(a.subselection) == text_of(b.subselection) && optional_nodes_match(a.node, b.node)
}

/// Two parts that are answered later match.
pub open spec fn deferred_match(a: DeferredNode, b: DeferredNode) -> bool
    decreases a, 0nat,
{
    &&& depends_view(a.depends@) == depends_view(b.depends@)
    &&& text_of(a.label) == text_of(b.label)
    &&& texts(a.query_path@) == texts(b.query_path@)
    &&& text_of(a.subselection) == text_of(b.subselection)
    &&& optional_nodes_match(a.node, b.node)
}

/// Two plans that are merged at a path match.
pub open spec fn flattens_match(a: FlattenNode, b: FlattenNode) -> bool
    decreases a, 0nat,
{
    texts(a.path@) == texts(b.path@) && nodes_match(*a.node, *b.node)
}

/// `part` stands inside `whole`.
pub open spec fn node_within(whole: &PlanNode, part: &PlanNode) -> bool {
    decreases_to!(*whole => *part)
}

/// `part` stands inside `whole`.
pub open spec fn deferred_within(whole: &PlanNode, part: &DeferredNode) -> bool {
    decreases_to!(*whole => *part)
}

/// Whether two lists are of one length and their items match place by place.
pub fn vec_matches<T>(this: &[T], other: &[T], item_matches: impl Fn(&T, &T) -> bool) -> (matches:
    bool)
    requires
        this@.len() == other@.len() ==> forall|i: int|
            0 <= i < this@.len() ==> call_requires(item_matches, (&this@[i], &other@[i])),
    ensures
        matches ==> this@.len() == other@.len() && forall|i: int|
            0 <= i < this@.len() ==> call_ensures(
                item_matches,
                (&#[trigger] this@[i], &other@[i]),
                true,
            ),
        !matches ==> this@.len() != other@.len() || exists|i: int|
            0 <= i < this@.len() && call_ensures(
                item_matches,
                (&#[trigger] this@[i], &other@[i]),
                false,
            ),
{
    if this.len() != other.len() {
        return false;
    }
    let mut i: usize = 0;
    while i < this.len()
        invariant
            i <= this@.len(),
            this@.len() == other@.len(),
            forall|k: int|
                0 <= k < this@.len() ==> call_requires(item_matches, (&this@[k], &other@[k])),
            forall|k: int|
                0 <= k < i ==> call_ensures(item_matches, (&#[trigger] this@[k], &other@[k]), true),
        decreases this@.len() - i,
    {
        if !item_matches(&this[i], &other[i]) {
            return false;
        }
        i += 1;
    }
    true
}

/// Some item of `other` was found to match `item`.
pub open spec fn matched_in<T, F: Fn(&T, &T) -> bool>(f: F, item: T, other: Seq<T>) -> bool {
    exists|j: int| 0 <= j < other.len() && call_ensures(f, (&item, &#[trigger] other[j]), true)
}

/// Some item of `this` was found to match `item`.
pub open spec fn matched_by<T, F: Fn(&T, &T) -> bool>(f: F, this: Seq<T>, item: T) -> bool {
    exists|i: int| 0 <= i < this.len() && call_ensures(f, (&#[trigger] this[i], &item), true)
}

/// Every item of `other` was found not to match `item`.
pub open spec fn unmatched_in<T, F: Fn(&T, &T) -> bool>(f: F, item: T, other: Seq<T>) -> bool {
    forall|j: int| 0 <= j < other.len() ==> call_ensures(f, (&item, &#[trigger] other[j]), false)
}

/// Every item of `this` was found not to match `item`.
pub open spec fn unmatched_by<T, F: Fn(&T, &T) -> bool>(f: F, this: Seq<T>, item: T) -> bool {
    forall|i: int| 0 <= i < this.len() ==> call_ensures(f, (&#[trigger] this[i], &item), false)
}

/// Whether two lists are of one length and each item of the one has a match
/// in the other, whatever the order.
pub fn vec_matches_as_set<T, F: Fn(&T, &T) -> bool>(this: &[T], other: &[T], item_matches: F) -> (matches:
    bool)
    requires
        this@.len() == other@.len() ==> forall|i: int, j: int|
            0 <= i < this@.len() && 0 <= j < other@.len() ==> call_requires(
                item_matches,
                (&this@[i], &other@[j]),
            ),
    ensures
        matches ==> {
            &&& this@.len() == other@.len()
            &&& forall|i: int| 0 <= i < this@.len() ==> matched_in(item_matches, #[trigger] this@[i], other@)
            &&& forall|j: int| 0 <= j < other@.len() ==> matched_by(item_matches, this@, #[trigger] other@[j])
        },
        !matches ==> {
            ||| this@.len() != other@.len()
            ||| exists|i: int| 0 <= i < this@.len() && unmatched_in(item_matches, #[trigger] this@[i], other@)
            ||| exists|j: int| 0 <= j < other@.len() && unmatched_by(item_matches, this@, #[trigger] other@[j])
        },
{
    if this.len() != other.len() {
        return false;
    }
    let mut i: usize = 0;
    while i < this.len()
        invariant
            i <= this@.len(),
            this@.len() == other@.len(),
            forall|a: int, b: int|
                0 <= a < this@.len() && 0 <= b < other@.len() ==> call_requires(
                    item_matches,
                    (&this@[a], &other@[b]),
                ),
            forall|a: int| 0 <= a < i ==> matched_in(item_matches, #[trigger] this@[a], other@),
        decreases this@.len() - i,
    {
        let mut j: usize = 0;
        let mut found = false;
        while j < other.len() && !found
            invariant
                i < this@.len(),
                j <= other@.len(),
                forall|a: int, b: int|
                    0 <= a < this@.len() && 0 <= b < other@.len() ==> call_requires(
                        item_matches,
                        (&this@[a], &other@[b]),
                    ),
                found ==> matched_in(item_matches, this@[i as int], other@),
                !found ==> forall|b: int|
                    0 <= b < j ==> call_ensures(
                        item_matches,
                        (&this@[i as int], &#[trigger] other@[b]),
                        false,
                    ),
            decreases other@.len() - j,
        {
            if item_matches(&this[i], &other[j]) {
                found = true;
            }
            j += 1;
        }
        if !found {
            assert(unmatched_in(item_matches, this@[i as int], other@));
            return false;
        }
        i += 1;
    }
    let mut j: usize = 0;
    while j < other.len()
        invariant
            j <= other@.len(),
            this@.len() == other@.len(),
            forall|a: int, b: int|
                0 <= a < this@.len() && 0 <= b < other@.len() ==> call_requires(
                    item_matches,
                    (&this@[a], &other@[b]),
                ),
            forall|a: int| 0 <= a < this@.len() ==> matched_in(item_matches, #[trigger] this@[a], other@),
            forall|b: int| 0 <= b < j ==> matched_by(item_matches, this@, #[trigger] other@[b]),
        decreases other@.len() - j,
    {
        let mut i: usize = 0;
        let mut found = false;
        while i < this.len() && !found
            invariant
                j < other@.len(),
                i <= this@.len(),
                forall|a: int, b: int|
                    0 <= a < this@.len() && 0 <= b < other@.len() ==> call_requires(
                        item_matches,
                        (&this@[a], &other@[b]),
                    ),
                found ==> matched_by(item_matches, this@, other@[j as int]),
                !found ==> forall|a: int|
                    0 <= a < i ==> call_ensures(
                        item_matches,
                        (&#[trigger] this@[a], &other@[j as int]),
                        false,
                    ),
            decreases this@.len() - i,
        {
            if item_matches(&this[i], &other[j]) {
                found = true;
            }
            i += 1;
        }
        if !found {
            assert(unmatched_by(item_matches, this@, other@[j as int]));
            return false;
        }
        j += 1;
    }
    true
}

/// Whether two lists hold the same texts when each is put in order.
pub fn vec_matches_sorted(this: &[String], other: &[String]) -> (matches: bool)
    ensures
        matches == match_sorted(this@, other@),
{
    if this.len() != other.len() {
        return false;
    }
    let n = this.len();
    let ghost rel_this = |i: int, j: int| !text_less(this@[j]@, this@[i]@);
    let ghost rel_other = |i: int, j: int| !text_less(other@[j]@, other@[i]@);
    let le_this = |i: usize, j: usize| -> (r: bool)
        requires
            i < this@.len(),
            j < this@.len(),
        ensures
            r == !text_less(this@[j as int]@, this@[i as int]@),
        { !text_before(this[j].as_str(), this[i].as_str()) };
    let le_other = |i: usize, j: usize| -> (r: bool)
        requires
            i < other@.len(),
            j < other@.len(),
        ensures
            r == !text_less(other@[j as int]@, other@[i as int]@),
        { !text_before(other[j].as_str(), other[i].as_str()) };
    let order_this = stable_order(n, le_this, Ghost(rel_this));
    let order_other = stable_order(n, le_other, Ghost(rel_other));
    let mut k: usize = 0;
    while k < n
        invariant
            k <= n,
            n == this@.len(),
            n == other@.len(),
            order_this@.len() == n,
            order_other@.len() == n,
            forall|m: int| 0 <= m < n ==> #[trigger] order_this@[m] < n,
            forall|m: int| 0 <= m < n ==> #[trigger] order_other@[m] < n,
            positions(order_this@) == order_by_text(this@),
            positions(order_other@) == order_by_text(other@),
            forall|m: int|
                0 <= m < k ==> this@[#[trigger] order_by_text(this@)[m]]@
                    == other@[order_by_text(other@)[m]]@,
        decreases n - k,
    {
        assert(positions(order_this@)[k as int] == order_this@[k as int]);
        assert(positions(order_other@)[k as int] == order_other@[k as int]);
        if !same_text(this[order_this[k]].as_str(), other[order_other[k]].as_str()) {
            return false;
        }
        k += 1;
    }
    true
}

fn same_option_text(a: &Option<String>, b: &Option<String>) -> (same: bool)
    ensures
        same == (text_of(*a) == text_of(*b)),
{
    match (a, b) {
        (None, None) => true,
        (Some(x), Some(y)) => same_text(x.as_str(), y.as_str()),
        _ => false,
    }
}

fn same_option_texts(a: &Option<Vec<String>>, b: &Option<Vec<String>>) -> (same: bool)
    ensures
        same == (option_texts(*a) == option_texts(*b)),
{
    match (a, b) {
        (None, None) => true,
        (Some(x), Some(y)) => same_texts(x.as_slice(), y.as_slice()),
        _ => false,
    }
}

fn same_depends(a: &[Depends], b: &[Depends]) -> (same: bool)
    ensures
        same == (depends_view(a@) == depends_view(b@)),
{
    if a.len() != b.len() {
        assert(depends_view(a@).len() != depends_view(b@).len());
        return false;
    }
    let mut i: usize = 0;
    while i < a.len()
        invariant
            i <= a@.len(),
            a@.len() == b@.len(),
            forall|k: int| 0 <= k < i ==> depends_view(a@)[k] == depends_view(b@)[k],
        decreases a@.len() - i,
    {
        if !same_text(a[i].id.as_str(), b[i].id.as_str()) || !same_option_text(
            &a[i].defer_label,
            &b[i].defer_label,
        ) {
            assert(depends_view(a@)[i as int] != depends_view(b@)[i as int]);
            return false;
        }
        i += 1;
    }
    assert(depends_view(a@) =~= depends_view(b@));
    true
}

/// Whether the operations of two fetches are the same. An operation that
/// cannot be read is the same as none.
pub fn operation_matches(this: &SubgraphOperation, other: &SubgraphOperation) -> (matches: bool)
    ensures
        matches == operations_match(*this, *other),
{
    match (&this.document, &other.document) {
        (Some(x), Some(y)) => same_ast_document(x, y),
        _ => false,
    }
}

/// Whether two fetches match.
pub fn fetch_node_matches(this: &FetchNode, other: &FetchNode) -> (matches: bool)
    ensures
        matches == fetches_match(*this, *other),
{
    same_text(this.service_name.as_str(), other.service_name.as_str()) && same_texts(
        this.requires.as_slice(),
        other.requires.as_slice(),
    ) && vec_matches_sorted(this.variable_usages.as_slice(), other.variable_usages.as_slice())
        && same_kind(this.operation_kind, other.operation_kind) && same_option_text(
        &this.id,
        &other.id,
    ) && same_option_texts(&this.input_rewrites, &other.input_rewrites) && same_option_texts(
        &this.output_rewrites,
        &other.output_rewrites,
    ) && same_option_texts(&this.context_rewrites, &other.context_rewrites) && same_text(
        this.authorization.as_str(),
        other.authorization.as_str(),
    ) && operation_matches(&this.operation, &other.operation)
}

/// Whether two subscription fetches match.
pub fn subscription_primary_matches(this: &SubscriptionNode, other: &SubscriptionNode) -> (matches:
    bool)
    ensures
        matches == subscriptions_match(*this, *other),
{
    same_text(this.service_name.as_str(), other.service_name.as_str()) && same_texts(
        this.variable_usages.as_slice(),
        other.variable_usages.as_slice(),
    ) && same_option_text(&this.operation_name, &other.operation_name) && same_kind(
        this.operation_kind,
        other.operation_kind,
    ) && same_option_texts(&this.input_rewrites, &other.input_rewrites) && same_option_texts(
        &this.output_rewrites,
        &other.output_rewrites,
    ) && operation_matches(&this.operation, &other.operation)
}

/// Whether the plan of one planner matches the plan of the other.
pub fn plan_matches(js_plan: &QueryPlanResult, rust_plan: &QueryPlan) -> (matches: bool)
    ensures
        matches == optional_nodes_match(js_plan.query_plan.node, rust_plan.node),
{
    opt_plan_node_matches(&js_plan.query_plan.node, &rust_plan.node)
}

/// Whether two planners agree on a query: both failed to plan it, or both
/// gave a plan and the plans match.
pub fn planners_agree(js_plan: Option<&QueryPlanResult>, rust_plan: Option<&QueryPlan>) -> (is_matched:
    bool)
    ensures
        is_matched == match (js_plan, rust_plan) {
            (Some(js), Some(rust)) => optional_nodes_match(js.query_plan.node, rust.node),
            (None, None) => true,
            _ => false,
        },
{
    match (js_plan, rust_plan) {
        (Some(js), Some(rust)) => plan_matches(js, rust),
        (None, None) => true,
        _ => false,
    }
}

/// Whether two plans that may be absent match.
pub fn opt_plan_node_matches(this: &Option<Box<PlanNode>>, other: &Option<Box<PlanNode>>) -> (matches:
    bool)
    ensures
        matches == optional_nodes_match(*this, *other),
    decreases *this,
{
    match (this, other) {
        (None, None) => true,
        (None, Some(_)) | (Some(_), None) => false,
        (Some(x), Some(y)) => plan_node_matches(x, y),
    }
}

/// Whether two plans match.
pub fn plan_node_matches(this: &PlanNode, other: &PlanNode) -> (matches: bool)
    ensures
        matches == nodes_match(*this, *other),
    decreases *this,
{
    match (this, other) {
        (PlanNode::Sequence { nodes: x }, PlanNode::Sequence { nodes: y }) => {
            let item_matches = |p: &PlanNode, q: &PlanNode| -> (r: bool)
                requires
                    node_within(this, p),
                ensures
                    r == nodes_match(*p, *q),
                { plan_node_matches(p, q) };
            proof {
                assert(*x == this->Sequence_nodes);
                assert(decreases_to!(*this => this->Sequence_nodes));
                assert forall|i: int| 0 <= i < x@.len() implies node_within(this, &#[trigger] x@[i]) by {
                    vstd::std_specs::vec::axiom_vec_index_decreases(*x, i);
                }
            }
            vec_matches(x.as_slice(), y.as_slice(), item_matches)
        },
        (PlanNode::Parallel { nodes: x }, PlanNode::Parallel { nodes: y }) => {
            let item_matches = |p: &PlanNode, q: &PlanNode| -> (r: bool)
                requires
                    node_within(this, p),
                ensures
                    r == nodes_match(*p, *q),
                { plan_node_matches(p, q) };
            proof {
                assert(*x == this->Parallel_nodes);
                assert(decreases_to!(*this => this->Parallel_nodes));
                assert forall|i: int| 0 <= i < x@.len() implies node_within(this, &#[trigger] x@[i]) by {
                    vstd::std_specs::vec::axiom_vec_index_decreases(*x, i);
                }
            }
            let matches = vec_matches_as_set(x.as_slice(), y.as_slice(), item_matches);
            proof {
                if matches {
                    assert forall|i: int| 0 <= i < x@.len() implies has_match_in(#[trigger] x@[i], y@) by {
                        assert(matched_in(item_matches, x@[i], y@));
                        let j = choose|j: int|
                            0 <= j < y@.len() && call_ensures(
                                item_matches,
                                (&x@[i], &#[trigger] y@[j]),
                                true,
                            );
                        assert(nodes_match(x@[i], y@[j]));
                    }
                    assert forall|j: int| 0 <= j < y@.len() implies has_match_from(x@, #[trigger] y@[j]) by {
                        assert(matched_by(item_matches, x@, y@[j]));
                        let i = choose|i: int|
                            0 <= i < x@.len() && call_ensures(
                                item_matches,
                                (&#[trigger] x@[i], &y@[j]),
                                true,
                            );
                        assert(nodes_match(x@[i], y@[j]));
                    }
                } else if x@.len() == y@.len() {
                    if exists|i: int| 0 <= i < x@.len() && unmatched_in(item_matches, #[trigger] x@[i], y@) {
                        let i = choose|i: int|
                            0 <= i < x@.len() && unmatched_in(item_matches, #[trigger] x@[i], y@);
                        assert forall|j: int| 0 <= j < y@.len() implies !nodes_match(
                            x@[i],
                            #[trigger] y@[j],
                        ) by {
                            assert(call_ensures(item_matches, (&x@[i], &y@[j]), false));
                        }
                        assert(!has_match_in(x@[i], y@));
                    } else {
                        let j = choose|j: int|
                            0 <= j < y@.len() && unmatched_by(item_matches, x@, #[trigger] y@[j]);
                        assert forall|i: int| 0 <= i < x@.len() implies !nodes_match(
                            #[trigger] x@[i],
                            y@[j],
                        ) by {
                            assert(call_ensures(item_matches, (&x@[i], &y@[j]), false));
                        }
                        assert(!has_match_from(x@, y@[j]));
                    }
                }
            }
            matches
        },
        (PlanNode::Fetch(x), PlanNode::Fetch(y)) => fetch_node_matches(x, y),
        (PlanNode::Flatten(x), PlanNode::Flatten(y)) => flatten_node_matches(x, y),
        (
            PlanNode::Defer { primary, deferred },
            PlanNode::Defer { primary: other_primary, deferred: other_deferred },
        ) => {
            let item_matches = |p: &DeferredNode, q: &DeferredNode| -> (r: bool)
                requires
                    deferred_within(this, p),
                ensures
                    r == deferred_match(*p, *q),
                { deferred_node_matches(p, q) };
            proof {
                assert(*deferred == this->deferred);
                assert(decreases_to!(*this => this->deferred));
                assert forall|i: int| 0 <= i < deferred@.len() implies deferred_within(
                    this,
                    &#[trigger] deferred@[i],
                ) by {
                    vstd::std_specs::vec::axiom_vec_index_decreases(*deferred, i);
                }
            }
            defer_primary_node_matches(primary, other_primary) && vec_matches(
                deferred.as_slice(),
                other_deferred.as_slice(),
                item_matches,
            )
        },
        (
            PlanNode::Subscription { primary, rest },
            PlanNode::Subscription { primary: other_primary, rest: other_rest },
        ) => subscription_primary_matches(primary, other_primary) && opt_plan_node_matches(
            rest,
            other_rest,
        ),
        (
            PlanNode::Condition { condition, if_clause, else_clause },
            PlanNode::Condition {
                condition: other_condition,
                if_clause: other_if_clause,
                else_clause: other_else_clause,
            },
        ) => same_text(condition.as_str(), other_condition.as_str()) && opt_plan_node_matches(
            if_clause,
            other_if_clause,
        ) && opt_plan_node_matches(else_clause, other_else_clause),
        _ => false,
    }
}

/// Whether the parts of two deferred plans that are answered at once match.
pub fn defer_primary_node_matches(this: &Primary, other: &Primary) -> (matches: bool)
    ensures
        matches == primaries_match(*this, *other),
    decreases *this,
{
    same_option_text(&this.subselection, &other.subselection) && opt_plan_node_matches(
        &this.node,
        &other.node,
    )
}

/// Whether two parts that are answered later match.
pub fn deferred_node_matches(this: &DeferredNode, other: &DeferredNode) -> (matches: bool)
    ensures
        matches == deferred_match(*this, *other),
    decreases *this,
{
    same_depends(this.depends.as_slice(), other.depends.as_slice()) && same_option_text(
        &this.label,
        &other.label,
    ) && same_texts(this.query_path.as_slice(), other.query_path.as_slice()) && same_option_text(
        &this.subselection,
        &other.subselection,
    ) && opt_plan_node_matches(&this.node, &other.node)
}

/// Whether two plans that are merged at a path match.
pub fn flatten_node_matches(this: &FlattenNode, other: &FlattenNode) -> (matches: bool)
    ensures
        matches == flattens_match(*this, *other),
    decreases *this,
{
    same_texts(this.path.as_slice(), other.path.as_slice()) && plan_node_matches(
        &this.node,
        &other.node,
    )
}

} // verus!
