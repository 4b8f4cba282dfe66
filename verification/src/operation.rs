//! Comparing the operations of two query plans.
//!
//! Two planners may write the same operation in different ways: the variables
//! may be declared in another order, and the fields that are selected on the
//! entities may stand in another order. Operations that differ in nothing
//! else count as the same.

use crate::keys::texts;
use crate::middleware::OperationKind;
use crate::order::order_of;
use crate::order::positions;
use crate::order::stable_order;
use crate::request::text_of;
use crate::text::same_text;
use crate::text::text_before;
use crate::text::text_less;
use vstd::prelude::*;
use vstd::string::*;

verus! {

/// The name of the field that resolves entities.
pub const ENTITIES_QUERY: &'static str = "_entities";

/// A selection of an operation. Two selections are the same where their
/// texts are.
#[derive(Debug, PartialEq, Eq)]
pub struct Selection {
    /// The name of the field, where the selection is a field.
    pub field_name: Option<String>,
    /// The selection as it is written, with all that it holds.
    pub text: String,
    /// A number that stands for the selection when selections are put in
    /// order.
    pub hash: u64,
    /// The selections of the field.
    pub selection_set: Vec<Selection>,
}

/// The declaration of a variable. Two declarations are the same where their
/// texts are.
#[derive(Debug, PartialEq, Eq)]
pub struct VariableDefinition {
    /// The name of the variable.
    pub name: String,
    /// The declaration as it is written: name, type, default and directives.
    pub text: String,
}

/// An operation of a document.
#[derive(Debug, PartialEq, Eq)]
pub struct OperationDefinition {
    pub operation_type: OperationKind,
    /// The name of the operation. It plays no part in the comparison.
    pub name: Option<String>,
    pub variables: Vec<VariableDefinition>,
    /// The directives of the operation, each as it is written.
    pub directives: Vec<String>,
    pub selection_set: Vec<Selection>,
}

/// A definition of a document.
#[derive(Debug, PartialEq, Eq)]
pub enum Definition {
    Operation(OperationDefinition),
    /// A fragment, as it is written.
    Fragment(String),
    /// Any other definition, as it is written.
    Other(String),
}

/// A parsed document.
#[derive(Debug, PartialEq, Eq)]
pub struct Document {
    pub definitions: Vec<Definition>,
}

/// The texts of the selections of a list.
pub open spec fn selection_texts(s: Seq<Selection>) -> Seq<Seq<char>> {
    Seq::new(s.len(), |i: int| s[i].text@)
}

/// The order of the selections of a list by their numbers.
pub open spec fn order_by_hash(s: Seq<Selection>) -> Seq<int> {
    order_of(s.len(), |i: int, j: int| s[i].hash <= s[j].hash)
}

/// The two lists hold the same selections when each list is read in the
/// order of the numbers of its selections.
pub open spec fn match_by_hash(x: Seq<Selection>, y: Seq<Selection>) -> bool {
    &&& x.len() == y.len()
    &&& forall|k: int|
        0 <= k < x.len() ==> x[#[trigger] order_by_hash(x)[k]].text@ == y[order_by_hash(y)[k]].text@
}

/// The order of the declarations of a list by the names of their variables.
pub open spec fn order_by_name(v: Seq<VariableDefinition>) -> Seq<int> {
    order_of(v.len(), |i: int, j: int| !text_less(v[j].name@, v[i].name@))
}

/// The two lists hold the same declarations when each list is read in the
/// order of the names of its variables.
pub open spec fn match_by_name(x: Seq<VariableDefinition>, y: Seq<VariableDefinition>) -> bool {
    &&& x.len() == y.len()
    &&& forall|k: int|
        0 <= k < x.len() ==> x[#[trigger] order_by_name(x)[k]].text@ == y[order_by_name(y)[k]].text@
}

/// The selection set is one field, and the field resolves entities.
pub open spec fn selects_entities(s: Seq<Selection>) -> bool {
    s.len() == 1 && text_of(s[0].field_name) == Some(ENTITIES_QUERY@)
}

/// The selection sets of two operations are the same: as they stand, or,
/// where both select entities only, but for the order of what is selected on
/// the entities.
pub open spec fn same_top_level(x: Seq<Selection>, y: Seq<Selection>) -> bool {
    if selects_entities(x) && selects_entities(y) {
        match_by_hash(x[0].selection_set@, y[0].selection_set@)
    } else {
        selection_texts(x) == selection_texts(y)
    }
}

/// Two operations are the same but for their names, the order of their
/// variables and the order of what they select on entities.
pub open spec fn same_operation(x: OperationDefinition, y: OperationDefinition) -> bool {
    &&& x.operation_type == y.operation_type
    &&& match_by_name(x.variables@, y.variables@)
    &&& texts(x.directives@) == texts(y.directives@)
    &&& same_top_level(x.selection_set@, y.selection_set@)
}

/// Two definitions are the same: operations as `same_operation` says,
/// fragments where their texts are the same, and nothing else.
pub open spec fn same_definition(x: Definition, y: Definition) -> bool {
    match (x, y) {
        (Definition::Operation(a), Definition::Operation(b)) => same_operation(a, b),
        (Definition::Fragment(a), Definition::Fragment(b)) => a@ == b@,
        _ => false,
    }
}

/// Two documents are the same as far as both go: each definition of the one
/// is the same as the definition at its place in the other.
pub open spec fn same_document(x: Document, y: Document) -> bool {
    forall|i: int|
        0 <= i < x.definitions@.len() && i < y.definitions@.len() ==> same_definition(
            #[trigger] x.definitions@[i],
            y.definitions@[i],
        )
}

/// The number that stands for a selection when selections are put in order.
pub fn hash_value(x: &Selection) -> (hash: u64)
    ensures
        hash == x.hash,
{
    x.hash
}

/// Whether two lists of texts are the same.
pub fn same_texts(this: &[String], other: &[String]) -> (same: bool)
    ensures
        same == (texts(this@) == texts(other@)),
{
    if this.len() != other.len() {
        assert(texts(this@).len() != texts(other@).len());
        return false;
    }
    let mut i: usize = 0;
    while i < this.len()
        invariant
            i <= this@.len(),
            this@.len() == other@.len(),
            forall|k: int| 0 <= k < i ==> (#[trigger] this@[k])@ == other@[k]@,
        decreases this@.len() - i,
    {
        if !same_text(this[i].as_str(), other[i].as_str()) {
            assert(texts(this@)[i as int] != texts(other@)[i as int]);
            return false;
        }
        i += 1;
    }
    assert(texts(this@) =~= texts(other@));
    true
}

/// Whether two lists hold the same selections when each is put in the order
/// of the numbers of its selections.
pub fn vec_matches_sorted_by_key(this: &[Selection], other: &[Selection]) -> (matches: bool)
    ensures
        matches == match_by_hash(this@, other@),
{
    if this.len() != other.len() {
        return false;
    }
    let n = this.len();
    let ghost rel_this = |i: int, j: int| this@[i].hash <= this@[j].hash;
    let ghost rel_other = |i: int, j: int| other@[i].hash <= other@[j].hash;
    let le_this = |i: usize, j: usize| -> (r: bool)
        requires
            i < this@.len(),
            j < this@.len(),
        ensures
            r == (this@[i as int].hash <= this@[j as int].hash),
        { hash_value(&this[i]) <= hash_value(&this[j]) };
    let le_other = |i: usize, j: usize| -> (r: bool)
        requires
            i < other@.len(),
            j < other@.len(),
        ensures
            r == (other@[i as int].hash <= other@[j as int].hash),
        { hash_value(&other[i]) <= hash_value(&other[j]) };
    let order_this = stable_order(n, le_this, Ghost(rel_this));
    let order_other = stable_order(n, le_other, Ghost(rel_other));
    let mut k: usize = 0;
    while k < n
        invariant
            k <= n,
            n == this@.len(),
            n == other@.len(),
            order_this@.len() == n,
            order_other@.len() == n,
            forall|m: int| 0 <= m < n ==> #[trigger] order_this@[m] < n,
            forall|m: int| 0 <= m < n ==> #[trigger] order_other@[m] < n,
            positions(order_this@) == order_by_hash(this@),
            positions(order_other@) == order_by_hash(other@),
            forall|m: int|
                0 <= m < k ==> this@[#[trigger] order_by_hash(this@)[m]].text@
                    == other@[order_by_hash(other@)[m]].text@,
        decreases n - k,
    {
        assert(positions(order_this@)[k as int] == order_this@[k as int]);
        assert(positions(order_other@)[k as int] == order_other@[k as int]);
        if !same_text(this[order_this[k]].text.as_str(), other[order_other[k]].text.as_str()) {
            return false;
        }
        k += 1;
    }
    true
}

/// Whether two lists hold the same declarations when each is put in the
/// order of the names of its variables.
pub fn vec_matches_sorted_by(this: &[VariableDefinition], other: &[VariableDefinition]) -> (matches:
    bool)
    ensures
        matches == match_by_name(this@, other@),
{
    if this.len() != other.len() {
        return false;
    }
    let n = this.len();
    let ghost rel_this = |i: int, j: int| !text_less(this@[j].name@, this@[i].name@);
    let ghost rel_other = |i: int, j: int| !text_less(other@[j].name@, other@[i].name@);
    let le_this = |i: usize, j: usize| -> (r: bool)
        requires
            i < this@.len(),
            j < this@.len(),
        ensures
            r == !text_less(this@[j as int].name@, this@[i as int].name@),
        { !text_before(this[j].name.as_str(), this[i].name.as_str()) };
    let le_other = |i: usize, j: usize| -> (r: bool)
        requires
            i < other@.len(),
            j < other@.len(),
        ensures
            r == !text_less(other@[j as int].name@, other@[i as int].name@),
        { !text_before(other[j].name.as_str(), other[i].name.as_str()) };
    let order_this = stable_order(n, le_this, Ghost(rel_this));
    let order_other = stable_order(n, le_other, Ghost(rel_other));
    let mut k: usize = 0;
    while k < n
        invariant
            k <= n,
            n == this@.len(),
            n == other@.len(),
            order_this@.len() == n,
            order_other@.len() == n,
            forall|m: int| 0 <= m < n ==> #[trigger] order_this@[m] < n,
            forall|m: int| 0 <= m < n ==> #[trigger] order_other@[m] < n,
            positions(order_this@) == order_by_name(this@),
            positions(order_other@) == order_by_name(other@),
            forall|m: int|
                0 <= m < k ==> this@[#[trigger] order_by_name(this@)[m]].text@
                    == other@[order_by_name(other@)[m]].text@,
        decreases n - k,
    {
        assert(positions(order_this@)[k as int] == order_this@[k as int]);
        assert(positions(order_other@)[k as int] == order_other@[k as int]);
        if !same_text(this[order_this[k]].text.as_str(), other[order_other[k]].text.as_str()) {
            return false;
        }
        k += 1;
    }
    true
}

/// Whether two selection sets hold the same selections, in whatever order.
pub fn same_ast_selection_set_sorted(x: &[Selection], y: &[Selection]) -> (same: bool)
    ensures
        same == match_by_hash(x@, y@),
{
    vec_matches_sorted_by_key(x, y)
}

fn is_entities_query(s: &[Selection]) -> (yes: bool)
    ensures
        yes == selects_entities(s@),
{
    if s.len() != 1 {
        return false;
    }
    match &s[0].field_name {
        Some(name) => same_text(name.as_str(), ENTITIES_QUERY),
        None => false,
    }
}

fn same_selections(x: &[Selection], y: &[Selection]) -> (same: bool)
    ensures
        same == (selection_texts(x@) == selection_texts(y@)),
{
    if x.len() != y.len() {
        assert(selection_texts(x@).len() != selection_texts(y@).len());
        return false;
    }
    let mut i: usize = 0;
    while i < x.len()
        invariant
            i <= x@.len(),
            x@.len() == y@.len(),
            forall|k: int| 0 <= k < i ==> (#[trigger] x@[k]).text@ == y@[k].text@,
        decreases x@.len() - i,
    {
        if !same_text(x[i].text.as_str(), y[i].text.as_str()) {
            assert(selection_texts(x@)[i as int] != selection_texts(y@)[i as int]);
            return false;
        }
        i += 1;
    }
    assert(selection_texts(x@) =~= selection_texts(y@));
    true
}

/// Whether the selection sets of two operations are the same. Where both
/// select entities only, the order of what is selected on the entities does
/// not count.
pub fn same_ast_top_level_selection_set(x: &[Selection], y: &[Selection]) -> (same: bool)
    ensures
        same == same_top_level(x@, y@),
{
    if is_entities_query(x) && is_entities_query(y) {
        same_ast_selection_set_sorted(x[0].selection_set.as_slice(), y[0].selection_set.as_slice())
    } else {
        same_selections(x, y)
    }
}

pub(crate) fn same_kind(x: OperationKind, y: OperationKind) -> (same: bool)
    ensures
        same == (x == y),
{
    match (x, y) {
        (OperationKind::Query, OperationKind::Query) => true,
        (OperationKind::Mutation, OperationKind::Mutation) => true,
        (OperationKind::Subscription, OperationKind::Subscription) => true,
        _ => false,
    }
}

/// Whether two operations are the same. Their names do not count.
pub fn same_ast_operation_definition(x: &OperationDefinition, y: &OperationDefinition) -> (same:
    bool)
    ensures
        same == same_operation(*x, *y),
{
    same_kind(x.operation_type, y.operation_type) && vec_matches_sorted_by(
        x.variables.as_slice(),
        y.variables.as_slice(),
    ) && same_texts(x.directives.as_slice(), y.directives.as_slice())
        && same_ast_top_level_selection_set(x.selection_set.as_slice(), y.selection_set.as_slice())
}

/// Whether two definitions are the same.
pub fn same_ast_definition(x: &Definition, y: &Definition) -> (same: bool)
    ensures
        same == same_definition(*x, *y),
{
    match (x, y) {
        (Definition::Operation(a), Definition::Operation(b)) => same_ast_operation_definition(a, b),
        (Definition::Fragment(a), Definition::Fragment(b)) => same_text(a.as_str(), b.as_str()),
        _ => false,
    }
}

/// Whether two documents are the same, as far as both go.
pub fn same_ast_document(x: &Document, y: &Document) -> (same: bool)
    ensures
        same == same_document(*x, *y),
{
    let mut i: usize = 0;
    while i < x.definitions.len() && i < y.definitions.len()
        invariant
            i <= x.definitions@.len(),
            i <= y.definitions@.len(),
            forall|k: int|
                0 <= k < i ==> same_definition(#[trigger] x.definitions@[k], y.definitions@[k]),
        decreases x.definitions@.len() - i,
    {
        if !same_ast_definition(&x.definitions[i], &y.definitions[i]) {
            return false;
        }
        i += 1;
    }
    true
}

} // verus!
