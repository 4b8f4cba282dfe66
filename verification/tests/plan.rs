use std::hash::DefaultHasher;
use std::hash::Hash;
use std::hash::Hasher;

use apollo_compiler::ast;
use entity_cache::middleware::OperationKind;
use entity_cache::operation::hash_value;
use entity_cache::operation::same_ast_definition;
use entity_cache::operation::same_ast_document;
use entity_cache::operation::same_ast_selection_set_sorted;
use entity_cache::operation::same_ast_top_level_selection_set;
use entity_cache::operation::same_texts;
use entity_cache::operation::vec_matches_sorted_by;
use entity_cache::operation::vec_matches_sorted_by_key;
use entity_cache::operation::Definition;
use entity_cache::operation::Document;
use entity_cache::operation::OperationDefinition;
use entity_cache::operation::Selection;
use entity_cache::operation::VariableDefinition;
use entity_cache::plan::deferred_node_matches;
use entity_cache::plan::fetch_node_matches;
use entity_cache::plan::operation_matches;
use entity_cache::plan::opt_plan_node_matches;
use entity_cache::plan::plan_matches;
use entity_cache::plan::plan_node_matches;
use entity_cache::plan::subscription_primary_matches;
use entity_cache::plan::vec_matches;
use entity_cache::plan::vec_matches_as_set;
use entity_cache::plan::vec_matches_sorted;
use entity_cache::plan::DeferredNode;
use entity_cache::plan::Depends;
use entity_cache::plan::FetchNode;
use entity_cache::plan::FlattenNode;
use entity_cache::plan::PlanNode;
use entity_cache::plan::Primary;
use entity_cache::plan::QueryPlan;
use entity_cache::plan::QueryPlanResult;
use entity_cache::plan::SubgraphOperation;
use entity_cache::plan::SubscriptionNode;

fn hash_of<T: Hash>(x: &T) -> u64 {
    let mut hasher = DefaultHasher::new();
    x.hash(&mut hasher);
    hasher.finish()
}

fn read_selection(selection: &ast::Selection) -> Selection {
    let (field_name, selection_set) = match selection {
        ast::Selection::Field(field) => (
            Some(field.name.to_string()),
            field.selection_set.iter().map(read_selection).collect(),
        ),
        _ => (None, Vec::new()),
    };
    Selection { field_name, text: selection.to_string(), hash: hash_of(selection), selection_set }
}

fn read_document(document: &ast::Document) -> Document {
    Document {
        definitions: document
            .definitions
            .iter()
            .map(|definition| match definition {
                ast::Definition::OperationDefinition(operation) => {
                    Definition::Operation(OperationDefinition {
                        operation_type: match operation.operation_type {
                            ast::OperationType::Query => OperationKind::Query,
                            ast::OperationType::Mutation => OperationKind::Mutation,
                            ast::OperationType::Subscription => OperationKind::Subscription,
                        },
                        name: operation.name.as_ref().map(|name| name.to_string()),
                        variables: operation
                            .variables
                            .iter()
                            .map(|variable| VariableDefinition {
                                name: variable.name.to_string(),
                                text: variable.to_string(),
                            })
                            .collect(),
                        directives: operation.directives.iter().map(|d| d.to_string()).collect(),
                        selection_set: operation.selection_set.iter().map(read_selection).collect(),
                    })
                }
                ast::Definition::FragmentDefinition(fragment) => {
                    Definition::Fragment(fragment.to_string())
                }
                other => Definition::Other(format!("{other:?}")),
            })
            .collect(),
    }
}

fn parsed(text: &str, path: &str) -> Document {
    read_document(&ast::Document::parse(text, path).unwrap())
}

#[test]
fn test_query_variable_decl_order() {
    let op_x = r#"query($qv2: String!, $qv1: Int!) { x(arg1: $qv1, arg2: $qv2) }"#;
    let op_y = r#"query($qv1: Int!, $qv2: String!) { x(arg1: $qv1, arg2: $qv2) }"#;
    let ast_x = parsed(op_x, "op_x");
    let ast_y = parsed(op_y, "op_y");
    assert!(same_ast_document(&ast_x, &ast_y));
}

#[test]
fn test_entities_selection_order() {
    let op_x = r#"
            query subgraph1__1($representations: [_Any!]!) {
                _entities(representations: $representations) { x { w } y }
            }
            "#;
    let op_y = r#"
            query subgraph1__1($representations: [_Any!]!) {
                _entities(representations: $representations) { y x { w } }
            }
            "#;
    let ast_x = parsed(op_x, "op_x");
    let ast_y = parsed(op_y, "op_y");
    assert!(same_ast_document(&ast_x, &ast_y));
}

#[test]
#[should_panic(expected = "assertion failed")]
fn test_top_level_selection_order() {
    let op_x = r#"{ x { w } y }"#;
    let op_y = r#"{ y x { w } }"#;
    let ast_x = parsed(op_x, "op_x");
    let ast_y = parsed(op_y, "op_y");
    assert!(same_ast_document(&ast_x, &ast_y));
}

fn leaf(text: &str, hash: u64) -> Selection {
    Selection { field_name: Some(text.to_string()), text: text.to_string(), hash, selection_set: Vec::new() }
}

fn entities(children: Vec<Selection>) -> Selection {
    Selection {
        field_name: Some("_entities".to_string()),
        text: "_entities(representations: $representations)".to_string(),
        hash: 0,
        selection_set: children,
    }
}

fn variable(name: &str, text: &str) -> VariableDefinition {
    VariableDefinition { name: name.to_string(), text: text.to_string() }
}

fn operation(variables: Vec<VariableDefinition>, selection_set: Vec<Selection>) -> OperationDefinition {
    OperationDefinition {
        operation_type: OperationKind::Query,
        name: None,
        variables,
        directives: Vec::new(),
        selection_set,
    }
}

fn strings(items: &[&str]) -> Vec<String> {
    items.iter().map(|s| s.to_string()).collect()
}

#[test]
fn hash_value_is_the_number_of_the_selection() {
    assert_eq!(hash_value(&leaf("x", 17)), 17);
}

#[test]
fn selections_match_in_the_order_of_their_numbers() {
    let x = vec![leaf("a", 3), leaf("b", 1), leaf("c", 2)];
    let y = vec![leaf("b", 1), leaf("c", 2), leaf("a", 3)];
    assert!(vec_matches_sorted_by_key(&x, &y));
    assert!(same_ast_selection_set_sorted(&x, &y));
    let z = vec![leaf("b", 1), leaf("c", 2), leaf("d", 3)];
    assert!(!vec_matches_sorted_by_key(&x, &z));
    assert!(!vec_matches_sorted_by_key(&x, &y[..2]));
    assert!(vec_matches_sorted_by_key(&[], &[]));
}

#[test]
fn selections_with_equal_numbers_keep_their_order() {
    let x = vec![leaf("a", 1), leaf("b", 1)];
    let y = vec![leaf("b", 1), leaf("a", 1)];
    assert!(!vec_matches_sorted_by_key(&x, &y));
    assert!(vec_matches_sorted_by_key(&x, &x));
    let u = vec![leaf("z", 9), leaf("a", 1), leaf("b", 1)];
    let v = vec![leaf("a", 1), leaf("z", 9), leaf("b", 1)];
    assert!(vec_matches_sorted_by_key(&u, &v));
}

#[test]
fn variables_match_in_the_order_of_their_names() {
    let x = vec![variable("qv2", "$qv2: String!"), variable("qv1", "$qv1: Int!")];
    let y = vec![variable("qv1", "$qv1: Int!"), variable("qv2", "$qv2: String!")];
    assert!(vec_matches_sorted_by(&x, &y));
    let z = vec![variable("qv1", "$qv1: Int"), variable("qv2", "$qv2: String!")];
    assert!(!vec_matches_sorted_by(&x, &z));
    assert!(!vec_matches_sorted_by(&x, &y[..1]));
}

#[test]
fn texts_match_when_sorted() {
    assert!(vec_matches_sorted(&strings(&["b", "a", "c"]), &strings(&["c", "b", "a"])));
    assert!(vec_matches_sorted(&strings(&["a", "a", "b"]), &strings(&["a", "b", "a"])));
    assert!(!vec_matches_sorted(&strings(&["a", "a", "b"]), &strings(&["a", "b", "b"])));
    assert!(!vec_matches_sorted(&strings(&["a"]), &strings(&["a", "a"])));
    assert!(vec_matches_sorted(&strings(&["é", "z", "ab", "a"]), &strings(&["a", "ab", "z", "é"])));
    assert!(same_texts(&strings(&["a", "b"]), &strings(&["a", "b"])));
    assert!(!same_texts(&strings(&["a", "b"]), &strings(&["b", "a"])));
}

#[test]
fn lists_match_place_by_place() {
    let equal = |a: &u32, b: &u32| a == b;
    assert!(vec_matches(&[1, 2, 3], &[1, 2, 3], equal));
    assert!(!vec_matches(&[1, 2, 3], &[1, 3, 2], equal));
    assert!(!vec_matches(&[1, 2], &[1, 2, 3], equal));
    assert!(vec_matches(&[], &[], equal));
    assert!(vec_matches(&[1, 5], &[2, 6], |a: &u32, b: &u32| a < b));
}

#[test]
fn lists_match_as_sets() {
    let equal = |a: &u32, b: &u32| a == b;
    assert!(vec_matches_as_set(&[1, 2, 3], &[3, 1, 2], equal));
    assert!(vec_matches_as_set(&[1, 1, 2], &[1, 2, 2], equal));
    assert!(!vec_matches_as_set(&[1, 2, 3], &[1, 2, 4], equal));
    assert!(!vec_matches_as_set(&[1, 2], &[1, 2, 1], equal));
    assert!(!vec_matches_as_set(&[1, 2, 3], &[1, 2, 2], equal));
    assert!(!vec_matches_as_set(&[1, 2, 2], &[1, 2, 3], equal));
    assert!(vec_matches_as_set(&[], &[], equal));
}

#[test]
fn entities_selections_may_be_reordered_at_the_top_only() {
    let x = vec![entities(vec![leaf("x { w }", 2), leaf("y", 1)])];
    let y = vec![entities(vec![leaf("y", 1), leaf("x { w }", 2)])];
    assert!(same_ast_top_level_selection_set(&x, &y));
    let plain_x = vec![leaf("x { w }", 2), leaf("y", 1)];
    let plain_y = vec![leaf("y", 1), leaf("x { w }", 2)];
    assert!(!same_ast_top_level_selection_set(&plain_x, &plain_y));
    assert!(same_ast_top_level_selection_set(&plain_x, &plain_x));
    let two = vec![entities(vec![leaf("y", 1)]), leaf("z", 5)];
    assert!(same_ast_top_level_selection_set(&two, &two));
    assert!(!same_ast_top_level_selection_set(&x, &two));
}

#[test]
fn definitions_match_by_kind() {
    let a = Definition::Operation(operation(Vec::new(), vec![leaf("x", 1)]));
    let b = Definition::Operation(operation(Vec::new(), vec![leaf("x", 1)]));
    assert!(same_ast_definition(&a, &b));
    let f = Definition::Fragment("fragment F on T { x }".to_string());
    let g = Definition::Fragment("fragment F on T { x }".to_string());
    let h = Definition::Fragment("fragment F on T { y }".to_string());
    assert!(same_ast_definition(&f, &g));
    assert!(!same_ast_definition(&f, &h));
    assert!(!same_ast_definition(&a, &f));
    let other = Definition::Other("scalar S".to_string());
    assert!(!same_ast_definition(&other, &other));
}

#[test]
fn operations_differ_by_type_and_directives() {
    let base = operation(Vec::new(), vec![leaf("x", 1)]);
    let mut mutation = operation(Vec::new(), vec![leaf("x", 1)]);
    mutation.operation_type = OperationKind::Mutation;
    let mut named = operation(Vec::new(), vec![leaf("x", 1)]);
    named.name = Some("Other".to_string());
    let mut directed = operation(Vec::new(), vec![leaf("x", 1)]);
    directed.directives = strings(&["@live"]);
    let document = |op: OperationDefinition| Document { definitions: vec![Definition::Operation(op)] };
    let base = document(base);
    assert!(!same_ast_document(&base, &document(mutation)));
    assert!(same_ast_document(&base, &document(named)));
    assert!(!same_ast_document(&base, &document(directed)));
}

#[test]
fn documents_match_as_far_as_both_go() {
    let one = Document { definitions: vec![Definition::Fragment("a".to_string())] };
    let two = Document {
        definitions: vec![Definition::Fragment("a".to_string()), Definition::Fragment("b".to_string())],
    };
    let none = Document { definitions: Vec::new() };
    assert!(same_ast_document(&one, &two));
    assert!(same_ast_document(&none, &two));
    assert!(same_ast_document(&two, &two));
}

fn readable(text: &str, selection: &str) -> SubgraphOperation {
    SubgraphOperation {
        serialized: text.to_string(),
        document: Some(Document {
            definitions: vec![Definition::Operation(operation(Vec::new(), vec![leaf(selection, 1)]))],
        }),
    }
}

fn fetch(service: &str, usages: &[&str], selection: &str) -> FetchNode {
    FetchNode {
        service_name: service.to_string(),
        requires: Vec::new(),
        variable_usages: strings(usages),
        operation: readable("{ x }", selection),
        operation_name: Some("op".to_string()),
        operation_kind: OperationKind::Query,
        id: None,
        input_rewrites: None,
        output_rewrites: None,
        context_rewrites: None,
        schema_aware_hash: vec![1],
        authorization: "{}".to_string(),
    }
}

fn fetch_plan(service: &str) -> PlanNode {
    PlanNode::Fetch(fetch(service, &[], "x"))
}

#[test]
fn unreadable_operations_never_match() {
    let good = readable("{ x }", "x");
    let bad = SubgraphOperation { serialized: "{ x".to_string(), document: None };
    assert!(operation_matches(&good, &good));
    assert!(!operation_matches(&good, &bad));
    assert!(!operation_matches(&bad, &good));
    assert!(!operation_matches(&bad, &bad));
}

#[test]
fn fetches_match_but_for_names_hashes_and_usage_order() {
    let a = fetch("s", &["b", "a"], "x");
    let mut b = fetch("s", &["a", "b"], "x");
    b.operation_name = Some("other".to_string());
    b.schema_aware_hash = vec![9, 9];
    b.operation.serialized = "{x}".to_string();
    assert!(fetch_node_matches(&a, &b));
    assert!(!fetch_node_matches(&a, &fetch("t", &["a", "b"], "x")));
    assert!(!fetch_node_matches(&a, &fetch("s", &["a"], "x")));
    assert!(!fetch_node_matches(&a, &fetch("s", &["a", "b"], "y")));
    let mut c = fetch("s", &["a", "b"], "x");
    c.id = Some("1".to_string());
    assert!(!fetch_node_matches(&a, &c));
    let mut d = fetch("s", &["a", "b"], "x");
    d.input_rewrites = Some(Vec::new());
    assert!(!fetch_node_matches(&a, &d));
    let mut e = fetch("s", &["a", "b"], "x");
    e.requires = strings(&["{ id }"]);
    assert!(!fetch_node_matches(&a, &e));
    let mut f = fetch("s", &["a", "b"], "x");
    f.authorization = "{\"scopes\":[]}".to_string();
    assert!(!fetch_node_matches(&a, &f));
    let mut g = fetch("s", &["a", "b"], "x");
    g.operation_kind = OperationKind::Mutation;
    assert!(!fetch_node_matches(&a, &g));
}

fn subscription(usages: &[&str], name: Option<&str>) -> SubscriptionNode {
    SubscriptionNode {
        service_name: "s".to_string(),
        variable_usages: strings(usages),
        operation: readable("subscription { x }", "x"),
        operation_name: name.map(|s| s.to_string()),
        operation_kind: OperationKind::Subscription,
        input_rewrites: None,
        output_rewrites: None,
    }
}

#[test]
fn subscription_fetches_match_with_names_and_usage_order() {
    assert!(subscription_primary_matches(&subscription(&["a", "b"], Some("n")), &subscription(&["a", "b"], Some("n"))));
    assert!(!subscription_primary_matches(&subscription(&["a", "b"], Some("n")), &subscription(&["b", "a"], Some("n"))));
    assert!(!subscription_primary_matches(&subscription(&["a"], Some("n")), &subscription(&["a"], None)));
}

#[test]
fn sequences_match_in_order_and_parallels_in_any_order() {
    let sequence = |names: &[&str]| PlanNode::Sequence { nodes: names.iter().map(|n| fetch_plan(n)).collect() };
    let parallel = |names: &[&str]| PlanNode::Parallel { nodes: names.iter().map(|n| fetch_plan(n)).collect() };
    assert!(plan_node_matches(&sequence(&["a", "b"]), &sequence(&["a", "b"])));
    assert!(!plan_node_matches(&sequence(&["a", "b"]), &sequence(&["b", "a"])));
    assert!(plan_node_matches(&parallel(&["a", "b", "c"]), &parallel(&["c", "a", "b"])));
    assert!(!plan_node_matches(&parallel(&["a", "b"]), &parallel(&["a", "c"])));
    assert!(!plan_node_matches(&parallel(&["a", "b"]), &parallel(&["a", "b", "a"])));
    assert!(!plan_node_matches(&sequence(&["a", "b"]), &parallel(&["a", "b"])));
    assert!(plan_node_matches(&sequence(&[]), &sequence(&[])));
}

#[test]
fn nested_plans_match_recursively() {
    let nested = |inner: &str, path: &str| PlanNode::Sequence {
        nodes: vec![
            fetch_plan("a"),
            PlanNode::Parallel {
                nodes: vec![
                    PlanNode::Flatten(FlattenNode {
                        path: strings(&[path, "@"]),
                        node: Box::new(fetch_plan(inner)),
                    }),
                    fetch_plan("c"),
                ],
            },
        ],
    };
    assert!(plan_node_matches(&nested("b", "items"), &nested("b", "items")));
    assert!(!plan_node_matches(&nested("b", "items"), &nested("x", "items")));
    assert!(!plan_node_matches(&nested("b", "items"), &nested("b", "other")));
}

#[test]
fn conditions_and_subscriptions_match_with_their_clauses() {
    let condition = |name: &str, yes: Option<&str>, no: Option<&str>| PlanNode::Condition {
        condition: name.to_string(),
        if_clause: yes.map(|n| Box::new(fetch_plan(n))),
        else_clause: no.map(|n| Box::new(fetch_plan(n))),
    };
    assert!(plan_node_matches(&condition("c", Some("a"), None), &condition("c", Some("a"), None)));
    assert!(!plan_node_matches(&condition("c", Some("a"), None), &condition("d", Some("a"), None)));
    assert!(!plan_node_matches(&condition("c", Some("a"), None), &condition("c", None, Some("a"))));
    assert!(!plan_node_matches(&condition("c", Some("a"), Some("b")), &condition("c", Some("a"), Some("c"))));
    let subscribed = |rest: Option<&str>| PlanNode::Subscription {
        primary: subscription(&["a"], None),
        rest: rest.map(|n| Box::new(fetch_plan(n))),
    };
    assert!(plan_node_matches(&subscribed(Some("a")), &subscribed(Some("a"))));
    assert!(!plan_node_matches(&subscribed(Some("a")), &subscribed(None)));
}

fn deferred(label: Option<&str>, id: &str, node: Option<&str>) -> DeferredNode {
    DeferredNode {
        depends: vec![Depends { id: id.to_string(), defer_label: None }],
        label: label.map(|s| s.to_string()),
        query_path: strings(&["me"]),
        subselection: Some("{ name }".to_string()),
        node: node.map(|n| Box::new(fetch_plan(n))),
    }
}

#[test]
fn deferred_plans_match_part_by_part() {
    assert!(deferred_node_matches(&deferred(Some("l"), "1", Some("a")), &deferred(Some("l"), "1", Some("a"))));
    assert!(!deferred_node_matches(&deferred(Some("l"), "1", Some("a")), &deferred(None, "1", Some("a"))));
    assert!(!deferred_node_matches(&deferred(Some("l"), "1", Some("a")), &deferred(Some("l"), "2", Some("a"))));
    assert!(!deferred_node_matches(&deferred(Some("l"), "1", Some("a")), &deferred(Some("l"), "1", None)));
    let defer = |primary: Option<&str>, parts: Vec<DeferredNode>| PlanNode::Defer {
        primary: Primary { subselection: None, node: primary.map(|n| Box::new(fetch_plan(n))) },
        deferred: parts,
    };
    assert!(plan_node_matches(
        &defer(Some("p"), vec![deferred(None, "1", Some("a")), deferred(None, "2", Some("b"))]),
        &defer(Some("p"), vec![deferred(None, "1", Some("a")), deferred(None, "2", Some("b"))]),
    ));
    assert!(!plan_node_matches(
        &defer(Some("p"), vec![deferred(None, "1", Some("a")), deferred(None, "2", Some("b"))]),
        &defer(Some("p"), vec![deferred(None, "2", Some("b")), deferred(None, "1", Some("a"))]),
    ));
    assert!(!plan_node_matches(&defer(Some("p"), Vec::new()), &defer(Some("q"), Vec::new())));
}

#[test]
fn plans_match_from_the_root() {
    let plan = |node: Option<&str>| QueryPlan { node: node.map(|n| Box::new(fetch_plan(n))) };
    let result = |node: Option<&str>| QueryPlanResult {
        formatted_query_plan: Some("QueryPlan { ... }".to_string()),
        query_plan: plan(node),
    };
    assert!(plan_matches(&result(Some("a")), &plan(Some("a"))));
    assert!(plan_matches(&result(None), &plan(None)));
    assert!(!plan_matches(&result(Some("a")), &plan(None)));
    assert!(!plan_matches(&result(None), &plan(Some("a"))));
    assert!(!plan_matches(&result(Some("a")), &plan(Some("b"))));
    assert!(opt_plan_node_matches(&None, &None));
}
