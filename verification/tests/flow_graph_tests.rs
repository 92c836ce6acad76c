use core_flow::edge::Edge;
use core_flow::flow_graph::{FlowError, FlowGraph, FlowGraphBuilder};
use core_flow::node::Node;
use core_flow::registry::{ActionRegistry, ConditionRegistry};
use core_flow::samples::{
    create_positive_condition, create_test_action, NegativeCondition, PositiveCondition,
    SampleAction, SampleCondition,
};
use core_flow::value::{FlowValue, NodeContext};

fn node(id: &str, name: &str, description: &str) -> Node<SampleAction> {
    Node::new(
        id.to_string(),
        "message".to_string(),
        name.to_string(),
        description.to_string(),
    )
}

#[test]
fn should_return_none() {
    let mut graph: FlowGraph<SampleAction, SampleCondition> = FlowGraph::new();

    graph
        .add_node(node("node1", "Node 1", "Node 1 description"))
        .unwrap();
    graph
        .add_node(node("node2", "Node 2", "Node 2 description"))
        .unwrap();

    let context = NodeContext::new();
    assert_eq!(graph.find_next_node("node1", &context), None);
}

#[test]
fn should_determine_next_node_with_priority() {
    let mut graph: FlowGraph<SampleAction, SampleCondition> = FlowGraph::new();

    graph
        .add_node(node("node1", "Node 1", "Node 1 description"))
        .unwrap();
    graph
        .add_node(node("node2", "Node 2", "Node 2 description"))
        .unwrap();
    graph
        .add_node(node("node3", "Node 3", "Node 3 description"))
        .unwrap();

    let edge1: Edge<SampleCondition> =
        Edge::new("edge1".to_string(), "node1".to_string(), "node2".to_string());
    let edge2: Edge<SampleCondition> =
        Edge::new("edge3".to_string(), "node1".to_string(), "node3".to_string());

    graph.add_edge(edge1).unwrap();
    graph.add_edge(edge2).unwrap();

    let context = NodeContext::new();
    assert_eq!(
        graph.find_next_node("node1", &context),
        Some("node2".to_string())
    );
}

#[test]
fn should_determine_next_node_with_positive_condition() {
    let mut graph: FlowGraph<SampleAction, SampleCondition> = FlowGraph::new();

    graph
        .add_node(node("node1", "Node 1", "Node 1 description"))
        .unwrap();
    graph
        .add_node(node("node2", "Node 2", "Node 2 description"))
        .unwrap();

    let mut edge1: Edge<SampleCondition> =
        Edge::new("edge1".to_string(), "node1".to_string(), "node2".to_string());
    edge1.add_condition(SampleCondition::Positive(PositiveCondition));
    graph.add_edge(edge1).unwrap();

    let context = NodeContext::new();
    assert_eq!(
        graph.find_next_node("node1", &context),
        Some("node2".to_string())
    );
}

#[test]
fn should_determine_first_valid_node() {
    let mut graph: FlowGraph<SampleAction, SampleCondition> = FlowGraph::new();

    graph
        .add_node(node("node1", "Node 1", "Node 1 description"))
        .unwrap();
    graph
        .add_node(node("node2", "Node 2", "Node 2 description"))
        .unwrap();
    graph
        .add_node(node("node3", "Node 3", "Node 3 description"))
        .unwrap();

    let mut edge1: Edge<SampleCondition> =
        Edge::new("edge1".to_string(), "node1".to_string(), "node2".to_string());
    edge1.add_condition(SampleCondition::Negative(NegativeCondition));

    let mut edge2: Edge<SampleCondition> =
        Edge::new("edge3".to_string(), "node1".to_string(), "node3".to_string());
    edge2.add_condition(SampleCondition::Positive(PositiveCondition));

    graph.add_edge(edge1).unwrap();
    graph.add_edge(edge2).unwrap();

    let context = NodeContext::new();
    assert_eq!(
        graph.find_next_node("node1", &context),
        Some("node3".to_string())
    );
}

#[test]
fn test_find_next_node_is_deterministic() {
    let mut graph: FlowGraph<SampleAction, SampleCondition> = FlowGraph::new();
    graph.add_node(node("a", "A", "start")).unwrap();
    graph.add_node(node("b", "B", "target")).unwrap();
    let mut edge: Edge<SampleCondition> =
        Edge::new("ab".to_string(), "a".to_string(), "b".to_string());
    edge.add_condition(SampleCondition::Positive(PositiveCondition));
    graph.add_edge(edge).unwrap();

    let context = NodeContext::new();
    let first = graph.find_next_node("a", &context);
    let second = graph.find_next_node("a", &context);
    assert_eq!(first, second);
    assert_eq!(first, Some("b".to_string()));
}

#[test]
fn test_add_node_rejects_duplicate_id() {
    let mut graph: FlowGraph<SampleAction, SampleCondition> = FlowGraph::new();
    graph.add_node(node("dup", "First", "first")).unwrap();
    let result = graph.add_node(node("dup", "Second", "second"));
    assert!(matches!(result, Err(FlowError::DuplicateNode(id)) if id == "dup"));
}

#[test]
fn test_add_edge_rejects_missing_endpoints_and_duplicates() {
    let mut graph: FlowGraph<SampleAction, SampleCondition> = FlowGraph::new();
    graph.add_node(node("a", "A", "start")).unwrap();
    graph.add_node(node("b", "B", "target")).unwrap();

    let missing_source: Edge<SampleCondition> =
        Edge::new("e1".to_string(), "ghost".to_string(), "b".to_string());
    assert!(matches!(
        graph.add_edge(missing_source),
        Err(FlowError::NodeNotFound(id)) if id == "ghost"
    ));

    let missing_target: Edge<SampleCondition> =
        Edge::new("e1".to_string(), "a".to_string(), "ghost".to_string());
    assert!(matches!(
        graph.add_edge(missing_target),
        Err(FlowError::NodeNotFound(id)) if id == "ghost"
    ));

    let good: Edge<SampleCondition> =
        Edge::new("e1".to_string(), "a".to_string(), "b".to_string());
    graph.add_edge(good).unwrap();

    let duplicate: Edge<SampleCondition> =
        Edge::new("e1".to_string(), "a".to_string(), "b".to_string());
    assert!(matches!(
        graph.add_edge(duplicate),
        Err(FlowError::DuplicateEdge(id)) if id == "e1"
    ));
}

#[test]
fn flow_graph_test_from_json() {
    let json = r#"{
        "nodes": [
            {
                "id": "node1",
                "node_type": "conversational",
                "name": "Node 1",
                "description": "Node 1 description",
                "node_context": {
                    "variables": {}
                },
                "actions": [
                    {
                        "config": {
                            "name": "test_action",
                            "id": "test_action"
                        },
                        "input_vars": {},
                        "output_vars": [],
                        "action_type": "test_action"
                    }
                ]
            },
            {
                "id": "node2",
                "node_type": "conversational",
                "name": "Node 2",
                "description": "Node 2 description",
                "node_context": {
                    "variables": {}
                },
                "actions": [
                    {
                        "config": {
                            "name": "test_action",
                            "id": "test_action"
                        },
                        "input_vars": {},
                        "output_vars": [],
                        "action_type": "test_action"
                    }
                ]
            }
        ],
        "edges": [
            {
                "id": "edge1",
                "source_node_id": "node1",
                "target_node_id": "node2",
                "conditions": [
                    {
                        "condition_type": "positive_condition",
                        "input_vars": {}
                    }
                ]
            }
        ]
    }"#;

    let mut action_registry: ActionRegistry<
        fn(&FlowValue, &FlowValue, &FlowValue) -> SampleAction,
    > = ActionRegistry::new();
    action_registry.register_action("test_action", create_test_action);

    let mut condition_registry: ConditionRegistry<
        fn(&FlowValue, &FlowValue) -> SampleCondition,
    > = ConditionRegistry::new();
    condition_registry.register_condition("positive_condition", create_positive_condition);

    let graph = FlowGraph::from_json(json, &action_registry, &condition_registry).unwrap();

    assert_eq!(graph.node_count(), 2);
    assert_eq!(graph.edge_count(), 1);
}

#[test]
fn test_description_round_trip_keeps_ids() {
    let json = r#"{
        "nodes": [
            {"id": "alpha", "node_type": "conversational", "name": "Alpha",
             "description": "first", "node_context": {"variables": {}}, "actions": []},
            {"id": "beta", "node_type": "conversational", "name": "Beta",
             "description": "second", "node_context": {"variables": {}}, "actions": []}
        ],
        "edges": [
            {"id": "alpha_to_beta", "source_node_id": "alpha", "target_node_id": "beta",
             "conditions": []}
        ]
    }"#;

    let mut action_registry: ActionRegistry<
        fn(&FlowValue, &FlowValue, &FlowValue) -> SampleAction,
    > = ActionRegistry::new();
    action_registry.register_action("test_action", create_test_action);
    let mut condition_registry: ConditionRegistry<
        fn(&FlowValue, &FlowValue) -> SampleCondition,
    > = ConditionRegistry::new();
    condition_registry.register_condition("positive_condition", create_positive_condition);

    let graph = FlowGraph::from_json(json, &action_registry, &condition_registry).unwrap();

    assert_eq!(graph.node_count(), 2);
    assert!(graph.has_node("alpha"));
    assert!(graph.has_node("beta"));
    assert!(!graph.has_node("gamma"));
    assert_eq!(graph.edge_count(), 1);

    let alpha = graph.get_node("alpha").unwrap();
    assert_eq!(alpha.name, "Alpha");
    assert_eq!(alpha.description, "first");
}

#[test]
fn test_from_json_rejects_duplicate_node_ids() {
    let json = r#"{
        "nodes": [
            {"id": "twin", "node_type": "t", "name": "One",
             "description": "d", "node_context": {"variables": {}}, "actions": []},
            {"id": "twin", "node_type": "t", "name": "Two",
             "description": "d", "node_context": {"variables": {}}, "actions": []}
        ],
        "edges": []
    }"#;

    let action_registry: ActionRegistry<
        fn(&FlowValue, &FlowValue, &FlowValue) -> SampleAction,
    > = ActionRegistry::new();
    let condition_registry: ConditionRegistry<
        fn(&FlowValue, &FlowValue) -> SampleCondition,
    > = ConditionRegistry::new();

    let result = FlowGraph::from_json(json, &action_registry, &condition_registry);
    assert!(result.is_err());
}

#[test]
fn test_build_empty_graph() {
    let graph: FlowGraph<SampleAction, SampleCondition> =
        FlowGraphBuilder::new().build().unwrap();
    assert!(graph.find_next_node("non_existent", &NodeContext::new()).is_none());
}

#[test]
fn test_build_graph_with_nodes() {
    let graph: FlowGraph<SampleAction, SampleCondition> = FlowGraphBuilder::new()
        .with_node(node("node1", "Node 1", "Node 1 description"))
        .with_node(node("node2", "Node 2", "Node 2 description"))
        .build()
        .unwrap();

    assert!(graph.find_next_node("node1", &NodeContext::new()).is_none());
}

#[test]
fn test_build_graph_with_nodes_and_edges() {
    let mut edge: Edge<SampleCondition> =
        Edge::new("edge1".to_string(), "node1".to_string(), "node2".to_string());
    edge.add_condition(SampleCondition::Positive(PositiveCondition));

    let graph: FlowGraph<SampleAction, SampleCondition> = FlowGraphBuilder::new()
        .with_node(node("node1", "Node 1", "Node 1 description"))
        .with_node(node("node2", "Node 2", "Node 2 description"))
        .with_edge(edge)
        .build()
        .unwrap();

    assert_eq!(
        graph.find_next_node("node1", &NodeContext::new()),
        Some("node2".to_string())
    );
}

#[test]
fn test_build_fails_with_missing_node_for_edge() {
    let edge: Edge<SampleCondition> =
        Edge::new("edge1".to_string(), "node1".to_string(), "non_existent".to_string());

    let result: Result<FlowGraph<SampleAction, SampleCondition>, FlowError> =
        FlowGraphBuilder::new()
            .with_node(node("node1", "Node 1", "Node 1 description"))
            .with_edge(edge)
            .build();

    assert!(matches!(result, Err(FlowError::NodeNotFound(_))));
}

#[test]
fn test_build_fails_with_duplicate_nodes() {
    let result: Result<FlowGraph<SampleAction, SampleCondition>, FlowError> =
        FlowGraphBuilder::new()
            .with_node(node("node1", "Node 1", "Node 1 description"))
            .with_node(node("node1", "Node 1 Duplicate", "Node 1 duplicate description"))
            .build();

    assert!(matches!(result, Err(FlowError::DuplicateNode(_))));
}

#[test]
fn test_build_fails_with_duplicate_edges() {
    let edge1: Edge<SampleCondition> =
        Edge::new("edge1".to_string(), "node1".to_string(), "node2".to_string());
    let edge1_duplicate: Edge<SampleCondition> =
        Edge::new("edge1".to_string(), "node1".to_string(), "node2".to_string());

    let result: Result<FlowGraph<SampleAction, SampleCondition>, FlowError> =
        FlowGraphBuilder::new()
            .with_node(node("node1", "Node 1", "Node 1 description"))
            .with_node(node("node2", "Node 2", "Node 2 description"))
            .with_edge(edge1)
            .with_edge(edge1_duplicate)
            .build();

    assert!(matches!(result, Err(FlowError::DuplicateEdge(_))));
}

#[test]
fn test_validate_accepts_linear_graph() {
    let mut graph: FlowGraph<SampleAction, SampleCondition> = FlowGraph::new();
    graph.add_node(node("a", "A", "start")).unwrap();
    graph.add_node(node("b", "B", "end")).unwrap();
    let edge: Edge<SampleCondition> =
        Edge::new("ab".to_string(), "a".to_string(), "b".to_string());
    graph.add_edge(edge).unwrap();

    assert!(graph.validate().is_ok());
}

#[test]
fn test_validate_reports_cycle() {
    let mut graph: FlowGraph<SampleAction, SampleCondition> = FlowGraph::new();
    graph.add_node(node("a", "A", "first")).unwrap();
    graph.add_node(node("b", "B", "second")).unwrap();
    graph
        .add_edge(Edge::new("ab".to_string(), "a".to_string(), "b".to_string()))
        .unwrap();
    graph
        .add_edge(Edge::new("ba".to_string(), "b".to_string(), "a".to_string()))
        .unwrap();

    match graph.validate() {
        Err(FlowError::CycleDetected(path)) => {
            assert!(path.len() >= 2);
            assert_eq!(path.first(), path.last());
        }
        other => panic!("expected CycleDetected, got {:?}", other),
    }
}

#[test]
fn test_validate_reports_no_start_nodes() {
    let graph: FlowGraph<SampleAction, SampleCondition> = FlowGraph::new();
    assert!(matches!(graph.validate(), Err(FlowError::NoStartNodes)));
}

#[test]
fn test_validate_reports_unreachable_nodes() {
    let mut graph: FlowGraph<SampleAction, SampleCondition> = FlowGraph::new();
    graph.add_node(node("a", "A", "start")).unwrap();
    graph.add_node(node("b", "B", "also a start")).unwrap();

    match graph.validate() {
        Err(FlowError::UnreachableNodes(ids)) => {
            assert_eq!(ids, vec!["b".to_string()]);
        }
        other => panic!("expected UnreachableNodes, got {:?}", other),
    }
}
